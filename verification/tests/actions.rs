use ironveil::combat::{boss_alive, descend, frost_nova, pick_up, player_attack, war_cry};
use ironveil::items::random_potion;
use ironveil::monster::{Monster, MonsterType};
use ironveil::player::{Ability, AbilityType, Class, Player};

#[test]
fn blow_kills_goblin_and_gives_xp() {
    let mut p = Player::new(1, 1, Class::Warrior);
    let mut g = Monster::new(2, 1, MonsterType::Goblin, 1);
    let msgs = player_attack(&mut p, &mut g, 4);
    assert_eq!(g.hp, 2);
    assert_eq!(p.damage_dealt, 4);
    assert_eq!(msgs[0], ">> You hit the Goblin for 4 damage!");
    let msgs = player_attack(&mut p, &mut g, 4);
    assert_eq!(g.hp, 0);
    assert_eq!(g.death_pos, Some((2, 1)));
    assert_eq!(p.monsters_slain, 1);
    assert_eq!(p.xp, 10);
    assert!(msgs.iter().any(|m| m == "[**] The Goblin dies!"));
    assert!(msgs.iter().any(|m| m == "+10 XP"));
}

#[test]
fn power_attack_doubles_the_blow() {
    let mut p = Player::new(1, 1, Class::Warrior);
    let mut a = Ability::new(AbilityType::PowerAttack);
    a.activate();
    p.ability_1 = Some(a);
    let mut t = Monster::new(2, 1, MonsterType::Troll, 1);
    player_attack(&mut p, &mut t, 3);
    assert_eq!(t.hp, 20 - 6);
    assert!(!p.has_damage_buff());
}

#[test]
fn phasing_wraith_is_not_hit() {
    let mut p = Player::new(1, 1, Class::Rogue);
    let mut w = Monster::new(2, 1, MonsterType::Wraith, 1);
    w.is_phasing = true;
    let before = w.hp;
    let msgs = player_attack(&mut p, &mut w, 5);
    assert_eq!(w.hp, before);
    assert_eq!(msgs, vec!["Your attack passes through the Wraith!".to_string()]);
}

#[test]
fn war_cry_stuns_nearby_only() {
    let mut ms = vec![
        Monster::new(3, 3, MonsterType::Goblin, 1),
        Monster::new(10, 10, MonsterType::Goblin, 1),
    ];
    assert_eq!(war_cry(2, 2, &mut ms), 1);
    assert_eq!(ms[0].stun_ticks, 2);
    assert_eq!(ms[1].stun_ticks, 0);
}

#[test]
fn frost_nova_freezes_and_shatters() {
    let mut p = Player::new(5, 5, Class::Mage);
    let mut ms = vec![
        Monster::new(6, 5, MonsterType::BatSwarm, 1),
        Monster::new(20, 5, MonsterType::Goblin, 1),
    ];
    let msgs = frost_nova(&mut p, &mut ms);
    assert_eq!(ms[0].freeze_ticks, 2);
    assert!(ms[0].hp < 4);
    assert_eq!(ms[1].freeze_ticks, 0);
    assert_eq!(ms[1].hp, 6);
    assert!(msgs.iter().any(|m| m.starts_with("FROST NOVA! 1 monsters frozen")));
}

#[test]
fn stairs_sealed_while_boss_lives() {
    let mut ms = vec![Monster::new(1, 1, MonsterType::Goblin, 1)];
    assert!(!boss_alive(&ms));
    ms.push(Monster::new(2, 2, MonsterType::GoblinKing, 5));
    assert!(boss_alive(&ms));
    ms[1].hp = 0;
    assert!(!boss_alive(&ms));
}

#[test]
fn descending_resets_blessings() {
    let mut p = Player::new(1, 1, Class::Warrior);
    p.bonus_str = 3;
    p.warding_buff = true;
    let (next, msgs) = descend(&mut p, 4);
    assert_eq!(next, 5);
    assert_eq!(p.bonus_str, 0);
    assert!(!p.warding_buff);
    assert_eq!(p.xp, 25);
    assert_eq!(msgs[0], "You descend to the Dungeons... A dark presence lurks below...");
    assert_eq!(msgs[1], "+25 XP");
}

#[test]
fn picking_up_ground_items() {
    let mut p = Player::new(1, 1, Class::Rogue);
    let mut items = vec![(4, 4, random_potion())];
    assert!(pick_up(&mut p, &mut items, 3, 3).is_none());
    let n = p.inventory.len();
    let msg = pick_up(&mut p, &mut items, 4, 4).unwrap();
    assert!(msg.starts_with("You pick up a "));
    assert!(items.is_empty());
    assert_eq!(p.inventory.len(), n + 1);
    while p.inventory.len() < 10 {
        p.add_to_inventory(random_potion());
    }
    items.push((4, 4, random_potion()));
    assert_eq!(pick_up(&mut p, &mut items, 4, 4), Some("Your inventory is full!".to_string()));
    assert_eq!(items.len(), 1);
}

#[test]
fn frost_nova_deals_two_plus_the_int_bonus() {
    let mut p = Player::new(5, 5, Class::Mage);
    let bonus = p.effective_stats().potion_bonus();
    let mut ms = vec![Monster::new(5, 7, MonsterType::Troll, 1)];
    let hp0 = ms[0].hp;
    frost_nova(&mut p, &mut ms);
    assert_eq!(ms[0].hp, (hp0 - (2 + bonus)).max(0));
    assert_eq!(ms[0].freeze_ticks, 2);
}

#[test]
fn war_cry_counts_every_monster_it_stuns() {
    let mut ms = vec![
        Monster::new(3, 3, MonsterType::Goblin, 1),
        Monster::new(4, 4, MonsterType::Goblin, 1),
        Monster::new(2, 6, MonsterType::Goblin, 1),
        Monster::new(9, 2, MonsterType::Goblin, 1),
    ];
    ms[1].hp = 0;
    assert_eq!(war_cry(2, 2, &mut ms), 2);
    assert_eq!(ms[1].stun_ticks, 0);
    assert_eq!(ms[2].stun_ticks, 2);
}

#[test]
fn ragefang_feeds_on_a_kill() {
    let mut p = Player::new(1, 1, Class::Warrior);
    p.equipment.weapon = Some(ironveil::items::artifact_ragefang());
    let mut g = Monster::new(2, 1, MonsterType::Goblin, 1);
    player_attack(&mut p, &mut g, 50);
    assert_eq!(g.hp, 0);
    assert_eq!(p.ragefang_stacks, 1);
    assert_eq!(p.ragefang_ticks, 3);
    assert_eq!(p.monsters_slain, 1);
    assert_eq!(p.damage_dealt, 50);
}
