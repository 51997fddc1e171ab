use ironveil::player::{Player, Class, Ability, AbilityType};
use ironveil::items::{warrior_starting_weapon, random_potion, random_artifact, random_item, rarity_for_roll, Rarity, ItemType};
use ironveil::monster::{Monster, MonsterType, spawn_kind_for_roll};
use ironveil::projectile::Projectile;
use ironveil::text::int_to_string;

#[test]
fn new_player_starts_at_level_one() {
    let p = Player::new(5, 6, Class::Warrior);
    assert_eq!((p.x, p.y), (5, 6));
    assert_eq!(p.level, 1);
    assert_eq!(p.xp, 0);
    assert_eq!(p.xp_to_next_level, 50);
    assert_eq!(p.hp, p.max_hp);
    assert!(p.is_alive());
    assert!(p.ability_1.is_some());
    assert!(p.ability_2.is_none());
}

#[test]
fn first_level_up_message() {
    let mut p = Player::new(1, 1, Class::Warrior);
    let msgs = p.gain_xp(50);
    assert_eq!(p.level, 2);
    assert_eq!(p.xp, 0);
    assert_eq!(p.xp_to_next_level, 110);
    assert_eq!(msgs.len(), 1);
    assert_eq!(msgs[0], "You reach level 2! STR +1, CON +1, Max HP +3");
}

#[test]
fn levels_run_up_to_twenty() {
    for class in [Class::Warrior, Class::Rogue, Class::Mage] {
        let mut p = Player::new(1, 1, class);
        for _ in 0..40 {
            p.gain_xp(900_000);
        }
        assert_eq!(p.level, 20);
        assert!(p.ability_2.is_some());
    }
}

#[test]
fn a_warrior_level_up_adds_three_max_hp_and_heals_three() {
    let mut p = Player::new(1, 1, Class::Warrior);
    let (hp, max) = (p.hp, p.max_hp);
    assert_eq!(hp, max);
    p.gain_xp(50);
    assert_eq!(p.hp, hp + 3);
    assert!(p.max_hp >= max + 3);
}

#[test]
fn a_level_ten_player_still_levels_up() {
    let mut p = Player::new(1, 1, Class::Rogue);
    while p.level < 10 {
        p.gain_xp(p.xp_to_next_level - p.xp);
    }
    p.gain_xp(p.xp_to_next_level - p.xp);
    assert_eq!(p.level, 11);
}

#[test]
fn damage_and_healing_clamp() {
    let mut p = Player::new(1, 1, Class::Mage);
    let max = p.max_hp;
    p.take_damage(max + 50);
    assert_eq!(p.hp, 0);
    assert!(!p.is_alive());
    p.heal(3);
    assert_eq!(p.hp, 3);
    p.heal(10_000);
    assert_eq!(p.hp, max);
}

#[test]
fn inventory_drop_returns_item() {
    let mut p = Player::new(1, 1, Class::Rogue);
    let n = p.inventory.len();
    assert!(p.add_to_inventory(random_potion()));
    assert_eq!(p.inventory.len(), n + 1);
    let dropped = p.drop_from_inventory(n).unwrap();
    assert!(dropped.item_type == ItemType::Potion);
    assert_eq!(p.inventory.len(), n);
    assert!(p.drop_from_inventory(99).is_none());
}

#[test]
fn potion_use_consumes_it() {
    let mut p = Player::new(1, 1, Class::Warrior);
    p.take_damage(10);
    let n = p.inventory.len();
    p.add_to_inventory(random_potion());
    let healed = p.use_potion(n);
    assert!(healed.is_some());
    assert_eq!(p.inventory.len(), n);
    assert!(p.use_potion(99).is_none());
}

#[test]
fn ability_cooldown_cycle() {
    let mut a = Ability::new(AbilityType::PowerAttack);
    assert!(a.is_ready());
    a.activate();
    assert!(!a.is_ready());
    assert_eq!(a.cooldown_remaining, a.cooldown_max);
    for _ in 0..a.cooldown_max {
        a.tick();
    }
    assert!(a.is_ready());
}

#[test]
fn starting_sword() {
    let w = warrior_starting_weapon();
    assert_eq!(w.name, "Iron Shortsword");
    assert_eq!(w.damage_bonus, 2);
    assert!(w.item_type == ItemType::Weapon);
    assert!(w.rarity == Rarity::Uncommon);
}

#[test]
fn rarity_thresholds_on_floor_one() {
    assert!(rarity_for_roll(1, 0) == Rarity::Legendary);
    assert!(rarity_for_roll(1, 29) == Rarity::Legendary);
    assert!(rarity_for_roll(1, 30) == Rarity::Epic);
    assert!(rarity_for_roll(1, 19_999) == Rarity::Common);
}

#[test]
fn random_picks_stay_in_range() {
    for _ in 0..200 {
        let a = random_artifact("Warrior");
        assert!(a.is_artifact);
        let it = random_item(3);
        assert!(matches!(it.item_type, ItemType::Weapon | ItemType::Armor | ItemType::Ring | ItemType::Potion));
        let m = Monster::random_monster(2, 3, 1);
        assert!(m.monster_type == MonsterType::Goblin);
    }
}

#[test]
fn spawn_table_by_roll() {
    assert!(spawn_kind_for_roll(1, 99) == MonsterType::Goblin);
    assert!(spawn_kind_for_roll(2, 59) == MonsterType::Goblin);
    assert!(spawn_kind_for_roll(2, 60) == MonsterType::BatSwarm);
    assert!(spawn_kind_for_roll(3, 90) == MonsterType::Skeleton);
}

#[test]
fn goblin_stats_and_damage() {
    let mut g = Monster::new(4, 5, MonsterType::Goblin, 1);
    assert_eq!((g.x, g.y), (4, 5));
    assert_eq!((g.hp, g.max_hp, g.attack), (6, 6, 2));
    assert_eq!(g.name, "Goblin");
    assert_eq!(g.xp_value(), 10);
    g.take_damage(4);
    assert_eq!(g.hp, 2);
    assert!(g.is_alive());
    g.take_damage(9);
    assert_eq!(g.hp, 0);
    assert!(!g.is_alive());
}

#[test]
fn projectile_symbols() {
    assert_eq!(Projectile::symbol_for_direction(1, 0), '-');
    assert_eq!(Projectile::symbol_for_direction(0, -1), '|');
    assert_eq!(Projectile::symbol_for_direction(1, 1), '\\');
    assert_eq!(Projectile::symbol_for_direction(-1, 1), '/');
    assert_eq!(Projectile::symbol_for_direction(2, 3), '*');
}

#[test]
fn number_text() {
    assert_eq!(int_to_string(-42), "-42");
    assert_eq!(int_to_string(0), "0");
    assert_eq!(int_to_string(1234), "1234");
}

#[test]
fn the_deepest_floors_bring_demons_and_elementals() {
    assert_eq!(spawn_kind_for_roll(12, 40), MonsterType::Imp);
    assert_eq!(spawn_kind_for_roll(12, 45), MonsterType::Demon);
    assert_eq!(spawn_kind_for_roll(15, 76), MonsterType::FireElemental);
    assert_eq!(spawn_kind_for_roll(20, 99), MonsterType::Bomber);
    assert_eq!(spawn_kind_for_roll(11, 99), MonsterType::Specter);
}

#[test]
fn an_ability_stays_unready_for_exactly_its_cooldown() {
    let mut a = Ability::new(AbilityType::PowerAttack);
    a.activate();
    for _ in 1..a.cooldown_max {
        a.tick();
        assert!(!a.is_ready());
    }
    a.tick();
    assert!(a.is_ready());
    a.tick();
    assert!(a.is_ready());
}
