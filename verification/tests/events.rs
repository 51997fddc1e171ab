use ironveil::combat::{chain_lightning, shadow_step};
use ironveil::events::{enter_web, kill_loot, place_item};
use ironveil::items::{random_potion, Rarity};
use ironveil::map::{DecoObject, DungeonMap, Rect, RoomType, Tile, TrapType};
use ironveil::monster::{Monster, MonsterType};
use ironveil::player::{Ability, AbilityType, Class, Player};

fn open_floor(width: usize, height: usize) -> DungeonMap {
    let mut tiles = vec![vec![Tile::Wall; height]; width];
    for x in 1..width - 1 {
        for y in 1..height - 1 {
            tiles[x][y] = Tile::Floor;
        }
    }
    DungeonMap {
        width,
        height,
        tiles,
        rooms: vec![Rect::new(1, 1, width - 2, height - 2)],
        room_types: vec![RoomType::Normal],
        deco_objects: vec![vec![None; height]; width],
        trap_tiles: vec![vec![None; height]; width],
        features: vec![vec![None; height]; width],
        shrine_used: vec![vec![false; height]; width],
        machines: Vec::new(),
        visibility: vec![vec![false; height]; width],
        current_visibility: vec![vec![false; height]; width],
    }
}

#[test]
fn webs_catch_once() {
    let mut webs = vec![(2, 2), (3, 3)];
    assert!(enter_web(&mut webs, 3, 3));
    assert_eq!(webs, vec![(2, 2)]);
    assert!(!enter_web(&mut webs, 3, 3));
}

#[test]
fn spikes_hurt_and_vanish() {
    let mut m = open_floor(8, 8);
    m.trap_tiles[3][3] = Some(TrapType::Spike);
    let mut p = Player::new(3, 3, Class::Warrior);
    let hp = p.hp;
    let mut ms: Vec<Monster> = Vec::new();
    let msgs = m.trigger_trap(&mut p, &mut ms);
    assert_eq!(msgs.len(), 1);
    assert!(m.trap_tiles[3][3].is_none());
    assert!(p.hp < hp && p.hp >= hp - 4);
    assert_eq!(p.damage_taken, (hp - p.hp) as i64);
    assert!(m.trigger_trap(&mut p, &mut ms).is_empty());
}

#[test]
fn alarm_wakes_the_living() {
    let mut m = open_floor(8, 8);
    m.trap_tiles[2][2] = Some(TrapType::Alarm);
    let mut p = Player::new(2, 2, Class::Rogue);
    let mut ms = vec![Monster::new(5, 5, MonsterType::Goblin, 1), Monster::new(6, 6, MonsterType::Goblin, 1)];
    ms[1].hp = 0;
    m.trigger_trap(&mut p, &mut ms);
    assert!(ms[0].can_see_player);
    assert!(!ms[1].can_see_player);
}

#[test]
fn teleport_trap_sends_to_start() {
    let mut m = open_floor(8, 8);
    m.trap_tiles[5][5] = Some(TrapType::Teleport);
    let mut p = Player::new(5, 5, Class::Mage);
    let mut ms: Vec<Monster> = Vec::new();
    m.trigger_trap(&mut p, &mut ms);
    assert_eq!((p.x, p.y), (1, 1));
}

#[test]
fn altar_blesses_once() {
    let mut m = open_floor(8, 8);
    m.deco_objects[4][4] = Some(DecoObject::Altar);
    let mut p = Player::new(4, 4, Class::Warrior);
    let msgs = m.use_shrine(&mut p);
    assert!(msgs.last().unwrap().starts_with("The shrine pulses... "));
    assert!(m.shrine_used[4][4]);
    assert!(m.use_shrine(&mut p).is_empty());
}

#[test]
fn items_replace_on_the_same_cell() {
    let mut items = Vec::new();
    place_item(&mut items, 1, 1, random_potion());
    place_item(&mut items, 2, 1, random_potion());
    place_item(&mut items, 1, 1, random_potion());
    assert_eq!(items.len(), 2);
}

#[test]
fn boss_leaves_two_treasures() {
    let mut items = Vec::new();
    let msgs = kill_loot(&mut items, (5, 5), true, "Goblin King", 5, "Warrior", 20);
    assert!(msgs.iter().any(|m| m == "*** BOSS DEFEATED! ***"));
    assert!(items.iter().any(|(x, y, it)| (*x, *y) == (6, 5) && it.rarity == Rarity::Rare));
    assert!(items.iter().any(|(x, y, it)| (*x, *y) == (7, 5) && it.is_artifact));
    assert!(items.iter().all(|(_, y, _)| *y == 5));
}

#[test]
fn shadow_step_stops_at_walls() {
    let m = open_floor(8, 8);
    let mut p = Player::new(1, 3, Class::Rogue);
    p.ability_1 = Some(Ability::new(AbilityType::ShadowStep));
    let msg = shadow_step(&mut p, &m, &[], 1, 0, 1);
    assert_eq!((p.x, p.y), (5, 3));
    assert_eq!(msg, "Shadow Step!");
    let mut q = Player::new(1, 3, Class::Rogue);
    q.ability_1 = Some(Ability::new(AbilityType::ShadowStep));
    shadow_step(&mut q, &m, &[], -1, 0, 1);
    assert_eq!((q.x, q.y), (1, 3));
    let mut r = Player::new(4, 3, Class::Rogue);
    r.ability_1 = Some(Ability::new(AbilityType::ShadowStep));
    let goblin = Monster::new(6, 4, MonsterType::Goblin, 1);
    shadow_step(&mut r, &m, &[goblin], 1, 0, 1);
    assert_eq!((r.x, r.y), (6, 3));
    assert!(r.has_damage_buff());
}

#[test]
fn lightning_chains_to_neighbours() {
    let m = open_floor(12, 8);
    let mut p = Player::new(1, 3, Class::Mage);
    let mut ms = vec![
        Monster::new(4, 3, MonsterType::Troll, 1),
        Monster::new(5, 5, MonsterType::Troll, 1),
        Monster::new(10, 6, MonsterType::Troll, 1),
    ];
    let msgs = chain_lightning(&mut p, &m, &mut ms, 1, 0);
    assert_eq!(ms[0].hp, 20 - 5);
    assert_eq!(ms[1].hp, 20 - 4);
    assert_eq!(ms[2].hp, 20);
    assert_eq!(msgs[0], "Lightning strikes Troll for 5 damage!");
    let mut none = vec![Monster::new(4, 6, MonsterType::Troll, 1)];
    let msgs = chain_lightning(&mut p, &m, &mut none, 1, 0);
    assert_eq!(msgs.len(), 1);
    assert!(msgs[0].starts_with("Chain Lightning fizzles"));
}

fn arrow(x: usize, y: usize, dx: i32, dy: i32) -> ironveil::projectile::Projectile {
    ironveil::projectile::Projectile {
        x,
        y,
        dx,
        dy,
        damage: 3,
        symbol: '-',
        source_name: "Skeleton".to_string(),
    }
}

#[test]
fn arrows_fly_on_until_they_hit_something() {
    let map = open_floor(12, 8);
    let mut player = Player::new(6, 6, Class::Warrior);
    let goblin = Monster::new(6, 2, MonsterType::Goblin, 1);
    let mut shots = vec![
        arrow(10, 3, 1, 0), // into the east wall: spent
        arrow(2, 3, 1, 0),  // open floor: flies on to (3, 3)
        arrow(5, 2, 1, 0),  // into the goblin: spent
        arrow(6, 5, 0, 1),  // into the player: spent
        arrow(4, 4, 0, -1), // open floor: flies on to (4, 3)
    ];
    let mut log = Vec::new();
    let hp0 = player.hp;
    ironveil::turn::process_projectiles(&mut shots, &[goblin], &mut player, &map, &mut log);
    let left: Vec<(usize, usize)> = shots.iter().map(|p| (p.x, p.y)).collect();
    assert_eq!(left, vec![(3, 3), (4, 3)]);
    assert!(player.hp <= hp0);
    assert!(log.iter().any(|l| l == "The arrow thuds into a wall."));
    assert!(log.iter().any(|l| l == "The arrow hits a creature."));
}

#[test]
fn an_item_takes_the_place_of_the_one_on_its_cell() {
    let mut items = Vec::new();
    place_item(&mut items, 1, 1, random_potion());
    place_item(&mut items, 2, 1, random_potion());
    let mut better = random_potion();
    better.heal_amount = 99;
    place_item(&mut items, 1, 1, better);
    assert_eq!(items.len(), 2);
    assert_eq!((items[0].0, items[0].1, items[0].2.heal_amount), (1, 1, 99));
    assert_eq!((items[1].0, items[1].1), (2, 1));
}
