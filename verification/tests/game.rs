use ironveil::game::{Game, StepEnd};
use ironveil::map::{DungeonMap, Rect, RoomType, Tile};
use ironveil::monster::{Monster, MonsterType};
use ironveil::player::{Class, Player};

fn open_map(width: usize, height: usize) -> DungeonMap {
    let mut tiles = vec![vec![Tile::Wall; height]; width];
    for x in 1..width - 1 {
        for y in 1..height - 1 {
            tiles[x][y] = Tile::Floor;
        }
    }
    DungeonMap {
        width,
        height,
        tiles,
        rooms: vec![Rect::new(1, 1, width - 2, height - 2)],
        room_types: vec![RoomType::Normal],
        deco_objects: vec![vec![None; height]; width],
        trap_tiles: vec![vec![None; height]; width],
        features: vec![vec![None; height]; width],
        shrine_used: vec![vec![false; height]; width],
        machines: Vec::new(),
        visibility: vec![vec![false; height]; width],
        current_visibility: vec![vec![false; height]; width],
    }
}

fn game_at(x: usize, y: usize, class: Class) -> Game {
    Game {
        player: Player::new(x, y, class),
        map: open_map(12, 8),
        monsters: Vec::new(),
        projectiles: Vec::new(),
        items: Vec::new(),
        webs: Vec::new(),
        web_stuck: 0,
        floor: 1,
        log: Vec::new(),
    }
}

#[test]
fn a_step_moves_the_player_onto_open_floor() {
    let mut g = game_at(3, 3, Class::Warrior);
    assert_eq!(g.step(4, 3, 1), StepEnd::Stayed);
    assert_eq!((g.player.x, g.player.y), (4, 3));
    assert!(g.map.visibility[4][3]);
}

#[test]
fn walls_stop_a_step() {
    let mut g = game_at(1, 1, Class::Warrior);
    let log_len = g.log.len();
    assert_eq!(g.step(0, 1, 1), StepEnd::Stayed);
    assert_eq!((g.player.x, g.player.y), (1, 1));
    assert_eq!(g.log.len(), log_len);
}

#[test]
fn a_web_holds_the_player_in_place() {
    let mut g = game_at(3, 3, Class::Rogue);
    g.web_stuck = 2;
    assert_eq!(g.step(4, 3, 1), StepEnd::Stayed);
    assert_eq!((g.player.x, g.player.y), (3, 3));
    assert_eq!(g.log.last().unwrap(), "You struggle against the web! (2 ticks)");
    assert!(g.monster_tick());
    assert_eq!(g.web_stuck, 1);
    assert!(g.monster_tick());
    assert_eq!(g.web_stuck, 0);
    assert!(g.log.iter().any(|l| l == "You break free from the web!"));
}

#[test]
fn a_living_boss_seals_the_stairs_of_a_step() {
    let mut g = game_at(3, 3, Class::Warrior);
    g.map.tiles[4][3] = Tile::Stairs;
    let mut boss = Monster::new(9, 5, MonsterType::GoblinKing, 5);
    boss.is_boss = true;
    g.monsters.push(boss);
    assert_eq!(g.step(4, 3, 1), StepEnd::Stayed);
    assert_eq!(g.floor, 1);
    assert!(g.log.iter().any(|l| l == "The stairs are sealed by a dark power! Defeat the boss first!"));
    g.monsters[0].hp = 0;
    assert_eq!(g.step(3, 3, 1), StepEnd::Stayed);
    assert_eq!(g.step(4, 3, 1), StepEnd::Descended);
    assert_eq!(g.floor, 2);
}

#[test]
fn a_step_into_a_monster_is_a_blow() {
    let mut g = game_at(3, 3, Class::Warrior);
    g.monsters.push(Monster::new(4, 3, MonsterType::Goblin, 1));
    assert!(g.monster_at(4, 3));
    assert_eq!(g.step(4, 3, 100), StepEnd::Stayed);
    assert_eq!((g.player.x, g.player.y), (3, 3));
    assert_eq!(g.monsters[0].hp, 0);
    assert_eq!(g.player.monsters_slain, 1);
    assert!(!g.monster_at(4, 3));
}

#[test]
fn power_attack_starts_its_buff() {
    let mut g = game_at(3, 3, Class::Warrior);
    assert!(g.use_ability(1));
    let a = g.player.ability_1.as_ref().unwrap();
    assert!(a.is_active);
    assert_eq!(a.cooldown_remaining, a.cooldown_max);
    assert_eq!(g.log.last().unwrap(), "Power Attack ready! Next melee does 2x damage.");
    assert!(g.use_ability(2));
    assert_eq!(g.log.last().unwrap(), "No second ability yet (unlocks at level 5).");
}

#[test]
fn aimed_abilities_wait_for_a_direction() {
    let mut g = game_at(3, 3, Class::Rogue);
    assert!(g.use_ability(1));
    assert_eq!(g.player.pending_ability_direction, Some(1));
    assert!(g.aimed_ability(1, 1, 0));
    assert_eq!((g.player.x, g.player.y), (7, 3));
}

#[test]
fn poison_costs_a_point_each_tick() {
    let mut g = game_at(3, 3, Class::Mage);
    g.player.poison_ticks = 2;
    let hp = g.player.hp;
    assert!(g.monster_tick());
    assert_eq!(g.player.hp, hp - 1);
    assert_eq!(g.player.poison_ticks, 1);
    assert_eq!(g.log.last().unwrap(), "Poison burns in your veins! (-1 HP)");
}

#[test]
fn floors_need_room_for_their_layout() {
    assert!(ironveil::game::new_floor(3, 3, 1).is_none());
    assert!(ironveil::game::new_floor(0, 20, 5).is_none());
    let m = ironveil::game::new_floor(60, 20, 1).unwrap();
    assert_eq!((m.width, m.height), (60, 20));
}

#[test]
fn a_new_run_starts_in_class_gear_at_the_start() {
    let map = open_map(12, 8);
    let g = ironveil::game::new_game(Class::Warrior, map);
    assert_eq!((g.player.x, g.player.y), (1, 1));
    assert_eq!(g.floor, 1);
    assert_eq!(g.player.equipment.weapon.as_ref().unwrap().name, "Iron Shortsword");
    assert!(g.player.equipment.armor.is_some());
    assert_eq!(g.player.hp, g.player.max_hp);
    let (w, a, r) = ironveil::game::starting_gear(Class::Mage);
    assert!(w.is_some() && a.is_none() && r.is_some());
}

#[test]
fn arriving_on_a_boss_floor_announces_the_boss() {
    let mut g = game_at(5, 5, Class::Warrior);
    g.floor = 5;
    g.webs.push((3, 3));
    g.web_stuck = 1;
    assert!(g.enter_floor());
    assert_eq!((g.player.x, g.player.y), (1, 1));
    assert!(g.webs.is_empty() && g.projectiles.is_empty());
    assert_eq!(g.web_stuck, 0);
    let n = g.log.len();
    assert_eq!(g.log[n - 2], "Welcome to floor 5!");
    assert_eq!(g.log[n - 1], "The Goblin King awaits!");
}

#[test]
fn a_room_floor_of_fitting_size_is_always_built_and_furnished() {
    for floor in [1, 2, 10] {
        let m = ironveil::game::new_floor(80, 50, floor).unwrap();
        assert!(!m.rooms.is_empty());
        assert_eq!(m.room_types[0], RoomType::Spawn);
        if m.rooms.len() > 1 {
            assert_eq!(*m.room_types.last().unwrap(), RoomType::Boss);
        }
        for (r, t) in m.rooms.iter().zip(m.room_types.iter()) {
            if matches!(t, RoomType::Treasure | RoomType::Shrine | RoomType::Secret) {
                let (cx, cy) = r.center();
                assert!(m.deco_objects[cx][cy].is_some());
            }
        }
    }
}

#[test]
fn a_floor_whose_rooms_cannot_hold_loot_is_not_entered() {
    let mut g = game_at(3, 3, Class::Rogue);
    g.map.rooms.push(Rect::new(2, 2, 2, 2));
    g.map.room_types.push(RoomType::Normal);
    g.log.push(String::from("before"));
    assert!(!g.enter_floor());
    assert_eq!((g.player.x, g.player.y), (3, 3));
    assert_eq!(g.log, vec![String::from("before")]);
}

#[test]
fn a_step_past_the_floor_limit_is_out_of_range_and_changes_nothing() {
    let mut g = game_at(3, 3, Class::Warrior);
    g.floor = 199_999;
    assert_eq!(g.step(4, 3, 1), StepEnd::OutOfRange);
    assert_eq!((g.player.x, g.player.y), (3, 3));
    assert!(g.log.is_empty());
    g.floor = 199_998;
    assert_eq!(g.step(4, 3, 1), StepEnd::Stayed);
    assert_eq!((g.player.x, g.player.y), (4, 3));
}

#[test]
fn a_blow_without_damage_is_out_of_range() {
    let mut g = game_at(3, 3, Class::Warrior);
    g.monsters.push(Monster::new(4, 3, MonsterType::Goblin, 1));
    let hp = g.monsters[0].hp;
    assert_eq!(g.step(4, 3, 0), StepEnd::OutOfRange);
    assert_eq!(g.monsters[0].hp, hp);
    assert_eq!((g.player.x, g.player.y), (3, 3));
}
