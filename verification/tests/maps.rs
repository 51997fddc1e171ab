use ironveil::map::{DungeonMap, Machine, MachineType, Rect, RoomType, Tile, TrapType, DecoObject, DungeonFeature};
use ironveil::render::{render_depth, get_wall_visibility, RenderLayer};
use ironveil::vaults::{vault_templates, VaultType};
use ironveil::monster::{Monster, MonsterAction, MonsterType};

/// A map of walls with the given rooms carved as floor.
fn carved(width: usize, height: usize, rooms: Vec<Rect>) -> DungeonMap {
    let mut tiles = vec![vec![Tile::Wall; height]; width];
    for r in &rooms {
        for x in r.x1..r.x2 {
            for y in r.y1..r.y2 {
                tiles[x][y] = Tile::Floor;
            }
        }
    }
    let n = rooms.len();
    DungeonMap {
        width,
        height,
        tiles,
        rooms,
        room_types: vec![RoomType::Normal; n],
        deco_objects: vec![vec![None; height]; width],
        trap_tiles: vec![vec![None; height]; width],
        features: vec![vec![None; height]; width],
        shrine_used: vec![vec![false; height]; width],
        machines: Vec::new(),
        visibility: vec![vec![false; height]; width],
        current_visibility: vec![vec![false; height]; width],
    }
}

fn plain(m: &DungeonMap) -> bool {
    m.tiles.iter().all(|c| c.iter().all(|t| matches!(t, Tile::Wall | Tile::Floor | Tile::Stairs)))
}

#[test]
fn rect_new_center_intersects() {
    let r = Rect::new(2, 3, 4, 6);
    assert_eq!((r.x1, r.y1, r.x2, r.y2), (2, 3, 6, 9));
    assert_eq!(r.center(), (4, 6));
    assert!(r.intersects(&Rect::new(6, 9, 1, 1)));
    assert!(!r.intersects(&Rect::new(7, 0, 2, 2)));
}

#[test]
fn manhattan_distance() {
    assert_eq!(DungeonMap::distance(1, 2, 4, 6), 7);
    assert_eq!(DungeonMap::distance(4, 6, 1, 2), 7);
    assert_eq!(DungeonMap::distance(3, 3, 3, 3), 0);
}

#[test]
fn draw_depth_by_layer() {
    assert_eq!(render_depth(3, 4, RenderLayer::Floor), 7);
    assert_eq!(render_depth(3, 4, RenderLayer::Monster), 37);
    assert_eq!(render_depth(0, 0, RenderLayer::Effect), 50);
    assert!(render_depth(2, 2, RenderLayer::WallTop) > render_depth(2, 2, RenderLayer::WallBase));
}

#[test]
fn wall_faces_show_where_no_wall_stands() {
    let m = carved(6, 6, vec![Rect::new(1, 1, 3, 3)]);
    // (4, 2) is a wall with floor on its left, wall on its right and below.
    assert_eq!(get_wall_visibility(&m, 4, 2), (false, true, false));
    // (0, 0): no left neighbour, wall right and below.
    assert_eq!(get_wall_visibility(&m, 0, 0), (false, true, false));
    // (5, 5): corner, nothing right or below.
    assert_eq!(get_wall_visibility(&m, 5, 5), (true, false, true));
}

#[test]
fn vault_layouts_are_rectangles() {
    let v = vault_templates();
    assert_eq!(v.len(), 6);
    for t in &v {
        assert_eq!(t.min_height, t.pattern.len());
        for row in &t.pattern {
            assert_eq!(row.chars().count(), t.min_width);
        }
    }
    assert!(v[0].vault_type == VaultType::ThroneRoom);
    assert_eq!((v[0].min_width, v[0].min_height), (7, 7));
    assert_eq!((v[1].min_width, v[1].min_height), (5, 5));
}

#[test]
fn new_room_floor_is_well_formed() {
    for floor in [1, 2, 3, 7, 8, 10, 15] {
        let m = DungeonMap::new(80, 40, floor);
        assert_eq!((m.width, m.height), (80, 40));
        assert_eq!(m.tiles.len(), 80);
        assert!(m.tiles.iter().all(|c| c.len() == 40));
        assert!(plain(&m));
        assert_eq!(m.room_types.len(), m.rooms.len());
        assert!(m.room_types.iter().all(|t| *t == RoomType::Normal));
        assert!(m.machines.is_empty());
        for r in &m.rooms {
            assert!(r.x2 <= 80 && r.y2 <= 40);
            for x in r.x1..r.x2 {
                for y in r.y1..r.y2 {
                    assert!(matches!(m.tiles[x][y], Tile::Floor | Tile::Stairs));
                }
            }
        }
        if let Some(last) = m.rooms.last() {
            let (cx, cy) = last.center();
            assert!(m.tiles[cx][cy] == Tile::Stairs);
        }
    }
}

#[test]
fn new_cave_floor_is_well_formed() {
    for floor in [4, 5, 6] {
        let m = DungeonMap::new(60, 30, floor);
        assert!(plain(&m));
        assert!(m.deco_objects.iter().all(|c| c.iter().all(|d| d.is_none())));
        if let Some(last) = m.rooms.last() {
            let (cx, cy) = last.center();
            assert!(m.tiles[cx][cy] == Tile::Stairs);
        }
    }
}

#[test]
fn walkable_tiles() {
    let mut m = carved(5, 5, vec![Rect::new(1, 1, 3, 3)]);
    m.tiles[2][2] = Tile::Stairs;
    m.tiles[3][3] = Tile::Lava;
    assert!(m.is_walkable(1, 1));
    assert!(m.is_walkable(2, 2));
    assert!(!m.is_walkable(3, 3));
    assert!(!m.is_walkable(0, 0));
    assert!(!m.is_walkable(9, 9));
}

#[test]
fn corridor_cells() {
    let m = carved(7, 5, vec![Rect::new(1, 2, 5, 1)]);
    assert!(m.is_corridor(3, 2));
    assert!(!m.is_corridor(0, 2));
    let open = carved(7, 7, vec![Rect::new(1, 1, 5, 5)]);
    assert!(!open.is_corridor(3, 3));
}

#[test]
fn room_type_lookup() {
    let mut m = carved(12, 8, vec![Rect::new(1, 1, 3, 3), Rect::new(6, 1, 3, 3)]);
    m.room_types[1] = RoomType::Shrine;
    assert!(m.get_room_type_at(7, 2) == RoomType::Shrine);
    assert!(m.get_room_type_at(2, 2) == RoomType::Normal);
    assert!(m.get_room_type_at(11, 7) == RoomType::Normal);
}

#[test]
fn starting_position_is_first_floor() {
    let m = carved(8, 8, vec![Rect::new(3, 2, 2, 2)]);
    assert_eq!(m.get_starting_position(), (3, 2));
    let solid = carved(8, 8, vec![]);
    assert_eq!(solid.get_starting_position(), (1, 1));
}

#[test]
fn sight_across_open_floor_and_through_walls() {
    let mut m = carved(10, 5, vec![Rect::new(1, 1, 8, 3)]);
    assert!(m.has_line_of_sight(1, 2, 8, 2));
    m.tiles[4][2] = Tile::Wall;
    assert!(!m.has_line_of_sight(1, 2, 8, 2));
    assert!(m.has_line_of_sight(1, 1, 8, 1));
}

#[test]
fn astar_steps_toward_goal() {
    let m = carved(8, 5, vec![Rect::new(1, 1, 6, 3)]);
    let step = m.astar_next_step((1, 2), (5, 2), &[]);
    assert_eq!(step, Some((2, 2)));
    assert_eq!(m.astar_next_step((3, 2), (3, 2), &[]), Some((3, 2)));
    let walled = carved(8, 5, vec![Rect::new(1, 1, 2, 3), Rect::new(5, 1, 2, 3)]);
    assert_eq!(walled.astar_next_step((1, 2), (6, 2), &[]), None);
}

#[test]
fn revealing_marks_what_is_in_view() {
    let mut m = carved(12, 12, vec![Rect::new(1, 1, 10, 10)]);
    m.reveal_area(5, 5, 3);
    assert!(m.current_visibility[5][5]);
    assert!(m.current_visibility[6][5]);
    assert!(!m.current_visibility[10][10]);
    assert!(m.visibility[5][5]);
    m.reveal_area(1, 1, 1);
    assert!(!m.current_visibility[5][5]);
    assert!(m.visibility[5][5]);
    m.reveal_all();
    assert!(m.visibility.iter().all(|c| c.iter().all(|v| *v)));
}

#[test]
fn shrine_trap_goes_off_once() {
    let mut m = carved(12, 12, vec![Rect::new(1, 1, 10, 10)]);
    m.machines.push(Machine { machine_type: MachineType::ShrineTrap, trigger_pos: (2, 2), effect_pos: (6, 6), activated: false });
    assert_eq!(m.activate_machine((3, 3)), None);
    assert_eq!(m.activate_machine((2, 2)), Some((MachineType::ShrineTrap, (6, 6))));
    assert!(m.machines[0].activated);
    assert!(m.trap_tiles[6][6] == Some(TrapType::Fire));
    for x in 0..12 {
        for y in 0..12 {
            if m.trap_tiles[x][y].is_some() {
                assert!((5..=7).contains(&x) && (5..=7).contains(&y));
            }
        }
    }
    assert_eq!(m.activate_machine((2, 2)), None);
}

#[test]
fn machines_only_from_floor_three() {
    let mut m = carved(30, 30, vec![Rect::new(1, 1, 9, 9), Rect::new(15, 15, 9, 9)]);
    m.room_types[0] = RoomType::Shrine;
    m.place_machines(2);
    assert!(m.machines.is_empty());
}

#[test]
fn boss_lair_gets_spent_hazard() {
    let mut m = carved(30, 30, vec![Rect::new(1, 1, 9, 9), Rect::new(15, 15, 9, 9)]);
    m.room_types[1] = RoomType::Boss;
    m.place_machines(5);
    assert_eq!(m.machines.len(), 1);
    let mc = m.machines[0];
    assert!(mc.machine_type == MachineType::BossHazard);
    assert!(mc.activated);
    assert_eq!(mc.trigger_pos, m.rooms[1].center());
    assert!(m.tiles.iter().flatten().all(|t| matches!(t, Tile::Wall | Tile::Floor | Tile::DeepWater | Tile::ShallowWater)));
}

#[test]
fn shrine_trap_points_at_farthest_room() {
    let mut m = carved(40, 12, vec![Rect::new(1, 1, 5, 5), Rect::new(10, 1, 5, 5), Rect::new(30, 1, 5, 5)]);
    m.room_types[0] = RoomType::Shrine;
    for _ in 0..20 {
        m.place_machines(3);
    }
    for mc in &m.machines {
        assert!(mc.machine_type == MachineType::ShrineTrap);
        assert_eq!(mc.trigger_pos, m.rooms[0].center());
        assert_eq!(mc.effect_pos, m.rooms[2].center());
    }
}

#[test]
fn room_purposes_first_and_last() {
    let rooms: Vec<Rect> = (0..5).map(|i| Rect::new(1 + i * 7, 1, 5, 5)).collect();
    let mut m = carved(40, 10, rooms);
    m.assign_room_types(3);
    assert!(m.room_types[0] == RoomType::Spawn);
    assert!(m.room_types[4] == RoomType::Boss);
    for t in &m.room_types[1..4] {
        assert!(matches!(t, RoomType::Normal | RoomType::Treasure | RoomType::Trap | RoomType::Shrine | RoomType::Shop));
    }
}

#[test]
fn boss_waits_beside_the_stairs() {
    let rooms: Vec<Rect> = (0..4).map(|i| Rect::new(1 + i * 8, 1, 6, 6)).collect();
    let m = carved(40, 10, rooms);
    let ms = m.spawn_monsters_for_floor(5);
    let boss = ms.last().unwrap();
    assert!(boss.monster_type == MonsterType::GoblinKing);
    let (cx, cy) = m.rooms[3].center();
    assert_eq!((boss.x, boss.y), (cx + 1, cy));
    assert!(ms.len() >= 3 && ms.len() <= 7);
    let none = m.spawn_monsters_for_floor(4);
    assert!(none.iter().all(|x| !x.is_boss));
}

#[test]
fn ground_items_lie_on_inner_floor() {
    let rooms: Vec<Rect> = (0..5).map(|i| Rect::new(1 + i * 8, 1, 6, 6)).collect();
    let m = carved(45, 10, rooms);
    for _ in 0..20 {
        let items = m.spawn_ground_items(2);
        assert!(items.len() < 5);
        for (x, y, _) in &items {
            assert!(m.tiles[*x][*y] == Tile::Floor);
            assert!(m.rooms[1..].iter().any(|r| *x > r.x1 && *x + 1 < r.x2 && *y > r.y1 && *y + 1 < r.y2));
        }
    }
}

#[test]
fn treasure_room_gets_its_chest() {
    let mut m = carved(20, 12, vec![Rect::new(1, 1, 6, 6), Rect::new(10, 1, 6, 6)]);
    m.room_types[0] = RoomType::Treasure;
    m.room_types[1] = RoomType::Shrine;
    m.generate_decorations();
    let (cx, cy) = m.rooms[0].center();
    assert!(m.deco_objects[cx][cy] == Some(DecoObject::Chest));
    let (sx, sy) = m.rooms[1].center();
    assert!(m.deco_objects[sx][sy] == Some(DecoObject::Altar));
    assert!(m.trap_tiles.iter().flatten().all(|t| t.is_none()));
}

#[test]
fn features_fit_their_cells() {
    let mut m = carved(20, 12, vec![Rect::new(1, 1, 8, 8), Rect::new(11, 1, 6, 6)]);
    m.scatter_features(5);
    for x in 0..20 {
        for y in 0..12 {
            match m.features[x][y] {
                Some(DungeonFeature::WallCrack) => assert!(m.tiles[x][y] == Tile::Wall),
                Some(_) => assert!(m.tiles[x][y] == Tile::Floor),
                None => {}
            }
        }
    }
}

#[test]
fn vaults_and_lakes_wait_for_deeper_floors() {
    let mut m = carved(40, 20, vec![Rect::new(1, 1, 12, 12), Rect::new(20, 1, 12, 12)]);
    let before = m.tiles.clone();
    m.stamp_vaults(1);
    m.place_lakes(3);
    assert!(m.tiles == before);
    m.place_lakes(5);
    for x in 0..40 {
        for y in 0..20 {
            if m.tiles[x][y] != before[x][y] {
                assert!(before[x][y] == Tile::Floor);
                assert!(matches!(m.tiles[x][y], Tile::DeepWater | Tile::ShallowWater));
            }
        }
    }
}

#[test]
fn vaults_stay_inside_rooms() {
    let mut m = carved(40, 20, vec![Rect::new(1, 1, 12, 12), Rect::new(20, 1, 12, 12)]);
    m.room_types[1] = RoomType::Treasure;
    let before = m.tiles.clone();
    for _ in 0..10 {
        m.stamp_vaults(6);
    }
    for x in 0..40 {
        for y in 0..20 {
            if m.tiles[x][y] != before[x][y] {
                assert!(m.rooms.iter().any(|r| x >= r.x1 && x < r.x2 && y >= r.y1 && y < r.y2));
            }
        }
    }
}

#[test]
fn at_most_one_special_room_and_one_shop() {
    for _ in 0..200 {
        let rooms: Vec<Rect> = (0..8).map(|i| Rect::new(1 + i * 7, 1, 5, 5)).collect();
        let mut m = carved(60, 10, rooms);
        m.assign_room_types(6);
        let middle = &m.room_types[1..7];
        let shops = middle.iter().filter(|t| **t == RoomType::Shop).count();
        let specials = middle.iter().filter(|t| **t != RoomType::Shop && **t != RoomType::Normal).count();
        assert!(shops <= 1);
        assert!(specials <= 1);
        assert!(m.room_types[0] == RoomType::Spawn && m.room_types[7] == RoomType::Boss);
    }
}

/// The tile and decoration a vault character gives a cell.
fn stamp_cell(t: Tile, d: Option<DecoObject>, ch: char) -> (Tile, Option<DecoObject>) {
    match ch {
        '#' => (if t == Tile::Floor { Tile::Wall } else { t }, d),
        '.' => (if t == Tile::Wall { Tile::Floor } else { t }, d),
        'P' => (Tile::Floor, Some(DecoObject::Pillar)),
        'T' => (Tile::Floor, Some(DecoObject::Torch)),
        'A' => (Tile::Floor, Some(DecoObject::Altar)),
        'C' => (Tile::Floor, Some(DecoObject::Chest)),
        '*' => (Tile::Floor, d),
        _ => (t, d),
    }
}

#[test]
fn a_stamped_vault_is_a_whole_centred_template() {
    let templates = vault_templates();
    let mut stamped = 0;
    for _ in 0..100 {
        let mut m = carved(14, 14, vec![Rect::new(2, 2, 9, 9)]);
        let (tiles0, decos0) = (m.tiles.clone(), m.deco_objects.clone());
        m.stamp_vaults(2);
        if m.tiles == tiles0 && m.deco_objects == decos0 {
            continue;
        }
        stamped += 1;
        let matches_one = templates.iter()
            .filter(|t| matches!(t.vault_type, VaultType::Armory | VaultType::Library))
            .any(|t| {
                let ox = 2 + (9 - t.min_width) / 2;
                let oy = 2 + (9 - t.min_height) / 2;
                (0..14).all(|x| (0..14).all(|y| {
                    let inside = x >= ox && y >= oy && x - ox < t.min_width && y - oy < t.min_height;
                    let want = if inside {
                        let ch = t.pattern[y - oy].chars().nth(x - ox).unwrap();
                        stamp_cell(tiles0[x][y], decos0[x][y], ch)
                    } else {
                        (tiles0[x][y], decos0[x][y])
                    };
                    (m.tiles[x][y], m.deco_objects[x][y]) == want
                }))
            });
        assert!(matches_one);
    }
    assert!(stamped > 0);
}

/// The cells reachable from (sx, sy) by side steps over walkable cells.
fn reachable_from(m: &DungeonMap, sx: usize, sy: usize) -> Vec<Vec<bool>> {
    let mut seen = vec![vec![false; m.height]; m.width];
    let mut stack = vec![(sx, sy)];
    seen[sx][sy] = true;
    while let Some((x, y)) = stack.pop() {
        let mut next = Vec::new();
        if x > 0 { next.push((x - 1, y)); }
        if y > 0 { next.push((x, y - 1)); }
        next.push((x + 1, y));
        next.push((x, y + 1));
        for (nx, ny) in next {
            if nx < m.width && ny < m.height && !seen[nx][ny] && m.is_walkable(nx, ny) {
                seen[nx][ny] = true;
                stack.push((nx, ny));
            }
        }
    }
    seen
}

#[test]
fn every_room_of_a_room_floor_is_reachable_from_the_first() {
    for floor in [1, 2, 7, 8] {
        for _ in 0..10 {
            let m = DungeonMap::new(80, 30, floor);
            if m.rooms.is_empty() {
                continue;
            }
            let (sx, sy) = m.rooms[0].center();
            let seen = reachable_from(&m, sx, sy);
            for r in &m.rooms {
                let (cx, cy) = r.center();
                assert!(seen[cx][cy]);
            }
        }
    }
}

#[test]
fn a_ring_already_seen_reveals_nothing_new() {
    let mut m = carved(20, 20, vec![Rect::new(1, 1, 18, 18)]);
    assert!(m.reveal_ring(10, 10, 3));
    assert!(m.visibility[13][10]);
    assert!(!m.reveal_ring(10, 10, 3));
    assert!(m.reveal_ring(10, 10, 4));
}

#[test]
fn every_third_floor_has_one_shop() {
    let rooms = vec![
        Rect::new(1, 1, 4, 4),
        Rect::new(8, 1, 4, 4),
        Rect::new(15, 1, 4, 4),
        Rect::new(22, 1, 4, 4),
        Rect::new(29, 1, 4, 4),
    ];
    for floor in [3, 6, 9] {
        let mut m = carved(40, 10, rooms.clone());
        m.assign_room_types(floor);
        let shops = m.room_types.iter().filter(|t| **t == RoomType::Shop).count();
        assert_eq!(shops, 1);
        assert_eq!(m.room_types[0], RoomType::Spawn);
        assert_eq!(m.room_types[4], RoomType::Boss);
    }
    let mut m = carved(40, 10, rooms.clone());
    m.assign_room_types(4);
    assert!(m.room_types.iter().all(|t| *t != RoomType::Shop));
}

#[test]
fn astar_goes_round_a_held_cell_by_a_shortest_route() {
    let m = carved(8, 5, vec![Rect::new(1, 1, 6, 3)]);
    let step = m.astar_next_step((1, 2), (5, 2), &[(2, 2)]);
    assert!(step == Some((1, 1)) || step == Some((1, 3)));
    assert_eq!(m.astar_next_step((4, 2), (5, 2), &[(5, 2)]), Some((5, 2)));
    let far = m.astar_next_step((1, 1), (6, 3), &[]);
    assert!(far == Some((2, 1)) || far == Some((1, 2)));
}

#[test]
fn a_necromancer_raises_only_listed_dead_and_only_under_its_limit() {
    let m = carved(30, 5, vec![Rect::new(1, 1, 28, 3)]);
    let mut n = Monster::new(1, 2, MonsterType::Necromancer, 1);
    let max = n.summon_max;
    assert!(max >= 1);
    n.summon_count = max;
    n.turn_parity = 11;
    let a = n.decide_action((28, 2), &m, &[], &[], &[0, 3]);
    assert!(!matches!(a, MonsterAction::Resurrect(_)));
    assert_eq!(n.summon_count, max);
    assert_eq!(n.summon_max, max);
    n.summon_count = max - 1;
    n.turn_parity = 11;
    let a = n.decide_action((28, 2), &m, &[], &[], &[0, 3]);
    match a {
        MonsterAction::Resurrect(i) => assert!(i == 0 || i == 3),
        _ => panic!("expected a raising"),
    }
    assert_eq!(n.summon_count, max);
    assert_eq!(n.summon_max, max);
}

#[test]
fn updating_visibility_reveals_as_revealing_the_area_does() {
    let mut a = carved(12, 12, vec![Rect::new(1, 1, 10, 10)]);
    a.tiles[6][5] = Tile::Wall;
    let mut b = carved(12, 12, vec![Rect::new(1, 1, 10, 10)]);
    b.tiles[6][5] = Tile::Wall;
    a.reveal_area(5, 5, 4);
    b.update_visibility(5, 5, 4);
    assert_eq!(a.visibility, b.visibility);
    assert_eq!(a.current_visibility, b.current_visibility);
    a.reveal_area(2, 2, -40_000);
    b.update_visibility(2, 2, -40_000);
    assert_eq!(a.current_visibility, b.current_visibility);
    assert!(a.current_visibility[2][2]);
    assert!(!a.current_visibility[5][5]);
}
