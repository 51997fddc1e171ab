//! Tests of the ranges the rules are made for: each tells, at run time,
//! whether a state meets what the game's steps ask of it.
use vstd::prelude::*;
use crate::items::Item;
use crate::map::{DungeonMap, RoomType, MAX_SIDE, grid_shape, map_wf, rect_inside};
use crate::mapgen::arena_fits;
use crate::populate::loot_rooms_ok;
use crate::dressing::{big_room, deco_rooms_ok};
use crate::monster::{Monster, monster_ok};
use crate::player::{Ability, Player, MAX_LEVEL, cooldown_ok, effective_of, item_bounded, opt_item_bounded, player_bounded};
use crate::projectile::Projectile;
use crate::turn::{death_on_map, player_fit, shots_ok, webs_ok};

verus! {

fn in_range(v: i32, lo: i32, hi: i32) -> (b: bool)
    ensures
        b == (lo <= v <= hi),
{
    lo <= v && v <= hi
}

fn item_in_range(it: &Item) -> (b: bool)
    ensures
        b == item_bounded(*it),
{
    in_range(it.damage_bonus, -1_000_000, 1_000_000) && in_range(it.defense_bonus, -1_000_000, 1_000_000)
        && in_range(it.stat_bonus_value, -1_000_000, 1_000_000) && in_range(it.heal_amount, -1_000_000, 1_000_000)
}

fn slot_in_range(it: &Option<Item>) -> (b: bool)
    ensures
        b == opt_item_bounded(*it),
{
    match it {
        Some(x) => item_in_range(x),
        None => true,
    }
}

/// Whether the player's numbers are in the range the rules are made for
/// (see `player_bounded`).
pub fn player_in_range(p: &Player) -> (b: bool)
    ensures
        b == player_bounded(*p),
{
    let s = &p.base_stats;
    if !(in_range(s.str_, -1_000_000, 1_000_000) && in_range(s.dex, -1_000_000, 1_000_000)
        && in_range(s.int, -1_000_000, 1_000_000) && in_range(s.con, -1_000_000, 1_000_000)
        && in_range(s.crit_multiplier, -1_000_000, 1_000_000)) {
        return false;
    }
    if !(slot_in_range(&p.equipment.weapon) && slot_in_range(&p.equipment.armor) && slot_in_range(&p.equipment.ring)) {
        return false;
    }
    let mut i: usize = 0;
    while i < p.inventory.len()
        invariant
            i <= p.inventory@.len(),
            forall|j: int| 0 <= j < i ==> item_bounded(#[trigger] p.inventory@[j]),
        decreases p.inventory@.len() - i,
    {
        if !item_in_range(&p.inventory[i]) {
            return false;
        }
        i = i + 1;
    }
    in_range(p.hp, -10_000_000, 10_000_000) && in_range(p.max_hp, -10_000_000, 10_000_000)
        && in_range(p.ragefang_stacks, -1_000_000, 1_000_000) && in_range(p.stonehide_bonus, -1_000_000, 1_000_000)
}

fn cooldown_in_range(a: &Option<Ability>) -> (b: bool)
    ensures
        b == cooldown_ok(*a),
{
    match a {
        Some(x) => x.cooldown_max > i32::MIN,
        None => true,
    }
}

/// Whether the player has room in its numbers for `k` more monster turns
/// or kills (see `player_fit`).
pub fn player_has_room(p: &Player, k: u32) -> (b: bool)
    ensures
        b == player_fit(*p, k as int),
{
    if !player_in_range(p) || !(1 <= p.level && p.level <= MAX_LEVEL) {
        return false;
    }
    if !(cooldown_in_range(&p.ability_1) && cooldown_in_range(&p.ability_2)) {
        return false;
    }
    let left = (MAX_LEVEL - p.level) as i64;
    let s = &p.base_stats;
    let k64 = k as i64;
    if !(s.str_ as i64 + left <= 999_980 && s.dex as i64 + left <= 999_980
        && s.int as i64 + left <= 999_980 && s.con as i64 + left <= 999_980) {
        return false;
    }
    if !(p.hp as i64 + 3 * left <= 9_999_000 && p.max_hp as i64 + 3 * left <= 9_999_000) {
        return false;
    }
    if !(p.xp_to_next_level >= 0 && p.xp_to_next_level as i64 + 800 * left <= 100_000) {
        return false;
    }
    if !(p.xp >= -1_000_000 && p.xp as i64 + 500 * k64 <= 1_000_000) {
        return false;
    }
    if p.max_hp < 1 || p.effective_stats().con < 0 {
        return false;
    }
    p.damage_taken >= 0 && p.damage_taken <= i64::MAX - 25_000_000 * k64
        && p.monsters_slain as i64 + k64 <= u32::MAX as i64
}

/// Whether the player's numbers allow a gain of `amount` XP (what
/// `gain_xp` asks).
pub open spec fn xp_room(p: Player, amount: int) -> bool {
    &&& player_bounded(p)
    &&& 1 <= p.level <= MAX_LEVEL
    &&& -1_000_000 <= p.xp <= 1_000_000
    &&& -1_000_000 <= p.xp_to_next_level <= 1_000_000
    &&& -1_000_000 <= amount <= 1_000_000
    &&& p.base_stats.str_ <= 999_980 && p.base_stats.dex <= 999_980
    &&& p.base_stats.int <= 999_980 && p.base_stats.con <= 999_980
    &&& p.hp <= 9_999_000 && p.max_hp <= 9_999_000
    &&& cooldown_ok(p.ability_1) && cooldown_ok(p.ability_2)
}

/// Whether the player's numbers allow a gain of `amount` XP (see
/// `xp_room`).
pub fn xp_gain_in_range(p: &Player, amount: i32) -> (b: bool)
    ensures
        b == xp_room(*p, amount as int),
{
    player_in_range(p) && 1 <= p.level && p.level <= MAX_LEVEL
        && in_range(p.xp, -1_000_000, 1_000_000) && in_range(p.xp_to_next_level, -1_000_000, 1_000_000)
        && in_range(amount, -1_000_000, 1_000_000)
        && p.base_stats.str_ <= 999_980 && p.base_stats.dex <= 999_980
        && p.base_stats.int <= 999_980 && p.base_stats.con <= 999_980
        && p.hp <= 9_999_000 && p.max_hp <= 9_999_000
        && cooldown_in_range(&p.ability_1) && cooldown_in_range(&p.ability_2)
}

/// Whether every monster's numbers and places fit a monster turn (see
/// `monster_ok` and `death_on_map`).
pub fn monsters_in_range(ms: &Vec<Monster>, map: &DungeonMap) -> (b: bool)
    ensures
        b == forall|j: int| 0 <= j < ms@.len() ==> monster_ok(#[trigger] ms@[j], *map) && death_on_map(ms@[j], *map),
{
    let mut i: usize = 0;
    while i < ms.len()
        invariant
            i <= ms@.len(),
            forall|j: int| 0 <= j < i ==> monster_ok(#[trigger] ms@[j], *map) && death_on_map(ms@[j], *map),
        decreases ms@.len() - i,
    {
        let m = &ms[i];
        let placed = m.x < map.width && m.y < map.height && match m.last_known_player_pos {
            Some(lp) => lp.0 < map.width && lp.1 < map.height,
            None => true,
        };
        let numbers = in_range(m.max_hp, 1, 1_000_000) && in_range(m.hp, 0, 1_000_000) && in_range(m.attack, 0, 1_000_000)
            && in_range(m.floor_tier, 1, 3) && in_range(m.turn_parity, 0, 1_000_000_000) && in_range(m.boss_tick, 0, 1_000_000_000)
            && in_range(m.summon_count, -1_000_000, 1_000_000) && m.ranged_cooldown >= -1_000_000 && m.web_cooldown >= -1_000_000;
        let died = match m.death_pos {
            Some(d) => d.0 < map.width && d.1 < map.height,
            None => true,
        };
        if !(placed && numbers && died) {
            assert(!(monster_ok(ms@[i as int], *map) && death_on_map(ms@[i as int], *map)));
            return false;
        }
        i = i + 1;
    }
    true
}

fn shaped<T>(g: &Vec<Vec<T>>, w: usize, h: usize) -> (b: bool)
    ensures
        b == grid_shape(g@, w as int, h as int),
{
    if g.len() != w {
        return false;
    }
    let mut x: usize = 0;
    while x < g.len()
        invariant
            g@.len() == w,
            x <= w,
            forall|i: int| 0 <= i < x ==> (#[trigger] g@[i])@.len() == h,
        decreases w - x,
    {
        if g[x].len() != h {
            return false;
        }
        x = x + 1;
    }
    true
}

/// Whether the map's layers have its shape and its rooms lie on it (see
/// `map_wf`).
pub fn map_in_shape(m: &DungeonMap) -> (b: bool)
    ensures
        b == map_wf(*m),
{
    let (w, h) = (m.width, m.height);
    if !(1 <= w && w <= MAX_SIDE && 1 <= h && h <= MAX_SIDE) {
        return false;
    }
    if !(shaped(&m.tiles, w, h) && shaped(&m.deco_objects, w, h) && shaped(&m.trap_tiles, w, h)
        && shaped(&m.features, w, h) && shaped(&m.shrine_used, w, h)
        && shaped(&m.visibility, w, h) && shaped(&m.current_visibility, w, h)) {
        return false;
    }
    if m.room_types.len() != m.rooms.len() {
        return false;
    }
    let mut i: usize = 0;
    while i < m.rooms.len()
        invariant
            i <= m.rooms@.len(),
            w == m.width && h == m.height,
            forall|j: int| 0 <= j < i ==> rect_inside(#[trigger] m.rooms@[j], w as int, h as int),
        decreases m.rooms@.len() - i,
    {
        let r = m.rooms[i];
        if !(r.x1 <= r.x2 && r.x2 <= w && r.y1 <= r.y2 && r.y2 <= h) {
            assert(!rect_inside(m.rooms@[i as int], m.width as int, m.height as int));
            return false;
        }
        i = i + 1;
    }
    true
}

/// Whether every room reaches column and row 1 (what placing monsters in
/// the rooms asks).
pub fn rooms_reach_one(m: &DungeonMap) -> (b: bool)
    ensures
        b == forall|i: int| 0 <= i < m.rooms@.len() ==> (#[trigger] m.rooms@[i]).x2 >= 1 && m.rooms@[i].y2 >= 1,
{
    let mut i: usize = 0;
    while i < m.rooms.len()
        invariant
            i <= m.rooms@.len(),
            forall|j: int| 0 <= j < i ==> (#[trigger] m.rooms@[j]).x2 >= 1 && m.rooms@[j].y2 >= 1,
        decreases m.rooms@.len() - i,
    {
        if m.rooms[i].x2 < 1 || m.rooms[i].y2 < 1 {
            return false;
        }
        i = i + 1;
    }
    true
}

/// Whether every room after the first leaves an item a cell off its edges
/// (see `loot_rooms_ok`).
pub fn loot_rooms_in_shape(m: &DungeonMap) -> (b: bool)
    ensures
        b == loot_rooms_ok(*m),
{
    let mut i: usize = 1;
    while i < m.rooms.len()
        invariant
            1 <= i,
            i <= m.rooms@.len() || m.rooms@.len() == 0,
            forall|j: int| 1 <= j < i && j < m.rooms@.len() ==> (#[trigger] m.rooms@[j]).x2 >= m.rooms@[j].x1 + 3
                && m.rooms@[j].y2 >= m.rooms@[j].y1 + 3,
        decreases m.rooms@.len() - i,
    {
        let r = m.rooms[i];
        if r.x2 < 3 || r.x2 - 3 < r.x1 || r.y2 < 3 || r.y2 - 3 < r.y1 {
            return false;
        }
        i = i + 1;
    }
    true
}

/// Whether the rooms leave the decorations' ranges well formed (see
/// `deco_rooms_ok`).
pub fn deco_rooms_in_shape(m: &DungeonMap) -> (b: bool)
    requires
        m.room_types@.len() == m.rooms@.len(),
    ensures
        b == deco_rooms_ok(*m),
{
    let mut i: usize = 0;
    while i < m.rooms.len()
        invariant
            m.room_types@.len() == m.rooms@.len(),
            i <= m.rooms@.len(),
            forall|j: int| 0 <= j < i ==> {
                let r = #[trigger] m.rooms@[j];
                let t = m.room_types@[j];
                &&& (t == RoomType::Normal || t == RoomType::Trap) ==> r.y2 >= 1 && (r.y1 + 1 < r.y2 - 1 ==> r.x2 >= 1)
                &&& (t == RoomType::Normal || t == RoomType::Trap || t == RoomType::Shrine) && big_room(r) ==> r.x2 >= 3 && r.y2 >= 3
            },
        decreases m.rooms@.len() - i,
    {
        let r = m.rooms[i];
        let t = m.room_types[i];
        let torches = t == RoomType::Normal || t == RoomType::Trap;
        let pillars = (t == RoomType::Normal || t == RoomType::Trap || t == RoomType::Shrine)
            && ((r.x2 >= r.x1 && r.x2 - r.x1 > 10) || (r.y2 >= r.y1 && r.y2 - r.y1 > 8));
        let torches_ok = r.y2 >= 1 && (!(r.y2 >= 3 && r.y1 < r.y2 - 2) || r.x2 >= 1);
        if (torches && !torches_ok) || (pillars && !(r.x2 >= 3 && r.y2 >= 3)) {
            return false;
        }
        i = i + 1;
    }
    true
}

/// Whether a deep floor's boss arena fits a map of this size (see
/// `arena_fits`).
pub fn arena_room(width: usize, height: usize) -> (b: bool)
    requires
        width <= MAX_SIDE && height <= MAX_SIDE,
    ensures
        b == arena_fits(width as int, height as int),
{
    let aw0 = 20 * width / 120;
    let ah0 = 14 * width / 120;
    let aw = if aw0 < 18 { 18 } else if aw0 > 24 { 24 } else { aw0 };
    let ah = if ah0 < 12 { 12 } else if ah0 > 16 { 16 } else { ah0 };
    width >= aw + 4 && height >= ah + 4
}

/// Whether every monster stands within the coordinates the distance rules
/// are made for.
/// Every monster stands at coordinates up to 0x1fff_ffff.
pub open spec fn monsters_near_ok(ms: Seq<Monster>) -> bool {
    forall|j: int| 0 <= j < ms.len() ==> (#[trigger] ms[j]).x <= 0x1fff_ffff && ms[j].y <= 0x1fff_ffff
}

/// Every monster's HP lies between 0 and 1,000,000.
pub open spec fn monsters_hp_ok(ms: Seq<Monster>) -> bool {
    forall|j: int| 0 <= j < ms.len() ==> 0 <= (#[trigger] ms[j]).hp <= 1_000_000
}

pub fn monsters_near(ms: &Vec<Monster>) -> (b: bool)
    ensures
        b == monsters_near_ok(ms@),
{
    let mut i: usize = 0;
    while i < ms.len()
        invariant
            i <= ms@.len(),
            forall|j: int| 0 <= j < i ==> (#[trigger] ms@[j]).x <= 0x1fff_ffff && ms@[j].y <= 0x1fff_ffff,
        decreases ms@.len() - i,
    {
        if ms[i].x > 0x1fff_ffff || ms[i].y > 0x1fff_ffff {
            return false;
        }
        i = i + 1;
    }
    true
}

/// Whether every monster's HP lies between 0 and 1,000,000.
pub fn monsters_hp_in_range(ms: &Vec<Monster>) -> (b: bool)
    ensures
        b == monsters_hp_ok(ms@),
{
    let mut i: usize = 0;
    while i < ms.len()
        invariant
            i <= ms@.len(),
            forall|j: int| 0 <= j < i ==> 0 <= (#[trigger] ms@[j]).hp <= 1_000_000,
        decreases ms@.len() - i,
    {
        if !in_range(ms[i].hp, 0, 1_000_000) {
            return false;
        }
        i = i + 1;
    }
    true
}

/// Whether every projectile's damage is in range (see `shots_ok`).
pub fn shots_in_range(ps: &Vec<Projectile>) -> (b: bool)
    ensures
        b == shots_ok(ps@),
{
    let mut i: usize = 0;
    while i < ps.len()
        invariant
            i <= ps@.len(),
            forall|j: int| 0 <= j < i ==> 0 <= (#[trigger] ps@[j]).damage <= 2_000_004,
        decreases ps@.len() - i,
    {
        if !in_range(ps[i].damage, 0, 2_000_004) {
            return false;
        }
        i = i + 1;
    }
    true
}

/// Whether every web lies on a walkable cell (see `webs_ok`).
pub fn webs_in_place(webs: &Vec<(usize, usize)>, map: &DungeonMap) -> (b: bool)
    requires
        map_wf(*map),
    ensures
        b == webs_ok(webs@, *map),
{
    let mut i: usize = 0;
    while i < webs.len()
        invariant
            map_wf(*map),
            i <= webs@.len(),
            forall|j: int| 0 <= j < i ==> crate::map::walkable(*map, (#[trigger] webs@[j]).0 as int, webs@[j].1 as int),
        decreases webs@.len() - i,
    {
        if !map.is_walkable(webs[i].0, webs[i].1) {
            return false;
        }
        i = i + 1;
    }
    true
}

} // verus!
