//! Vaults: hand-drawn room layouts (a throne room, an armory, a prison, a
//! ritual chamber, a treasure vault, a library) stamped into rooms.
use vstd::prelude::*;
use crate::map::{DungeonMap, DecoObject, Rect, RoomType, Tile, grid_shape, map_wf, rect_inside, room_holds, set_cell};
use crate::mapgen::cell;
use crate::rng::{random_below, random_ratio};

verus! {

#[derive(Clone, Copy, Debug, PartialEq, Eq, Structural)]
pub enum VaultType {
    ThroneRoom,
    Armory,
    Prison,
    RitualChamber,
    TreasureVault,
    Library,
}

/// A vault layout, one string per row: `#` wall, `.` floor, `P` pillar,
/// `T` torch, `A` altar, `C` chest, `*` bare floor (a treasure spot).
pub struct VaultTemplate {
    pub vault_type: VaultType,
    pub pattern: Vec<&'static str>,
    pub min_width: usize,
    pub min_height: usize,
}

impl VaultTemplate {
    /// A template whose size is that of its pattern: as many rows as it
    /// has, as wide as its first row.
    fn new(vault_type: VaultType, pattern: Vec<&'static str>) -> (t: VaultTemplate)
        ensures
            t.vault_type == vault_type,
            t.pattern@ == pattern@,
            t.min_height == pattern@.len(),
            t.min_width == (if pattern@.len() > 0 { pattern@[0]@.len() } else { 0 }),
    {
        let min_height = pattern.len();
        let min_width = if min_height > 0 { pattern[0].unicode_len() } else { 0 };
        VaultTemplate { vault_type, pattern, min_width, min_height }
    }
}

/// The vault layouts.
pub fn vault_templates() -> (v: Vec<VaultTemplate>)
    ensures
        v@.len() == 6,
        v@[0].vault_type == VaultType::ThroneRoom,
        v@[1].vault_type == VaultType::Armory,
        v@[2].vault_type == VaultType::Prison,
        v@[3].vault_type == VaultType::RitualChamber,
        v@[4].vault_type == VaultType::TreasureVault,
        v@[5].vault_type == VaultType::Library,
{
    let mut v: Vec<VaultTemplate> = Vec::new();
    v.push(VaultTemplate::new(VaultType::ThroneRoom,
        vec!["###.###", "#.....#", "#.P.P.#", "...*...", "#.P.P.#", "#.....#", "###.###"]));
    v.push(VaultTemplate::new(VaultType::Armory,
        vec!["#####", "#C.C#", "#...#", "#C.C#", "##.##"]));
    v.push(VaultTemplate::new(VaultType::Prison,
        vec!["###.###", "#.#.#.#", "#.#.#.#", ".......", "#.#.#.#", "#.#.#.#", "###.###"]));
    v.push(VaultTemplate::new(VaultType::RitualChamber,
        vec!["#######", "#T...T#", "#.....#", "#..A..#", "#.....#", "#T...T#", "###.###"]));
    v.push(VaultTemplate::new(VaultType::TreasureVault,
        vec!["#####", "#CCC#", "#C*C#", "#CCC#", "##.##"]));
    v.push(VaultTemplate::new(VaultType::Library,
        vec!["#######", "#P...P#", "#.....#", "...A...", "#.....#", "#P...P#", "#######"]));
    v
}

/// Whether a vault may appear on a floor: armories anywhere, libraries
/// from floor 2, prisons and treasure vaults from 3, ritual chambers from
/// 4, throne rooms from 5.
pub open spec fn vault_allowed(t: VaultType, floor: int) -> bool {
    match t {
        VaultType::ThroneRoom => floor >= 5,
        VaultType::Armory => true,
        VaultType::Prison => floor >= 3,
        VaultType::RitualChamber => floor >= 4,
        VaultType::TreasureVault => floor >= 3,
        VaultType::Library => floor >= 2,
    }
}

fn vault_allowed_on(t: VaultType, floor: i32) -> (b: bool)
    ensures
        b == vault_allowed(t, floor as int),
{
    match t {
        VaultType::ThroneRoom => floor >= 5,
        VaultType::Armory => true,
        VaultType::Prison => floor >= 3,
        VaultType::RitualChamber => floor >= 4,
        VaultType::TreasureVault => floor >= 3,
        VaultType::Library => floor >= 2,
    }
}

/// A cell a vault may be stamped on: inside a room that is neither where
/// the player starts nor the boss's.
pub open spec fn vault_cell(m: DungeonMap, x: int, y: int) -> bool {
    exists|i: int| 0 <= i < m.rooms@.len() && m.room_types@[i] != RoomType::Spawn && m.room_types@[i] != RoomType::Boss
        && #[trigger] room_holds(m.rooms@[i], x, y)
}

/// A decoration a vault leaves: a pillar, a torch, an altar or a chest.
pub open spec fn vault_deco(d: Option<DecoObject>) -> bool {
    ||| d == Some(DecoObject::Pillar)
    ||| d == Some(DecoObject::Torch)
    ||| d == Some(DecoObject::Altar)
    ||| d == Some(DecoObject::Chest)
}

/// `b` is `a` with vaults stamped: only tiles and decorations change, only
/// on vault cells; tiles become wall or floor and decorations are pillars,
/// torches, altars or chests.
pub open spec fn vaults_stamped(a: DungeonMap, b: DungeonMap) -> bool {
    &&& b.width == a.width && b.height == a.height
    &&& b.rooms == a.rooms && b.room_types == a.room_types
    &&& b.trap_tiles == a.trap_tiles && b.features == a.features && b.shrine_used == a.shrine_used
    &&& b.machines == a.machines && b.visibility == a.visibility && b.current_visibility == a.current_visibility
    &&& grid_shape(b.tiles@, a.width as int, a.height as int)
    &&& grid_shape(b.deco_objects@, a.width as int, a.height as int)
    &&& forall|x: int, y: int| 0 <= x < a.width && 0 <= y < a.height ==> {
        &&& #[trigger] cell(b.tiles@, x, y) == cell(a.tiles@, x, y)
            || (vault_cell(a, x, y) && (cell(b.tiles@, x, y) == Tile::Wall || cell(b.tiles@, x, y) == Tile::Floor))
        &&& cell(b.deco_objects@, x, y) == cell(a.deco_objects@, x, y)
            || (vault_cell(a, x, y) && vault_deco(cell(b.deco_objects@, x, y)))
    }
}

/// The tile a pattern character makes of a cell holding `t`: `#` walls up
/// floor, `.` opens a wall, `P`, `T`, `A`, `C` and `*` make floor, and any
/// other character leaves the tile.
pub open spec fn stamped_tile(t: Tile, ch: char) -> Tile {
    if ch == '#' {
        if t == Tile::Floor { Tile::Wall } else { t }
    } else if ch == '.' {
        if t == Tile::Wall { Tile::Floor } else { t }
    } else if ch == 'P' || ch == 'T' || ch == 'A' || ch == 'C' || ch == '*' {
        Tile::Floor
    } else {
        t
    }
}

/// The decoration a pattern character leaves on a cell holding `d`:
/// `P` a pillar, `T` a torch, `A` an altar, `C` a chest; other characters
/// leave it.
pub open spec fn stamped_deco(d: Option<DecoObject>, ch: char) -> Option<DecoObject> {
    if ch == 'P' {
        Some(DecoObject::Pillar)
    } else if ch == 'T' {
        Some(DecoObject::Torch)
    } else if ch == 'A' {
        Some(DecoObject::Altar)
    } else if ch == 'C' {
        Some(DecoObject::Chest)
    } else {
        d
    }
}

/// `b` is `a` with only its tiles and decorations changed.
pub open spec fn same_but_tiles_decos(a: DungeonMap, b: DungeonMap) -> bool {
    &&& b.width == a.width && b.height == a.height
    &&& b.rooms == a.rooms && b.room_types == a.room_types
    &&& b.trap_tiles == a.trap_tiles && b.features == a.features && b.shrine_used == a.shrine_used
    &&& b.machines == a.machines && b.visibility == a.visibility && b.current_visibility == a.current_visibility
    &&& grid_shape(b.tiles@, a.width as int, a.height as int)
    &&& grid_shape(b.deco_objects@, a.width as int, a.height as int)
}

/// The character of template `t` in column `px` and row `py` of its box,
/// if its pattern has one there.
pub open spec fn template_char(t: VaultTemplate, px: int, py: int) -> Option<char> {
    if 0 <= py < t.min_height && py < t.pattern@.len() && 0 <= px < t.min_width && px < t.pattern@[py]@.len() {
        Some(t.pattern@[py]@[px])
    } else {
        None
    }
}

/// Where the box of template `t` starts when centred in room `r`.
pub open spec fn template_origin(t: VaultTemplate, r: Rect) -> (int, int) {
    (r.x1 + (r.x2 - r.x1 - t.min_width) / 2, r.y1 + (r.y2 - r.y1 - t.min_height) / 2)
}

/// The box cell (px, py) is stamped once rows before `row` and row `row`
/// before column `col` are.
pub open spec fn stamp_done(t: VaultTemplate, px: int, py: int, row: int, col: int) -> bool {
    template_char(t, px, py) is Some && (py < row || (py == row && px < col))
}

/// `b` is `a` with template `t` (box at `o`) stamped in the rows before
/// `row` and in row `row` before column `col` (see `stamped_tile` and
/// `stamped_deco`); every other cell is as in `a`.
pub open spec fn stamped_through(a: DungeonMap, b: DungeonMap, t: VaultTemplate, o: (int, int), row: int, col: int) -> bool {
    forall|x: int, y: int| 0 <= x < a.width && 0 <= y < a.height ==> {
        &&& #[trigger] cell(b.tiles@, x, y) == if stamp_done(t, x - o.0, y - o.1, row, col) {
                stamped_tile(cell(a.tiles@, x, y), template_char(t, x - o.0, y - o.1)->0)
            } else {
                cell(a.tiles@, x, y)
            }
        &&& cell(b.deco_objects@, x, y) == if stamp_done(t, x - o.0, y - o.1, row, col) {
                stamped_deco(cell(a.deco_objects@, x, y), template_char(t, x - o.0, y - o.1)->0)
            } else {
                cell(a.deco_objects@, x, y)
            }
    }
}

/// `b` is `a` with the whole of template `t` stamped with its box at `o`:
/// each cell of the map under a character of the pattern is stamped with
/// it, every other cell is as in `a`.
pub open spec fn template_stamped(a: DungeonMap, b: DungeonMap, t: VaultTemplate, o: (int, int)) -> bool {
    stamped_through(a, b, t, o, t.min_height as int, 0)
}

/// How many vaults a floor may get: two from floor 5 on, else one.
pub open spec fn vault_count(floor: int) -> int {
    if floor >= 5 { 2 } else { 1 }
}

/// `b` is `a` with the vaults `picks` (a room's index and a template)
/// stamped one after the other through the maps `maps`: at most `most` of
/// them, each in its own room, neither where the player starts nor the
/// boss's, of a kind allowed on the floor, fitting the room and stamped
/// whole, centred in it (see `template_stamped`).
pub open spec fn stamped_in_turn(a: DungeonMap, b: DungeonMap, picks: Seq<(int, VaultTemplate)>, maps: Seq<DungeonMap>,
    floor: int, most: int) -> bool {
    &&& maps.len() == picks.len() + 1
    &&& maps[0] == a && maps.last() == b
    &&& picks.len() <= most
    &&& forall|k: int| 0 <= k < picks.len() ==> {
        let r = (#[trigger] picks[k]).0;
        let t = picks[k].1;
        &&& 0 <= r < a.rooms@.len()
        &&& a.room_types@[r] != RoomType::Spawn && a.room_types@[r] != RoomType::Boss
        &&& vault_allowed(t.vault_type, floor)
        &&& t.min_width <= a.rooms@[r].x2 - a.rooms@[r].x1 && t.min_height <= a.rooms@[r].y2 - a.rooms@[r].y1
        &&& template_stamped(maps[k], maps[k + 1], t, template_origin(t, a.rooms@[r]))
    }
    &&& forall|k1: int, k2: int| 0 <= k1 < k2 < picks.len() ==> (#[trigger] picks[k1]).0 != (#[trigger] picks[k2]).0
}

impl DungeonMap {
    /// Stamps one character of a pattern at (mx, my): `#` walls up floor,
    /// `.` opens a wall, `P`, `T`, `A`, `C` put floor and their decoration,
    /// `*` puts floor; anything else leaves the cell.
    fn stamp_char(&mut self, mx: usize, my: usize, ch: char, Ghost(a): Ghost<DungeonMap>)
        requires
            map_wf(*old(self)),
            map_wf(a),
            vaults_stamped(a, *old(self)),
            mx < a.width && my < a.height,
            vault_cell(a, mx as int, my as int),
        ensures
            map_wf(*final(self)),
            vaults_stamped(a, *final(self)),
            same_but_tiles_decos(*old(self), *final(self)),
            forall|x: int, y: int| 0 <= x < a.width && 0 <= y < a.height ==> {
                &&& #[trigger] cell(final(self).tiles@, x, y) == if x == mx && y == my {
                        stamped_tile(cell(old(self).tiles@, x, y), ch)
                    } else {
                        cell(old(self).tiles@, x, y)
                    }
                &&& cell(final(self).deco_objects@, x, y) == if x == mx && y == my {
                        stamped_deco(cell(old(self).deco_objects@, x, y), ch)
                    } else {
                        cell(old(self).deco_objects@, x, y)
                    }
            },
    {
        let ghost before = *self;
        if ch == '#' {
            if self.tiles[mx][my] == Tile::Floor {
                set_cell(&mut self.tiles, mx, my, Tile::Wall);
            }
        } else if ch == '.' {
            if self.tiles[mx][my] == Tile::Wall {
                set_cell(&mut self.tiles, mx, my, Tile::Floor);
            }
        } else if ch == 'P' || ch == 'T' || ch == 'A' || ch == 'C' {
            set_cell(&mut self.tiles, mx, my, Tile::Floor);
            let d = if ch == 'P' { DecoObject::Pillar } else if ch == 'T' { DecoObject::Torch }
                else if ch == 'A' { DecoObject::Altar } else { DecoObject::Chest };
            set_cell(&mut self.deco_objects, mx, my, Some(d));
        } else if ch == '*' {
            set_cell(&mut self.tiles, mx, my, Tile::Floor);
        }
        proof {
            assert forall|x: int, y: int| 0 <= x < a.width && 0 <= y < a.height implies {
                &&& #[trigger] cell(self.tiles@, x, y) == cell(a.tiles@, x, y)
                    || (vault_cell(a, x, y) && (cell(self.tiles@, x, y) == Tile::Wall || cell(self.tiles@, x, y) == Tile::Floor))
                &&& cell(self.deco_objects@, x, y) == cell(a.deco_objects@, x, y)
                    || (vault_cell(a, x, y) && vault_deco(cell(self.deco_objects@, x, y)))
            } by {
                assert(cell(before.tiles@, x, y) == cell(a.tiles@, x, y)
                    || (vault_cell(a, x, y) && (cell(before.tiles@, x, y) == Tile::Wall || cell(before.tiles@, x, y) == Tile::Floor)));
                assert(cell(before.deco_objects@, x, y) == cell(a.deco_objects@, x, y)
                    || (vault_cell(a, x, y) && vault_deco(cell(before.deco_objects@, x, y))));
            }
        }
    }

    /// Stamps the template centred in room `i` (it fits there, see
    /// `template_origin`); cells off the map are left out (see
    /// `template_stamped`).
    fn stamp_template(&mut self, t: &VaultTemplate, i: usize, Ghost(a): Ghost<DungeonMap>)
        requires
            map_wf(*old(self)),
            map_wf(a),
            vaults_stamped(a, *old(self)),
            i < a.rooms@.len(),
            a.room_types@[i as int] != RoomType::Spawn && a.room_types@[i as int] != RoomType::Boss,
            t.min_width <= a.rooms@[i as int].x2 - a.rooms@[i as int].x1,
            t.min_height <= a.rooms@[i as int].y2 - a.rooms@[i as int].y1,
        ensures
            map_wf(*final(self)),
            vaults_stamped(a, *final(self)),
            same_but_tiles_decos(*old(self), *final(self)),
            template_stamped(*old(self), *final(self), *t, template_origin(*t, a.rooms@[i as int])),
    {
        let ghost s0 = *self;
        let room = self.rooms[i];
        assert(rect_inside(a.rooms@[i as int], a.width as int, a.height as int));
        let offset_x = room.x1 + (room.x2 - room.x1 - t.min_width) / 2;
        let offset_y = room.y1 + (room.y2 - room.y1 - t.min_height) / 2;
        let ghost o = (offset_x as int, offset_y as int);
        assert(o == template_origin(*t, a.rooms@[i as int]));
        let mut py: usize = 0;
        while py < t.pattern.len() && py < t.min_height
            invariant
                map_wf(*self),
                map_wf(a),
                vaults_stamped(a, *self),
                i < a.rooms@.len(),
                room == a.rooms@[i as int],
                rect_inside(room, a.width as int, a.height as int),
                a.room_types@[i as int] != RoomType::Spawn && a.room_types@[i as int] != RoomType::Boss,
                t.min_width <= room.x2 - room.x1,
                t.min_height <= room.y2 - room.y1,
                offset_x == room.x1 + (room.x2 - room.x1 - t.min_width) / 2,
                offset_y == room.y1 + (room.y2 - room.y1 - t.min_height) / 2,
                o == (offset_x as int, offset_y as int),
                same_but_tiles_decos(s0, *self),
                s0.width == a.width && s0.height == a.height,
                py <= t.min_height,
                stamped_through(s0, *self, *t, o, py as int, 0),
            decreases t.min_height - py,
        {
            let row = t.pattern[py];
            let n = row.unicode_len();
            let mut px: usize = 0;
            while px < n && px < t.min_width
                invariant
                    map_wf(*self),
                    map_wf(a),
                    vaults_stamped(a, *self),
                    i < a.rooms@.len(),
                    room == a.rooms@[i as int],
                    rect_inside(room, a.width as int, a.height as int),
                    a.room_types@[i as int] != RoomType::Spawn && a.room_types@[i as int] != RoomType::Boss,
                    t.min_width <= room.x2 - room.x1,
                    t.min_height <= room.y2 - room.y1,
                    offset_x == room.x1 + (room.x2 - room.x1 - t.min_width) / 2,
                    offset_y == room.y1 + (room.y2 - room.y1 - t.min_height) / 2,
                    o == (offset_x as int, offset_y as int),
                    py < t.min_height,
                    py < t.pattern@.len(),
                    row@ == t.pattern@[py as int]@,
                    n == row@.len(),
                    px <= n,
                    same_but_tiles_decos(s0, *self),
                    s0.width == a.width && s0.height == a.height,
                    stamped_through(s0, *self, *t, o, py as int, px as int),
                decreases t.min_width - px,
            {
                let ch = row.get_char(px);
                let mx = offset_x + px;
                let my = offset_y + py;
                let ghost before = *self;
                assert(template_char(*t, px as int, py as int) == Some(ch));
                if mx < self.width && my < self.height {
                    assert(room_holds(a.rooms@[i as int], mx as int, my as int));
                    self.stamp_char(mx, my, ch, Ghost(a));
                    proof {
                        assert(!stamp_done(*t, px as int, py as int, py as int, px as int));
                        assert(cell(before.tiles@, mx as int, my as int) == cell(s0.tiles@, mx as int, my as int));
                        assert(cell(before.deco_objects@, mx as int, my as int) == cell(s0.deco_objects@, mx as int, my as int));
                    }
                }
                px = px + 1;
            }
            py = py + 1;
        }
    }

    /// From floor 2 on, stamps one vault (two from floor 5 on). For each,
    /// the rooms are tried in order, skipping rooms already stamped, where
    /// the player starts and the boss's: a room that some vault allowed on
    /// the floor (see `vault_allowed`) fits gets, 4 times in 10, one of
    /// those vaults at random, centred (see `stamp_template`); otherwise the
    /// next room is tried. Only vault cells change (see `vaults_stamped`).
    pub fn stamp_vaults(&mut self, floor: i32)
        requires
            map_wf(*old(self)),
        ensures
            map_wf(*final(self)),
            floor < 2 ==> *final(self) == *old(self),
            vaults_stamped(*old(self), *final(self)),
            exists|picks: Seq<(int, VaultTemplate)>, maps: Seq<DungeonMap>|
                #[trigger] stamped_in_turn(*old(self), *final(self), picks, maps, floor as int, vault_count(floor as int)),
    {
        let ghost a = *self;
        proof {
            assert forall|x: int, y: int| 0 <= x < a.width && 0 <= y < a.height implies {
                &&& #[trigger] cell(a.tiles@, x, y) == cell(a.tiles@, x, y)
                    || (vault_cell(a, x, y) && (cell(a.tiles@, x, y) == Tile::Wall || cell(a.tiles@, x, y) == Tile::Floor))
                &&& cell(a.deco_objects@, x, y) == cell(a.deco_objects@, x, y)
                    || (vault_cell(a, x, y) && vault_deco(cell(a.deco_objects@, x, y)))
            } by {}
        }
        let ghost mut picks: Seq<(int, VaultTemplate)> = Seq::empty();
        let ghost mut maps: Seq<DungeonMap> = seq![a];
        proof {
            assert(stamped_in_turn(a, *self, picks, maps, floor as int, vault_count(floor as int)));
        }
        if floor < 2 {
            return;
        }
        let templates = vault_templates();
        let num_vaults: usize = if floor >= 5 { 2 } else { 1 };
        let n = self.rooms.len();
        let mut stamped: Vec<bool> = Vec::new();
        let mut k: usize = 0;
        while k < n
            invariant
                k <= n,
                stamped@.len() == k,
            decreases n - k,
        {
            stamped.push(false);
            k = k + 1;
        }
        let mut v: usize = 0;
        while v < num_vaults
            invariant
                map_wf(*self),
                map_wf(a),
                vaults_stamped(a, *self),
                n == a.rooms@.len(),
                stamped@.len() == n,
                v <= num_vaults,
                num_vaults == (vault_count(floor as int)),
                stamped_in_turn(a, *self, picks, maps, floor as int, vault_count(floor as int)),
                picks.len() <= v,
                forall|k: int| 0 <= k < picks.len() ==> stamped@[(#[trigger] picks[k]).0],
            decreases num_vaults - v,
        {
            let mut suitable: Vec<usize> = Vec::new();
            let mut q: usize = 0;
            while q < templates.len()
                invariant
                    q <= templates@.len(),
                    forall|j: int| 0 <= j < suitable@.len() ==> #[trigger] suitable@[j] < templates@.len()
                        && vault_allowed(templates@[suitable@[j] as int].vault_type, floor as int),
                decreases templates@.len() - q,
            {
                if vault_allowed_on(templates[q].vault_type, floor) {
                    suitable.push(q);
                }
                q = q + 1;
            }
            if suitable.len() > 0 {
                let mut r: usize = 0;
                while r < n
                    invariant_except_break
                        picks.len() <= v,
                    invariant
                        map_wf(*self),
                        map_wf(a),
                        vaults_stamped(a, *self),
                        n == a.rooms@.len(),
                        stamped@.len() == n,
                        r <= n,
                        forall|j: int| 0 <= j < suitable@.len() ==> #[trigger] suitable@[j] < templates@.len()
                            && vault_allowed(templates@[suitable@[j] as int].vault_type, floor as int),
                        v < num_vaults,
                        num_vaults == (vault_count(floor as int)),
                        stamped_in_turn(a, *self, picks, maps, floor as int, vault_count(floor as int)),
                        picks.len() <= v + 1,
                        forall|k: int| 0 <= k < picks.len() ==> stamped@[(#[trigger] picks[k]).0],
                    decreases n - r,
                {
                    let t = self.room_types[r];
                    if !stamped[r] && t != RoomType::Spawn && t != RoomType::Boss {
                        let room = self.rooms[r];
                        assert(rect_inside(a.rooms@[r as int], a.width as int, a.height as int));
                        let room_width = room.x2 - room.x1;
                        let room_height = room.y2 - room.y1;
                        let mut fitting: Vec<usize> = Vec::new();
                        let mut q2: usize = 0;
                        while q2 < suitable.len()
                            invariant
                                q2 <= suitable@.len(),
                                forall|j: int| 0 <= j < suitable@.len() ==> #[trigger] suitable@[j] < templates@.len()
                                    && vault_allowed(templates@[suitable@[j] as int].vault_type, floor as int),
                                forall|j: int| 0 <= j < fitting@.len() ==> #[trigger] fitting@[j] < templates@.len()
                                    && templates@[fitting@[j] as int].min_width <= room_width
                                    && templates@[fitting@[j] as int].min_height <= room_height
                                    && vault_allowed(templates@[fitting@[j] as int].vault_type, floor as int),
                            decreases suitable@.len() - q2,
                        {
                            let tq = &templates[suitable[q2]];
                            if tq.min_width <= room_width && tq.min_height <= room_height {
                                fitting.push(suitable[q2]);
                            }
                            q2 = q2 + 1;
                        }
                        if fitting.len() > 0 && random_ratio(2, 5) {
                            let pick = fitting[random_below(fitting.len())];
                            let ghost before = *self;
                            self.stamp_template(&templates[pick], r, Ghost(a));
                            proof {
                                let t = templates@[pick as int];
                                let old_picks = picks;
                                let old_maps = maps;
                                picks = picks.push((r as int, t));
                                maps = maps.push(*self);
                                assert forall|k: int| 0 <= k < old_picks.len() implies (#[trigger] picks[k]).0 != r as int by {
                                    assert(picks[k] == old_picks[k]);
                                    assert(stamped@[old_picks[k].0]);
                                }
                                assert forall|k: int| 0 <= k < picks.len() implies {
                                    let rr = (#[trigger] picks[k]).0;
                                    let tt = picks[k].1;
                                    &&& 0 <= rr < a.rooms@.len()
                                    &&& a.room_types@[rr] != RoomType::Spawn && a.room_types@[rr] != RoomType::Boss
                                    &&& vault_allowed(tt.vault_type, floor as int)
                                    &&& tt.min_width <= a.rooms@[rr].x2 - a.rooms@[rr].x1 && tt.min_height <= a.rooms@[rr].y2 - a.rooms@[rr].y1
                                    &&& template_stamped(maps[k], maps[k + 1], tt, template_origin(tt, a.rooms@[rr]))
                                } by {
                                    if k < old_picks.len() {
                                        assert(picks[k] == old_picks[k]);
                                        assert(maps[k] == old_maps[k] && maps[k + 1] == old_maps[k + 1]);
                                    } else {
                                        assert(maps[k] == before);
                                    }
                                }
                                assert forall|k1: int, k2: int| 0 <= k1 < k2 < picks.len() implies
                                    (#[trigger] picks[k1]).0 != (#[trigger] picks[k2]).0 by {
                                    if k2 < old_picks.len() {
                                        assert(picks[k1] == old_picks[k1] && picks[k2] == old_picks[k2]);
                                    }
                                }
                            }
                            stamped.set(r, true);
                            proof {
                                assert forall|k: int| 0 <= k < picks.len() implies stamped@[(#[trigger] picks[k]).0] by {
                                    if k < picks.len() - 1 {
                                        assert(picks[k].0 != r as int);
                                    }
                                }
                                assert(stamped_in_turn(a, *self, picks, maps, floor as int, vault_count(floor as int)));
                            }
                            break;
                        }
                    }
                    r = r + 1;
                }
            }
            v = v + 1;
        }
    }
}

} // verus!
