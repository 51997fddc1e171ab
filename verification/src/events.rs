//! What happens when the player steps on a cell: webs, traps and shrine
//! altars; and the loot a kill leaves behind.
use vstd::prelude::*;
use crate::items::{Item, Rarity, random_artifact, random_drop};
use crate::map::{DecoObject, DungeonMap, TrapType, first_floor_from, map_wf, set_cell, in_bounds, same_but_sight};
use crate::mapgen::cell;
use crate::monster::Monster;
use crate::player::{Player, MAX_LEVEL, player_bounded, cooldown_ok, xp_grown};
use crate::rng::{random_below, random_ratio};
use crate::text::int_to_string;
use crate::turn::text3;

verus! {

/// Takes the web at (x, y) off the list, if one is there; returns whether
/// one was (the player is then stuck).
pub fn enter_web(webs: &mut Vec<(usize, usize)>, x: usize, y: usize) -> (stuck: bool)
    ensures
        stuck == old(webs)@.contains((x, y)),
        forall|p: (usize, usize)| p != (x, y) ==> (#[trigger] final(webs)@.contains(p) <==> old(webs)@.contains(p)),
        !stuck ==> final(webs)@ == old(webs)@,
{
    let mut i: usize = 0;
    while i < webs.len()
        invariant
            i <= webs@.len(),
            webs@ == old(webs)@,
            forall|j: int| 0 <= j < i ==> webs@[j] != (x, y),
        decreases webs@.len() - i,
    {
        if webs[i].0 == x && webs[i].1 == y {
            let ghost w0 = webs@;
            webs.remove(i);
            proof {
                assert(w0[i as int] == (x, y));
                assert forall|p: (usize, usize)| p != (x, y) implies (#[trigger] webs@.contains(p) <==> w0.contains(p)) by {
                    if w0.contains(p) {
                        let j = choose|j: int| 0 <= j < w0.len() && w0[j] == p;
                        if j < i { assert(webs@[j] == p); } else { assert(j > i); assert(webs@[j - 1] == p); }
                    }
                    if webs@.contains(p) {
                        let j = choose|j: int| 0 <= j < webs@.len() && webs@[j] == p;
                        if j < i { assert(w0[j] == p); } else { assert(w0[j + 1] == p); }
                    }
                }
            }
            return true;
        }
        i = i + 1;
    }
    false
}

/// Where the player starts on the map (see `get_starting_position`).
pub open spec fn start_of(m: DungeonMap) -> (usize, usize) {
    let k = first_floor_from(m, 0);
    if k < m.width * m.height { ((k / m.height as int) as usize, (k % m.height as int) as usize) } else { (1usize, 1usize) }
}

/// The monsters after an alarm: every living one knows where the player is.
pub open spec fn alarmed(m: Monster) -> Monster {
    if m.hp > 0 { Monster { can_see_player: true, ..m } } else { m }
}

impl DungeonMap {
    /// Springs the trap under the player, if any; the trap is gone after.
    /// Spikes do 1 to 4 damage; fire 2 or 3 and sets the player burning
    /// (2 ticks of poison); a teleport trap sends the player to the floor's
    /// start (and they look around there); an alarm tells every living
    /// monster where the player is. Returns the lines for the log.
    pub fn trigger_trap(&mut self, player: &mut Player, monsters: &mut Vec<Monster>) -> (msgs: Vec<String>)
        requires
            map_wf(*old(self)),
            old(player).x < old(self).width && old(player).y < old(self).height,
            -10_000_000 <= old(player).hp <= 10_000_000,
            0 <= old(player).damage_taken <= i64::MAX - 10,
        ensures
            map_wf(*final(self)),
            final(self).tiles == old(self).tiles,
            ({
                let (x, y) = (old(player).x as int, old(player).y as int);
                let t = cell(old(self).trap_tiles@, x, y);
                &&& t is None ==> *final(self) == *old(self) && *final(player) == *old(player)
                    && final(monsters)@ == old(monsters)@ && msgs@.len() == 0
                &&& t is Some ==> cell(final(self).trap_tiles@, x, y) is None && msgs@.len() == 1
                &&& forall|i: int, j: int| in_bounds(*old(self), i, j) && !(i == x && j == y) ==>
                    #[trigger] cell(final(self).trap_tiles@, i, j) == cell(old(self).trap_tiles@, i, j)
                &&& t == Some(TrapType::Spike) ==> exists|d: int| 1 <= d <= 4 && #[trigger] player_hurt(*old(player), *final(player), d)
                &&& t == Some(TrapType::Fire) ==> exists|d: int| 2 <= d <= 3 && #[trigger] burned(*old(player), *final(player), d)
                &&& t == Some(TrapType::Teleport) ==> *final(player) == (Player { x: start_of(*old(self)).0, y: start_of(*old(self)).1, ..*old(player) })
                &&& t == Some(TrapType::Alarm) ==> *final(player) == *old(player) && final(monsters)@.len() == old(monsters)@.len()
                    && forall|j: int| 0 <= j < old(monsters)@.len() ==> #[trigger] final(monsters)@[j] == alarmed(old(monsters)@[j])
                &&& t != Some(TrapType::Alarm) ==> final(monsters)@ == old(monsters)@
            }),
    {
        let x = player.x;
        let y = player.y;
        let t = self.trap_tiles[x][y];
        let mut msgs: Vec<String> = Vec::new();
        match t {
            None => {
                return msgs;
            },
            Some(trap) => {
                let start = self.get_starting_position();
                set_cell(&mut self.trap_tiles, x, y, None);
                match trap {
                    TrapType::Spike => {
                        let dmg = 1 + random_below(4) as i32;
                        player.take_damage(dmg);
                        player.damage_taken = player.damage_taken + dmg as i64;
                        msgs.push(text3("Spikes erupt from the floor! (-", int_to_string(dmg).as_str(), " HP)"));
                        assert(player_hurt(*old(player), *player, dmg as int));
                    },
                    TrapType::Fire => {
                        let dmg = 2 + random_below(2) as i32;
                        player.take_damage(dmg);
                        player.damage_taken = player.damage_taken + dmg as i64;
                        player.poison_ticks = 2;
                        msgs.push(text3("Flames burst from the ground! (-", int_to_string(dmg).as_str(), " HP, burning!)"));
                        assert(burned(*old(player), *player, dmg as int));
                    },
                    TrapType::Teleport => {
                        player.x = start.0;
                        player.y = start.1;
                        self.update_visibility(start.0, start.1, 8);
                        msgs.push(String::from_str("The floor vanishes beneath you!"));
                    },
                    TrapType::Alarm => {
                        msgs.push(String::from_str("An alarm sounds!"));
                        let ghost m0 = monsters@;
                        let mut i: usize = 0;
                        while i < monsters.len()
                            invariant
                                monsters@.len() == m0.len(),
                                i <= m0.len(),
                                forall|j: int| 0 <= j < m0.len() ==> #[trigger] monsters@[j] == (if j < i { alarmed(m0[j]) } else { m0[j] }),
                            decreases m0.len() - i,
                        {
                            if monsters[i].is_alive() {
                                monsters[i].can_see_player = true;
                            }
                            i = i + 1;
                        }
                    },
                }
            },
        }
        msgs
    }
}

/// `b` is `a` hurt by `d`: HP down by `d` (not below 0) and the damage
/// counted as taken.
pub open spec fn player_hurt(a: Player, b: Player, d: int) -> bool {
    b == (Player {
        hp: (if a.hp - d > 0 { a.hp - d } else { 0 }) as i32,
        damage_taken: (a.damage_taken + d) as i64,
        ..a
    })
}

/// `b` is `a` set burning (2 ticks of poison) and hurt by `d`.
pub open spec fn burned(a: Player, b: Player, d: int) -> bool {
    player_hurt(Player { poison_ticks: 2, ..a }, b, d)
}

/// The map with every cell marked as seen.
pub open spec fn all_remembered(m: DungeonMap) -> bool {
    forall|x: int, y: int| in_bounds(m, x, y) ==> #[trigger] m.visibility@[x]@[y]
}

/// The blessings an altar may give.
pub open spec fn blessed(a: Player, ma: DungeonMap, b: Player, mb: DungeonMap) -> bool {
    ||| b == (Player { bonus_str: (a.bonus_str + 2) as i32, ..a }) && mb == ma
    ||| b == (Player { hp: a.max_hp, ..a }) && mb == ma
    ||| b == (Player { bonus_dodge: (a.bonus_dodge + 10) as i32, ..a }) && mb == ma
    ||| xp_grown(a, 50, b) && mb == ma
    ||| b == a && same_but_sight(ma, mb) && mb.current_visibility == ma.current_visibility && all_remembered(mb)
    ||| b == (Player { warding_buff: true, ..a }) && mb == ma
}

impl DungeonMap {
    /// Marks every cell as seen, leaving what is visible now.
    fn remember_all(&mut self)
        requires
            map_wf(*old(self)),
        ensures
            map_wf(*final(self)),
            same_but_sight(*old(self), *final(self)),
            final(self).current_visibility == old(self).current_visibility,
            all_remembered(*final(self)),
    {
        let w = self.width;
        let h = self.height;
        let mut x: usize = 0;
        while x < w
            invariant
                map_wf(*self),
                same_but_sight(*old(self), *self),
                self.current_visibility == old(self).current_visibility,
                w == self.width && h == self.height,
                x <= w,
                forall|i: int, j: int| 0 <= i < x && 0 <= j < h ==> #[trigger] self.visibility@[i]@[j],
            decreases w - x,
        {
            let mut y: usize = 0;
            while y < h
                invariant
                    map_wf(*self),
                    same_but_sight(*old(self), *self),
                    self.current_visibility == old(self).current_visibility,
                    w == self.width && h == self.height,
                    x < w,
                    y <= h,
                    forall|i: int, j: int| (0 <= i < x && 0 <= j < h) || (i == x && 0 <= j < y) ==> #[trigger] self.visibility@[i]@[j],
                decreases h - y,
            {
                set_cell(&mut self.visibility, x, y, true);
                y = y + 1;
            }
            x = x + 1;
        }
    }

    /// Prays at the altar under the player, once per altar: one of six
    /// blessings at random: +2 STR (for the floor), full healing, +10 dodge
    /// (for the floor), 50 XP, the whole floor remembered as seen, or a
    /// warding that softens the next hit. Returns the lines for the log
    /// (none when there is no unused altar there).
    pub fn use_shrine(&mut self, player: &mut Player) -> (msgs: Vec<String>)
        requires
            map_wf(*old(self)),
            old(player).x < old(self).width && old(player).y < old(self).height,
            player_bounded(*old(player)),
            1 <= old(player).level <= MAX_LEVEL,
            -1_000_000 <= old(player).xp <= 1_000_000,
            -1_000_000 <= old(player).xp_to_next_level <= 1_000_000,
            old(player).base_stats.str_ <= 999_980,
            old(player).base_stats.dex <= 999_980,
            old(player).base_stats.int <= 999_980,
            old(player).base_stats.con <= 999_980,
            old(player).hp <= 9_999_000,
            old(player).max_hp <= 9_999_000,
            cooldown_ok(old(player).ability_1),
            cooldown_ok(old(player).ability_2),
            old(player).bonus_str <= 1_000_000_000 && old(player).bonus_dodge <= 1_000_000_000,
        ensures
            map_wf(*final(self)),
            ({
                let (x, y) = (old(player).x as int, old(player).y as int);
                let fresh = cell(old(self).deco_objects@, x, y) == Some(DecoObject::Altar) && !cell(old(self).shrine_used@, x, y);
                &&& !fresh ==> *final(self) == *old(self) && *final(player) == *old(player) && msgs@.len() == 0
                &&& fresh ==> msgs@.len() >= 1 && blessed(*old(player),
                    DungeonMap { shrine_used: final(self).shrine_used, ..*old(self) }, *final(player), *final(self))
                &&& fresh ==> cell(final(self).shrine_used@, x, y)
                    && forall|i: int, j: int| in_bounds(*old(self), i, j) && !(i == x && j == y) ==>
                        #[trigger] cell(final(self).shrine_used@, i, j) == cell(old(self).shrine_used@, i, j)
            }),
    {
        let x = player.x;
        let y = player.y;
        let mut msgs: Vec<String> = Vec::new();
        let is_altar = match self.deco_objects[x][y] {
            Some(DecoObject::Altar) => true,
            _ => false,
        };
        if !is_altar || self.shrine_used[x][y] {
            return msgs;
        }
        set_cell(&mut self.shrine_used, x, y, true);
        let ghost m1 = *self;
        let roll = random_below(6);
        let buff: &str = if roll == 0 {
            player.bonus_str = player.bonus_str + 2;
            "Strength (+2 STR for this floor)"
        } else if roll == 1 {
            player.hp = player.max_hp;
            "Vitality (fully healed)"
        } else if roll == 2 {
            player.bonus_dodge = player.bonus_dodge + 10;
            "Swiftness (+10% dodge for this floor)"
        } else if roll == 3 {
            let mut level_msgs = player.gain_xp(50);
            msgs.append(&mut level_msgs);
            "Knowledge (+50 XP)"
        } else if roll == 4 {
            self.remember_all();
            "Darkness (map revealed!)"
        } else {
            player.warding_buff = true;
            "Warding (next hit reduced by 5)"
        };
        msgs.push(text3("The shrine pulses... ", buff, "!"));
        msgs
    }
}

/// The index of the first item at (x, y), from index `i` on; -1 when
/// there is none.
pub open spec fn first_at(items: Seq<(usize, usize, Item)>, x: usize, y: usize, i: int) -> int
    decreases items.len() - i,
{
    if i < 0 || i >= items.len() {
        -1
    } else if items[i].0 == x && items[i].1 == y {
        i
    } else {
        first_at(items, x, y, i + 1)
    }
}

/// The items with `it` placed at (x, y): it takes the place of the first
/// item there, or joins the end of the list.
pub open spec fn placed(items: Seq<(usize, usize, Item)>, x: usize, y: usize, it: Item) -> Seq<(usize, usize, Item)> {
    let k = first_at(items, x, y, 0);
    if k >= 0 { items.update(k, (x, y, it)) } else { items.push((x, y, it)) }
}

/// Changing nothing before index `k` and keeping an item at (x, y) there
/// keeps `k` the first index at (x, y).
proof fn lemma_first_at_kept(s: Seq<(usize, usize, Item)>, t: Seq<(usize, usize, Item)>, x: usize, y: usize, i: int, k: int)
    requires
        0 <= i <= k < t.len(),
        k <= s.len(),
        forall|j: int| i <= j < k ==> #[trigger] t[j] == s[j],
        first_at(s, x, y, i) == k || (k == s.len() && first_at(s, x, y, i) == -1),
        t[k].0 == x && t[k].1 == y,
    ensures
        first_at(t, x, y, i) == k,
    decreases k - i,
{
    if i < k {
        lemma_first_at_kept(s, t, x, y, i + 1, k);
    }
}

/// A second item placed on the same cell replaces the first.
pub proof fn lemma_placed_twice(s: Seq<(usize, usize, Item)>, x: usize, y: usize, a: Item, d: Item)
    ensures
        placed(placed(s, x, y, a), x, y, d) == placed(s, x, y, d),
{
    let k = first_at(s, x, y, 0);
    let s1 = placed(s, x, y, a);
    if k >= 0 {
        assert(0 <= k < s.len()) by { lemma_first_at_range(s, x, y, 0); }
        lemma_first_at_kept(s, s1, x, y, 0, k);
        assert(placed(s1, x, y, d) =~= placed(s, x, y, d));
    } else {
        assert(first_at(s, x, y, 0) == -1) by { lemma_first_at_range(s, x, y, 0); }
        lemma_first_at_kept(s, s1, x, y, 0, s.len() as int);
        assert(placed(s1, x, y, d) =~= placed(s, x, y, d));
    }
}

/// The first index at (x, y) is -1 or an index from `i` on.
proof fn lemma_first_at_range(s: Seq<(usize, usize, Item)>, x: usize, y: usize, i: int)
    requires
        0 <= i,
    ensures
        first_at(s, x, y, i) == -1 || i <= first_at(s, x, y, i) < s.len(),
    decreases s.len() - i,
{
    if i < s.len() {
        lemma_first_at_range(s, x, y, i + 1);
    }
}

/// Places an item at (x, y): it replaces an item already there.
pub fn place_item(items: &mut Vec<(usize, usize, Item)>, x: usize, y: usize, item: Item)
    ensures
        final(items)@ == placed(old(items)@, x, y, item),
        final(items)@.len() == old(items)@.len() || final(items)@.len() == old(items)@.len() + 1,
        exists|k: int| 0 <= k < final(items)@.len() && #[trigger] final(items)@[k] == (x, y, item),
        forall|k: int| 0 <= k < final(items)@.len() && ((#[trigger] final(items)@[k]).0 != x || final(items)@[k].1 != y)
            ==> old(items)@.contains(final(items)@[k]),
{
    let mut i: usize = 0;
    while i < items.len()
        invariant
            i <= items@.len(),
            items@ == old(items)@,
            forall|j: int| 0 <= j < i ==> !((#[trigger] items@[j]).0 == x && items@[j].1 == y),
            first_at(items@, x, y, 0) == first_at(items@, x, y, i as int),
        decreases items@.len() - i,
    {
        if items[i].0 == x && items[i].1 == y {
            let ghost before = items@;
            items.set(i, (x, y, item));
            proof {
                assert(items@[i as int] == (x, y, item));
                assert forall|k: int| 0 <= k < items@.len() && ((#[trigger] items@[k]).0 != x || items@[k].1 != y)
                    implies old(items)@.contains(items@[k]) by {
                    assert(k != i);
                    assert(before[k] == items@[k]);
                }
            }
            return;
        }
        i = i + 1;
    }
    items.push((x, y, item));
    proof {
        assert(items@[items@.len() - 1] == (x, y, item));
        assert forall|k: int| 0 <= k < items@.len() && ((#[trigger] items@[k]).0 != x || items@[k].1 != y)
            implies old(items)@.contains(items@[k]) by {
            assert(k < old(items)@.len());
            assert(old(items)@[k] == items@[k]);
        }
    }
}

/// The loot a kill at `dpos` leaves on floor `floor`: from floor 6 on an
/// artifact of the player's class 3 times in 100; a random drop 30 times
/// in 100 (on the same cell, so it replaces the artifact); and a boss
/// always leaves a drop of three floors deeper, at least rare (epic from
/// floor 10), one cell right of where it died (left at the map's edge) and
/// an artifact of the player's class one cell further. Returns the lines
/// for the log.
pub fn kill_loot(items: &mut Vec<(usize, usize, Item)>, dpos: (usize, usize), is_boss: bool, name: &str,
    floor: i32, class_name: &str, map_width: usize) -> (msgs: Vec<String>)
    requires
        floor <= 1_000_000,
        dpos.0 < map_width,
    ensures
        final(items)@.len() <= old(items)@.len() + 4,
        forall|k: int| 0 <= k < final(items)@.len() ==> old(items)@.contains(#[trigger] final(items)@[k])
            || (final(items)@[k].1 == dpos.1 && (final(items)@[k].0 == dpos.0 || is_boss)),
        is_boss ==> msgs@.len() >= 4,
        exists|base: Seq<(usize, usize, Item)>| #[trigger] maybe_placed(old(items)@, base, dpos.0, dpos.1) && if is_boss {
            exists|bd: Item, ba: Item| final(items)@
                == #[trigger] placed(placed(base, beside(dpos.0, map_width), dpos.1, bd), beside(beside(dpos.0, map_width), map_width), dpos.1, ba)
                && bd.rarity == (if floor >= 10 { Rarity::Epic } else { Rarity::Rare })
        } else {
            final(items)@ == base
        },
{
    let mut msgs: Vec<String> = Vec::new();
    let ghost i0 = items@;
    if floor >= 6 && random_below(100) < 3 {
        let artifact = random_artifact(class_name);
        msgs.push(text3("A glowing artifact falls: ", artifact.display_name().as_str(), "!"));
        place_item(items, dpos.0, dpos.1, artifact);
        assert(placed(i0, dpos.0, dpos.1, artifact) == items@);
    }
    let ghost i1 = items@;
    assert(maybe_placed(i0, i1, dpos.0, dpos.1));
    if random_below(100) < 30 {
        let drop = random_drop(floor);
        msgs.push(text5_of("The ", name, " drops a ", drop.display_name().as_str(), "!"));
        place_item(items, dpos.0, dpos.1, drop);
        proof {
            if i1 != i0 {
                let a = choose|it: Item| #[trigger] placed(i0, dpos.0, dpos.1, it) == i1;
                lemma_placed_twice(i0, dpos.0, dpos.1, a, drop);
            }
            assert(placed(i0, dpos.0, dpos.1, drop) == items@);
        }
    }
    let ghost i2 = items@;
    assert(maybe_placed(i0, i2, dpos.0, dpos.1));
    assert forall|k: int| 0 <= k < i2.len() implies i0.contains(#[trigger] i2[k]) || (i2[k].1 == dpos.1 && i2[k].0 == dpos.0) by {
        if !(i2[k].0 == dpos.0 && i2[k].1 == dpos.1) {
            assert(i1.contains(i2[k]));
            let j = choose|j: int| 0 <= j < i1.len() && i1[j] == i2[k];
            if !(i1[j].0 == dpos.0 && i1[j].1 == dpos.1) {
                assert(i0.contains(i1[j]));
            }
        }
    }
    if is_boss {
        msgs.push(String::from_str("*** BOSS DEFEATED! ***"));
        msgs.push(String::from_str("The stairs are unsealed!"));
        let mut boss_drop = random_drop(floor + 3);
        if floor >= 10 {
            boss_drop.rarity = Rarity::Epic;
        } else {
            boss_drop.rarity = Rarity::Rare;
        }
        msgs.push(text5_of("The ", name, " drops a powerful ", boss_drop.display_name().as_str(), "!"));
        let bx = if dpos.0 + 1 < map_width { dpos.0 + 1 } else if dpos.0 > 0 { dpos.0 - 1 } else { 0 };
        let ghost bd = boss_drop;
        place_item(items, bx, dpos.1, boss_drop);
        let ghost i2b = items@;
        let artifact = random_artifact(class_name);
        msgs.push(text3("A legendary artifact appears: ", artifact.display_name().as_str(), "!"));
        let ba_x = if bx + 1 < map_width { bx + 1 } else if bx > 0 { bx - 1 } else { 0 };
        let ghost ba = artifact;
        place_item(items, ba_x, dpos.1, artifact);
        proof {
            assert(items@ == placed(placed(i2, beside(dpos.0, map_width), dpos.1, bd), beside(beside(dpos.0, map_width), map_width), dpos.1, ba));
            let i3 = items@;
            assert forall|k: int| 0 <= k < i3.len() implies i0.contains(#[trigger] i3[k]) || i3[k].1 == dpos.1 by {
                if i3[k].1 != dpos.1 {
                    assert(i2b.contains(i3[k]));
                    let j = choose|j: int| 0 <= j < i2b.len() && i2b[j] == i3[k];
                    assert(i2.contains(i2b[j]));
                    let q = choose|q: int| 0 <= q < i2.len() && i2[q] == i2b[j];
                    assert(i0.contains(i2[q]) || (i2[q].1 == dpos.1 && i2[q].0 == dpos.0));
                }
            }
        }
    }
    msgs
}

/// `b` is `a`, or `a` with one item placed at (x, y) (see `placed`).
pub open spec fn maybe_placed(a: Seq<(usize, usize, Item)>, b: Seq<(usize, usize, Item)>, x: usize, y: usize) -> bool {
    b == a || exists|it: Item| #[trigger] placed(a, x, y, it) == b
}

/// The cell beside column `x` where a boss's treasure lands: to the right,
/// or to the left at the map's edge.
pub open spec fn beside(x: usize, w: usize) -> usize {
    if x + 1 < w { (x + 1) as usize } else if x > 0 { (x - 1) as usize } else { 0 }
}

fn text5_of(a: &str, b: &str, c: &str, d: &str, e: &str) -> (s: String)
    ensures
        s@ == a@ + b@ + c@ + d@ + e@,
{
    crate::turn::text5(a, b, c, d, e)
}

} // verus!
