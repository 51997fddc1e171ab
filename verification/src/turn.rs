//! The monsters' half of a round: projectiles fly, then every living monster
//! suffers its status effects and carries out what it decided. The cells
//! that must be redrawn are handed back to the caller.
use vstd::prelude::*;
use crate::items::ArtifactEffect;
use crate::map::{DungeonMap, map_wf, walkable};
use crate::monster::{
    BehaviorState, Monster, MonsterAction, MonsterType, act_bounded, act_of, monster_ok, monster_place_ok,
    turn_result_ok, Act, Draws, draws_ok, look_around, monster_turn,
};
use crate::player::{Player, MAX_LEVEL, c_witness, cooldown_ok, dodge_total, effective_of, has_effect, player_bounded, same_but_growth};
use crate::projectile::{Projectile, flight_clear};
use crate::rng::random_below;
use crate::text::int_to_string;

verus! {

/// The cells of the living monsters from index `i` on, except index `skip`.
pub open spec fn living_except(ms: Seq<Monster>, skip: int, i: int) -> Seq<(usize, usize)>
    decreases ms.len() - i,
{
    if i < 0 || i >= ms.len() {
        Seq::empty()
    } else if i != skip && ms[i].hp > 0 {
        seq![(ms[i].x, ms[i].y)] + living_except(ms, skip, i + 1)
    } else {
        living_except(ms, skip, i + 1)
    }
}

/// The cells of the living monsters, in order, leaving out index `skip`.
pub fn occupied_positions(monsters: &[Monster], skip: usize) -> (r: Vec<(usize, usize)>)
    ensures
        r@ == living_except(monsters@, skip as int, 0),
{
    let mut r: Vec<(usize, usize)> = Vec::new();
    let mut i: usize = 0;
    while i < monsters.len()
        invariant
            i <= monsters@.len(),
            r@ + living_except(monsters@, skip as int, i as int) == living_except(monsters@, skip as int, 0),
        decreases monsters@.len() - i,
    {
        let ghost before = r@;
        if i != skip && monsters[i].hp > 0 {
            r.push((monsters[i].x, monsters[i].y));
            assert(before + living_except(monsters@, skip as int, i as int)
                =~= r@ + living_except(monsters@, skip as int, i + 1));
        }
        i = i + 1;
    }
    proof {
        assert(r@ + living_except(monsters@, skip as int, i as int) =~= r@);
    }
    r
}

/// The cells of all living monsters, in order.
pub fn all_monster_positions(monsters: &[Monster]) -> (r: Vec<(usize, usize)>)
    ensures
        r@ == living_except(monsters@, -1, 0),
{
    let mut r: Vec<(usize, usize)> = Vec::new();
    let mut i: usize = 0;
    while i < monsters.len()
        invariant
            i <= monsters@.len(),
            r@ + living_except(monsters@, -1, i as int) == living_except(monsters@, -1, 0),
        decreases monsters@.len() - i,
    {
        let ghost before = r@;
        if monsters[i].hp > 0 {
            r.push((monsters[i].x, monsters[i].y));
            assert(before + living_except(monsters@, -1, i as int) =~= r@ + living_except(monsters@, -1, i + 1));
        }
        i = i + 1;
    }
    proof {
        assert(r@ + living_except(monsters@, -1, i as int) =~= r@);
    }
    r
}

/// "a" + "b" + "c".
pub(crate) fn text3(a: &str, b: &str, c: &str) -> (s: String)
    ensures
        s@ == a@ + b@ + c@,
{
    let mut s = String::from_str(a);
    s.append(b);
    s.append(c);
    s
}

/// "a" + "b" + "c" + "d" + "e".
pub(crate) fn text5(a: &str, b: &str, c: &str, d: &str, e: &str) -> (s: String)
    ensures
        s@ == a@ + b@ + c@ + d@ + e@,
{
    let mut s = text3(a, b, c);
    s.append(d);
    s.append(e);
    s
}

/// `old` is a prefix of `new`: lines are only ever added.
pub open spec fn extends<T>(old: Seq<T>, new: Seq<T>) -> bool {
    old.len() <= new.len() && new.subrange(0, old.len() as int) == old
}

/// Damage after the player's armor and Stonehide bonus, at least 1.
pub open spec fn soaked(p: Player, raw: int) -> int {
    let d = raw - crate::player::armor_bonus(p.equipment) - p.stonehide_bonus;
    if d > 1 { d } else { 1 }
}

/// The player rolls to dodge. On a dodge `line` is logged and the
/// Wraithwalkers, when worn, arm their double-damage buff (with a line of
/// their own); otherwise nothing changes.
fn dodge_check(player: &mut Player, log: &mut Vec<String>, line: String) -> (dodged: bool)
    requires
        player_bounded(*old(player)),
    ensures
        !dodged ==> *final(player) == *old(player) && final(log)@ == old(log)@,
        dodged && has_effect(old(player).equipment.armor, ArtifactEffect::Wraithwalkers) ==>
            *final(player) == (Player { wraithwalkers_buff: true, ..*old(player) })
            && final(log)@.len() == old(log)@.len() + 2
            && final(log)@.subrange(0, old(log)@.len() as int) == old(log)@
            && final(log)@[old(log)@.len() as int] == line,
        dodged && !has_effect(old(player).equipment.armor, ArtifactEffect::Wraithwalkers) ==>
            *final(player) == *old(player) && final(log)@ == old(log)@.push(line),
        exists|roll: int| #[trigger] c_witness(dodged, dodge_total(*old(player)), roll),
{
    if player.try_dodge() {
        log.push(line);
        if player.has_wraithwalkers() {
            player.activate_damage_buff();
            log.push(String::from_str("Wraithwalkers! Next hit = 2x dmg!"));
        }
        true
    } else {
        false
    }
}

/// A hit of `raw` damage lands: armor and the Stonehide bonus soak it (see
/// `soaked`, at least 1 gets through); the soaked damage is recorded with
/// its source, counted as taken, and HP drops by it, not below 0. Returns
/// the soaked damage.
fn land_hit(player: &mut Player, raw: i32, source: String) -> (dmg: i32)
    requires
        player_bounded(*old(player)),
        0 <= raw <= 2_000_004,
        0 <= old(player).damage_taken <= i64::MAX - 5_000_000,
    ensures
        dmg == soaked(*old(player), raw as int),
        1 <= dmg <= 4_000_004,
        *final(player) == (Player {
            last_damage_source: Some((source, dmg)),
            hp: (if old(player).hp - dmg > 0 { old(player).hp - dmg } else { 0 }) as i32,
            damage_taken: (old(player).damage_taken + dmg) as i64,
            ..*old(player)
        }),
{
    let dmg = player.reduce_damage(raw);
    player.last_damage_source = Some((source, dmg));
    player.take_damage(dmg);
    player.damage_taken = player.damage_taken + dmg as i64;
    dmg
}

/// Room in the player's numbers for `k` more monster turns (each may cost a
/// poison kill's XP, up to five hits and one kill count), with the level
/// and attributes far from their limits.
pub open spec fn player_fit(p: Player, k: int) -> bool {
    &&& player_bounded(p)
    &&& 1 <= p.level <= MAX_LEVEL
    &&& cooldown_ok(p.ability_1) && cooldown_ok(p.ability_2)
    &&& p.base_stats.str_ + (MAX_LEVEL - p.level) <= 999_980
    &&& p.base_stats.dex + (MAX_LEVEL - p.level) <= 999_980
    &&& p.base_stats.int + (MAX_LEVEL - p.level) <= 999_980
    &&& p.base_stats.con + (MAX_LEVEL - p.level) <= 999_980
    &&& p.hp + 3 * (MAX_LEVEL - p.level) <= 9_999_000
    &&& p.max_hp + 3 * (MAX_LEVEL - p.level) <= 9_999_000
    &&& 0 <= p.xp_to_next_level && p.xp_to_next_level + 800 * (MAX_LEVEL - p.level) <= 100_000
    &&& -1_000_000 <= p.xp && p.xp + 500 * k <= 1_000_000
    &&& p.max_hp >= 1 && effective_of(p).con >= 0
    &&& 0 <= p.damage_taken && p.damage_taken + 25_000_000 * k <= i64::MAX
    &&& p.monsters_slain + k <= u32::MAX
    &&& k >= 0
}

/// A dead monster's place of death is on the map.
pub open spec fn death_on_map(m: Monster, map: DungeonMap) -> bool {
    m.death_pos matches Some(d) ==> d.0 < map.width && d.1 < map.height
}

/// Every monster stands on the map, and so does each place of death; max
/// HP stays between 1 and 1,000,000.
pub open spec fn monsters_placed(ms: Seq<Monster>, map: DungeonMap) -> bool {
    forall|j: int| 0 <= j < ms.len() ==> monster_place_ok(#[trigger] ms[j], map) && death_on_map(ms[j], map)
        && 1 <= ms[j].max_hp <= 1_000_000 && 0 <= ms[j].hp <= 1_000_000
}

/// The projectiles' numbers stay small.
pub open spec fn shots_ok(ps: Seq<Projectile>) -> bool {
    forall|j: int| 0 <= j < ps.len() ==> 0 <= (#[trigger] ps[j]).damage <= 2_000_004
}

/// The player is unchanged but for what a monster turn can affect: HP, XP
/// and level (with what levelling raises), the damage record, the poison,
/// the Stonehide and Wraithwalkers states and the kill count.
pub open spec fn player_kept(a: Player, b: Player) -> bool {
    &&& b.x == a.x && b.y == a.y
    &&& b.class == a.class
    &&& b.equipment == a.equipment
    &&& b.inventory == a.inventory
}


/// The monsters from index `from` up to `n` are in good shape.
pub open spec fn waiting_ok(ms: Seq<Monster>, from: int, n: int, map: DungeonMap) -> bool {
    forall|j: int| from <= j < n ==> monster_ok(#[trigger] ms[j], map)
}

/// After a turn of monster `i` the player still has room for the `k - 1`
/// turns left.
pub proof fn lemma_fit_after_xp(a: Player, b: Player, amount: int, k: int)
    requires
        player_fit(a, k),
        k >= 1,
        0 <= amount <= 500,
        1 <= b.level <= MAX_LEVEL,
        a.level <= b.level,
        b.level < MAX_LEVEL ==> b.xp < b.xp_to_next_level,
        b.level == a.level ==> b.xp == a.xp + amount,
        b.level > a.level ==> b.xp >= 0,
        crate::player::grown_within(a, b),
        same_but_growth(a, b),
        a.max_hp >= 1 && effective_of(a).con >= 0 ==> b.max_hp >= 1 && effective_of(b).con >= 0,
        a.xp_to_next_level >= 0 ==> b.xp <= a.xp + amount && b.xp_to_next_level >= 0,
        player_bounded(b),
        cooldown_ok(b.ability_1),
        cooldown_ok(b.ability_2),
    ensures
        player_fit(b, k - 1),
        player_fit(Player { monsters_slain: (b.monsters_slain + 1) as u32, ..b }, k - 1),
{
}

impl Monster {
    /// The player's cell.
    fn at_player(&self, player: &Player) -> (b: bool)
        ensures
            b == (self.x == player.x && self.y == player.y),
    {
        self.x == player.x && self.y == player.y
    }
}

/// Whether a living monster other than `skip` stands on (x, y).
fn monster_at(monsters: &Vec<Monster>, skip: usize, x: usize, y: usize) -> (b: bool)
    ensures
        b == exists|j: int| 0 <= j < monsters@.len() && j != skip && #[trigger] monsters@[j].hp > 0
            && monsters@[j].x == x && monsters@[j].y == y,
{
    let mut j: usize = 0;
    while j < monsters.len()
        invariant
            j <= monsters@.len(),
            forall|k: int| 0 <= k < j && k != skip ==> !(#[trigger] monsters@[k].hp > 0 && monsters@[k].x == x && monsters@[k].y == y),
        decreases monsters@.len() - j,
    {
        if j != skip && monsters[j].hp > 0 && monsters[j].x == x && monsters[j].y == y {
            return true;
        }
        j = j + 1;
    }
    false
}

/// Adds (x, y) to the webs unless it is there already.
fn add_web(webs: &mut Vec<(usize, usize)>, x: usize, y: usize)
    ensures
        final(webs)@ == (if old(webs)@.contains((x, y)) { old(webs)@ } else { old(webs)@.push((x, y)) }),
{
    let mut j: usize = 0;
    while j < webs.len()
        invariant
            j <= webs@.len(),
            webs@ == old(webs)@,
            forall|k: int| 0 <= k < j ==> webs@[k] != (x, y),
        decreases webs@.len() - j,
    {
        if webs[j].0 == x && webs[j].1 == y {
            return;
        }
        j = j + 1;
    }
    webs.push((x, y));
}


/// `b` is `a` after hits of the monsters' turn: lower HP (not below 0
/// unless it already was), more damage taken (at most `most` more), a new
/// source of damage, poison, the Stonehide and Wraithwalkers states.
pub open spec fn hit_change(a: Player, b: Player, most: int) -> bool {
    &&& b == (Player {
        hp: b.hp,
        damage_taken: b.damage_taken,
        last_damage_source: b.last_damage_source,
        wraithwalkers_buff: b.wraithwalkers_buff,
        poison_ticks: b.poison_ticks,
        stonehide_triggered: b.stonehide_triggered,
        stonehide_bonus: b.stonehide_bonus,
        ..a
    })
    &&& b.hp <= (if a.hp > 0 { a.hp as int } else { 0 })
    &&& -10_000_000 <= b.hp
    &&& a.damage_taken <= b.damage_taken <= a.damage_taken + most
    &&& (b.stonehide_bonus == a.stonehide_bonus || b.stonehide_bonus == 3)
}

pub proof fn lemma_hit_change_trans(a: Player, b: Player, c: Player, m1: int, m2: int)
    requires
        hit_change(a, b, m1),
        hit_change(b, c, m2),
    ensures
        hit_change(a, c, m1 + m2),
{
}

pub proof fn lemma_fit_after_hits(a: Player, b: Player, k: int)
    requires
        player_fit(a, k),
        k >= 1,
        hit_change(a, b, 25_000_000),
    ensures
        player_fit(b, k - 1),
{
}

/// `b` is `a` after an attack of `raw` damage was dodged (HP and the damage
/// taken stay) or landed (both move by the soaked damage, see `soaked`; HP
/// not below 0).
pub open spec fn hit_or_dodged(a: Player, b: Player, raw: int) -> bool {
    ||| b.hp == a.hp && b.damage_taken == a.damage_taken
    ||| b.hp == (if a.hp - soaked(a, raw) > 0 { a.hp - soaked(a, raw) } else { 0 })
        && b.damage_taken == a.damage_taken + soaked(a, raw)
}

/// A monster healed by half of `d`, up to its max HP.
pub open spec fn drained(m: Monster, d: int) -> Monster {
    Monster { hp: (if m.hp + d / 2 < m.max_hp { m.hp + d / 2 } else { m.max_hp as int }) as i32, ..m }
}

/// The player rolls to dodge `dodge_line`'s attack; when it lands, `raw`
/// damage is soaked (see `land_hit`). Returns the damage taken, `None` on a
/// dodge. Lines are only added to the log.
fn strike(player: &mut Player, log: &mut Vec<String>, dodge_line: String, raw: i32, source: String) -> (r: Option<i32>)
    requires
        player_bounded(*old(player)),
        0 <= raw <= 2_000_004,
        0 <= old(player).damage_taken <= i64::MAX - 5_000_000,
    ensures
        hit_change(*old(player), *final(player), 4_000_004),
        final(player).stonehide_bonus == old(player).stonehide_bonus,
        final(player).poison_ticks == old(player).poison_ticks,
        r matches Some(d) ==> 1 <= d <= 4_000_004,
        player_bounded(*final(player)),
        extends(old(log)@, final(log)@),
        r is None ==> final(player).hp == old(player).hp && final(player).damage_taken == old(player).damage_taken,
        r matches Some(d) ==> d == soaked(*old(player), raw as int)
            && final(player).hp == (if old(player).hp - d > 0 { old(player).hp - d } else { 0 })
            && final(player).damage_taken == old(player).damage_taken + d,
{
    let ghost p0 = *player;
    let ghost l0 = log@;
    if dodge_check(player, log, dodge_line) {
        assert(extends(l0, log@)) by {
            if log@.len() == l0.len() + 1 { assert(log@.subrange(0, l0.len() as int) =~= l0); }
        }
        return None;
    }
    let dmg = land_hit(player, raw, source);
    assert(log@.subrange(0, l0.len() as int) =~= l0);
    Some(dmg)
}

/// The Stonehide Plate's one-time trigger: at 30% HP or less it grants 3
/// defence for good.
fn check_stonehide(player: &mut Player, log: &mut Vec<String>)
    requires
        old(player).max_hp >= 1,
        player_bounded(*old(player)),
    ensures
        hit_change(*old(player), *final(player), 0),
        final(player).poison_ticks == old(player).poison_ticks,
        player_bounded(*final(player)),
        extends(old(log)@, final(log)@),
        final(player).hp == old(player).hp && final(player).damage_taken == old(player).damage_taken,
{
    let ghost l0 = log@;
    if !player.stonehide_triggered && player.has_stonehide() {
        let hp = if player.hp > 0 { player.hp } else { 0 };
        proof {
            assert(player.hp * 100 <= 1_000_000_000) by (nonlinear_arith)
                requires player.hp <= 10_000_000;
        }
        let hp_pct = player.hp * 100 / player.max_hp;
        if hp_pct <= 30 {
            player.stonehide_triggered = true;
            player.stonehide_bonus = 3;
            log.push(String::from_str("Stonehide Plate activates! +3 DEF permanently!"));
        }
    }
    assert(log@.subrange(0, l0.len() as int) =~= l0);
}

/// Adding lines keeps what was there: `extends` is transitive.
pub proof fn lemma_extends_trans<T>(a: Seq<T>, b: Seq<T>, c: Seq<T>)
    requires
        extends(a, b),
        extends(b, c),
    ensures
        extends(a, c),
{
    assert(c.subrange(0, a.len() as int) =~= b.subrange(0, a.len() as int));
}


/// The monsters after monster `i`'s turn: at least the first `n` (new ones
/// may join), all placed on the map, and those still to act in good shape.
pub open spec fn turn_ok(ms: Seq<Monster>, i: int, n: int, map: DungeonMap) -> bool {
    &&& ms.len() >= n
    &&& monsters_placed(ms, map)
    &&& waiting_ok(ms, i + 1, n, map)
}

/// A monster after a tick of its poison: 1 HP less (not below 0) and a
/// tick less, when poisoned.
pub open spec fn ticked(m: Monster) -> Monster {
    if m.poison_ticks > 0 {
        Monster { poison_ticks: (m.poison_ticks - 1) as i32, hp: (if m.hp - 1 > 0 { m.hp - 1 } else { 0 }) as i32, ..m }
    } else {
        m
    }
}

/// Poison, stun and freeze at the start of monster `i`'s turn. Poison costs
/// 1 HP a tick; a monster it kills gives the player the kill and its XP,
/// keeps its place of death, has its cell redrawn and does not act. A
/// stunned or frozen monster loses a tick of it instead of acting. Returns
/// whether the monster acts.
#[verifier::rlimit(80)]
#[verifier::spinoff_prover]
fn suffer_status(monsters: &mut Vec<Monster>, i: usize, n: usize, player: &mut Player, map: &DungeonMap,
    log: &mut Vec<String>, erase: &mut Vec<(usize, usize)>, Ghost(k): Ghost<int>) -> (acts: bool)
    requires
        map_wf(*map),
        i < n <= old(monsters)@.len(),
        monsters_placed(old(monsters)@, *map),
        waiting_ok(old(monsters)@, i as int, n as int, *map),
        old(monsters)@[i as int].hp > 0,
        player_fit(*old(player), k),
        k >= 1,
    ensures
        final(monsters)@.len() == old(monsters)@.len(),
        monsters_placed(final(monsters)@, *map),
        waiting_ok(final(monsters)@, i + 1, n as int, *map),
        acts ==> monster_ok(final(monsters)@[i as int], *map) && *final(player) == *old(player),
        !acts ==> player_fit(*final(player), k - 1),
        player_kept(*old(player), *final(player)),
        extends(old(log)@, final(log)@),
        ({
            let m = old(monsters)@[i as int];
            let t = ticked(m);
            &&& t.hp == 0 ==> !acts && final(monsters)@ == old(monsters)@.update(i as int, Monster { death_pos: Some((m.x, m.y)), ..t })
                && final(player).monsters_slain == old(player).monsters_slain + 1
                && crate::player::xp_gained(*old(player), crate::monster::kind_xp(m.monster_type),
                    Player { monsters_slain: old(player).monsters_slain, ..*final(player) })
            &&& t.hp > 0 && m.stun_ticks > 0 ==> !acts && *final(player) == *old(player)
                && final(monsters)@ == old(monsters)@.update(i as int, Monster { stun_ticks: (m.stun_ticks - 1) as i32, ..t })
            &&& t.hp > 0 && m.stun_ticks <= 0 && m.freeze_ticks > 0 ==> !acts && *final(player) == *old(player)
                && final(monsters)@ == old(monsters)@.update(i as int, Monster { freeze_ticks: (m.freeze_ticks - 1) as i32, ..t })
            &&& t.hp > 0 && m.stun_ticks <= 0 && m.freeze_ticks <= 0 ==> acts && *final(player) == *old(player)
                && final(monsters)@ == old(monsters)@.update(i as int, t)
        }),
{
    let ghost l0 = log@;
    if monsters[i].poison_ticks > 0 {
        monsters[i].poison_ticks = monsters[i].poison_ticks - 1;
        monsters[i].take_damage(1);
        if !monsters[i].is_alive() {
            log.push(text3("The ", monsters[i].name.as_str(), " dies from poison!"));
            let xp = monsters[i].xp_value();
            let ghost p1 = *player;
            let level_msgs = player.gain_xp(xp);
            proof { lemma_fit_after_xp(p1, *player, xp as int, k); }
            player.monsters_slain = player.monsters_slain + 1;
            log.push(text3("+", int_to_string(xp).as_str(), " XP"));
            let mut level_msgs = level_msgs;
            let ghost l1 = log@;
            log.append(&mut level_msgs);
            let here = (monsters[i].x, monsters[i].y);
            monsters[i].death_pos = Some(here);
            erase.push(here);
            proof {
                assert(log@.subrange(0, l0.len() as int) =~= l0);
            }
            return false;
        }
    }
    if monsters[i].stun_ticks > 0 {
        monsters[i].stun_ticks = monsters[i].stun_ticks - 1;
        proof { assert(log@.subrange(0, l0.len() as int) =~= l0); }
        return false;
    }
    if monsters[i].freeze_ticks > 0 {
        monsters[i].freeze_ticks = monsters[i].freeze_ticks - 1;
        proof { assert(log@.subrange(0, l0.len() as int) =~= l0); }
        return false;
    }
    proof { assert(log@.subrange(0, l0.len() as int) =~= l0); }
    true
}


/// Melee, poison and drain attacks on the player (see `strike`) with their
/// lines: a melee hit takes the soaked damage off HP and may trigger the
/// Stonehide Plate, poison sets the player's poison, and a drain heals the
/// monster by half the damage (up to its max HP).
fn resolve_attack(monsters: &mut Vec<Monster>, i: usize, n: usize, player: &mut Player, map: &DungeonMap,
    log: &mut Vec<String>, action: MonsterAction)
    requires
        map_wf(*map),
        i < n <= old(monsters)@.len(),
        turn_ok(old(monsters)@, i as int, n as int, *map),
        player_bounded(*old(player)),
        old(player).max_hp >= 1,
        0 <= old(player).damage_taken <= i64::MAX - 25_000_000,
        act_bounded(act_of(action)),
    ensures
        final(monsters)@.len() == old(monsters)@.len(),
        turn_ok(final(monsters)@, i as int, n as int, *map),
        hit_change(*old(player), *final(player), 4_000_004),
        player_bounded(*final(player)),
        extends(old(log)@, final(log)@),
        match act_of(action) {
            Act::Melee(d) => final(monsters)@ == old(monsters)@ && hit_or_dodged(*old(player), *final(player), d as int),
            Act::Poison(d, t) => final(monsters)@ == old(monsters)@ && hit_or_dodged(*old(player), *final(player), d as int)
                && (final(player).damage_taken != old(player).damage_taken ==> final(player).poison_ticks == t),
            Act::Drain(d) => hit_or_dodged(*old(player), *final(player), d as int)
                && (final(player).damage_taken == old(player).damage_taken ==> final(monsters)@ == old(monsters)@)
                && (final(player).damage_taken != old(player).damage_taken ==> final(monsters)@
                    == old(monsters)@.update(i as int, drained(old(monsters)@[i as int], soaked(*old(player), d as int)))),
            _ => final(monsters)@ == old(monsters)@ && *final(player) == *old(player),
        },
{
    let ghost l0 = log@;
    let ghost p0 = *player;
    match action {
        MonsterAction::MeleeAttack { damage, name } => {
            let dodge_line = text3("You dodge the ", name.as_str(), "'s attack!");
            let source = name.clone();
            match strike(player, log, dodge_line, damage, source) {
                Some(dmg) => {
                    let ghost l1 = log@;
                    log.push(text5("<< The ", name.as_str(), " hits you for ", int_to_string(dmg).as_str(), " damage!"));
                    let ghost p1 = *player;
                    check_stonehide(player, log);
                    proof {
                        assert(log@.subrange(0, l1.len() as int) =~= l1); lemma_extends_trans(l0, l1, log@);
                        lemma_hit_change_trans(p0, p1, *player, 4_000_004, 0);
                    }
                },
                None => {},
            }
        },
        MonsterAction::PoisonAttack { damage, name, poison_ticks } => {
            let dodge_line = text3("You dodge the ", name.as_str(), "'s venomous bite!");
            let source = name.clone();
            match strike(player, log, dodge_line, damage, source) {
                Some(dmg) => {
                    player.poison_ticks = poison_ticks;
                    let ghost l1 = log@;
                    let mut line = text5("The ", name.as_str(), " bites you for ", int_to_string(dmg).as_str(), " damage!");
                    line.append(" Poison courses through your veins!");
                    log.push(line);
                    proof { assert(log@.subrange(0, l1.len() as int) =~= l1); lemma_extends_trans(l0, l1, log@); }
                },
                None => {},
            }
        },
        MonsterAction::DrainAttack { damage, name } => {
            let dodge_line = text3("You dodge the ", name.as_str(), "'s spectral grasp!");
            let source = name.clone();
            match strike(player, log, dodge_line, damage, source) {
                Some(dmg) => {
                    let heal = dmg / 2;
                    let h = monsters[i].hp + heal;
                    monsters[i].hp = if h < monsters[i].max_hp { h } else { monsters[i].max_hp };
                    let ghost l1 = log@;
                    let mut line = text5("The ", name.as_str(), " drains ", int_to_string(dmg).as_str(), " life from you! (heals ");
                    line.append(int_to_string(heal).as_str());
                    line.append(")");
                    log.push(line);
                    proof { assert(log@.subrange(0, l1.len() as int) =~= l1); lemma_extends_trans(l0, l1, log@); }
                },
                None => {},
            }
        },
        _ => {
            proof { assert(log@.subrange(0, l0.len() as int) =~= l0); }
        },
    }
}

/// The monsters after monster `i` raises monster `d`: when `d` is dead
/// with a place of death, it comes back there with half its max HP (three
/// quarters when the raiser is of the deep tier), at least 1, idle and free
/// of status effects; otherwise nothing changes.
pub open spec fn raised(ms: Seq<Monster>, i: int, d: int) -> Seq<Monster> {
    if 0 <= d < ms.len() && ms[d].hp <= 0 && ms[d].death_pos is Some {
        let m = ms[d];
        let pos = m.death_pos->0;
        let pct: int = if ms[i].floor_tier >= 3 { 75 } else { 50 };
        let r = m.max_hp * pct / 100;
        ms.update(d, Monster {
            hp: (if r > 1 { r } else { 1 }) as i32,
            x: pos.0,
            y: pos.1,
            death_pos: None,
            stun_ticks: 0,
            freeze_ticks: 0,
            poison_ticks: 0,
            behavior: BehaviorState::Idle,
            ..m
        })
    } else {
        ms
    }
}

/// Another living monster than `i` stands on (x, y).
pub open spec fn other_living_at(ms: Seq<Monster>, i: int, x: int, y: int) -> bool {
    exists|j: int| 0 <= j < ms.len() && j != i && #[trigger] ms[j].hp > 0 && ms[j].x == x && ms[j].y == y
}

/// A Necromancer raises the dead monster with index `dead_idx`: it comes
/// back where it died with half its max HP (three quarters in the deep
/// tier), at least 1, idle and free of status effects.
fn resolve_resurrect(monsters: &mut Vec<Monster>, i: usize, n: usize, map: &DungeonMap, log: &mut Vec<String>, dead_idx: usize)
    requires
        map_wf(*map),
        i < n <= old(monsters)@.len(),
        turn_ok(old(monsters)@, i as int, n as int, *map),
    ensures
        final(monsters)@.len() == old(monsters)@.len(),
        turn_ok(final(monsters)@, i as int, n as int, *map),
        extends(old(log)@, final(log)@),
        final(monsters)@ == raised(old(monsters)@, i as int, dead_idx as int),
{
    let ghost l0 = log@;
    if dead_idx < monsters.len() && !monsters[dead_idx].is_alive() {
        match monsters[dead_idx].death_pos {
            Some(pos) => {
                let restore_pct: i32 = if monsters[i].floor_tier >= 3 { 75 } else { 50 };
                let restored = monsters[dead_idx].max_hp * restore_pct / 100;
                monsters[dead_idx].hp = if restored > 1 { restored } else { 1 };
                monsters[dead_idx].x = pos.0;
                monsters[dead_idx].y = pos.1;
                monsters[dead_idx].death_pos = None;
                monsters[dead_idx].stun_ticks = 0;
                monsters[dead_idx].freeze_ticks = 0;
                monsters[dead_idx].poison_ticks = 0;
                monsters[dead_idx].behavior = BehaviorState::Idle;
                log.push(text3("The Necromancer raises the ", monsters[dead_idx].name.as_str(), " from the dead!"));
            },
            None => {},
        }
    }
    proof { assert(log@.subrange(0, l0.len() as int) =~= l0); }
}


/// A move to (nx, y): blocked by another living monster or the player, and
/// only onto walkable cells; the mover leaves any wall it was phasing
/// through. A goblin of the deep tier that sees the player then takes a
/// second A* step toward the player, striking when that step is the
/// player's cell.
fn resolve_move(monsters: &mut Vec<Monster>, i: usize, n: usize, player: &mut Player, map: &DungeonMap,
    log: &mut Vec<String>, erase: &mut Vec<(usize, usize)>, nx: usize, ny: usize)
    requires
        map_wf(*map),
        i < n <= old(monsters)@.len(),
        turn_ok(old(monsters)@, i as int, n as int, *map),
        0 <= old(monsters)@[i as int].attack <= 1_000_000,
        player_bounded(*old(player)),
        old(player).x < map.width && old(player).y < map.height,
        0 <= old(player).damage_taken <= i64::MAX - 25_000_000,
    ensures
        final(monsters)@.len() == old(monsters)@.len(),
        turn_ok(final(monsters)@, i as int, n as int, *map),
        hit_change(*old(player), *final(player), 4_000_004),
        player_bounded(*final(player)),
        extends(old(log)@, final(log)@),
        other_living_at(old(monsters)@, i as int, nx as int, ny as int) || (nx == old(player).x && ny == old(player).y)
            || !walkable(*map, nx as int, ny as int) ==> final(monsters)@ == old(monsters)@ && *final(player) == *old(player),
        !(other_living_at(old(monsters)@, i as int, nx as int, ny as int) || (nx == old(player).x && ny == old(player).y))
            && walkable(*map, nx as int, ny as int)
            && !(old(monsters)@[i as int].monster_type == MonsterType::Goblin && old(monsters)@[i as int].floor_tier >= 3
                && old(monsters)@[i as int].can_see_player)
            ==> final(monsters)@ == old(monsters)@.update(i as int, Monster { x: nx, y: ny, is_phasing: false, ..old(monsters)@[i as int] })
                && *final(player) == *old(player),
{
    let ghost l0 = log@;
    let blocked = monster_at(monsters, i, nx, ny) || (nx == player.x && ny == player.y);
    if !blocked && map.is_walkable(nx, ny) {
        erase.push((monsters[i].x, monsters[i].y));
        monsters[i].x = nx;
        monsters[i].y = ny;
        monsters[i].is_phasing = false;
        if monsters[i].monster_type == MonsterType::Goblin && monsters[i].floor_tier >= 3 && monsters[i].can_see_player {
            let occupied2 = occupied_positions(monsters.as_slice(), i);
            let player_pos = (player.x, player.y);
            match map.astar_next_step((monsters[i].x, monsters[i].y), player_pos, occupied2.as_slice()) {
                Some(next2) => {
                    let blocked2 = monster_at(monsters, i, next2.0, next2.1);
                    if next2.0 == player.x && next2.1 == player.y {
                        let damage = monsters[i].attack;
                        match strike(player, log, String::from_str("You dodge the Goblin's dash attack!"), damage,
                            String::from_str("Goblin")) {
                            Some(dmg) => {
                                let ghost l1 = log@;
                                log.push(text3("The Goblin dashes and strikes for ", int_to_string(dmg).as_str(), " damage!"));
                                proof { assert(log@.subrange(0, l1.len() as int) =~= l1); lemma_extends_trans(l0, l1, log@); }
                            },
                            None => {},
                        }
                    } else if !blocked2 && map.is_walkable(next2.0, next2.1) {
                        erase.push((monsters[i].x, monsters[i].y));
                        monsters[i].x = next2.0;
                        monsters[i].y = next2.1;
                    }
                },
                None => {},
            }
        }
    }
    proof { assert(log@.subrange(0, l0.len() as int) =~= l0); }
}

/// A phasing move to (nx, ny): any cell on the map but the player's; the
/// mover is phasing when that cell cannot be walked on.
fn resolve_phase(monsters: &mut Vec<Monster>, i: usize, n: usize, player: &Player, map: &DungeonMap,
    erase: &mut Vec<(usize, usize)>, nx: usize, ny: usize)
    requires
        map_wf(*map),
        i < n <= old(monsters)@.len(),
        turn_ok(old(monsters)@, i as int, n as int, *map),
    ensures
        final(monsters)@.len() == old(monsters)@.len(),
        turn_ok(final(monsters)@, i as int, n as int, *map),
        nx < map.width && ny < map.height && !(nx == player.x && ny == player.y) ==> {
            &&& final(monsters)@ == old(monsters)@.update(i as int, Monster { x: nx, y: ny,
                is_phasing: !walkable(*map, nx as int, ny as int), ..old(monsters)@[i as int] })
            &&& final(erase)@ == old(erase)@.push((old(monsters)@[i as int].x, old(monsters)@[i as int].y))
        },
        !(nx < map.width && ny < map.height && !(nx == player.x && ny == player.y)) ==>
            final(monsters)@ == old(monsters)@ && final(erase)@ == old(erase)@,
{
    if nx < map.width && ny < map.height {
        if !(nx == player.x && ny == player.y) {
            erase.push((monsters[i].x, monsters[i].y));
            monsters[i].x = nx;
            monsters[i].y = ny;
            monsters[i].is_phasing = !map.is_walkable(nx, ny);
        }
    }
}

/// The Goblin King calls two goblins (three when below half HP) onto free
/// walkable cells around him, in the order NW, N, NE, W, E, SW, S, SE; they
/// see the player and give chase at once.
fn resolve_summon(monsters: &mut Vec<Monster>, i: usize, n: usize, player: &Player, map: &DungeonMap, log: &mut Vec<String>)
    requires
        map_wf(*map),
        i < n <= old(monsters)@.len(),
        turn_ok(old(monsters)@, i as int, n as int, *map),
        1 <= old(monsters)@[i as int].floor_tier <= 3,
    ensures
        final(monsters)@.len() >= old(monsters)@.len(),
        turn_ok(final(monsters)@, i as int, n as int, *map),
        extends(old(log)@, final(log)@),
{
    let ghost l0 = log@;
    let hp = monsters[i].hp;
    let max_hp = monsters[i].max_hp;
    let enraged = hp * 100 / max_hp < 50;
    let count: usize = if enraged { 3 } else { 2 };
    let bx = monsters[i].x;
    let by = monsters[i].y;
    let floor = monsters[i].floor_tier * 3;
    let mut spawned: usize = 0;
    let mut k: usize = 0;
    while k < 8
        invariant
            map_wf(*map),
            i < n <= monsters@.len(),
            monsters@.len() >= old(monsters)@.len(),
            turn_ok(monsters@, i as int, n as int, *map),
            bx < map.width && by < map.height,
            1 <= floor <= 9,
            spawned <= count,
            log@ == l0,
            k <= 8,
        decreases 8 - k,
    {
        if spawned >= count {
            break;
        }
        let (dx, dy): (i32, i32) = if k == 0 { (-1, -1) } else if k == 1 { (0, -1) } else if k == 2 { (1, -1) }
            else if k == 3 { (-1, 0) } else if k == 4 { (1, 0) } else if k == 5 { (-1, 1) } else if k == 6 { (0, 1) } else { (1, 1) };
        k = k + 1;
        let nx = bx as i32 + dx;
        let ny = by as i32 + dy;
        if nx >= 0 && ny >= 0 {
            let ux = nx as usize;
            let uy = ny as usize;
            if ux < map.width && uy < map.height && map.is_walkable(ux, uy) && !(ux == player.x && uy == player.y) {
                if !monster_at(monsters, usize::MAX, ux, uy) {
                    let mut goblin = Monster::new(ux, uy, MonsterType::Goblin, floor);
                    goblin.can_see_player = true;
                    goblin.behavior = BehaviorState::Chase;
                    let ghost before = monsters@;
                    monsters.push(goblin);
                    proof {
                        assert forall|j: int| 0 <= j < monsters@.len() implies monster_place_ok(#[trigger] monsters@[j], *map)
                            && death_on_map(monsters@[j], *map) && 1 <= monsters@[j].max_hp <= 1_000_000
                            && 0 <= monsters@[j].hp <= 1_000_000 by {
                            if j < before.len() { assert(monsters@[j] == before[j]); }
                        }
                        assert forall|j: int| i + 1 <= j < n implies monster_ok(#[trigger] monsters@[j], *map) by {
                            assert(monsters@[j] == before[j]);
                        }
                    }
                    spawned = spawned + 1;
                }
            }
        }
    }
    if spawned > 0 {
        let mut line = text3("The Goblin King bellows! ", int_to_string(spawned as i32).as_str(), " goblins rush");
        line.append(" to his aid!");
        log.push(line);
    }
    proof { assert(log@.subrange(0, l0.len() as int) =~= l0); }
}


/// The Bone Dragon's breath: a line of up to `range` cells from (sx, sy)
/// in direction (dx, dy), stopped by the map's edge and by anything that
/// cannot be walked on; the player standing on it is struck (see
/// `strike`).
fn resolve_breath(player: &mut Player, map: &DungeonMap, log: &mut Vec<String>, sx: usize, sy: usize,
    dx: i32, dy: i32, damage: i32, range: i32)
    requires
        map_wf(*map),
        sx < map.width && sy < map.height,
        -1 <= dx <= 1 && -1 <= dy <= 1,
        0 <= damage <= 2_000_004,
        0 <= range <= 5,
        player_bounded(*old(player)),
        0 <= old(player).damage_taken <= i64::MAX - 25_000_000,
    ensures
        hit_change(*old(player), *final(player), 20_000_020),
        player_bounded(*final(player)),
        extends(old(log)@, final(log)@),
{
    let ghost l0 = log@;
    let ghost p0 = *player;
    log.push(String::from_str("The Bone Dragon unleashes a torrent of fire!"));
    let ghost l1 = log@;
    proof { assert(log@.subrange(0, l0.len() as int) =~= l0); }
    let mut cx: i64 = sx as i64;
    let mut cy: i64 = sy as i64;
    let mut step: i32 = 0;
    while step < range
        invariant
            map_wf(*map),
            -1 <= dx <= 1 && -1 <= dy <= 1,
            0 <= damage <= 2_000_004,
            0 <= step <= range <= 5,
            sx - step <= cx <= sx + step && sy - step <= cy <= sy + step,
            sx < map.width && sy < map.height,
            player_bounded(*player),
            hit_change(p0, *player, 4_000_004 * step),
            0 <= p0.damage_taken <= i64::MAX - 25_000_000,
            extends(l0, log@),
        decreases range - step,
    {
        step = step + 1;
        cx = cx + dx as i64;
        cy = cy + dy as i64;
        if cx < 0 || cy < 0 || cx >= map.width as i64 || cy >= map.height as i64 {
            break;
        }
        let ux = cx as usize;
        let uy = cy as usize;
        if !map.is_walkable(ux, uy) {
            break;
        }
        if ux == player.x && uy == player.y {
            let ghost p1 = *player;
            let ghost lb = log@;
            match strike(player, log, String::from_str("You duck under the dragon's breath!"), damage,
                String::from_str("Bone Dragon")) {
                Some(dmg) => {
                    let ghost lc = log@;
                    log.push(text3("[**] Dragon fire engulfs you for ", int_to_string(dmg).as_str(), " damage!"));
                    proof { assert(log@.subrange(0, lc.len() as int) =~= lc); lemma_extends_trans(lb, lc, log@); }
                },
                None => {},
            }
            proof {
                lemma_extends_trans(l0, lb, log@);
                lemma_hit_change_trans(p0, p1, *player, 4_000_004 * (step - 1), 4_000_004);
            }
        }
    }
}

/// The Shadow Lord's pulse strikes the player within `radius` of (sx, sy)
/// (see `strike`).
fn resolve_pulse(player: &mut Player, log: &mut Vec<String>, sx: usize, sy: usize, damage: i32, radius: i32)
    requires
        sx <= 10_000 && sy <= 10_000,
        old(player).x <= 10_000 && old(player).y <= 10_000,
        0 <= damage <= 2_000_004,
        player_bounded(*old(player)),
        0 <= old(player).damage_taken <= i64::MAX - 25_000_000,
    ensures
        hit_change(*old(player), *final(player), 4_000_004),
        player_bounded(*final(player)),
        extends(old(log)@, final(log)@),
{
    let ghost l0 = log@;
    let dist_to_player = DungeonMap::distance(sx, sy, player.x, player.y);
    log.push(String::from_str("The Shadow Lord releases a wave of dark energy!"));
    let ghost l1 = log@;
    proof { assert(log@.subrange(0, l0.len() as int) =~= l0); }
    if dist_to_player <= radius {
        match strike(player, log, String::from_str("You resist the shadow pulse!"), damage, String::from_str("Shadow Lord")) {
            Some(dmg) => {
                let ghost l2 = log@;
                log.push(text3("[~~] Shadow energy tears at you for ", int_to_string(dmg).as_str(), " damage!"));
                proof { assert(log@.subrange(0, l2.len() as int) =~= l2); lemma_extends_trans(l1, l2, log@); }
            },
            None => {},
        }
        proof { lemma_extends_trans(l0, l1, log@); }
    }
}

/// The Shadow Lord teleports to a random walkable, free cell 2 to 5 steps
/// from the player (searching the square of 8 cells around the player).
fn resolve_teleport(monsters: &mut Vec<Monster>, i: usize, n: usize, player: &Player, map: &DungeonMap,
    log: &mut Vec<String>, erase: &mut Vec<(usize, usize)>)
    requires
        map_wf(*map),
        i < n <= old(monsters)@.len(),
        turn_ok(old(monsters)@, i as int, n as int, *map),
        player.x < map.width && player.y < map.height,
    ensures
        final(monsters)@.len() == old(monsters)@.len(),
        turn_ok(final(monsters)@, i as int, n as int, *map),
        extends(old(log)@, final(log)@),
{
    let ghost l0 = log@;
    let px = player.x;
    let py = player.y;
    let search: i32 = 8;
    let min_x: usize = if px as i32 - search > 0 { (px as i32 - search) as usize } else { 0 };
    let max_x: usize = if px + 8 < map.width - 1 { px + 8 } else { map.width - 1 };
    let min_y: usize = if py as i32 - search > 0 { (py as i32 - search) as usize } else { 0 };
    let max_y: usize = if py + 8 < map.height - 1 { py + 8 } else { map.height - 1 };
    let mut candidates: Vec<(usize, usize)> = Vec::new();
    let mut tx = min_x;
    while tx <= max_x
        invariant
            map_wf(*map),
            max_x < map.width && max_y < map.height,
            px < map.width && py < map.height,
            min_y <= py <= max_y,
            min_x <= tx <= max_x + 1,
            forall|j: int| 0 <= j < candidates@.len() ==> walkable(*map, (#[trigger] candidates@[j]).0 as int, candidates@[j].1 as int),
        decreases max_x + 1 - tx,
    {
        let mut ty = min_y;
        while ty <= max_y
            invariant
                map_wf(*map),
                max_x < map.width && max_y < map.height,
                px < map.width && py < map.height,
                min_x <= tx <= max_x,
                min_y <= ty <= max_y + 1,
                forall|j: int| 0 <= j < candidates@.len() ==> walkable(*map, (#[trigger] candidates@[j]).0 as int, candidates@[j].1 as int),
            decreases max_y + 1 - ty,
        {
            let d = DungeonMap::distance(tx, ty, px, py);
            if d >= 2 && d <= 5 && map.is_walkable(tx, ty) && !(tx == px && ty == py) {
                if !monster_at(monsters, usize::MAX, tx, ty) {
                    candidates.push((tx, ty));
                }
            }
            ty = ty + 1;
        }
        tx = tx + 1;
    }
    if candidates.len() > 0 {
        let idx = random_below(candidates.len());
        let (nx, ny) = candidates[idx];
        erase.push((monsters[i].x, monsters[i].y));
        monsters[i].x = nx;
        monsters[i].y = ny;
        log.push(String::from_str("The Shadow Lord vanishes and reappears in a swirl of darkness!"));
    }
    proof { assert(log@.subrange(0, l0.len() as int) =~= l0); }
}


/// Every web lies on a walkable cell.
pub open spec fn webs_ok(webs: Seq<(usize, usize)>, map: DungeonMap) -> bool {
    forall|j: int| 0 <= j < webs.len() ==> walkable(map, (#[trigger] webs[j]).0 as int, webs[j].1 as int)
}

/// Fewer turns left need less room.
pub proof fn lemma_fit_fewer(p: Player, k: int)
    requires
        player_fit(p, k),
        k >= 1,
    ensures
        player_fit(p, k - 1),
{
}

/// The cells of living monsters on the map lie on the map.
pub proof fn lemma_living_on_map(ms: Seq<Monster>, skip: int, i: int, map: DungeonMap)
    requires
        monsters_placed(ms, map),
        map_wf(map),
    ensures
        forall|j: int| 0 <= j < living_except(ms, skip, i).len() ==>
            (#[trigger] living_except(ms, skip, i)[j]).0 < map.width && living_except(ms, skip, i)[j].1 < map.height,
    decreases ms.len() - i,
{
    if i < 0 || i >= ms.len() {
    } else {
        lemma_living_on_map(ms, skip, i + 1, map);
        let rest = living_except(ms, skip, i + 1);
        if i != skip && ms[i].hp > 0 {
            assert(monster_place_ok(ms[i], map));
            assert forall|j: int| 0 <= j < living_except(ms, skip, i).len() implies
                (#[trigger] living_except(ms, skip, i)[j]).0 < map.width && living_except(ms, skip, i)[j].1 < map.height by {
                if j > 0 { assert(living_except(ms, skip, i)[j] == rest[j - 1]); }
            }
        }
    }
}

/// What action `a` of monster `i` does, the monsters having decided
/// (`ms`): nothing; an attack dodged or landed (see `hit_or_dodged`), a
/// poison bite poisoning, a drain healing the drainer (see `drained`); a web
/// on a walkable cell without one; an arrow added to the projectiles; a
/// dead monster raised (see `raised`); a move onto a free walkable cell (a
/// deep-tier goblin that sees the player may dash a second step); a phasing
/// move (see `resolve_phase`). The bosses' summons, breath, pulse and
/// teleport are left to their own functions; they add no projectile or web.
pub open spec fn acted(ms: Seq<Monster>, p: Player, ps: Seq<Projectile>, ws: Seq<(usize, usize)>,
    ms1: Seq<Monster>, p1: Player, ps1: Seq<Projectile>, ws1: Seq<(usize, usize)>, i: int, a: Act, map: DungeonMap) -> bool {
    match a {
        Act::Nothing => ms1 == ms && p1 == p && ps1 == ps && ws1 == ws,
        Act::Melee(d) => ms1 == ms && hit_or_dodged(p, p1, d as int) && ps1 == ps && ws1 == ws,
        Act::Poison(d, t) => ms1 == ms && hit_or_dodged(p, p1, d as int) && ps1 == ps && ws1 == ws
            && (p1.damage_taken != p.damage_taken ==> p1.poison_ticks == t),
        Act::Drain(d) => hit_or_dodged(p, p1, d as int) && ps1 == ps && ws1 == ws
            && (p1.damage_taken == p.damage_taken ==> ms1 == ms)
            && (p1.damage_taken != p.damage_taken ==> ms1 == ms.update(i, drained(ms[i], soaked(p, d as int)))),
        Act::Web(x, y) => ms1 == ms && p1 == p && ps1 == ps
            && ws1 == (if walkable(map, x as int, y as int) && !ws.contains((x, y)) { ws.push((x, y)) } else { ws }),
        Act::Fire(x, y, dx, dy, dmg, sym) => ms1 == ms && p1 == p && ws1 == ws
            && ps1.len() == ps.len() + 1 && ps1.drop_last() == ps
            && ps1.last().x == x && ps1.last().y == y && ps1.last().dx == dx && ps1.last().dy == dy
            && ps1.last().damage == dmg && ps1.last().symbol == sym,
        Act::Resurrect(d) => ms1 == raised(ms, i, d as int) && p1 == p && ps1 == ps && ws1 == ws,
        Act::MoveTo(x, y) => ps1 == ps && ws1 == ws
            && (other_living_at(ms, i, x as int, y as int) || (x == p.x && y == p.y) || !walkable(map, x as int, y as int)
                ==> ms1 == ms && p1 == p)
            && (!(other_living_at(ms, i, x as int, y as int) || (x == p.x && y == p.y)) && walkable(map, x as int, y as int)
                && !(ms[i].monster_type == MonsterType::Goblin && ms[i].floor_tier >= 3 && ms[i].can_see_player)
                ==> ms1 == ms.update(i, Monster { x, y, is_phasing: false, ..ms[i] }) && p1 == p),
        Act::MoveToPhase(x, y) => ps1 == ps && ws1 == ws && p1 == p
            && (x < map.width && y < map.height && !(x == p.x && y == p.y) ==>
                ms1 == ms.update(i, Monster { x, y, is_phasing: !walkable(map, x as int, y as int), ..ms[i] }))
            && (!(x < map.width && y < map.height && !(x == p.x && y == p.y)) ==> ms1 == ms),
        _ => ps1 == ps && ws1 == ws,
    }
}

/// Monster `i`'s whole turn, from the monsters `ms`, player `p`,
/// projectiles `ps` and webs `ws` to `ms1`, `p1`, `ps1`, `ws1`: a dead
/// monster does nothing; poison ticks (see `ticked`) and may kill it (the
/// player gets the kill and its XP); a stunned or frozen one loses a tick
/// of it; any other decides (see `monster_turn`, with the other living
/// monsters' cells as occupied) and acts (see `acted`).
pub open spec fn turn_done(ms: Seq<Monster>, p: Player, ps: Seq<Projectile>, ws: Seq<(usize, usize)>,
    ms1: Seq<Monster>, p1: Player, ps1: Seq<Projectile>, ws1: Seq<(usize, usize)>, i: int, map: DungeonMap,
    all: Seq<(usize, usize)>, dead: Seq<usize>) -> bool {
    let m = ms[i];
    let t = ticked(m);
    if m.hp <= 0 {
        ms1 == ms && p1 == p && ps1 == ps && ws1 == ws
    } else if t.hp == 0 {
        ps1 == ps && ws1 == ws && ms1 == ms.update(i, Monster { death_pos: Some((m.x, m.y)), ..t })
            && p1.monsters_slain == p.monsters_slain + 1
            && crate::player::xp_gained(p, crate::monster::kind_xp(m.monster_type), Player { monsters_slain: p.monsters_slain, ..p1 })
    } else if m.stun_ticks > 0 {
        ps1 == ps && ws1 == ws && p1 == p && ms1 == ms.update(i, Monster { stun_ticks: (m.stun_ticks - 1) as i32, ..t })
    } else if m.freeze_ticks > 0 {
        ps1 == ps && ws1 == ws && p1 == p && ms1 == ms.update(i, Monster { freeze_ticks: (m.freeze_ticks - 1) as i32, ..t })
    } else {
        let ppos = (p.x, p.y);
        let mt = ms.update(i, t);
        let occ = living_except(mt, i, 0);
        exists|o: Draws| #[trigger] draws_ok(look_around(t, ppos, map), map, ppos, occ, all, dead, o) && {
            let r = monster_turn(t, ppos, map, occ, all, dead, o);
            acted(mt.update(i, r.0), p, ps, ws, ms1, p1, ps1, ws1, i, r.1, map)
        }
    }
}

/// Monster `i`'s whole turn: status effects, its decision (see
/// `decide_action`) and what the decision does to the player, the
/// monsters, the webs and the projectiles.
fn monster_turn_step(monsters: &mut Vec<Monster>, i: usize, n: usize, player: &mut Player, projectiles: &mut Vec<Projectile>,
    map: &DungeonMap, log: &mut Vec<String>, webs: &mut Vec<(usize, usize)>, erase: &mut Vec<(usize, usize)>,
    all_positions: &[(usize, usize)], dead_indices: &[usize], Ghost(k): Ghost<int>)
    requires
        map_wf(*map),
        i < n <= old(monsters)@.len(),
        monsters_placed(old(monsters)@, *map),
        waiting_ok(old(monsters)@, i as int, n as int, *map),
        player_fit(*old(player), k),
        k >= 1,
        old(player).x < map.width && old(player).y < map.height,
        forall|j: int| 0 <= j < all_positions@.len() ==>
            (#[trigger] all_positions@[j]).0 <= 0x1fff_ffff && all_positions@[j].1 <= 0x1fff_ffff,
        shots_ok(old(projectiles)@),
        webs_ok(old(webs)@, *map),
    ensures
        turn_ok(final(monsters)@, i as int, n as int, *map),
        final(monsters)@.len() >= old(monsters)@.len(),
        player_fit(*final(player), k - 1),
        player_kept(*old(player), *final(player)),
        extends(old(log)@, final(log)@),
        extends(old(projectiles)@, final(projectiles)@),
        shots_ok(final(projectiles)@),
        extends(old(webs)@, final(webs)@),
        webs_ok(final(webs)@, *map),
        turn_done(old(monsters)@, *old(player), old(projectiles)@, old(webs)@,
            final(monsters)@, *final(player), final(projectiles)@, final(webs)@, i as int, *map, all_positions@, dead_indices@),
{
    let ghost l0 = log@;
    let ghost p0 = *player;
    let ghost ms0 = monsters@;
    let ghost ps0 = projectiles@;
    let ghost ws0 = webs@;
    proof {
        assert(projectiles@.subrange(0, projectiles@.len() as int) =~= projectiles@);
        assert(webs@.subrange(0, webs@.len() as int) =~= webs@);
        assert(log@.subrange(0, l0.len() as int) =~= l0);
    }
    if !monsters[i].is_alive() {
        proof { lemma_fit_fewer(*player, k); }
        return;
    }
    if !suffer_status(monsters, i, n, player, map, log, erase, Ghost(k)) {
        return;
    }
    let ghost l1 = log@;
    let occupied = occupied_positions(monsters.as_slice(), i);
    let was_berserk = monsters[i].is_berserk;
    let player_pos = (player.x, player.y);
    let ghost ms1 = monsters@;
    let action = monsters[i].decide_action(player_pos, map, occupied.as_slice(), all_positions, dead_indices);
    proof {
        assert forall|j: int| 0 <= j < monsters@.len() implies monster_place_ok(#[trigger] monsters@[j], *map)
            && death_on_map(monsters@[j], *map) && 1 <= monsters@[j].max_hp <= 1_000_000
            && 0 <= monsters@[j].hp <= 1_000_000 by {
            if j != i { assert(monsters@[j] == ms1[j]); }
        }
        assert forall|j: int| i + 1 <= j < n implies monster_ok(#[trigger] monsters@[j], *map) by {
            assert(monsters@[j] == ms1[j]);
        }
    }
    if monsters[i].is_berserk && !was_berserk {
        log.push(String::from_str("The Troll flies into a rage!"));
    }
    let ghost l2 = log@;
    proof { assert(log@.subrange(0, l1.len() as int) =~= l1); lemma_extends_trans(l0, l1, l2); }
    let ghost p1 = *player;
    match action {
        MonsterAction::Nothing => {
            proof { lemma_fit_fewer(*player, k); }
        },
        MonsterAction::MeleeAttack { damage, name } => {
            resolve_attack(monsters, i, n, player, map, log, MonsterAction::MeleeAttack { damage, name });
            proof { lemma_fit_after_hits(p1, *player, k); lemma_extends_trans(l0, l2, log@); }
        },
        MonsterAction::PoisonAttack { damage, name, poison_ticks } => {
            resolve_attack(monsters, i, n, player, map, log, MonsterAction::PoisonAttack { damage, name, poison_ticks });
            proof { lemma_fit_after_hits(p1, *player, k); lemma_extends_trans(l0, l2, log@); }
        },
        MonsterAction::DrainAttack { damage, name } => {
            resolve_attack(monsters, i, n, player, map, log, MonsterAction::DrainAttack { damage, name });
            proof { lemma_fit_after_hits(p1, *player, k); lemma_extends_trans(l0, l2, log@); }
        },
        MonsterAction::PlaceWeb(wx, wy) => {
            if map.is_walkable(wx, wy) {
                let ghost w0 = webs@;
                add_web(webs, wx, wy);
                proof { assert(webs@.subrange(0, w0.len() as int) =~= w0); }
            }
            proof { lemma_fit_fewer(*player, k); }
        },
        MonsterAction::Resurrect(dead_idx) => {
            resolve_resurrect(monsters, i, n, map, log, dead_idx);
            proof { lemma_fit_fewer(*player, k); lemma_extends_trans(l0, l2, log@); }
        },
        MonsterAction::MoveTo(nx, ny) => {
            resolve_move(monsters, i, n, player, map, log, erase, nx, ny);
            proof { lemma_fit_after_hits(p1, *player, k); lemma_extends_trans(l0, l2, log@); }
        },
        MonsterAction::MoveToPhase(nx, ny) => {
            resolve_phase(monsters, i, n, player, map, erase, nx, ny);
            proof { lemma_fit_fewer(*player, k); }
        },
        MonsterAction::FireProjectile(proj) => {
            log.push(text3("The ", monsters[i].name.as_str(), " fires an arrow!"));
            let ghost s0 = projectiles@;
            projectiles.push(proj);
            proof {
                assert(projectiles@.subrange(0, s0.len() as int) =~= s0);
                assert(log@.subrange(0, l2.len() as int) =~= l2);
                lemma_extends_trans(l0, l2, log@);
                lemma_fit_fewer(*player, k);
            }
        },
        MonsterAction::BossSummon => {
            resolve_summon(monsters, i, n, player, map, log);
            proof { lemma_fit_fewer(*player, k); lemma_extends_trans(l0, l2, log@); }
        },
        MonsterAction::BreathAttack { dx, dy, damage, range } => {
            resolve_breath(player, map, log, monsters[i].x, monsters[i].y, dx, dy, damage, range);
            proof { lemma_fit_after_hits(p1, *player, k); lemma_extends_trans(l0, l2, log@); }
        },
        MonsterAction::ShadowPulse { damage, radius } => {
            resolve_pulse(player, log, monsters[i].x, monsters[i].y, damage, radius);
            proof { lemma_fit_after_hits(p1, *player, k); lemma_extends_trans(l0, l2, log@); }
        },
        MonsterAction::BossTeleport => {
            resolve_teleport(monsters, i, n, player, map, log, erase);
            proof { lemma_fit_fewer(*player, k); lemma_extends_trans(l0, l2, log@); }
        },
    }
}


/// The indices, from `i` on, of dead monsters that kept a place of death.
pub open spec fn dead_from(ms: Seq<Monster>, i: int) -> Seq<usize>
    decreases ms.len() - i,
{
    if i < 0 || i >= ms.len() {
        Seq::empty()
    } else if ms[i].hp <= 0 && ms[i].death_pos is Some {
        seq![i as usize] + dead_from(ms, i + 1)
    } else {
        dead_from(ms, i + 1)
    }
}

/// The indices of the dead a Necromancer may raise.
fn dead_monster_indices(monsters: &[Monster]) -> (r: Vec<usize>)
    ensures
        r@ == dead_from(monsters@, 0),
{
    let mut r: Vec<usize> = Vec::new();
    let mut i: usize = 0;
    while i < monsters.len()
        invariant
            i <= monsters@.len(),
            r@ + dead_from(monsters@, i as int) == dead_from(monsters@, 0),
        decreases monsters@.len() - i,
    {
        let ghost before = r@;
        if !monsters[i].is_alive() && monsters[i].death_pos.is_some() {
            r.push(i);
            assert(before + dead_from(monsters@, i as int) =~= r@ + dead_from(monsters@, i + 1));
        }
        i = i + 1;
    }
    proof {
        assert(r@ + dead_from(monsters@, i as int) =~= r@);
    }
    r
}

/// The round from the states `ms`, `p`, `ps`, `ws` to `ms1`, `p1`, `ps1`,
/// `ws1` went through the states `mss`, `pls`, `pss`, `wss`, one turn of
/// each of the first `n` monsters after the other (see `turn_done`), all of
/// them seeing the living monsters' cells `all` and the dead `dead` as at
/// the start of the round.
pub open spec fn round_done(ms: Seq<Monster>, p: Player, ps: Seq<Projectile>, ws: Seq<(usize, usize)>,
    ms1: Seq<Monster>, p1: Player, ps1: Seq<Projectile>, ws1: Seq<(usize, usize)>, map: DungeonMap, n: int,
    all: Seq<(usize, usize)>, dead: Seq<usize>,
    mss: Seq<Seq<Monster>>, pls: Seq<Player>, pss: Seq<Seq<Projectile>>, wss: Seq<Seq<(usize, usize)>>) -> bool {
    &&& mss.len() == n + 1 && pls.len() == n + 1 && pss.len() == n + 1 && wss.len() == n + 1
    &&& mss[0] == ms && pls[0] == p && pss[0] == ps && wss[0] == ws
    &&& mss[n] == ms1 && pls[n] == p1 && pss[n] == ps1 && wss[n] == ws1
    &&& forall|k: int| 0 <= k < n ==> #[trigger] turn_done(mss[k], pls[k], pss[k], wss[k],
        mss[k + 1], pls[k + 1], pss[k + 1], wss[k + 1], k, map, all, dead)
}

/// All monsters' turns, in order (those summoned during the round wait for
/// the next one). The player stays put and keeps class, equipment and
/// inventory; monsters only stand on the map; lines, projectiles and webs
/// are only ever added (webs on walkable cells). Returns the cells to
/// redraw.
pub fn process_monsters(monsters: &mut Vec<Monster>, player: &mut Player, projectiles: &mut Vec<Projectile>,
    map: &DungeonMap, log: &mut Vec<String>, webs: &mut Vec<(usize, usize)>) -> (erase: Vec<(usize, usize)>)
    requires
        map_wf(*map),
        forall|j: int| 0 <= j < old(monsters)@.len() ==> monster_ok(#[trigger] old(monsters)@[j], *map)
            && death_on_map(old(monsters)@[j], *map),
        player_fit(*old(player), old(monsters)@.len() as int),
        old(player).x < map.width && old(player).y < map.height,
        shots_ok(old(projectiles)@),
        webs_ok(old(webs)@, *map),
    ensures
        final(monsters)@.len() >= old(monsters)@.len(),
        monsters_placed(final(monsters)@, *map),
        player_kept(*old(player), *final(player)),
        player_fit(*final(player), 0),
        extends(old(log)@, final(log)@),
        extends(old(projectiles)@, final(projectiles)@),
        shots_ok(final(projectiles)@),
        extends(old(webs)@, final(webs)@),
        webs_ok(final(webs)@, *map),
        exists|mss: Seq<Seq<Monster>>, pls: Seq<Player>, pss: Seq<Seq<Projectile>>, wss: Seq<Seq<(usize, usize)>>|
            #[trigger] round_done(old(monsters)@, *old(player), old(projectiles)@, old(webs)@,
                final(monsters)@, *final(player), final(projectiles)@, final(webs)@, *map, old(monsters)@.len() as int,
                living_except(old(monsters)@, -1, 0), dead_from(old(monsters)@, 0), mss, pls, pss, wss),
{
    let ghost p0 = *player;
    let ghost l0 = log@;
    let ghost s0 = projectiles@;
    let ghost w0 = webs@;
    let ghost m0 = monsters@;
    let ghost mut mss: Seq<Seq<Monster>> = seq![monsters@];
    let ghost mut pls: Seq<Player> = seq![*player];
    let ghost mut pss: Seq<Seq<Projectile>> = seq![projectiles@];
    let ghost mut wss: Seq<Seq<(usize, usize)>> = seq![webs@];
    let all_positions = all_monster_positions(monsters.as_slice());
    let dead_indices = dead_monster_indices(monsters.as_slice());
    let mut erase: Vec<(usize, usize)> = Vec::new();
    let n = monsters.len();
    proof {
        lemma_living_on_map(monsters@, -1, 0, *map);
        assert(log@.subrange(0, l0.len() as int) =~= l0);
        assert(projectiles@.subrange(0, s0.len() as int) =~= s0);
        assert(webs@.subrange(0, w0.len() as int) =~= w0);
    }
    let mut i: usize = 0;
    while i < n
        invariant
            map_wf(*map),
            n == old(monsters)@.len(),
            i <= n <= monsters@.len(),
            monsters_placed(monsters@, *map),
            waiting_ok(monsters@, i as int, n as int, *map),
            player_fit(*player, n - i),
            player_kept(p0, *player),
            player.x < map.width && player.y < map.height,
            forall|j: int| 0 <= j < all_positions@.len() ==>
                (#[trigger] all_positions@[j]).0 <= 0x1fff_ffff && all_positions@[j].1 <= 0x1fff_ffff,
            extends(l0, log@),
            extends(s0, projectiles@),
            shots_ok(projectiles@),
            extends(w0, webs@),
            webs_ok(webs@, *map),
            all_positions@ == living_except(m0, -1, 0),
            dead_indices@ == dead_from(m0, 0),
            round_done(m0, p0, s0, w0, monsters@, *player, projectiles@, webs@, *map, i as int,
                all_positions@, dead_indices@, mss, pls, pss, wss),
        decreases n - i,
    {
        let ghost la = log@;
        let ghost sa = projectiles@;
        let ghost wa = webs@;
        let ghost pa = *player;
        monster_turn_step(monsters, i, n, player, projectiles, map, log, webs, &mut erase,
            all_positions.as_slice(), dead_indices.as_slice(), Ghost((n - i) as int));
        proof {
            lemma_extends_trans(l0, la, log@);
            lemma_extends_trans(s0, sa, projectiles@);
            lemma_extends_trans(w0, wa, webs@);
            let ghost (mo, po, so, wo) = (mss, pls, pss, wss);
            mss = mss.push(monsters@);
            pls = pls.push(*player);
            pss = pss.push(projectiles@);
            wss = wss.push(webs@);
            assert forall|k: int| 0 <= k < i + 1 implies #[trigger] turn_done(mss[k], pls[k], pss[k], wss[k],
                mss[k + 1], pls[k + 1], pss[k + 1], wss[k + 1], k, *map, all_positions@, dead_indices@) by {
                if k < i {
                    assert(mss[k] == mo[k] && mss[k + 1] == mo[k + 1] && pls[k] == po[k] && pls[k + 1] == po[k + 1]);
                    assert(pss[k] == so[k] && pss[k + 1] == so[k + 1] && wss[k] == wo[k] && wss[k + 1] == wo[k + 1]);
                } else {
                    assert(mss[k] == mo[i as int] && pls[k] == po[i as int] && pss[k] == so[i as int] && wss[k] == wo[i as int]);
                }
            }
        }
        i = i + 1;
    }
    proof {
        assert(round_done(m0, p0, s0, w0, monsters@, *player, projectiles@, webs@, *map, n as int,
            living_except(m0, -1, 0), dead_from(m0, 0), mss, pls, pss, wss));
    }
    erase
}

/// A living monster (HP above 0) stands at (x, y).
pub open spec fn living_at(ms: Seq<Monster>, x: int, y: int) -> bool {
    exists|j: int| 0 <= j < ms.len() && (#[trigger] ms[j]).hp > 0 && ms[j].x == x && ms[j].y == y
}

/// A projectile after one step along its direction (see `advance`): moved
/// when the next cell is clear, else where it was.
pub open spec fn flown(p: Projectile, map: DungeonMap) -> Projectile {
    let nx = (p.x as i32) + p.dx;
    let ny = (p.y as i32) + p.dy;
    if flight_clear(map, nx, ny) { Projectile { x: nx as usize, y: ny as usize, ..p } } else { p }
}

/// The projectile flies on after its step: its next cell was clear and it
/// reached neither the player at `at` nor a living monster.
pub open spec fn flies_on(p: Projectile, map: DungeonMap, at: (usize, usize), ms: Seq<Monster>) -> bool {
    let q = flown(p, map);
    &&& flight_clear(map, (p.x as i32) + p.dx, (p.y as i32) + p.dy)
    &&& !(q.x == at.0 && q.y == at.1)
    &&& !living_at(ms, q.x as int, q.y as int)
}

/// The projectiles still in flight after each of `ps` took its step, in
/// order (see `flies_on` and `flown`).
pub open spec fn in_flight(ps: Seq<Projectile>, map: DungeonMap, at: (usize, usize), ms: Seq<Monster>) -> Seq<Projectile>
    decreases ps.len(),
{
    if ps.len() == 0 {
        Seq::empty()
    } else {
        let rest = in_flight(ps.drop_last(), map, at, ms);
        if flies_on(ps.last(), map, at, ms) { rest.push(flown(ps.last(), map)) } else { rest }
    }
}

/// Dropping the flown projectile at index `i` of the list `sa` (the first
/// not yet flown, the original's `k`-th) when it flies no more.
proof fn lemma_flight_dropped(s0: Seq<Projectile>, map: DungeonMap, at: (usize, usize), ms: Seq<Monster>, k: int,
    sa: Seq<Projectile>, sb: Seq<Projectile>, i: int)
    requires
        0 <= k < s0.len(),
        sa.len() == in_flight(s0.take(k), map, at, ms).len() + s0.len() - k,
        forall|j: int| 0 <= j < sa.len() && j != i ==> #[trigger] sa[j] == (in_flight(s0.take(k), map, at, ms) + s0.skip(k))[j],
        i == in_flight(s0.take(k), map, at, ms).len(),
        sb == sa.remove(i),
        !flies_on(s0[k], map, at, ms),
    ensures
        sb == in_flight(s0.take(k + 1), map, at, ms) + s0.skip(k + 1),
        i == in_flight(s0.take(k + 1), map, at, ms).len(),
{
    assert(s0.take(k + 1).drop_last() =~= s0.take(k));
    assert(s0.take(k + 1).last() == s0[k]);
    assert(in_flight(s0.take(k + 1), map, at, ms) == in_flight(s0.take(k), map, at, ms));
    assert(sb =~= in_flight(s0.take(k + 1), map, at, ms) + s0.skip(k + 1));
}

/// Projectiles fly one cell each, in order. One that hits a wall or leaves
/// the map is spent; one that reaches the player is dodged or hits (see
/// `strike`), and is spent; one that reaches a living monster is spent too.
/// Lines are only ever added. Returns the cells to redraw.
pub fn process_projectiles(projectiles: &mut Vec<Projectile>, monsters: &[Monster], player: &mut Player,
    map: &DungeonMap, log: &mut Vec<String>) -> (erase: Vec<(usize, usize)>)
    requires
        map_wf(*map),
        player_bounded(*old(player)),
        0 <= old(player).damage_taken,
        old(player).damage_taken + 5_000_000 * old(projectiles)@.len() <= i64::MAX,
        shots_ok(old(projectiles)@),
    ensures
        final(projectiles)@.len() <= old(projectiles)@.len(),
        final(projectiles)@ == in_flight(old(projectiles)@, *map, (old(player).x, old(player).y), monsters@),
        shots_ok(final(projectiles)@),
        hit_change(*old(player), *final(player), 4_000_004 * (old(projectiles)@.len() as int)),
        final(player).stonehide_bonus == old(player).stonehide_bonus,
        final(player).poison_ticks == old(player).poison_ticks,
        player_bounded(*final(player)),
        extends(old(log)@, final(log)@),
{
    let ghost p0 = *player;
    let ghost l0 = log@;
    let ghost n0 = projectiles@.len();
    let ghost s0 = projectiles@;
    let ghost at = (player.x, player.y);
    let ghost mut k: int = 0;
    let mut erase: Vec<(usize, usize)> = Vec::new();
    proof {
        assert(log@.subrange(0, l0.len() as int) =~= l0);
        assert(s0.take(0) =~= Seq::<Projectile>::empty());
        assert(s0.skip(0) =~= s0);
        assert(in_flight(s0.take(0), *map, at, monsters@) + s0.skip(0) =~= s0);
    }
    let mut i: usize = 0;
    while i < projectiles.len()
        invariant
            map_wf(*map),
            n0 == old(projectiles)@.len(),
            i <= projectiles@.len() <= n0,
            shots_ok(projectiles@),
            player_bounded(*player),
            0 <= p0.damage_taken && p0.damage_taken + 5_000_000 * n0 <= i64::MAX,
            hit_change(p0, *player, 4_000_004 * ((n0 - projectiles@.len()) + i) as int),
            player.stonehide_bonus == p0.stonehide_bonus,
            player.poison_ticks == p0.poison_ticks,
            extends(l0, log@),
            0 <= k <= n0,
            projectiles@ == in_flight(s0.take(k), *map, at, monsters@) + s0.skip(k),
            i == in_flight(s0.take(k), *map, at, monsters@).len(),
            s0 == old(projectiles)@,
            at == (p0.x, p0.y),
        decreases 2 * projectiles@.len() - i,
    {
        let ghost la = log@;
        let ghost pa = *player;
        let ghost sa = projectiles@;
        proof {
            assert(sa[i as int] == s0[k]);
            assert(s0.take(k + 1).drop_last() =~= s0.take(k));
            assert(s0.take(k + 1).last() == s0[k]);
        }
        erase.push((projectiles[i].x, projectiles[i].y));
        let alive = projectiles[i].advance(map);
        let ghost sc = projectiles@;
        proof {
            assert(projectiles@[i as int] == flown(s0[k], *map));
            assert(sc == sa.update(i as int, flown(s0[k], *map)));
        }
        proof {
            assert forall|j: int| 0 <= j < projectiles@.len() implies 0 <= (#[trigger] projectiles@[j]).damage <= 2_000_004 by {
                assert(projectiles@[j].damage == sa[j].damage);
            }
        }
        if !alive {
            log.push(String::from_str("The arrow thuds into a wall."));
            projectiles.remove(i);
            proof {
                assert(log@.subrange(0, la.len() as int) =~= la);
                lemma_extends_trans(l0, la, log@);
                assert forall|j: int| 0 <= j < projectiles@.len() implies 0 <= (#[trigger] projectiles@[j]).damage <= 2_000_004 by {
                    if j < i { assert(projectiles@[j] == sa[j] || true); }
                }
                assert(!flies_on(s0[k], *map, at, monsters@));
                lemma_flight_dropped(s0, *map, at, monsters@, k, sc, projectiles@, i as int);
                k = k + 1;
            }
            continue;
        }
        let px = projectiles[i].x;
        let py = projectiles[i].y;
        if px == player.x && py == player.y {
            let raw = projectiles[i].damage;
            match strike(player, log, String::from_str("You dodge the arrow!"), raw, String::from_str("Arrow")) {
                Some(dmg) => {
                    let ghost lb = log@;
                    log.push(text3("<< An arrow hits you for ", int_to_string(dmg).as_str(), " damage!"));
                    proof { assert(log@.subrange(0, lb.len() as int) =~= lb); lemma_extends_trans(la, lb, log@); }
                },
                None => {},
            }
            projectiles.remove(i);
            proof {
                lemma_extends_trans(l0, la, log@);
                lemma_hit_change_trans(p0, pa, *player, 4_000_004 * ((n0 - sa.len()) + i) as int, 4_000_004);
                assert(4_000_004 * ((n0 - sa.len()) + i) + 4_000_004 == 4_000_004 * ((n0 - projectiles@.len()) + i));
                assert(!flies_on(s0[k], *map, at, monsters@));
                lemma_flight_dropped(s0, *map, at, monsters@, k, sc, projectiles@, i as int);
                k = k + 1;
            }
            continue;
        }
        let mut hit_monster = false;
        let mut j: usize = 0;
        while j < monsters.len() && !hit_monster
            invariant
                j <= monsters@.len(),
                hit_monster ==> living_at(monsters@, px as int, py as int),
                !hit_monster ==> forall|q: int| 0 <= q < j ==>
                    !((#[trigger] monsters@[q]).hp > 0 && monsters@[q].x == px && monsters@[q].y == py),
            decreases monsters@.len() - j,
        {
            if monsters[j].hp > 0 && monsters[j].x == px && monsters[j].y == py {
                hit_monster = true;
                assert(monsters@[j as int].hp > 0);
            }
            j = j + 1;
        }
        if hit_monster {
            log.push(String::from_str("The arrow hits a creature."));
            projectiles.remove(i);
            proof {
                assert(log@.subrange(0, la.len() as int) =~= la);
                lemma_extends_trans(l0, la, log@);
                assert(!flies_on(s0[k], *map, at, monsters@));
                lemma_flight_dropped(s0, *map, at, monsters@, k, sc, projectiles@, i as int);
                k = k + 1;
            }
            continue;
        }
        proof {
            assert(!living_at(monsters@, px as int, py as int));
            assert(flies_on(s0[k], *map, at, monsters@));
            assert(in_flight(s0.take(k + 1), *map, at, monsters@) == in_flight(s0.take(k), *map, at, monsters@).push(flown(s0[k], *map)));
            assert(projectiles@ =~= in_flight(s0.take(k + 1), *map, at, monsters@) + s0.skip(k + 1));
            k = k + 1;
        }
        i = i + 1;
    }
    proof {
        assert(s0.take(k) =~= s0);
        assert(projectiles@ =~= in_flight(s0, *map, at, monsters@));
    }
    erase
}

} // verus!
