//! The player's melee blow against a monster.
use vstd::prelude::*;
use vstd::multiset::Multiset;
use crate::monster::{Monster, MonsterType, kind_xp};
use crate::player::{Player, has_effect, slot_has_buff, slot_has_poison, INVENTORY_CAPACITY, player_bounded, cooldown_ok,
    xp_gained, buff_spent, poison_spent, xp_paid, lemma_xp_conserved};
use crate::items::{ArtifactEffect, Item, display_text};
use crate::text::int_to_string;
use crate::turn::{player_fit, text3, text5, lemma_fit_after_xp};
use crate::map::{DungeonMap, Tile, manhattan, map_wf, walkable, in_bounds, tile_at};
use crate::player::{Ability, MAX_LEVEL};

verus! {

/// The damage a blow of `damage` deals: twice as much under a damage buff
/// (Power Attack, Shadow Step).
pub open spec fn blow_damage(p: Player, damage: int) -> int {
    if slot_has_buff(p.ability_1) || slot_has_buff(p.ability_2) { 2 * damage } else { damage }
}

/// The monster after a blow of `dealt` damage: HP down, not below 0, three
/// ticks of poison under a poison buff, and its place of death noted when
/// it dies.
pub open spec fn struck(m: Monster, p: Player, dealt: int) -> Monster {
    let hp = if m.hp - dealt > 0 { m.hp - dealt } else { 0 };
    Monster {
        hp: hp as i32,
        poison_ticks: if slot_has_poison(p.ability_1) || slot_has_poison(p.ability_2) { 3 } else { m.poison_ticks },
        death_pos: if hp == 0 { Some((m.x, m.y)) } else { m.death_pos },
        ..m
    }
}

/// A blow lowers the monster's HP by the damage dealt, not below 0: the
/// HP lost is the smaller of the damage and the HP it had, it dies exactly
/// when the damage reaches its HP, and then its place of death is where it
/// stood; where it stands, its attack and its kind stay.
pub proof fn lemma_blow_lowers_hp(m: Monster, p: Player, dealt: int)
    requires
        0 <= dealt <= 10_000_000,
        0 <= m.hp <= 10_000_000,
    ensures
        m.hp - struck(m, p, dealt).hp == (if dealt < m.hp { dealt } else { m.hp as int }),
        (struck(m, p, dealt).hp == 0) <==> dealt >= m.hp,
        dealt >= m.hp ==> struck(m, p, dealt).death_pos == Some((m.x, m.y)),
        dealt < m.hp ==> struck(m, p, dealt).death_pos == m.death_pos,
        struck(m, p, dealt).x == m.x && struck(m, p, dealt).y == m.y,
        struck(m, p, dealt).attack == m.attack && struck(m, p, dealt).monster_type == m.monster_type,
{
}

/// The player's artifacts fed by a kill: Ragefang (when wielded) gains a
/// stack, up to 5, and three ticks; the Mind Fire Crown (when worn) counts
/// the kill and every tenth readies it.
pub open spec fn fed(p: Player) -> Player {
    let r = if has_effect(p.equipment.weapon, ArtifactEffect::Ragefang) {
        Player { ragefang_stacks: if p.ragefang_stacks < 5 { (p.ragefang_stacks + 1) as i32 } else { p.ragefang_stacks }, ragefang_ticks: 3, ..p }
    } else {
        p
    };
    if has_effect(r.equipment.ring, ArtifactEffect::MindFireCrown) {
        if r.mindfire_kill_count + 1 >= 10 {
            Player { mindfire_kill_count: 0, mindfire_ready: true, ..r }
        } else {
            Player { mindfire_kill_count: (r.mindfire_kill_count + 1) as i32, ..r }
        }
    } else {
        r
    }
}

/// `b` is `a` rewarded for a kill worth `xp`: the XP gained (see
/// `xp_gained`), the kill counted and the artifacts fed (see `fed`).
pub open spec fn kill_rewarded(a: Player, xp: int, b: Player) -> bool {
    exists|g: Player| #[trigger] xp_gained(a, xp, g) && b == fed(Player { monsters_slain: (g.monsters_slain + 1) as u32, ..g })
}

/// A kill worth `xp` counts one more monster slain and pays its XP in
/// full: the XP left plus the thresholds of the levels gained is the XP
/// held before plus `xp` (see `lemma_xp_conserved`).
pub proof fn lemma_kill_rewards(a: Player, xp: int, b: Player)
    requires
        kill_rewarded(a, xp, b),
        1 <= a.level <= MAX_LEVEL,
        -1_000_000 <= a.xp <= 1_000_000,
        -1_000_000 <= a.xp_to_next_level <= 1_000_000,
        0 <= xp <= 1_000_000,
        a.monsters_slain < u32::MAX,
    ensures
        b.monsters_slain == a.monsters_slain + 1,
        a.level <= b.level,
        b.xp + xp_paid(a.xp_to_next_level as int, a.level as int, (b.level - a.level) as nat) == a.xp + xp,
{
    let g = choose|g: Player| #[trigger] xp_gained(a, xp, g) && b == fed(Player { monsters_slain: (g.monsters_slain + 1) as u32, ..g });
    lemma_xp_conserved(a, xp, g);
    assert(g.monsters_slain == a.monsters_slain);
}

/// The player after landing a blow of `dealt` damage: a damage buff used
/// up, the damage counted, and a charge of a poison buff used up.
pub open spec fn after_blow(p: Player, dealt: int) -> Player {
    let p1 = buff_spent(p);
    poison_spent(Player { damage_dealt: (p1.damage_dealt + dealt) as i32, ..p1 })
}

/// The rewards of a kill worth `xp`: the kill is counted, the XP gained
/// (with any level-ups), Ragefang fed (one more stack up to 5, three ticks)
/// and the Mind Fire Crown fed (every tenth kill readies it).
fn reward_kill(player: &mut Player, xp: i32, Ghost(k): Ghost<int>) -> (msgs: Vec<String>)
    requires
        player_fit(*old(player), k),
        k >= 1,
        0 <= xp <= 500,
        0 <= old(player).mindfire_kill_count <= 1_000_000,
    ensures
        player_fit(*final(player), k - 1),
        0 <= final(player).mindfire_kill_count <= old(player).mindfire_kill_count + 1,
        final(player).x == old(player).x && final(player).y == old(player).y,
        msgs@.len() >= 1,
        kill_rewarded(*old(player), xp as int, *final(player)),
        old(player).ability_1 is Some ==> final(player).ability_1 is Some,
        old(player).ability_2 is Some ==> final(player).ability_2 is Some,
        final(player).level >= old(player).level,
        final(player).damage_dealt == old(player).damage_dealt,
        final(player).monsters_slain == old(player).monsters_slain + 1,
        has_effect(old(player).equipment.weapon, ArtifactEffect::Ragefang) ==>
            final(player).ragefang_ticks == 3
                && final(player).ragefang_stacks == (if old(player).ragefang_stacks < 5 { old(player).ragefang_stacks + 1 } else { old(player).ragefang_stacks as int }),
{
    let ghost p1 = *player;
    let mut msgs: Vec<String> = Vec::new();
    let mut level_msgs = player.gain_xp(xp);
    proof { lemma_fit_after_xp(p1, *player, xp as int, k); }
    player.monsters_slain = player.monsters_slain + 1;
    msgs.push(text3("+", int_to_string(xp).as_str(), " XP"));
    msgs.append(&mut level_msgs);
    if player.has_ragefang() {
        if player.ragefang_stacks < 5 {
            player.ragefang_stacks = player.ragefang_stacks + 1;
        }
        player.ragefang_ticks = 3;
        msgs.push(text3("Ragefang pulses! (+", int_to_string(player.ragefang_stacks).as_str(), " ATK)"));
    }
    if player.has_mindfire() {
        player.mindfire_kill_count = player.mindfire_kill_count + 1;
        if player.mindfire_kill_count >= 10 {
            player.mindfire_kill_count = 0;
            player.mindfire_ready = true;
            msgs.push(String::from_str("Mindfire Crown blazes! Next ability = 2x dmg!"));
        }
    }
    msgs
}

/// A blow of `damage` lands: doubled under a damage buff (which is used
/// up), the damage counted, a poison buff's charge used up, and the monster
/// struck (see `after_blow` and `struck`). Returns the damage dealt.
#[verifier::rlimit(60)]
#[verifier::spinoff_prover]
fn land_blow(player: &mut Player, monster: &mut Monster, damage: i32, msgs: &mut Vec<String>) -> (dealt: i32)
    requires
        1 <= damage <= 1_000_000,
        0 <= old(monster).hp <= 1_000_000,
        -1_000_000_000 <= old(player).damage_dealt <= 1_000_000_000,
        old(player).ability_1 is Some ==> old(player).ability_1->0.charges > i32::MIN,
        old(player).ability_2 is Some ==> old(player).ability_2->0.charges > i32::MIN,
    ensures
        dealt == blow_damage(*old(player), damage as int),
        *final(player) == after_blow(*old(player), dealt as int),
        *final(monster) == struck(*old(monster), *old(player), dealt as int),
        final(msgs)@.len() > old(msgs)@.len(),
{
    let ghost p0 = *player;
    let mut dealt = damage;
    if player.has_damage_buff() {
        dealt = damage * 2;
        player.consume_damage_buff();
        msgs.push(String::from_str("[!!] CRITICAL STRIKE! [!!]"));
    }
    let ghost pb = *player;
    assert(pb == buff_spent(p0));
    monster.take_damage(dealt);
    player.damage_dealt = player.damage_dealt + dealt;
    let ghost p1 = *player;
    assert(p1 == Player { damage_dealt: (pb.damage_dealt + dealt) as i32, ..pb });
    assert(slot_has_poison(pb.ability_1) == slot_has_poison(p0.ability_1)
        && slot_has_poison(pb.ability_2) == slot_has_poison(p0.ability_2));
    let name = monster.name.clone();
    msgs.push(text5(">> You hit the ", name.as_str(), " for ", int_to_string(dealt).as_str(), " damage!"));
    if player.has_poison_buff() {
        monster.poison_ticks = 3;
        player.consume_poison_buff();
        msgs.push(text3("The ", name.as_str(), " is poisoned!"));
    }
    assert(*player == poison_spent(p1));
    if !monster.is_alive() {
        monster.death_pos = Some((monster.x, monster.y));
    }
    dealt
}

/// The player strikes the monster with a melee blow of `damage` (the
/// rolled damage). A phasing wraith is passed through and a bat swarm from
/// floor 4 on dodges a time in four; neither changes anything. Otherwise
/// the blow lands (see `blow_damage` and `struck`), using up a damage buff
/// and a charge of a poison buff; the damage dealt is counted. A kill
/// counts, gives the monster's XP (with any level-ups), feeds Ragefang (one
/// more stack up to 5, three ticks) and the Mind Fire Crown (every tenth
/// kill readies it). Returns the lines for the log.
pub fn player_attack(player: &mut Player, monster: &mut Monster, damage: i32) -> (msgs: Vec<String>)
    requires
        player_fit(*old(player), 1),
        1 <= damage <= 1_000_000,
        0 <= old(monster).hp <= 1_000_000,
        -1_000_000_000 <= old(player).damage_dealt <= 1_000_000_000,
        0 <= old(player).mindfire_kill_count <= 1_000_000,
        old(player).ability_1 is Some ==> old(player).ability_1->0.charges > i32::MIN,
        old(player).ability_2 is Some ==> old(player).ability_2->0.charges > i32::MIN,
    ensures
        msgs@.len() >= 1,
        old(monster).is_phasing ==> *final(monster) == *old(monster) && *final(player) == *old(player),
        *final(monster) == *old(monster) || ({
            let dealt = blow_damage(*old(player), damage as int);
            &&& !old(monster).is_phasing
            &&& *final(monster) == struck(*old(monster), *old(player), dealt)
            &&& final(player).damage_dealt == old(player).damage_dealt + dealt
            &&& final(player).monsters_slain == old(player).monsters_slain + (if final(monster).hp == 0 { 1int } else { 0 })
            &&& final(monster).hp == 0 && has_effect(old(player).equipment.weapon, ArtifactEffect::Ragefang) ==>
                final(player).ragefang_ticks == 3
                    && final(player).ragefang_stacks == (if old(player).ragefang_stacks < 5 { old(player).ragefang_stacks + 1 } else { old(player).ragefang_stacks as int })
        }),
        !old(monster).is_phasing && !(old(monster).monster_type == MonsterType::BatSwarm && old(monster).floor_tier >= 2) ==>
            *final(monster) == struck(*old(monster), *old(player), blow_damage(*old(player), damage as int)),
        final(player).level >= old(player).level,
        final(player).x == old(player).x && final(player).y == old(player).y,
        final(player).damage_dealt == old(player).damage_dealt ==> *final(monster) == *old(monster) && *final(player) == *old(player),
        final(player).damage_dealt != old(player).damage_dealt ==> ({
            let dealt = blow_damage(*old(player), damage as int);
            let landed = after_blow(*old(player), dealt);
            &&& *final(monster) == struck(*old(monster), *old(player), dealt)
            &&& if final(monster).hp == 0 {
                    kill_rewarded(landed, kind_xp(old(monster).monster_type) as int, *final(player))
                } else {
                    *final(player) == landed
                }
        }),
{
    let mut msgs: Vec<String> = Vec::new();
    if monster.is_phasing {
        msgs.push(text3("Your attack passes through the ", monster.name.as_str(), "!"));
        return msgs;
    }
    if monster.can_dodge_attack() {
        msgs.push(text3("The ", monster.name.as_str(), " dodges your attack!"));
        return msgs;
    }
    let dealt = land_blow(player, monster, damage, &mut msgs);
    if !monster.is_alive() {
        msgs.push(text3("[**] The ", monster.name.as_str(), " dies!"));
        let xp = monster.xp_value();
        let mut reward = reward_kill(player, xp, Ghost(1));
        msgs.append(&mut reward);
    }
    msgs
}

/// A living monster within `r` steps (Manhattan distance) of (px, py).
pub open spec fn in_blast(m: Monster, px: int, py: int, r: int) -> bool {
    m.hp > 0 && manhattan(px, py, m.x as int, m.y as int) <= r
}

/// How many of the monsters from index `i` on are within the blast (see
/// `in_blast`).
pub open spec fn blast_count(ms: Seq<Monster>, px: int, py: int, r: int, i: int) -> int
    decreases ms.len() - i,
{
    if i < 0 || i >= ms.len() {
        0
    } else {
        (if in_blast(ms[i], px, py, r) { 1int } else { 0int }) + blast_count(ms, px, py, r, i + 1)
    }
}

/// War Cry: every living monster within 4 steps of the player is stunned
/// for 2 turns. Returns how many were.
pub fn war_cry(px: usize, py: usize, monsters: &mut Vec<Monster>) -> (count: usize)
    requires
        px <= 0x1fff_ffff && py <= 0x1fff_ffff,
        forall|j: int| 0 <= j < old(monsters)@.len() ==> (#[trigger] old(monsters)@[j]).x <= 0x1fff_ffff && old(monsters)@[j].y <= 0x1fff_ffff,
    ensures
        final(monsters)@.len() == old(monsters)@.len(),
        forall|j: int| 0 <= j < old(monsters)@.len() ==> #[trigger] final(monsters)@[j] == (if in_blast(old(monsters)@[j], px as int, py as int, 4) {
            Monster { stun_ticks: 2, ..old(monsters)@[j] }
        } else {
            old(monsters)@[j]
        }),
        count == blast_count(old(monsters)@, px as int, py as int, 4, 0),
{
    let ghost m0 = monsters@;
    let mut count: usize = 0;
    let mut i: usize = 0;
    while i < monsters.len()
        invariant
            px <= 0x1fff_ffff && py <= 0x1fff_ffff,
            monsters@.len() == m0.len(),
            forall|j: int| 0 <= j < m0.len() ==> (#[trigger] m0[j]).x <= 0x1fff_ffff && m0[j].y <= 0x1fff_ffff,
            forall|j: int| 0 <= j < m0.len() ==> #[trigger] monsters@[j] == (if j < i && in_blast(m0[j], px as int, py as int, 4) {
                Monster { stun_ticks: 2, ..m0[j] }
            } else {
                m0[j]
            }),
            i <= m0.len(),
            count <= i,
            count + blast_count(m0, px as int, py as int, 4, i as int) == blast_count(m0, px as int, py as int, 4, 0),
        decreases m0.len() - i,
    {
        if monsters[i].is_alive() {
            let d = DungeonMap::distance(px, py, monsters[i].x, monsters[i].y);
            if d <= 4 {
                monsters[i].stun_ticks = 2;
                count = count + 1;
            }
        }
        i = i + 1;
    }
    count
}

/// A monster caught by the Frost Nova: frozen for 2 turns and hurt by
/// `dmg` (see `zapped`).
pub open spec fn frosted(m: Monster, dmg: int) -> Monster {
    Monster { freeze_ticks: 2, ..zapped(m, dmg) }
}

/// Frost Nova: every living monster within 3 steps of the player is frozen
/// for 2 turns and takes 2 damage plus the player's INT bonus to healing;
/// those it kills shatter, and give their XP (with any level-ups) after
/// the blast. Returns the lines for the log.
pub fn frost_nova(player: &mut Player, monsters: &mut Vec<Monster>) -> (msgs: Vec<String>)
    requires
        player_fit(*old(player), old(monsters)@.len() as int),
        old(player).x <= 0x1fff_ffff && old(player).y <= 0x1fff_ffff,
        forall|j: int| 0 <= j < old(monsters)@.len() ==> (#[trigger] old(monsters)@[j]).x <= 0x1fff_ffff
            && old(monsters)@[j].y <= 0x1fff_ffff && 0 <= old(monsters)@[j].hp <= 1_000_000,
    ensures
        final(monsters)@.len() == old(monsters)@.len(),
        forall|j: int| 0 <= j < old(monsters)@.len() ==> #[trigger] final(monsters)@[j]
            == if in_blast(old(monsters)@[j], old(player).x as int, old(player).y as int, 3) {
                frosted(old(monsters)@[j], 2 + spell_bonus(*old(player)))
            } else {
                old(monsters)@[j]
            },
        final(player).x == old(player).x && final(player).y == old(player).y,
        final(player).level >= old(player).level,
        msgs@.len() >= 1,
{
    let px = player.x;
    let py = player.y;
    let stats = player.effective_stats();
    let bonus = stats.potion_bonus();
    let frost_dmg = 2 + bonus;
    let ghost m0 = monsters@;
    let ghost p0 = *player;
    let mut msgs: Vec<String> = Vec::new();
    let mut kills: Vec<i32> = Vec::new();
    let mut frozen: usize = 0;
    let mut i: usize = 0;
    while i < monsters.len()
        invariant
            px == p0.x && py == p0.y,
            px <= 0x1fff_ffff && py <= 0x1fff_ffff,
            2 <= frost_dmg <= 1_000_000,
            monsters@.len() == m0.len(),
            forall|j: int| 0 <= j < m0.len() ==> (#[trigger] m0[j]).x <= 0x1fff_ffff && m0[j].y <= 0x1fff_ffff && 0 <= m0[j].hp <= 1_000_000,
            frost_dmg == 2 + spell_bonus(p0),
            forall|j: int| i <= j < m0.len() ==> #[trigger] monsters@[j] == m0[j],
            forall|j: int| 0 <= j < i ==> #[trigger] monsters@[j]
                == if in_blast(m0[j], px as int, py as int, 3) { frosted(m0[j], frost_dmg as int) } else { m0[j] },
            kills@.len() <= i,
            forall|k: int| 0 <= k < kills@.len() ==> 0 <= #[trigger] kills@[k] <= 500,
            frozen <= i,
            i <= m0.len(),
        decreases m0.len() - i,
    {
        if monsters[i].is_alive() {
            let d = DungeonMap::distance(px, py, monsters[i].x, monsters[i].y);
            if d <= 3 {
                monsters[i].freeze_ticks = 2;
                monsters[i].take_damage(frost_dmg);
                frozen = frozen + 1;
                if !monsters[i].is_alive() {
                    let here = (monsters[i].x, monsters[i].y);
                    monsters[i].death_pos = Some(here);
                    kills.push(monsters[i].xp_value());
                    msgs.push(text3("The ", monsters[i].name.as_str(), " shatters!"));
                }
            }
        }
        i = i + 1;
    }
    let head = text5("FROST NOVA! ", crate::text::int_to_string(frozen as i32).as_str(), " monsters frozen for ",
        crate::text::int_to_string(frost_dmg).as_str(), " damage!");
    msgs.push(head);
    let mut k: usize = 0;
    while k < kills.len()
        invariant
            player_fit(*player, m0.len() - k),
            kills@.len() <= m0.len(),
            forall|q: int| 0 <= q < kills@.len() ==> 0 <= #[trigger] kills@[q] <= 500,
            k <= kills@.len(),
            player.x == p0.x && player.y == p0.y,
            player.level >= p0.level,
            msgs@.len() >= 1,
        decreases kills@.len() - k,
    {
        let xp = kills[k];
        let ghost p1 = *player;
        let mut level_msgs = player.gain_xp(xp);
        proof { lemma_fit_after_xp(p1, *player, xp as int, (m0.len() - k) as int); }
        msgs.push(text3("+", crate::text::int_to_string(xp).as_str(), " XP"));
        msgs.append(&mut level_msgs);
        k = k + 1;
    }
    msgs
}

/// A living boss among the monsters: while one lives the stairs are sealed.
pub fn boss_alive(monsters: &[Monster]) -> (b: bool)
    ensures
        b == exists|j: int| 0 <= j < monsters@.len() && (#[trigger] monsters@[j]).is_boss && monsters@[j].hp > 0,
{
    let mut i: usize = 0;
    while i < monsters.len()
        invariant
            i <= monsters@.len(),
            forall|j: int| 0 <= j < i ==> !((#[trigger] monsters@[j]).is_boss && monsters@[j].hp > 0),
        decreases monsters@.len() - i,
    {
        if monsters[i].is_boss && monsters[i].is_alive() {
            return true;
        }
        i = i + 1;
    }
    false
}

/// The line shown on reaching a floor by the stairs.
pub open spec fn descent_line(floor: int) -> Seq<char> {
    if floor == 5 { "You descend to the Dungeons... A dark presence lurks below..."@ }
    else if floor == 10 { "You descend to the Bone Pits... The air grows cold..."@ }
    else if floor == 15 { "You descend to the Shadow Realm... The final battle awaits!"@ }
    else { "You descend deeper into the darkness..."@ }
}

fn descent_text(floor: i32) -> (s: String)
    ensures
        s@ == descent_line(floor as int),
{
    if floor == 5 {
        String::from_str("You descend to the Dungeons... A dark presence lurks below...")
    } else if floor == 10 {
        String::from_str("You descend to the Bone Pits... The air grows cold...")
    } else if floor == 15 {
        String::from_str("You descend to the Shadow Realm... The final battle awaits!")
    } else {
        String::from_str("You descend deeper into the darkness...")
    }
}

/// Going down the stairs from `floor`: the shrine blessings (strength,
/// dodge, warding) wear off and the descent is worth 5 XP per floor
/// reached. Returns the new floor and the lines for the log: where the
/// player is, the XP, then any level-ups.
pub fn descend(player: &mut Player, floor: i32) -> (r: (i32, Vec<String>))
    requires
        player_bounded(*old(player)),
        1 <= old(player).level <= MAX_LEVEL,
        -1_000_000 <= old(player).xp <= 1_000_000,
        -1_000_000 <= old(player).xp_to_next_level <= 1_000_000,
        -1 <= floor < 199_999,
        old(player).base_stats.str_ <= 999_980,
        old(player).base_stats.dex <= 999_980,
        old(player).base_stats.int <= 999_980,
        old(player).base_stats.con <= 999_980,
        old(player).hp <= 9_999_000,
        old(player).max_hp <= 9_999_000,
        cooldown_ok(old(player).ability_1),
        cooldown_ok(old(player).ability_2),
    ensures
        r.0 == floor + 1,
        final(player).bonus_str == 0 && final(player).bonus_dodge == 0 && !final(player).warding_buff,
        final(player).level >= old(player).level,
        final(player).level == old(player).level ==> final(player).xp == old(player).xp + 5 * (floor + 1),
        final(player).x == old(player).x && final(player).y == old(player).y,
        r.1@.len() >= 2,
        r.1@[0]@ == descent_line(floor + 1),
        xp_gained(Player { bonus_str: 0, bonus_dodge: 0, warding_buff: false, ..*old(player) }, 5 * (floor + 1), *final(player)),
{
    let next = floor + 1;
    player.bonus_str = 0;
    player.bonus_dodge = 0;
    player.warding_buff = false;
    let floor_xp = next * 5;
    let mut level_msgs = player.gain_xp(floor_xp);
    let mut msgs: Vec<String> = Vec::new();
    msgs.push(descent_text(next));
    msgs.push(text3("+", int_to_string(floor_xp).as_str(), " XP"));
    msgs.append(&mut level_msgs);
    (next, msgs)
}

/// The items lying on the ground.
pub open spec fn ground_items(items: Seq<(usize, usize, Item)>) -> Multiset<Item> {
    items.map_values(|e: (usize, usize, Item)| e.2).to_multiset()
}

/// Picks up the first ground item at (x, y): into the inventory when it
/// has room (the item leaves the ground), else it stays and the player is
/// told the inventory is full. Nothing happens when no item lies there.
pub fn pick_up(player: &mut Player, items: &mut Vec<(usize, usize, Item)>, x: usize, y: usize) -> (msg: Option<String>)
    ensures
        (forall|k: int| 0 <= k < old(items)@.len() ==> !((#[trigger] old(items)@[k]).0 == x && old(items)@[k].1 == y))
            ==> msg is None && *final(player) == *old(player) && final(items)@ == old(items)@,
        (exists|k: int| 0 <= k < old(items)@.len() && (#[trigger] old(items)@[k]).0 == x && old(items)@[k].1 == y) ==> msg is Some,
        msg is Some ==> exists|k: int| 0 <= k < old(items)@.len() && (#[trigger] old(items)@[k]).0 == x && old(items)@[k].1 == y && ({
            &&& forall|j: int| 0 <= j < k ==> !((#[trigger] old(items)@[j]).0 == x && old(items)@[j].1 == y)
            &&& if old(player).inventory@.len() < INVENTORY_CAPACITY {
                    &&& final(items)@ == old(items)@.remove(k)
                    &&& final(player).inventory@ == old(player).inventory@.push(old(items)@[k].2)
                    &&& *final(player) == (Player { inventory: final(player).inventory, ..*old(player) })
                    &&& msg->0@ == "You pick up a "@ + display_text(old(items)@[k].2) + "!"@
                } else {
                    &&& final(items)@ == old(items)@
                    &&& *final(player) == *old(player)
                    &&& msg->0@ == "Your inventory is full!"@
                }
        }),
        ground_items(final(items)@).add(final(player).inventory@.to_multiset())
            == ground_items(old(items)@).add(old(player).inventory@.to_multiset()),
{
    let mut k: usize = 0;
    while k < items.len()
        invariant
            k <= items@.len(),
            items@ == old(items)@,
            *player == *old(player),
            forall|j: int| 0 <= j < k ==> !((#[trigger] items@[j]).0 == x && items@[j].1 == y),
        decreases items@.len() - k,
    {
        if items[k].0 == x && items[k].1 == y {
            if player.inventory.len() >= INVENTORY_CAPACITY {
                return Some(String::from_str("Your inventory is full!"));
            }
            let ghost g0 = items@;
            let ghost inv0 = player.inventory@;
            let (_, _, item) = items.remove(k);
            let name = item.display_name();
            player.add_to_inventory(item);
            proof {
                broadcast use vstd::seq_lib::group_to_multiset_ensures;
                let f = |e: (usize, usize, Item)| e.2;
                assert(items@.map_values(f) =~= g0.map_values(f).remove(k as int));
                assert(g0.map_values(f)[k as int] == item);
                assert(player.inventory@ =~= inv0.push(item));
                assert(ground_items(items@).add(player.inventory@.to_multiset())
                    =~= ground_items(g0).add(inv0.to_multiset()));
            }
            return Some(text3("You pick up a ", name.as_str(), "!"));
        }
        k = k + 1;
    }
    None
}

/// Where a Shadow Step from (x, y) in direction (dx, dy) lands: up to
/// `fuel` cells on, stopping before the first cell that cannot be walked.
pub open spec fn shadow_land(m: DungeonMap, x: int, y: int, dx: int, dy: int, fuel: nat) -> (int, int)
    decreases fuel,
{
    if fuel == 0 || !walkable(m, x + dx, y + dy) {
        (x, y)
    } else {
        shadow_land(m, x + dx, y + dy, dx, dy, (fuel - 1) as nat)
    }
}

/// A living monster one step (side by side) from (x, y).
pub open spec fn monster_beside(ms: Seq<Monster>, x: int, y: int) -> bool {
    exists|j: int| 0 <= j < ms.len() && (#[trigger] ms[j]).hp > 0 && manhattan(x, y, ms[j].x as int, ms[j].y as int) == 1
}

/// The ability after a Shadow Step: on cooldown, its strike ready only
/// when a monster stands beside the landing cell.
pub open spec fn stepped(a: Ability, strike: bool) -> bool {
    a.cooldown_remaining == a.cooldown_max && a.is_active == strike
}

/// Shadow Step from ability slot `slot` (1 or 2) in direction (dx, dy):
/// the player moves up to 4 cells (see `shadow_land`); the ability goes on
/// cooldown, and its strike (a doubled next blow) is ready only when a
/// living monster stands beside the landing cell. Returns the line for the
/// log.
pub fn shadow_step(player: &mut Player, map: &DungeonMap, monsters: &[Monster], dx: i32, dy: i32, slot: u8) -> (msg: String)
    requires
        map_wf(*map),
        old(player).x < map.width && old(player).y < map.height,
        -1 <= dx <= 1 && -1 <= dy <= 1,
        forall|j: int| 0 <= j < monsters@.len() ==> (#[trigger] monsters@[j]).x <= 0x1fff_ffff && monsters@[j].y <= 0x1fff_ffff,
    ensures
        (final(player).x as int, final(player).y as int) == shadow_land(*map, old(player).x as int, old(player).y as int, dx as int, dy as int, 4),
        final(player).x < map.width && final(player).y < map.height,
        slot == 1 && old(player).ability_1 is Some ==> final(player).ability_1 is Some
            && stepped(final(player).ability_1->0, monster_beside(monsters@, final(player).x as int, final(player).y as int)),
        slot != 1 && old(player).ability_2 is Some ==> final(player).ability_2 is Some
            && stepped(final(player).ability_2->0, monster_beside(monsters@, final(player).x as int, final(player).y as int)),
        final(player).hp == old(player).hp && final(player).level == old(player).level,
{
    let mut land_x = player.x as i64;
    let mut land_y = player.y as i64;
    let ghost x0 = player.x as int;
    let ghost y0 = player.y as int;
    let mut n: usize = 0;
    while n < 4
        invariant
            map_wf(*map),
            -1 <= dx <= 1 && -1 <= dy <= 1,
            0 <= land_x < map.width && 0 <= land_y < map.height,
            n <= 4,
            shadow_land(*map, x0, y0, dx as int, dy as int, 4) == shadow_land(*map, land_x as int, land_y as int, dx as int, dy as int, (4 - n) as nat),
        ensures
            0 <= land_x < map.width && 0 <= land_y < map.height,
            shadow_land(*map, x0, y0, dx as int, dy as int, 4) == (land_x as int, land_y as int),
        decreases 4 - n,
    {
        let tx = land_x + dx as i64;
        let ty = land_y + dy as i64;
        if tx < 0 || ty < 0 || tx as usize >= map.width || ty as usize >= map.height {
            break;
        }
        if !map.is_walkable(tx as usize, ty as usize) {
            break;
        }
        land_x = tx;
        land_y = ty;
        n = n + 1;
    }
    player.x = land_x as usize;
    player.y = land_y as usize;
    let mut adjacent = false;
    let mut i: usize = 0;
    while i < monsters.len()
        invariant
            forall|j: int| 0 <= j < monsters@.len() ==> (#[trigger] monsters@[j]).x <= 0x1fff_ffff && monsters@[j].y <= 0x1fff_ffff,
            player.x < map.width && player.y < map.height,
            map.width <= 10_000 && map.height <= 10_000,
            i <= monsters@.len(),
            adjacent == exists|j: int| 0 <= j < i && (#[trigger] monsters@[j]).hp > 0
                && manhattan(player.x as int, player.y as int, monsters@[j].x as int, monsters@[j].y as int) == 1,
        decreases monsters@.len() - i,
    {
        if monsters[i].is_alive() {
            let d = DungeonMap::distance(player.x, player.y, monsters[i].x, monsters[i].y);
            if d == 1 {
                adjacent = true;
            }
        }
        i = i + 1;
    }
    if slot == 1 {
        if let Some(a) = &mut player.ability_1 {
            a.activate();
            if !adjacent {
                a.is_active = false;
            }
        }
    } else {
        if let Some(a) = &mut player.ability_2 {
            a.activate();
            if !adjacent {
                a.is_active = false;
            }
        }
    }
    if adjacent {
        String::from_str("Shadow Step! Shadow strike ready \u{2014} next melee does 2x damage!")
    } else {
        String::from_str("Shadow Step!")
    }
}

/// The monster after a bolt of `dmg`: HP down (not below 0) and its place
/// of death noted when it dies.
pub open spec fn zapped(m: Monster, dmg: int) -> Monster {
    let hp = if m.hp - dmg > 0 { m.hp - dmg } else { 0 };
    Monster { hp: hp as i32, death_pos: if hp == 0 { Some((m.x, m.y)) } else { m.death_pos }, ..m }
}

/// Whether index `i` is in the list.
fn listed_index(v: &Vec<usize>, i: usize) -> (b: bool)
    ensures
        b == v@.contains(i),
{
    let mut k: usize = 0;
    while k < v.len()
        invariant
            k <= v@.len(),
            forall|j: int| 0 <= j < k ==> v@[j] != i,
        decreases v@.len() - k,
    {
        if v[k] == i {
            return true;
        }
        k = k + 1;
    }
    false
}

/// The first living monster on (x, y), by index, from index `i` on.
pub open spec fn first_living_at(ms: Seq<Monster>, x: int, y: int, i: int) -> Option<int>
    decreases ms.len() - i,
{
    if i < 0 || i >= ms.len() {
        None
    } else if ms[i].hp > 0 && ms[i].x == x && ms[i].y == y {
        Some(i)
    } else {
        first_living_at(ms, x, y, i + 1)
    }
}

/// A living monster on (x, y) at index `j` from `i` on is found there.
pub proof fn lemma_first_living_found(ms: Seq<Monster>, x: int, y: int, i: int, j: int)
    requires
        0 <= i <= j < ms.len(),
        ms[j].hp > 0 && ms[j].x == x && ms[j].y == y,
    ensures
        first_living_at(ms, x, y, i) is Some,
    decreases j - i,
{
    if i < j && !(ms[i].hp > 0 && ms[i].x == x && ms[i].y == y) {
        lemma_first_living_found(ms, x, y, i + 1, j);
    }
}

/// The first living monster on (x, y), by index.
pub(crate) fn monster_on(monsters: &Vec<Monster>, x: usize, y: usize) -> (r: Option<usize>)
    ensures
        r is Some ==> r->0 < monsters@.len() && monsters@[r->0 as int].hp > 0
            && monsters@[r->0 as int].x == x && monsters@[r->0 as int].y == y,
        r is Some <==> first_living_at(monsters@, x as int, y as int, 0) is Some,
        r is Some ==> first_living_at(monsters@, x as int, y as int, 0) == Some(r->0 as int),
{
    let mut i: usize = 0;
    while i < monsters.len()
        invariant
            i <= monsters@.len(),
            first_living_at(monsters@, x as int, y as int, 0) == first_living_at(monsters@, x as int, y as int, i as int),
        decreases monsters@.len() - i,
    {
        if monsters[i].is_alive() && monsters[i].x == x && monsters[i].y == y {
            return Some(i);
        }
        i = i + 1;
    }
    None
}

/// The first living monster a bolt from (x, y) along (dx, dy) meets within
/// `left` cells; the map's edge and walls stop it.
pub open spec fn bolt_target(m: DungeonMap, ms: Seq<Monster>, x: int, y: int, dx: int, dy: int, left: nat) -> Option<int>
    decreases left,
{
    if left == 0 {
        None
    } else {
        let (nx, ny) = (x + dx, y + dy);
        if nx < 0 || ny < 0 || nx >= m.width || ny >= m.height || tile_at(m, nx, ny) == Tile::Wall {
            None
        } else if first_living_at(ms, nx, ny, 0) is Some {
            first_living_at(ms, nx, ny, 0)
        } else {
            bolt_target(m, ms, nx, ny, dx, dy, (left - 1) as nat)
        }
    }
}

/// The nearest living monster not yet struck within 3 steps of (lx, ly),
/// scanning from index `j` with `best` found so far at distance `bd`; the
/// first by index on a tie.
pub open spec fn jump_from(ms: Seq<Monster>, hits: Seq<usize>, lx: int, ly: int, j: int, best: Option<int>, bd: int) -> Option<int>
    decreases ms.len() - j,
{
    if j < 0 || j >= ms.len() {
        best
    } else {
        let d = manhattan(lx, ly, ms[j].x as int, ms[j].y as int);
        if ms[j].hp > 0 && !hits.contains(j as usize) && d <= 3 && d < bd {
            jump_from(ms, hits, lx, ly, j + 1, Some(j), d)
        } else {
            jump_from(ms, hits, lx, ly, j + 1, best, bd)
        }
    }
}

/// Up to `k` more jumps of the lightning from the last monster struck.
pub open spec fn chain_on(ms: Seq<Monster>, hits: Seq<usize>, k: nat) -> Seq<usize>
    decreases k,
{
    if k == 0 || hits.len() == 0 {
        hits
    } else {
        let last = ms[hits.last() as int];
        match jump_from(ms, hits, last.x as int, last.y as int, 0, None, i32::MAX as int) {
            None => hits,
            Some(b) => chain_on(ms, hits.push(b as usize), (k - 1) as nat),
        }
    }
}

/// The monsters Chain Lightning from (px, py) along (dx, dy) strikes, in
/// order: the bolt's target (see `bolt_target`, 6 cells), then up to two
/// jumps (see `jump_from`).
pub open spec fn chain_hits(m: DungeonMap, ms: Seq<Monster>, px: int, py: int, dx: int, dy: int) -> Seq<usize> {
    match bolt_target(m, ms, px, py, dx, dy, 6) {
        None => Seq::empty(),
        Some(a) => chain_on(ms, seq![a as usize], 2),
    }
}

/// Chain Lightning in direction (dx, dy): a bolt flies up to 6 cells,
/// stopped by walls and the map's edge, and strikes the first living
/// monster on its way; it then jumps twice at most, each time to the
/// nearest living monster not yet struck within 3 steps of the last one
/// struck (the first such by index on a tie). The strikes deal 3, 2 and 1
/// damage plus the player's INT bonus to healing; kills count and give
/// their XP. Returns the lines for the log.
#[verifier::rlimit(80)]
#[verifier::spinoff_prover]
pub fn chain_lightning(player: &mut Player, map: &DungeonMap, monsters: &mut Vec<Monster>, dx: i32, dy: i32) -> (msgs: Vec<String>)
    requires
        map_wf(*map),
        old(player).x < map.width && old(player).y < map.height,
        -1 <= dx <= 1 && -1 <= dy <= 1,
        player_fit(*old(player), 3),
        0 <= old(player).mindfire_kill_count <= 999_000,
        forall|j: int| 0 <= j < old(monsters)@.len() ==> (#[trigger] old(monsters)@[j]).x <= 0x1fff_ffff
            && old(monsters)@[j].y <= 0x1fff_ffff && 0 <= old(monsters)@[j].hp <= 1_000_000,
    ensures
        final(monsters)@.len() == old(monsters)@.len(),
        ({
            let hs = chain_hits(*map, old(monsters)@, old(player).x as int, old(player).y as int, dx as int, dy as int);
            &&& hs.len() <= 3
            &&& forall|a: int| 0 <= a < hs.len() ==> #[trigger] hs[a] < old(monsters)@.len()
                && final(monsters)@[hs[a] as int] == bolt(old(monsters)@[hs[a] as int], a, spell_bonus(*old(player)))
            &&& forall|j: int| 0 <= j < old(monsters)@.len() && !hs.contains(j as usize) ==> #[trigger] final(monsters)@[j] == old(monsters)@[j]
        }),
        final(player).x == old(player).x && final(player).y == old(player).y,
        final(player).level >= old(player).level,
        old(player).ability_1 is Some ==> final(player).ability_1 is Some,
        old(player).ability_2 is Some ==> final(player).ability_2 is Some,
        msgs@.len() >= 1,
{
    let stats = player.effective_stats();
    let int_mod = stats.potion_bonus();
    let ghost m0 = monsters@;
    let ghost hs = chain_hits(*map, m0, player.x as int, player.y as int, dx as int, dy as int);
    let ghost target = bolt_target(*map, m0, player.x as int, player.y as int, dx as int, dy as int, 6);
    let mut hits: Vec<usize> = Vec::new();
    let mut cx = player.x as i64;
    let mut cy = player.y as i64;
    let mut n: usize = 0;
    while n < 6
        invariant_except_break
            -(n as int) <= cx <= 10_000 + n && -(n as int) <= cy <= 10_000 + n,
            hits@.len() == 0,
            target == bolt_target(*map, m0, cx as int, cy as int, dx as int, dy as int, (6 - n) as nat),
        invariant
            map_wf(*map),
            -1 <= dx <= 1 && -1 <= dy <= 1,
            n <= 6,
            monsters@ == m0,
        ensures
            monsters@ == m0,
            hits@.len() <= 1,
            hits@.len() == 1 ==> hits@[0] < m0.len() && m0[hits@[0] as int].hp > 0,
            target is None ==> hits@.len() == 0,
            target matches Some(a) ==> hits@ == seq![a as usize],
        decreases 6 - n,
    {
        cx = cx + dx as i64;
        cy = cy + dy as i64;
        if cx < 0 || cy < 0 || cx as usize >= map.width || cy as usize >= map.height {
            break;
        }
        if map.tiles[cx as usize][cy as usize] == Tile::Wall {
            break;
        }
        match monster_on(monsters, cx as usize, cy as usize) {
            Some(i) => {
                hits.push(i);
                break;
            },
            None => {},
        }
        n = n + 1;
    }
    proof {
        assert(hs == chain_on(m0, hits@, 2));
    }
    let mut chain: usize = 1;
    while chain <= 2 && hits.len() >= chain
        invariant
            monsters@ == m0,
            hits@.len() <= chain,
            1 <= chain <= 3,
            hs == chain_on(m0, hits@, (3 - chain) as nat),
            hits@.len() < chain ==> hs == hits@,
            forall|a: int| 0 <= a < hits@.len() ==> #[trigger] hits@[a] < m0.len() && m0[hits@[a] as int].hp > 0,
            forall|a: int, b: int| 0 <= a < b < hits@.len() ==> #[trigger] hits@[a] != #[trigger] hits@[b],
            forall|j: int| 0 <= j < m0.len() ==> (#[trigger] m0[j]).x <= 0x1fff_ffff && m0[j].y <= 0x1fff_ffff,
        decreases 3 - chain,
    {
        let last = hits[chain - 1];
        let lx = monsters[last].x;
        let ly = monsters[last].y;
        let mut best: Option<usize> = None;
        let mut best_dist: i32 = i32::MAX;
        let mut j: usize = 0;
        let ghost jt = jump_from(m0, hits@, lx as int, ly as int, 0, None, i32::MAX as int);
        while j < monsters.len()
            invariant
                monsters@ == m0,
                j <= m0.len(),
                lx <= 0x1fff_ffff && ly <= 0x1fff_ffff,
                forall|q: int| 0 <= q < m0.len() ==> (#[trigger] m0[q]).x <= 0x1fff_ffff && m0[q].y <= 0x1fff_ffff,
                best is Some ==> best->0 < m0.len() && m0[best->0 as int].hp > 0 && !hits@.contains(best->0),
                jt == jump_from(m0, hits@, lx as int, ly as int, j as int,
                    match best { Some(b) => Some(b as int), None => None }, best_dist as int),
            decreases m0.len() - j,
        {
            if monsters[j].is_alive() && !listed_index(&hits, j) {
                let d = DungeonMap::distance(lx, ly, monsters[j].x, monsters[j].y);
                if d <= 3 && d < best_dist {
                    best_dist = d;
                    best = Some(j);
                }
            }
            j = j + 1;
        }
        proof {
            assert(hits@.len() == chain);
            assert(hits@.last() == last);
        }
        match best {
            Some(b) => {
                let ghost h0 = hits@;
                hits.push(b);
                proof {
                    assert forall|a: int, c: int| 0 <= a < c < hits@.len() implies #[trigger] hits@[a] != #[trigger] hits@[c] by {
                        if c == hits@.len() - 1 {
                            assert(hits@[a] == h0[a]);
                            assert(h0.contains(h0[a]));
                        } else {
                            assert(hits@[a] == h0[a] && hits@[c] == h0[c]);
                        }
                    }
                }
            },
            None => {},
        }
        chain = chain + 1;
    }
    assert(hs == hits@);
    let mut msgs: Vec<String> = Vec::new();
    if hits.len() == 0 {
        msgs.push(String::from_str("Chain Lightning fizzles \u{2014} no targets hit."));
        return msgs;
    }
    let mut i: usize = 0;
    let mut kills: usize = 0;
    while i < hits.len()
        invariant
            hits@.len() <= 3,
            i <= hits@.len(),
            kills <= i,
            monsters@.len() == m0.len(),
            player_fit(*player, 3 - kills),
            player.x == old(player).x && player.y == old(player).y,
            player.level >= old(player).level,
            old(player).ability_1 is Some ==> player.ability_1 is Some,
            old(player).ability_2 is Some ==> player.ability_2 is Some,
            -1_000_000 <= int_mod <= 1_000_000,
            int_mod == spell_bonus(*old(player)),
            forall|a: int| 0 <= a < hits@.len() ==> #[trigger] hits@[a] < m0.len() && m0[hits@[a] as int].hp > 0,
            forall|a: int, b: int| 0 <= a < b < hits@.len() ==> #[trigger] hits@[a] != #[trigger] hits@[b],
            forall|j: int| 0 <= j < m0.len() ==> 0 <= (#[trigger] m0[j]).hp <= 1_000_000,
            forall|j: int| 0 <= j < m0.len() && !hits@.subrange(0, i as int).contains(j as usize) ==> #[trigger] monsters@[j] == m0[j],
            forall|a: int| 0 <= a < i ==> monsters@[#[trigger] hits@[a] as int] == bolt(m0[hits@[a] as int], a, int_mod as int),
            msgs@.len() >= i,
            0 <= player.mindfire_kill_count <= 999_000 + kills,
        decreases hits@.len() - i,
    {
        let mi = hits[i];
        let rank: i32 = if i < 2 { i as i32 } else { 2 };
        let dmg = 3 - rank + int_mod;
        let ghost before = monsters@;
        proof {
            assert(!hits@.subrange(0, i as int).contains(mi)) by {
                if hits@.subrange(0, i as int).contains(mi) {
                    let a = choose|a: int| 0 <= a < i && hits@.subrange(0, i as int)[a] == mi;
                    assert(hits@[a] == hits@[i as int]);
                }
            }
            assert(monsters@[mi as int] == m0[mi as int]);
        }
        monsters[mi].take_damage(dmg);
        msgs.push(text5("Lightning strikes ", monsters[mi].name.as_str(), " for ", int_to_string(dmg).as_str(), " damage!"));
        if !monsters[mi].is_alive() {
            let here = (monsters[mi].x, monsters[mi].y);
            monsters[mi].death_pos = Some(here);
            msgs.push(text3("[**] The ", monsters[mi].name.as_str(), " dies!"));
            let xp = monsters[mi].xp_value();
            let mut reward = reward_kill(player, xp, Ghost(3 - kills as int));
            msgs.append(&mut reward);
            kills = kills + 1;
        }
        proof {
            assert(monsters@[mi as int] == bolt(m0[mi as int], i as int, int_mod as int));
            assert forall|j: int| 0 <= j < m0.len() && j != mi implies #[trigger] monsters@[j] == before[j] by {}
            assert forall|a: int| 0 <= a < i + 1 implies monsters@[#[trigger] hits@[a] as int] == bolt(m0[hits@[a] as int], a, int_mod as int) by {
                if a < i {
                    assert(hits@[a] != hits@[i as int]);
                    assert(monsters@[hits@[a] as int] == before[hits@[a] as int]);
                }
            }
            assert forall|j: int| 0 <= j < m0.len() && !hits@.subrange(0, i + 1).contains(j as usize) implies #[trigger] monsters@[j] == m0[j] by {
                if hits@.subrange(0, i as int).contains(j as usize) {
                    let a = choose|a: int| 0 <= a < i && hits@.subrange(0, i as int)[a] == j as usize;
                    assert(hits@.subrange(0, i + 1)[a] == j as usize);
                }
                if j == mi {
                    assert(hits@.subrange(0, i + 1)[i as int] == mi);
                }
                assert(monsters@[j] == before[j]);
            }
        }
        i = i + 1;
    }
    proof {
        assert(hits@.subrange(0, i as int) =~= hits@);
    }
    msgs
}

/// The monster struck by the bolt of rank `r` (0 for the first strike).
pub open spec fn bolt(m: Monster, r: int, bonus: int) -> Monster {
    zapped(m, 3 - r + bonus)
}

/// The INT bonus the player's spells and potions get.
pub open spec fn spell_bonus(p: Player) -> int {
    let s = crate::player::effective_of(p);
    if s.int >= 10 { crate::player::potion_bonus_of(s) } else { 0 }
}

} // verus!
