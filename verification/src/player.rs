//! The player: class, attributes, equipment, abilities, inventory and
//! experience.
use vstd::prelude::*;
use vstd::multiset::Multiset;
use crate::items::{ArtifactEffect, Item, ItemType, same_item};
use crate::rng::random_below;
use crate::text::{int_text, int_to_string, str_equal};

verus! {

// --- Abilities ---

#[derive(Clone, Copy, Debug, PartialEq, Eq, Structural)]
pub enum AbilityType {
    PowerAttack,
    WarCry,
    ShadowStep,
    PoisonBlade,
    ChainLightning,
    FrostNova,
}

#[derive(Debug)]
pub struct Ability {
    pub name: String,
    pub ability_type: AbilityType,
    pub cooldown_max: i32,
    pub cooldown_remaining: i32,
    pub is_active: bool,
    pub charges: i32,
    pub buff_ticks_remaining: i32,
}

pub open spec fn ability_name(t: AbilityType) -> Seq<char> {
    match t {
        AbilityType::PowerAttack => "Power Attack"@,
        AbilityType::WarCry => "War Cry"@,
        AbilityType::ShadowStep => "Shadow Step"@,
        AbilityType::PoisonBlade => "Poison Blade"@,
        AbilityType::ChainLightning => "Chain Lightning"@,
        AbilityType::FrostNova => "Frost Nova"@,
    }
}

pub open spec fn base_cooldown(t: AbilityType) -> int {
    match t {
        AbilityType::PowerAttack => 8,
        AbilityType::WarCry => 12,
        AbilityType::ShadowStep => 7,
        AbilityType::PoisonBlade => 10,
        AbilityType::ChainLightning => 6,
        AbilityType::FrostNova => 10,
    }
}

/// A freshly learned ability: ready, inactive, no charges.
pub open spec fn is_new_ability(a: Ability, t: AbilityType) -> bool {
    &&& a.name@ == ability_name(t)
    &&& a.ability_type == t
    &&& a.cooldown_max == base_cooldown(t)
    &&& a.cooldown_remaining == 0
    &&& !a.is_active
    &&& a.charges == 0
    &&& a.buff_ticks_remaining == 0
}

/// Ability `b` equals `a` but for the numbers and flags, which the caller states.
pub open spec fn same_ability_kind(a: Ability, b: Ability) -> bool {
    a.name@ == b.name@ && a.ability_type == b.ability_type
}

/// How the status line shows an ability.
pub open spec fn ability_status(a: Ability) -> Seq<char> {
    if a.is_active {
        if a.charges > 0 {
            a.name@ + ": ACTIVE ("@ + int_text(a.charges as int) + ")"@
        } else {
            a.name@ + ": ACTIVE"@
        }
    } else if a.cooldown_remaining > 0 {
        a.name@ + ": "@ + int_text(a.cooldown_remaining as int) + "s"@
    } else {
        a.name@ + ": READY"@
    }
}

/// An ability after one tick of the clock.
pub open spec fn ticked(a: Ability) -> Ability {
    let cd = if a.cooldown_remaining > 0 { (a.cooldown_remaining - 1) as i32 } else { a.cooldown_remaining };
    if a.is_active && a.buff_ticks_remaining > 0 {
        let left = (a.buff_ticks_remaining - 1) as i32;
        Ability {
            cooldown_remaining: cd,
            buff_ticks_remaining: left,
            is_active: left > 0,
            charges: if left > 0 { a.charges } else { 0 },
            ..a
        }
    } else {
        Ability { cooldown_remaining: cd, ..a }
    }
}

/// The ability after `n` ticks.
pub open spec fn ticked_times(a: Ability, n: nat) -> Ability
    decreases n,
{
    if n == 0 { a } else { ticked_times(ticked(a), (n - 1) as nat) }
}

/// Cooldowns run out: an ability used (its cooldown set to its maximum, or
/// any cooldown up to `n`) is ready again after `n` ticks, whatever its buff
/// does meanwhile; its cooldown never drops below 0 on the way.
pub proof fn lemma_ready_after_cooldown(a: Ability, n: nat)
    requires
        0 <= a.cooldown_remaining <= n,
    ensures
        ticked_times(a, n).cooldown_remaining == 0,
        ticked_times(a, n).cooldown_max == a.cooldown_max,
        ticked_times(a, n).ability_type == a.ability_type,
    decreases n,
{
    if n > 0 {
        lemma_ready_after_cooldown(ticked(a), (n - 1) as nat);
    }
}

/// A cooldown counts down by one a tick and stops at 0: after `k` ticks an
/// ability whose cooldown was `c >= 0` has `c - k` left, or 0 once `k`
/// reaches `c`. So an ability just used (cooldown set to its maximum) is
/// unready for exactly its maximum's number of ticks, and ready from then on.
pub proof fn lemma_ready_exactly_after_cooldown(a: Ability, k: nat)
    requires
        a.cooldown_remaining >= 0,
    ensures
        ticked_times(a, k).cooldown_remaining == (if k <= a.cooldown_remaining { a.cooldown_remaining - k } else { 0 }),
        (ticked_times(a, k).cooldown_remaining <= 0) <==> k >= a.cooldown_remaining,
    decreases k,
{
    if k > 0 {
        lemma_ready_exactly_after_cooldown(ticked(a), (k - 1) as nat);
    }
}

/// An ability after a hit used up its buff, and whether the buff is gone.
pub open spec fn consumed(a: Ability) -> (Ability, bool) {
    match a.ability_type {
        AbilityType::PowerAttack | AbilityType::ShadowStep =>
            (Ability { is_active: false, buff_ticks_remaining: 0, ..a }, true),
        AbilityType::PoisonBlade => {
            let c = (a.charges - 1) as i32;
            if c <= 0 {
                (Ability { charges: c, is_active: false, buff_ticks_remaining: 0, ..a }, true)
            } else {
                (Ability { charges: c, ..a }, false)
            }
        },
        _ => (a, false),
    }
}

impl Ability {
    pub fn new(ability_type: AbilityType) -> (a: Ability)
        ensures
            is_new_ability(a, ability_type),
    {
        let (name, cooldown_max) = match ability_type {
            AbilityType::PowerAttack => ("Power Attack", 8),
            AbilityType::WarCry => ("War Cry", 12),
            AbilityType::ShadowStep => ("Shadow Step", 7),
            AbilityType::PoisonBlade => ("Poison Blade", 10),
            AbilityType::ChainLightning => ("Chain Lightning", 6),
            AbilityType::FrostNova => ("Frost Nova", 10),
        };
        Ability {
            name: String::from_str(name),
            ability_type,
            cooldown_max,
            cooldown_remaining: 0,
            is_active: false,
            charges: 0,
            buff_ticks_remaining: 0,
        }
    }

    pub fn is_ready(&self) -> (b: bool)
        ensures
            b == (self.cooldown_remaining <= 0),
    {
        self.cooldown_remaining <= 0
    }

    /// Starts the cooldown and the buff: Power Attack lasts 5 ticks, Shadow
    /// Step 2, Poison Blade 15 ticks with 3 charges; the others act at once.
    pub fn activate(&mut self)
        ensures
            same_ability_kind(*old(self), *final(self)),
            final(self).cooldown_max == old(self).cooldown_max,
            final(self).cooldown_remaining == old(self).cooldown_max,
            final(self).is_active,
            final(self).charges == (if old(self).ability_type == AbilityType::PoisonBlade { 3 } else { old(self).charges as int }),
            final(self).buff_ticks_remaining == (match old(self).ability_type {
                AbilityType::PowerAttack => 5,
                AbilityType::ShadowStep => 2,
                AbilityType::PoisonBlade => 15,
                _ => old(self).buff_ticks_remaining as int,
            }),
    {
        self.cooldown_remaining = self.cooldown_max;
        self.is_active = true;
        match self.ability_type {
            AbilityType::PowerAttack => self.buff_ticks_remaining = 5,
            AbilityType::ShadowStep => self.buff_ticks_remaining = 2,
            AbilityType::PoisonBlade => {
                self.charges = 3;
                self.buff_ticks_remaining = 15;
            },
            _ => {},
        }
    }

    /// One tick: the cooldown counts down to 0; an active buff counts down and
    /// ends (losing its charges) when its timer reaches 0.
    pub fn tick(&mut self)
        ensures
            *final(self) == ticked(*old(self)),
    {
        if self.cooldown_remaining > 0 {
            self.cooldown_remaining = self.cooldown_remaining - 1;
        }
        if self.is_active && self.buff_ticks_remaining > 0 {
            self.buff_ticks_remaining = self.buff_ticks_remaining - 1;
            if self.buff_ticks_remaining <= 0 {
                self.is_active = false;
                self.charges = 0;
            }
        }
    }

    /// Uses up a buff on a hit. Power Attack and Shadow Step end at once;
    /// Poison Blade loses a charge and ends at 0 charges. Returns whether the
    /// buff is now used up; other abilities are left alone and give false.
    pub fn consume_charge(&mut self) -> (done: bool)
        requires
            old(self).ability_type == AbilityType::PoisonBlade ==> old(self).charges > i32::MIN,
        ensures
            (*final(self), done) == consumed(*old(self)),
    {
        match self.ability_type {
            AbilityType::PowerAttack | AbilityType::ShadowStep => {
                self.is_active = false;
                self.buff_ticks_remaining = 0;
                true
            },
            AbilityType::PoisonBlade => {
                self.charges = self.charges - 1;
                if self.charges <= 0 {
                    self.is_active = false;
                    self.buff_ticks_remaining = 0;
                    return true;
                }
                false
            },
            _ => false,
        }
    }

    /// "Name: ACTIVE (n)", "Name: ACTIVE", "Name: ns" or "Name: READY".
    pub fn status_text(&self) -> (s: String)
        ensures
            s@ == ability_status(*self),
    {
        let mut s = self.name.clone();
        if self.is_active {
            if self.charges > 0 {
                s.append(": ACTIVE (");
                s.append(int_to_string(self.charges).as_str());
                s.append(")");
            } else {
                s.append(": ACTIVE");
            }
        } else if self.cooldown_remaining > 0 {
            s.append(": ");
            s.append(int_to_string(self.cooldown_remaining).as_str());
            s.append("s");
        } else {
            s.append(": READY");
        }
        s
    }
}

// --- Classes ---

#[derive(Clone, Copy, Debug, PartialEq, Eq, Structural)]
pub enum Class {
    Warrior,
    Rogue,
    Mage,
}

pub open spec fn class_name(c: Class) -> Seq<char> {
    match c {
        Class::Warrior => "Warrior"@,
        Class::Rogue => "Rogue"@,
        Class::Mage => "Mage"@,
    }
}

/// A character's four attributes, its base critical chance, and the critical
/// damage multiplier in percent (150 means one and a half times the damage).
#[derive(Clone, Copy, Debug)]
pub struct Stats {
    pub str_: i32,
    pub dex: i32,
    pub int: i32,
    pub con: i32,
    pub crit_chance: i32,
    pub crit_multiplier: i32,
}

pub open spec fn class_stats(c: Class) -> Stats {
    match c {
        Class::Warrior => Stats { str_: 14, dex: 10, int: 8, con: 14, crit_chance: 0, crit_multiplier: 150 },
        Class::Rogue => Stats { str_: 10, dex: 14, int: 10, con: 10, crit_chance: 4, crit_multiplier: 150 },
        Class::Mage => Stats { str_: 8, dex: 10, int: 14, con: 8, crit_chance: 0, crit_multiplier: 150 },
    }
}

impl Class {
    pub fn name(&self) -> (s: &'static str)
        ensures
            s@ == class_name(*self),
    {
        match self {
            Class::Warrior => "Warrior",
            Class::Rogue => "Rogue",
            Class::Mage => "Mage",
        }
    }

    pub fn base_stats(&self) -> (s: Stats)
        ensures
            s == class_stats(*self),
    {
        match self {
            Class::Warrior => Stats { str_: 14, dex: 10, int: 8, con: 14, crit_chance: 0, crit_multiplier: 150 },
            Class::Rogue => Stats { str_: 10, dex: 14, int: 10, con: 10, crit_chance: 4, crit_multiplier: 150 },
            Class::Mage => Stats { str_: 8, dex: 10, int: 14, con: 8, crit_chance: 0, crit_multiplier: 150 },
        }
    }
}

/// Attributes small enough that the derived numbers cannot overflow.
pub open spec fn stats_bounded(s: Stats) -> bool {
    &&& -10_000_000 <= s.str_ <= 10_000_000
    &&& -10_000_000 <= s.dex <= 10_000_000
    &&& -10_000_000 <= s.int <= 10_000_000
    &&& -10_000_000 <= s.con <= 10_000_000
}

pub open spec fn str_mod(s: Stats) -> int { (s.str_ - 10) / 2 }
pub open spec fn dodge_of(s: Stats) -> int { let d = (s.dex - 10) * 3; if d > 0 { d } else { 0 } }
pub open spec fn max_hp_of(s: Stats) -> int { 20 + (s.con - 10) }
pub open spec fn potion_bonus_of(s: Stats) -> int { let b = (s.int - 10) / 2; if b > 0 { b } else { 0 } }
pub open spec fn crit_of(s: Stats) -> int { let c = s.dex - 10; if c > 0 { c } else { 0 } }

impl Stats {
    /// (STR - 10) / 2, rounded toward zero, added to melee damage.
    pub fn str_modifier(&self) -> (m: i32)
        requires
            stats_bounded(*self),
        ensures
            m == (if self.str_ >= 10 { str_mod(*self) } else { -((10 - self.str_) / 2) }),
    {
        (self.str_ - 10) / 2
    }

    /// (DEX - 10) * 3 percent, at least 0.
    pub fn dodge_chance(&self) -> (d: i32)
        requires
            stats_bounded(*self),
        ensures
            d == dodge_of(*self),
    {
        let d = (self.dex - 10) * 3;
        if d > 0 { d } else { 0 }
    }

    /// 20 + (CON - 10).
    pub fn max_hp(&self) -> (h: i32)
        requires
            stats_bounded(*self),
        ensures
            h == max_hp_of(*self),
    {
        20 + (self.con - 10)
    }

    /// One extra healing point per two INT above 10.
    pub fn potion_bonus(&self) -> (b: i32)
        requires
            stats_bounded(*self),
        ensures
            b == (if self.int >= 10 { potion_bonus_of(*self) } else { 0 }),
    {
        let b = (self.int - 10) / 2;
        if b > 0 { b } else { 0 }
    }

    /// One percent of critical chance per DEX above 10.
    pub fn crit_chance(&self) -> (c: i32)
        requires
            stats_bounded(*self),
        ensures
            c == crit_of(*self),
    {
        let c = (self.dex - 10) * 1;
        if c > 0 { c } else { 0 }
    }

    /// The critical damage multiplier in percent.
    pub fn crit_multiplier(&self) -> (m: i32)
        ensures
            m == self.crit_multiplier,
    {
        self.crit_multiplier
    }
}

// --- Equipment ---

pub struct Equipment {
    pub weapon: Option<Item>,
    pub armor: Option<Item>,
    pub ring: Option<Item>,
}

pub open spec fn weapon_bonus(e: Equipment) -> int {
    match e.weapon { Some(w) => w.damage_bonus as int, None => 0 }
}

pub open spec fn armor_bonus(e: Equipment) -> int {
    match e.armor { Some(a) => a.defense_bonus as int, None => 0 }
}

/// The (STR, DEX, INT, CON) bonus of the ring worn, by its attribute name.
pub open spec fn ring_bonus(e: Equipment) -> (int, int, int, int) {
    match e.ring {
        Some(r) => {
            let v = r.stat_bonus_value as int;
            if r.stat_bonus_type@ == "STR"@ { (v, 0, 0, 0) }
            else if r.stat_bonus_type@ == "DEX"@ { (0, v, 0, 0) }
            else if r.stat_bonus_type@ == "INT"@ { (0, 0, v, 0) }
            else if r.stat_bonus_type@ == "CON"@ { (0, 0, 0, v) }
            else { (0, 0, 0, 0) }
        },
        None => (0, 0, 0, 0),
    }
}

impl Equipment {
    pub fn new() -> (e: Equipment)
        ensures
            e.weapon is None,
            e.armor is None,
            e.ring is None,
    {
        Equipment { weapon: None, armor: None, ring: None }
    }

    pub fn weapon_damage(&self) -> (d: i32)
        ensures
            d == weapon_bonus(*self),
    {
        match &self.weapon {
            Some(w) => w.damage_bonus,
            None => 0,
        }
    }

    pub fn armor_defense(&self) -> (d: i32)
        ensures
            d == armor_bonus(*self),
    {
        match &self.armor {
            Some(a) => a.defense_bonus,
            None => 0,
        }
    }

    /// Returns the (STR, DEX, INT, CON) bonuses of the equipped ring.
    pub fn ring_stat_bonus(&self) -> (b: (i32, i32, i32, i32))
        ensures
            (b.0 as int, b.1 as int, b.2 as int, b.3 as int) == ring_bonus(*self),
    {
        match &self.ring {
            Some(r) => {
                let t = r.stat_bonus_type.as_str();
                let v = r.stat_bonus_value;
                if str_equal(t, "STR") { (v, 0, 0, 0) }
                else if str_equal(t, "DEX") { (0, v, 0, 0) }
                else if str_equal(t, "INT") { (0, 0, v, 0) }
                else if str_equal(t, "CON") { (0, 0, 0, v) }
                else { (0, 0, 0, 0) }
            },
            None => (0, 0, 0, 0),
        }
    }
}

} // verus!
verus! {

// --- Player ---

pub const INVENTORY_CAPACITY: usize = 10;

/// The highest level a character reaches; abilities unlock on the way up
/// to it.
pub const MAX_LEVEL: i32 = 20;

pub struct Player {
    pub x: usize,
    pub y: usize,
    pub hp: i32,
    pub max_hp: i32,
    pub class: Class,
    pub base_stats: Stats,
    pub equipment: Equipment,
    pub inventory: Vec<Item>,
    pub ability_1: Option<Ability>,
    pub ability_2: Option<Ability>,
    pub pending_ability_direction: Option<u8>,
    pub xp: i32,
    pub level: i32,
    pub xp_to_next_level: i32,
    pub poison_ticks: i32,
    pub ragefang_stacks: i32,
    pub ragefang_ticks: i32,
    pub stonehide_triggered: bool,
    pub stonehide_bonus: i32,
    pub wraithwalkers_buff: bool,
    pub mindfire_kill_count: i32,
    pub mindfire_ready: bool,
    pub monsters_slain: u32,
    pub damage_dealt: i32,
    pub damage_taken: i64,
    pub cause_of_death: String,
    pub last_damage_source: Option<(String, i32)>,
    pub bonus_str: i32,
    pub bonus_dodge: i32,
    pub warding_buff: bool,
}

/// Base attributes plus the bonus of the ring worn.
pub open spec fn effective_of(p: Player) -> Stats {
    let (rs, rd, ri, rc) = ring_bonus(p.equipment);
    Stats {
        str_: (p.base_stats.str_ + rs) as i32,
        dex: (p.base_stats.dex + rd) as i32,
        int: (p.base_stats.int + ri) as i32,
        con: (p.base_stats.con + rc) as i32,
        crit_chance: p.base_stats.crit_chance,
        crit_multiplier: p.base_stats.crit_multiplier,
    }
}

pub open spec fn item_bounded(it: Item) -> bool {
    &&& -1_000_000 <= it.damage_bonus <= 1_000_000
    &&& -1_000_000 <= it.defense_bonus <= 1_000_000
    &&& -1_000_000 <= it.stat_bonus_value <= 1_000_000
    &&& -1_000_000 <= it.heal_amount <= 1_000_000
}

pub open spec fn opt_item_bounded(o: Option<Item>) -> bool {
    match o { Some(it) => item_bounded(it), None => true }
}

/// The numbers that the player's rules combine are far from the `i32`
/// limits, so no sum or product among them overflows.
pub open spec fn player_bounded(p: Player) -> bool {
    &&& -1_000_000 <= p.base_stats.str_ <= 1_000_000
    &&& -1_000_000 <= p.base_stats.dex <= 1_000_000
    &&& -1_000_000 <= p.base_stats.int <= 1_000_000
    &&& -1_000_000 <= p.base_stats.con <= 1_000_000
    &&& -1_000_000 <= p.base_stats.crit_multiplier <= 1_000_000
    &&& opt_item_bounded(p.equipment.weapon)
    &&& opt_item_bounded(p.equipment.armor)
    &&& opt_item_bounded(p.equipment.ring)
    &&& forall|i: int| 0 <= i < p.inventory@.len() ==> item_bounded(#[trigger] p.inventory@[i])
    &&& -10_000_000 <= p.hp <= 10_000_000
    &&& -10_000_000 <= p.max_hp <= 10_000_000
    &&& -1_000_000 <= p.ragefang_stacks <= 1_000_000
    &&& -1_000_000 <= p.stonehide_bonus <= 1_000_000
}

pub open spec fn has_effect(o: Option<Item>, e: ArtifactEffect) -> bool {
    match o { Some(it) => it.artifact_effect == e, None => false }
}

/// Melee damage before the random variance: 1 + weapon + STR modifier +
/// Ragefang stacks, doubled by the Wraithwalkers buff, and multiplied by the
/// critical multiplier (percent, rounded toward zero) on a critical hit.
pub open spec fn melee_base(p: Player, crit: bool) -> int {
    let s = effective_of(p);
    let m = if s.str_ >= 10 { str_mod(s) } else { -((10 - s.str_) / 2) };
    let d0 = 1 + weapon_bonus(p.equipment) + m + p.ragefang_stacks;
    let d1 = if p.wraithwalkers_buff { 2 * d0 } else { d0 };
    if crit {
        let prod = d1 * s.crit_multiplier;
        if prod >= 0 { prod / 100 } else { -((-prod) / 100) }
    } else {
        d1
    }
}

/// Half of `v`, rounded toward zero.
pub open spec fn half_toward_zero(v: int) -> int {
    if v >= 0 { v / 2 } else { -((-v) / 2) }
}

/// Melee damage, without a critical hit, of an unarmed player with no
/// buff and no Ragefang stacks: 1 plus half of (STR - 10), rounded toward
/// zero, STR counting the ring.
pub proof fn lemma_bare_melee(p: Player)
    requires
        p.equipment.weapon is None,
        !p.wraithwalkers_buff,
        p.ragefang_stacks == 0,
    ensures
        melee_base(p, false) == 1 + half_toward_zero(effective_of(p).str_ - 10),
{
}

/// A weapon adds exactly its damage bonus to melee damage (twice that
/// under the Wraithwalkers buff), whatever else the player has.
pub proof fn lemma_weapon_adds_its_bonus(p: Player, w: Item)
    ensures
        melee_base(Player { equipment: Equipment { weapon: Some(w), ..p.equipment }, ..p }, false)
            == melee_base(Player { equipment: Equipment { weapon: None, ..p.equipment }, ..p }, false)
                + (if p.wraithwalkers_buff { 2 * w.damage_bonus } else { w.damage_bonus as int }),
{
}

/// Each Ragefang stack adds exactly 1 to melee damage (2 under the
/// Wraithwalkers buff).
pub proof fn lemma_stack_adds_one(p: Player)
    requires
        p.ragefang_stacks < i32::MAX,
    ensures
        melee_base(Player { ragefang_stacks: (p.ragefang_stacks + 1) as i32, ..p }, false)
            == melee_base(p, false) + (if p.wraithwalkers_buff { 2int } else { 1 }),
{
}

/// The Wraithwalkers buff doubles melee damage.
pub proof fn lemma_buff_doubles(p: Player)
    ensures
        melee_base(Player { wraithwalkers_buff: true, ..p }, false)
            == 2 * melee_base(Player { wraithwalkers_buff: false, ..p }, false),
{
}

/// A critical hit multiplies the damage by the critical multiplier, in
/// percent, rounded toward zero.
pub proof fn lemma_crit_scales(p: Player)
    ensures
        ({
            let d = melee_base(p, false) * effective_of(p).crit_multiplier;
            melee_base(p, true) == (if d >= 0 { d / 100 } else { -((-d) / 100) })
        }),
{
}

pub open spec fn dodge_total(p: Player) -> int {
    dodge_of(effective_of(p)) + (if has_effect(p.equipment.armor, ArtifactEffect::Wraithwalkers) { 15int } else { 0 })
}

/// Dodge: none from DEX 10 or less, 3 percent for each point of DEX above
/// 10, and 15 more in Wraithwalkers.
pub proof fn lemma_dodge_grows_with_dex(p: Player)
    requires
        player_bounded(p),
    ensures
        effective_of(p).dex <= 10 ==> dodge_total(p) == (if has_effect(p.equipment.armor, ArtifactEffect::Wraithwalkers) { 15int } else { 0 }),
        effective_of(p).dex >= 10 ==> dodge_total(Player { base_stats: Stats { dex: (p.base_stats.dex + 1) as i32, ..p.base_stats }, ..p })
            == dodge_total(p) + 3,
        dodge_total(Player { equipment: Equipment { armor: None, ..p.equipment }, ..p }) == dodge_of(effective_of(p)),
{
}

/// Potions: INT of 11 or less adds nothing to a potion's healing, and
/// from INT 10 on every two points of INT add one.
pub proof fn lemma_potion_int_bonus(p: Player, base: int)
    requires
        player_bounded(p),
    ensures
        effective_of(p).int <= 11 ==> potion_heal(p, base) == base,
        effective_of(p).int >= 10 ==> potion_heal(Player { base_stats: Stats { int: (p.base_stats.int + 2) as i32, ..p.base_stats }, ..p }, base)
            == potion_heal(p, base) + 1,
        potion_heal(p, base) >= base,
{
    let s = effective_of(p);
    let q = Player { base_stats: Stats { int: (p.base_stats.int + 2) as i32, ..p.base_stats }, ..p };
    assert(effective_of(q).int == s.int + 2);
    if s.int >= 10 {
        assert((s.int + 2 - 10) / 2 == (s.int - 10) / 2 + 1);
    }
}

pub open spec fn buff_type(t: AbilityType) -> bool {
    t == AbilityType::PowerAttack || t == AbilityType::ShadowStep
}

pub open spec fn slot_has_buff(a: Option<Ability>) -> bool {
    match a { Some(x) => x.is_active && buff_type(x.ability_type), None => false }
}

pub open spec fn slot_has_poison(a: Option<Ability>) -> bool {
    match a { Some(x) => x.is_active && x.ability_type == AbilityType::PoisonBlade, None => false }
}

pub open spec fn first_ability(c: Class) -> AbilityType {
    match c {
        Class::Warrior => AbilityType::PowerAttack,
        Class::Rogue => AbilityType::ShadowStep,
        Class::Mage => AbilityType::ChainLightning,
    }
}

pub open spec fn second_ability(c: Class) -> AbilityType {
    match c {
        Class::Warrior => AbilityType::WarCry,
        Class::Rogue => AbilityType::PoisonBlade,
        Class::Mage => AbilityType::FrostNova,
    }
}

impl Player {
    /// A level 1 character of `class` at (x, y) with full HP, nothing
    /// equipped or carried, its first ability, and 50 XP to the next level.
    pub fn new(x: usize, y: usize, class: Class) -> (p: Player)
        ensures
            p.x == x && p.y == y && p.class == class,
            p.base_stats == class_stats(class),
            p.max_hp == max_hp_of(class_stats(class)),
            p.hp == p.max_hp,
            p.equipment.weapon is None && p.equipment.armor is None && p.equipment.ring is None,
            p.inventory@.len() == 0,
            p.ability_1 is Some && is_new_ability(p.ability_1->0, first_ability(class)),
            p.ability_2 is None,
            p.pending_ability_direction is None,
            p.xp == 0 && p.level == 1 && p.xp_to_next_level == 50,
            p.poison_ticks == 0 && p.ragefang_stacks == 0 && p.ragefang_ticks == 0,
            !p.stonehide_triggered && p.stonehide_bonus == 0 && !p.wraithwalkers_buff,
            p.mindfire_kill_count == 0 && !p.mindfire_ready,
            p.monsters_slain == 0 && p.damage_dealt == 0 && p.damage_taken == 0,
            p.cause_of_death@.len() == 0,
            p.last_damage_source is None,
            p.bonus_str == 0 && p.bonus_dodge == 0 && !p.warding_buff,
    {
        let base_stats = class.base_stats();
        let max_hp = base_stats.max_hp();
        let ability_1 = match class {
            Class::Warrior => Some(Ability::new(AbilityType::PowerAttack)),
            Class::Rogue => Some(Ability::new(AbilityType::ShadowStep)),
            Class::Mage => Some(Ability::new(AbilityType::ChainLightning)),
        };
        Player {
            x,
            y,
            hp: max_hp,
            max_hp,
            class,
            base_stats,
            equipment: Equipment::new(),
            inventory: Vec::new(),
            ability_1,
            ability_2: None,
            pending_ability_direction: None,
            xp: 0,
            level: 1,
            xp_to_next_level: 50,
            poison_ticks: 0,
            ragefang_stacks: 0,
            ragefang_ticks: 0,
            stonehide_triggered: false,
            stonehide_bonus: 0,
            wraithwalkers_buff: false,
            mindfire_kill_count: 0,
            mindfire_ready: false,
            monsters_slain: 0,
            damage_dealt: 0,
            damage_taken: 0,
            cause_of_death: String::new(),
            last_damage_source: None,
            bonus_str: 0,
            bonus_dodge: 0,
            warding_buff: false,
        }
    }

    /// Base attributes plus the ring's bonus.
    pub fn effective_stats(&self) -> (s: Stats)
        requires
            player_bounded(*self),
        ensures
            s == effective_of(*self),
            stats_bounded(s),
    {
        let (rs, rd, ri, rc) = self.equipment.ring_stat_bonus();
        Stats {
            str_: self.base_stats.str_ + rs,
            dex: self.base_stats.dex + rd,
            int: self.base_stats.int + ri,
            con: self.base_stats.con + rc,
            crit_chance: self.base_stats.crit_chance,
            crit_multiplier: self.base_stats.crit_multiplier,
        }
    }

    /// Whether an attack is a critical hit: DEX above 10 gives one percent
    /// per point; never with no chance, always at 100 or more.
    pub fn roll_crit(&self) -> (c: bool)
        requires
            player_bounded(*self),
        ensures
            exists|roll: int| #[trigger] c_witness(c, crit_of(effective_of(*self)), roll),
    {
        let stats = self.effective_stats();
        let chance = stats.crit_chance();
        if chance <= 0 {
            assert(c_witness(false, chance as int, 0));
            return false;
        }
        let roll = random_below(100);
        let c = (roll as i32) < chance;
        assert(c_witness(c, chance as int, roll as int));
        c
    }

    /// Melee damage before the random variance (see `melee_base`).
    pub fn melee_damage_base(&self, crit: bool) -> (d: i32)
        requires
            player_bounded(*self),
            0 <= self.base_stats.crit_multiplier <= 1_000,
        ensures
            d == melee_base(*self, crit),
    {
        let stats = self.effective_stats();
        let mut damage: i64 = 1 + self.equipment.weapon_damage() as i64 + stats.str_modifier() as i64;
        damage = damage + self.ragefang_stacks as i64;
        if self.wraithwalkers_buff {
            damage = damage * 2;
        }
        if crit {
            let mult = stats.crit_multiplier() as i64;
            assert(-8_000_000 <= damage <= 8_000_000);
            assert(-8_000_000_000 <= damage * mult <= 8_000_000_000) by (nonlinear_arith)
                requires
                    -8_000_000 <= damage <= 8_000_000,
                    0 <= mult <= 1_000;
            let prod = damage * mult;
            damage = if prod >= 0 { prod / 100 } else { -((-prod) / 100) };
        }
        damage as i32
    }

    /// Armor, and the Stonehide bonus, soak incoming damage; at least 1 gets
    /// through.
    pub fn reduce_damage(&self, raw_damage: i32) -> (d: i32)
        requires
            player_bounded(*self),
            -10_000_000 <= raw_damage <= 10_000_000,
        ensures
            d == (if raw_damage - armor_bonus(self.equipment) - self.stonehide_bonus > 1 {
                raw_damage - armor_bonus(self.equipment) - self.stonehide_bonus
            } else {
                1
            }),
    {
        let d = raw_damage - self.equipment.armor_defense() - self.stonehide_bonus;
        if d > 1 { d } else { 1 }
    }

    pub fn effective_dodge_chance(&self) -> (d: i32)
        requires
            player_bounded(*self),
        ensures
            d == dodge_total(*self),
    {
        let stats = self.effective_stats();
        let base = stats.dodge_chance();
        if self.has_wraithwalkers() { base + 15 } else { base }
    }

    /// Whether an incoming attack is dodged (chance in percent, see
    /// `dodge_total`).
    pub fn try_dodge(&self) -> (b: bool)
        requires
            player_bounded(*self),
        ensures
            exists|roll: int| #[trigger] c_witness(b, dodge_total(*self), roll),
    {
        let chance = self.effective_dodge_chance();
        if chance <= 0 {
            assert(c_witness(false, chance as int, 0));
            return false;
        }
        let roll = random_below(100);
        let b = (roll as i32) < chance;
        assert(c_witness(b, chance as int, roll as int));
        b
    }

    /// Potion healing plus the INT bonus.
    pub fn potion_heal_amount(&self, base_heal: i32) -> (h: i32)
        requires
            player_bounded(*self),
            -1_000_000 <= base_heal <= 1_000_000,
        ensures
            h == base_heal + (if effective_of(*self).int >= 10 { potion_bonus_of(effective_of(*self)) } else { 0 }),
    {
        let stats = self.effective_stats();
        base_heal + stats.potion_bonus()
    }

    pub fn take_damage(&mut self, amount: i32)
        requires
            i32::MIN <= old(self).hp - amount <= i32::MAX,
        ensures
            *final(self) == (Player { hp: (if old(self).hp - amount > 0 { old(self).hp - amount } else { 0 }) as i32, ..*old(self) }),
    {
        let h = self.hp - amount;
        self.hp = if h > 0 { h } else { 0 };
    }

    pub fn is_alive(&self) -> (b: bool)
        ensures
            b == (self.hp > 0),
    {
        self.hp > 0
    }

    pub fn heal(&mut self, amount: i32)
        requires
            i32::MIN <= old(self).hp + amount <= i32::MAX,
        ensures
            *final(self) == (Player { hp: (if old(self).hp + amount < old(self).max_hp { old(self).hp + amount } else { old(self).max_hp as int }) as i32, ..*old(self) }),
    {
        let h = self.hp + amount;
        self.hp = if h < self.max_hp { h } else { self.max_hp };
    }

    pub fn has_ragefang(&self) -> (b: bool)
        ensures
            b == has_effect(self.equipment.weapon, ArtifactEffect::Ragefang),
    {
        match &self.equipment.weapon {
            Some(w) => w.artifact_effect == ArtifactEffect::Ragefang,
            None => false,
        }
    }

    pub fn has_stonehide(&self) -> (b: bool)
        ensures
            b == has_effect(self.equipment.armor, ArtifactEffect::StonehidePlate),
    {
        match &self.equipment.armor {
            Some(a) => a.artifact_effect == ArtifactEffect::StonehidePlate,
            None => false,
        }
    }

    pub fn has_wraithwalkers(&self) -> (b: bool)
        ensures
            b == has_effect(self.equipment.armor, ArtifactEffect::Wraithwalkers),
    {
        match &self.equipment.armor {
            Some(a) => a.artifact_effect == ArtifactEffect::Wraithwalkers,
            None => false,
        }
    }

    pub fn has_mindfire(&self) -> (b: bool)
        ensures
            b == has_effect(self.equipment.ring, ArtifactEffect::MindFireCrown),
    {
        match &self.equipment.ring {
            Some(r) => r.artifact_effect == ArtifactEffect::MindFireCrown,
            None => false,
        }
    }

    pub fn has_shadowfang(&self) -> (b: bool)
        ensures
            b == has_effect(self.equipment.weapon, ArtifactEffect::Shadowfang),
    {
        match &self.equipment.weapon {
            Some(w) => w.artifact_effect == ArtifactEffect::Shadowfang,
            None => false,
        }
    }

    pub fn has_warlord_signet(&self) -> (b: bool)
        ensures
            b == has_effect(self.equipment.ring, ArtifactEffect::WarlordSignet),
    {
        match &self.equipment.ring {
            Some(r) => r.artifact_effect == ArtifactEffect::WarlordSignet,
            None => false,
        }
    }

    pub fn has_venomcoil(&self) -> (b: bool)
        ensures
            b == has_effect(self.equipment.ring, ArtifactEffect::Venomcoil),
    {
        match &self.equipment.ring {
            Some(r) => r.artifact_effect == ArtifactEffect::Venomcoil,
            None => false,
        }
    }

    pub fn has_stormcaller(&self) -> (b: bool)
        ensures
            b == has_effect(self.equipment.weapon, ArtifactEffect::StormcallerStaff),
    {
        match &self.equipment.weapon {
            Some(w) => w.artifact_effect == ArtifactEffect::StormcallerStaff,
            None => false,
        }
    }

    pub fn has_frostweave(&self) -> (b: bool)
        ensures
            b == has_effect(self.equipment.armor, ArtifactEffect::FrostweavRobe),
    {
        match &self.equipment.armor {
            Some(a) => a.artifact_effect == ArtifactEffect::FrostweavRobe,
            None => false,
        }
    }

    /// Arms the Wraithwalkers buff: the next melee hit deals double damage.
    pub fn activate_damage_buff(&mut self)
        ensures
            *final(self) == (Player { wraithwalkers_buff: true, ..*old(self) }),
    {
        self.wraithwalkers_buff = true;
    }

    /// 2 while the Mind-Fire Crown is charged, else 1.
    pub fn get_damage_multiplier(&self) -> (m: i32)
        ensures
            m == (if self.mindfire_ready { 2i32 } else { 1i32 }),
    {
        if self.mindfire_ready { 2 } else { 1 }
    }

    pub fn consume_mindfire(&mut self)
        ensures
            *final(self) == (Player { mindfire_ready: false, ..*old(self) }),
    {
        self.mindfire_ready = false;
    }

    /// Whether Power Attack or Shadow Step is active in either slot.
    pub fn has_damage_buff(&self) -> (b: bool)
        ensures
            b == (slot_has_buff(self.ability_1) || slot_has_buff(self.ability_2)),
    {
        if let Some(a) = &self.ability_1 {
            if a.is_active && (a.ability_type == AbilityType::PowerAttack || a.ability_type == AbilityType::ShadowStep) {
                return true;
            }
        }
        if let Some(a) = &self.ability_2 {
            if a.is_active && (a.ability_type == AbilityType::PowerAttack || a.ability_type == AbilityType::ShadowStep) {
                return true;
            }
        }
        false
    }

    /// Whether Poison Blade is active in either slot.
    pub fn has_poison_buff(&self) -> (b: bool)
        ensures
            b == (slot_has_poison(self.ability_1) || slot_has_poison(self.ability_2)),
    {
        if let Some(a) = &self.ability_1 {
            if a.is_active && a.ability_type == AbilityType::PoisonBlade {
                return true;
            }
        }
        if let Some(a) = &self.ability_2 {
            if a.is_active && a.ability_type == AbilityType::PoisonBlade {
                return true;
            }
        }
        false
    }

    /// After a melee hit, uses up the first active Power Attack or Shadow
    /// Step buff and returns its slot (1 or 2); `None` when there is none.
    pub fn consume_damage_buff(&mut self) -> (slot: Option<u8>)
        ensures
            slot_has_buff(old(self).ability_1) ==> slot == Some(1u8)
                && *final(self) == (Player { ability_1: Some(consumed(old(self).ability_1->0).0), ..*old(self) }),
            !slot_has_buff(old(self).ability_1) && slot_has_buff(old(self).ability_2) ==> slot == Some(2u8)
                && *final(self) == (Player { ability_2: Some(consumed(old(self).ability_2->0).0), ..*old(self) }),
            !slot_has_buff(old(self).ability_1) && !slot_has_buff(old(self).ability_2) ==> slot is None
                && *final(self) == *old(self),
            *final(self) == buff_spent(*old(self)),
    {
        match &mut self.ability_1 {
            Some(a) => {
                if a.is_active && (a.ability_type == AbilityType::PowerAttack || a.ability_type == AbilityType::ShadowStep) {
                    a.consume_charge();
                    return Some(1);
                }
            },
            None => {},
        }
        match &mut self.ability_2 {
            Some(a) => {
                if a.is_active && (a.ability_type == AbilityType::PowerAttack || a.ability_type == AbilityType::ShadowStep) {
                    a.consume_charge();
                    return Some(2);
                }
            },
            None => {},
        }
        None
    }

    /// After a melee hit, uses up a charge of the first active Poison Blade
    /// buff and returns its slot (1 or 2); `None` when there is none.
    pub fn consume_poison_buff(&mut self) -> (slot: Option<u8>)
        requires
            old(self).ability_1 is Some ==> old(self).ability_1->0.charges > i32::MIN,
            old(self).ability_2 is Some ==> old(self).ability_2->0.charges > i32::MIN,
        ensures
            slot_has_poison(old(self).ability_1) ==> slot == Some(1u8)
                && *final(self) == (Player { ability_1: Some(consumed(old(self).ability_1->0).0), ..*old(self) }),
            !slot_has_poison(old(self).ability_1) && slot_has_poison(old(self).ability_2) ==> slot == Some(2u8)
                && *final(self) == (Player { ability_2: Some(consumed(old(self).ability_2->0).0), ..*old(self) }),
            !slot_has_poison(old(self).ability_1) && !slot_has_poison(old(self).ability_2) ==> slot is None
                && *final(self) == *old(self),
            *final(self) == poison_spent(*old(self)),
    {
        match &mut self.ability_1 {
            Some(a) => {
                if a.is_active && a.ability_type == AbilityType::PoisonBlade {
                    a.consume_charge();
                    return Some(1);
                }
            },
            None => {},
        }
        match &mut self.ability_2 {
            Some(a) => {
                if a.is_active && a.ability_type == AbilityType::PoisonBlade {
                    a.consume_charge();
                    return Some(2);
                }
            },
            None => {},
        }
        None
    }

    /// One monster tick: both abilities tick, the Ragefang timer counts down
    /// (its stacks vanish when it reaches 0), and the Wraithwalkers buff ends.
    pub fn tick_abilities(&mut self)
        ensures
            *final(self) == (Player {
                ability_1: tick_slot(old(self).ability_1),
                ability_2: tick_slot(old(self).ability_2),
                ragefang_ticks: if old(self).ragefang_ticks > 0 { (old(self).ragefang_ticks - 1) as i32 } else { old(self).ragefang_ticks },
                ragefang_stacks: if old(self).ragefang_ticks == 1 { 0 } else { old(self).ragefang_stacks },
                wraithwalkers_buff: false,
                ..*old(self)
            }),
    {
        match &mut self.ability_1 {
            Some(a) => a.tick(),
            None => {},
        }
        match &mut self.ability_2 {
            Some(a) => a.tick(),
            None => {},
        }
        if self.ragefang_ticks > 0 {
            self.ragefang_ticks = self.ragefang_ticks - 1;
            if self.ragefang_ticks == 0 {
                self.ragefang_stacks = 0;
            }
        }
        if self.wraithwalkers_buff {
            self.wraithwalkers_buff = false;
        }
    }

    /// Adds `item` to the inventory unless it already holds
    /// `INVENTORY_CAPACITY` items; returns whether it was added.
    pub fn add_to_inventory(&mut self, item: Item) -> (added: bool)
        ensures
            added == (old(self).inventory@.len() < INVENTORY_CAPACITY),
            added ==> *final(self) == (Player { inventory: final(self).inventory, ..*old(self) })
                && final(self).inventory@ == old(self).inventory@.push(item),
            !added ==> *final(self) == *old(self),
    {
        if self.inventory.len() >= INVENTORY_CAPACITY {
            return false;
        }
        self.inventory.push(item);
        true
    }

    /// Removes and returns the item at `index`; `None` when there is none.
    pub fn drop_from_inventory(&mut self, index: usize) -> (r: Option<Item>)
        ensures
            index >= old(self).inventory@.len() ==> r is None && *final(self) == *old(self),
            index < old(self).inventory@.len() ==> r == Some(old(self).inventory@[index as int])
                && *final(self) == (Player { inventory: final(self).inventory, ..*old(self) })
                && final(self).inventory@ == old(self).inventory@.remove(index as int),
    {
        if index >= self.inventory.len() {
            return None;
        }
        Some(self.inventory.remove(index))
    }

    /// Max HP follows the effective CON; HP is cut down to it.
    fn recalculate_max_hp(&mut self)
        requires
            player_bounded(*old(self)),
        ensures
            *final(self) == recalculated(*old(self)),
    {
        let stats = self.effective_stats();
        let new_max = stats.max_hp();
        self.max_hp = new_max;
        if self.hp > self.max_hp {
            self.hp = self.max_hp;
        }
    }

    /// Drinks the potion at `index`: it leaves the inventory and heals its
    /// amount plus the INT bonus (up to max HP), which is returned. `None`,
    /// with nothing changed, when there is no item there or it is no potion.
    pub fn use_potion(&mut self, index: usize) -> (r: Option<i32>)
        requires
            player_bounded(*old(self)),
        ensures
            (index >= old(self).inventory@.len() || old(self).inventory@[index as int].item_type != ItemType::Potion)
                ==> r is None && *final(self) == *old(self),
            index < old(self).inventory@.len() && old(self).inventory@[index as int].item_type == ItemType::Potion ==> {
                let h = potion_heal(*old(self), old(self).inventory@[index as int].heal_amount as int);
                &&& r == Some(h as i32)
                &&& final(self).inventory@ == old(self).inventory@.remove(index as int)
                &&& *final(self) == (Player {
                        inventory: final(self).inventory,
                        hp: (if old(self).hp + h < old(self).max_hp { old(self).hp + h } else { old(self).max_hp as int }) as i32,
                        ..*old(self)
                    })
            },
    {
        if index >= self.inventory.len() {
            return None;
        }
        if self.inventory[index].item_type != ItemType::Potion {
            return None;
        }
        let potion = self.inventory.remove(index);
        proof {
            assert(item_bounded(old(self).inventory@[index as int]));
        }
        let heal = self.potion_heal_amount(potion.heal_amount);
        self.heal(heal);
        Some(heal)
    }

    /// Equips the weapon, armor or ring at `index`, putting what was worn in
    /// that slot at the end of the inventory, and recomputes max HP. Nothing
    /// changes when there is no item there or it is a potion.
    pub fn equip_from_inventory(&mut self, index: usize)
        requires
            player_bounded(*old(self)),
        ensures
            (index >= old(self).inventory@.len() || old(self).inventory@[index as int].item_type == ItemType::Potion)
                ==> *final(self) == *old(self),
            index < old(self).inventory@.len() && old(self).inventory@[index as int].item_type != ItemType::Potion ==>
                equipped_from(*old(self), index as int, *final(self)),
            index < old(self).inventory@.len() && old(self).inventory@[index as int].item_type != ItemType::Potion ==>
                final(self).inventory@.to_multiset().add(worn_items(final(self).equipment))
                    == old(self).inventory@.to_multiset().add(worn_items(old(self).equipment)),
    {
        if index >= self.inventory.len() {
            return;
        }
        if self.inventory[index].item_type == ItemType::Potion {
            return;
        }
        let ghost inv0 = self.inventory@;
        let item = self.inventory.remove(index);
        proof {
            assert(item_bounded(inv0[index as int]));
        }
        let old_item = match item.item_type {
            ItemType::Weapon => {
                let o = self.equipment.weapon.take();
                self.equipment.weapon = Some(item);
                o
            },
            ItemType::Armor => {
                let o = self.equipment.armor.take();
                self.equipment.armor = Some(item);
                o
            },
            _ => {
                let o = self.equipment.ring.take();
                self.equipment.ring = Some(item);
                o
            },
        };
        match old_item {
            Some(o) => self.inventory.push(o),
            None => {},
        }
        proof {
            assert forall|i: int| 0 <= i < self.inventory@.len() implies item_bounded(#[trigger] self.inventory@[i]) by {
                if i < inv0.len() - 1 {
                    assert(self.inventory@[i] == inv0.remove(index as int)[i]);
                    if i < index { assert(inv0.remove(index as int)[i] == inv0[i]); }
                    else { assert(inv0.remove(index as int)[i] == inv0[i + 1]); }
                }
            }
        }
        self.recalculate_max_hp();
        proof { lemma_equip_keeps_items(*old(self), index as int, *self); }
    }

    /// Wears the given starting gear directly, recomputes max HP and fills HP.
    pub fn equip_starting_gear(&mut self, weapon: Option<Item>, armor: Option<Item>, ring: Option<Item>)
        requires
            player_bounded(*old(self)),
            opt_item_bounded(weapon),
            opt_item_bounded(armor),
            opt_item_bounded(ring),
        ensures
            ({
                let q = recalculated(Player { equipment: Equipment { weapon, armor, ring }, ..*old(self) });
                *final(self) == Player { hp: q.max_hp, ..q }
            }),
    {
        self.equipment.weapon = weapon;
        self.equipment.armor = armor;
        self.equipment.ring = ring;
        self.recalculate_max_hp();
        self.hp = self.max_hp;
    }
}


impl Player {
    /// One level-up (the caller checked that the XP reaches the threshold
    /// below the top level): the level rises, the threshold grows by
    /// 20 + 40 * (new level - 1), the class raises two attributes (a
    /// warrior's max HP is then reset from CON), max HP and HP rise by 3 (HP
    /// up to max), levels 3 and 7 cut every cooldown by 1
    /// (to at least 1), and level 5 brings the second ability.
    fn level_up(&mut self) -> (msgs: Vec<String>)
        requires
            player_bounded(*old(self)),
            1 <= old(self).level < MAX_LEVEL,
            old(self).xp >= old(self).xp_to_next_level,
            -1_000_000 <= old(self).xp_to_next_level <= 2_000_000,
            old(self).xp <= 20_000_000,
            old(self).base_stats.str_ < 1_000_000,
            old(self).base_stats.dex < 1_000_000,
            old(self).base_stats.int < 1_000_000,
            old(self).base_stats.con < 1_000_000,
            old(self).hp <= 9_999_980,
            old(self).max_hp <= 9_999_980,
            cooldown_ok(old(self).ability_1),
            cooldown_ok(old(self).ability_2),
        ensures
            with_slots(*final(self), *old(self)) == level_step(*old(self)),
            final(self).ability_1 == cut_slot(old(self).ability_1, old(self).level as int, old(self).level + 1),
            old(self).ability_2 is Some ==> final(self).ability_2 == cut_slot(old(self).ability_2, old(self).level as int, old(self).level + 1),
            old(self).ability_2 is None ==> unlocked(final(self).ability_2, old(self).class, old(self).level as int, old(self).level + 1),
            cooldown_ok(final(self).ability_1),
            cooldown_ok(final(self).ability_2),
            player_bounded(*final(self)),
            text_views(msgs@) == step_msgs(*old(self), (old(self).ability_2 is Some)),
    {
        let ghost p0 = *self;
        self.advance_level();
        let mut msgs: Vec<String> = Vec::new();
        msgs.push(level_message(self.level, self.class));
        if self.level == 3 || self.level == 7 {
            self.cut_cooldowns();
            msgs.push(String::from_str("Your abilities grow stronger! Cooldowns reduced."));
        }
        if self.level == 5 && self.ability_2.is_none() {
            let a = match self.class {
                Class::Warrior => Ability::new(AbilityType::WarCry),
                Class::Rogue => Ability::new(AbilityType::PoisonBlade),
                Class::Mage => Ability::new(AbilityType::FrostNova),
            };
            let mut m = String::from_str("New ability unlocked: ");
            m.append(a.name.as_str());
            m.append("!");
            self.ability_2 = Some(a);
            msgs.push(m);
        }
        proof {
            assert(text_views(msgs@) =~= step_msgs(p0, (p0.ability_2 is Some)));
        }
        msgs
    }

    /// The numbers of a level-up (see `level_step`).
    fn advance_level(&mut self)
        requires
            player_bounded(*old(self)),
            1 <= old(self).level < MAX_LEVEL,
            old(self).xp >= old(self).xp_to_next_level,
            -1_000_000 <= old(self).xp_to_next_level <= 2_000_000,
            old(self).xp <= 20_000_000,
            old(self).base_stats.str_ < 1_000_000,
            old(self).base_stats.dex < 1_000_000,
            old(self).base_stats.int < 1_000_000,
            old(self).base_stats.con < 1_000_000,
            old(self).hp <= 9_999_980,
            old(self).max_hp <= 9_999_980,
        ensures
            *final(self) == level_step(*old(self)),
            player_bounded(*final(self)),
    {
        self.level = self.level + 1;
        let leftover = self.xp - self.xp_to_next_level;
        self.xp_to_next_level = self.xp_to_next_level + 20 + (self.level - 1) * 40;
        self.xp = leftover;
        match self.class {
            Class::Warrior => {
                self.base_stats.str_ = self.base_stats.str_ + 1;
                self.base_stats.con = self.base_stats.con + 1;
                self.recalculate_max_hp();
            },
            Class::Rogue => {
                self.base_stats.dex = self.base_stats.dex + 1;
                self.base_stats.str_ = self.base_stats.str_ + 1;
            },
            Class::Mage => {
                self.base_stats.int = self.base_stats.int + 1;
                self.base_stats.dex = self.base_stats.dex + 1;
            },
        }
        self.max_hp = self.max_hp + 3;
        let h = self.hp + 3;
        self.hp = if h < self.max_hp { h } else { self.max_hp };
    }

    /// Cuts the cooldown of both abilities by one, to at least 1.
    fn cut_cooldowns(&mut self)
        requires
            cooldown_ok(old(self).ability_1),
            cooldown_ok(old(self).ability_2),
        ensures
            *final(self) == (Player { ability_1: cut_once(old(self).ability_1), ability_2: cut_once(old(self).ability_2), ..*old(self) }),
    {
        match &mut self.ability_1 {
            Some(a) => {
                let c = a.cooldown_max - 1;
                a.cooldown_max = if c > 1 { c } else { 1 };
            },
            None => {},
        }
        match &mut self.ability_2 {
            Some(a) => {
                let c = a.cooldown_max - 1;
                a.cooldown_max = if c > 1 { c } else { 1 };
            },
            None => {},
        }
    }

    /// Adds `amount` XP and levels up while the XP reaches the threshold and
    /// the level is below the top level, 20 (see `xp_settled`); returns one line of text per
    /// level-up event (see `xp_messages`).
    #[verifier::rlimit(60)]
    pub fn gain_xp(&mut self, amount: i32) -> (msgs: Vec<String>)
        requires
            player_bounded(*old(self)),
            1 <= old(self).level <= MAX_LEVEL,
            -1_000_000 <= old(self).xp <= 1_000_000,
            -1_000_000 <= old(self).xp_to_next_level <= 1_000_000,
            -1_000_000 <= amount <= 1_000_000,
            old(self).base_stats.str_ <= 999_980,
            old(self).base_stats.dex <= 999_980,
            old(self).base_stats.int <= 999_980,
            old(self).base_stats.con <= 999_980,
            old(self).hp <= 9_999_000,
            old(self).max_hp <= 9_999_000,
            cooldown_ok(old(self).ability_1),
            cooldown_ok(old(self).ability_2),
        ensures
            ({
                let start = Player { xp: (old(self).xp + amount) as i32, ..*old(self) };
                let to = final(self).level as int;
                &&& Player { ability_1: old(self).ability_1, ability_2: old(self).ability_2, ..*final(self) } == xp_settled(start)
                &&& final(self).ability_1 == cut_slot(old(self).ability_1, old(self).level as int, to)
                &&& old(self).ability_2 is Some ==> final(self).ability_2 == cut_slot(old(self).ability_2, old(self).level as int, to)
                &&& old(self).ability_2 is None ==> unlocked(final(self).ability_2, old(self).class, old(self).level as int, to)
                &&& text_views(msgs@) == xp_messages(start, old(self).ability_2 is Some)
            }),
            xp_gained(*old(self), amount as int, *final(self)),
            old(self).level <= final(self).level <= MAX_LEVEL,
            final(self).level < MAX_LEVEL ==> final(self).xp < final(self).xp_to_next_level,
            final(self).level == old(self).level ==> final(self).xp == old(self).xp + amount,
            final(self).level > old(self).level ==> final(self).xp >= 0,
            grown_within(*old(self), *final(self)),
            same_but_growth(*old(self), *final(self)),
            old(self).max_hp >= 1 && effective_of(*old(self)).con >= 0 ==> final(self).max_hp >= 1 && effective_of(*final(self)).con >= 0,
            old(self).xp_to_next_level >= 0 ==> final(self).xp <= old(self).xp + amount && final(self).xp_to_next_level >= 0,
            -1_000_000 <= final(self).xp_to_next_level,
            player_bounded(*final(self)),
            cooldown_ok(final(self).ability_1),
            cooldown_ok(final(self).ability_2),
            xp_grown(*old(self), amount as int, *final(self)),
            final(self).xp + xp_paid(old(self).xp_to_next_level as int, old(self).level as int, (final(self).level - old(self).level) as nat)
                == old(self).xp + amount,
            final(self).xp_to_next_level
                == threshold_after(old(self).xp_to_next_level as int, old(self).level as int, (final(self).level - old(self).level) as nat),
            final(self).base_stats == grown_stats(old(self).class, old(self).base_stats, final(self).level - old(self).level),
            old(self).class != Class::Warrior ==> final(self).max_hp == old(self).max_hp + 3 * (final(self).level - old(self).level),
            old(self).class == Class::Warrior && final(self).level > old(self).level
                ==> final(self).max_hp == max_hp_of(effective_of(*final(self))) + 3,
    {
        let ghost lvl0 = self.level as int;
        let ghost p0 = *self;
        self.xp = self.xp + amount;
        let ghost start = *self;
        let mut msgs: Vec<String> = Vec::new();
        while self.xp >= self.xp_to_next_level && self.level < MAX_LEVEL
            invariant
                player_bounded(*self),
                lvl0 == start.level,
                1 <= lvl0,
                lvl0 <= self.level <= MAX_LEVEL,
                -2_000_000 <= self.xp <= 2_000_000 + 1_000_000 * (self.level - lvl0),
                -1_000_000 <= self.xp_to_next_level <= 1_000_000 + 800 * (self.level - lvl0),
                self.base_stats.str_ <= 999_980 + (self.level - lvl0),
                self.base_stats.dex <= 999_980 + (self.level - lvl0),
                self.base_stats.int <= 999_980 + (self.level - lvl0),
                self.base_stats.con <= 999_980 + (self.level - lvl0),
                self.hp <= 9_999_000 + 3 * (self.level - lvl0),
                self.max_hp <= 9_999_000 + 3 * (self.level - lvl0),
                cooldown_ok(self.ability_1),
                cooldown_ok(self.ability_2),
                xp_settled(with_slots(*self, start)) == xp_settled(start),
                text_views(msgs@) + xp_messages(with_slots(*self, start), (self.ability_2 is Some))
                    == xp_messages(start, (start.ability_2 is Some)),
                self.ability_1 == cut_slot(start.ability_1, lvl0, self.level as int),
                start.ability_2 is Some ==> self.ability_2 == cut_slot(start.ability_2, lvl0, self.level as int),
                start.ability_2 is None ==> unlocked(self.ability_2, start.class, lvl0, self.level as int),
                self.class == start.class,
                grown_within(p0, *self),
                same_but_growth(p0, *self),
                self.level == lvl0 ==> self.xp == start.xp,
                self.level > lvl0 ==> self.xp >= 0,
                start == (Player { xp: start.xp, ..p0 }),
                p0.level == lvl0,
                self.base_stats.con >= p0.base_stats.con,
                p0.xp_to_next_level >= 0 ==> self.xp <= start.xp && self.xp_to_next_level >= 0,
                p0.max_hp >= 1 && effective_of(p0).con >= 0 ==> self.max_hp >= 1 && effective_of(*self).con >= 0,
            decreases MAX_LEVEL - self.level,
        {
            let ghost before = with_slots(*self, start);
            let ghost m0 = text_views(msgs@);
            let ghost has2 = self.ability_2 is Some;
            let more = self.level_up();
            let ghost m1 = text_views(more@);
            let mut more = more;
            msgs.append(&mut more);
            proof {
                let after = with_slots(*self, start);
                assert(after == level_step(before));
                assert(text_views(msgs@) =~= m0 + m1);
                assert(m1 == step_msgs(before, has2));
                assert(xp_messages(before, has2) == step_msgs(before, has2) + xp_messages(after, self.ability_2 is Some));
                assert(m0 + m1 + xp_messages(after, self.ability_2 is Some) =~= m0 + (m1 + xp_messages(after, self.ability_2 is Some)));
            }
        }
        proof {
            lemma_xp_conserved(p0, amount as int, *self);
            lemma_level_growth(p0, amount as int, *self);
        }
        msgs
    }
}

/// The XP that `n` level-ups from level `l` pay when the threshold of the
/// first is `t`: each pays its threshold, and each next threshold is the
/// last one plus 20 plus 40 for every level below the one reached.
pub open spec fn xp_paid(t: int, l: int, n: nat) -> int
    decreases n,
{
    if n == 0 { 0 } else { t + xp_paid(t + 20 + 40 * l, l + 1, (n - 1) as nat) }
}

/// The threshold after `n` level-ups from level `l` at threshold `t` (see
/// `xp_paid`).
pub open spec fn threshold_after(t: int, l: int, n: nat) -> int
    decreases n,
{
    if n == 0 { t } else { threshold_after(t + 20 + 40 * l, l + 1, (n - 1) as nat) }
}

/// Settling the XP of `p` pays for each level gained out of the XP, and
/// stops only at the top level or below the threshold.
proof fn lemma_settled_pays(p: Player)
    requires
        1 <= p.level <= MAX_LEVEL,
        -3_000_000 <= p.xp_to_next_level <= 3_000_000 - (MAX_LEVEL - p.level) * 1000,
        -100_000_000 <= p.xp <= 100_000_000 - (MAX_LEVEL - p.level) * 4_000_000,
    ensures
        p.level <= xp_settled(p).level <= MAX_LEVEL,
        xp_settled(p).xp + xp_paid(p.xp_to_next_level as int, p.level as int, (xp_settled(p).level - p.level) as nat) == p.xp,
        xp_settled(p).xp_to_next_level == threshold_after(p.xp_to_next_level as int, p.level as int, (xp_settled(p).level - p.level) as nat),
        !levels_up(xp_settled(p)),
        xp_settled(p).monsters_slain == p.monsters_slain,
    decreases MAX_LEVEL - p.level,
{
    if levels_up(p) {
        let s = level_step(p);
        assert(s.level == p.level + 1);
        assert(s.xp == p.xp - p.xp_to_next_level);
        assert(s.xp_to_next_level == p.xp_to_next_level + 20 + 40 * p.level);
        lemma_settled_pays(s);
        let q = xp_settled(s);
        assert(xp_settled(p) == q);
        let n = (q.level - p.level) as nat;
        assert(xp_paid(p.xp_to_next_level as int, p.level as int, n)
            == p.xp_to_next_level + xp_paid(s.xp_to_next_level as int, s.level as int, (n - 1) as nat));
        assert(threshold_after(p.xp_to_next_level as int, p.level as int, n)
            == threshold_after(s.xp_to_next_level as int, s.level as int, (n - 1) as nat));
    }
}

/// The attributes after `n` level-ups: a warrior gains 1 STR and 1 CON a
/// level, a rogue 1 DEX and 1 STR, a mage 1 INT and 1 DEX.
pub open spec fn grown_stats(c: Class, s: Stats, n: int) -> Stats {
    match c {
        Class::Warrior => Stats { str_: (s.str_ + n) as i32, con: (s.con + n) as i32, ..s },
        Class::Rogue => Stats { dex: (s.dex + n) as i32, str_: (s.str_ + n) as i32, ..s },
        Class::Mage => Stats { int: (s.int + n) as i32, dex: (s.dex + n) as i32, ..s },
    }
}

/// The room a player's numbers leave for the levels still to come.
pub open spec fn growth_room(p: Player) -> bool {
    let left = MAX_LEVEL - p.level;
    &&& player_bounded(p)
    &&& 1 <= p.level <= MAX_LEVEL
    &&& p.base_stats.str_ <= 1_000_000 - left && p.base_stats.dex <= 1_000_000 - left
    &&& p.base_stats.int <= 1_000_000 - left && p.base_stats.con <= 1_000_000 - left
    &&& p.hp <= 10_000_000 - 3 * left && p.max_hp <= 10_000_000 - 3 * left
}

/// Settling the XP of `p` grows the class's two attributes by one a level
/// and max HP by 3 a level (a warrior's max HP is first reset from CON),
/// and heals 3 a level up to max HP.
proof fn lemma_settled_grows(p: Player)
    requires
        growth_room(p),
    ensures
        ({
            let q = xp_settled(p);
            let n = q.level - p.level;
            &&& q.level >= p.level
            &&& levels_up(p) ==> q.level > p.level
            &&& q.base_stats == grown_stats(p.class, p.base_stats, n)
            &&& q.class == p.class && q.equipment == p.equipment
            &&& p.class != Class::Warrior ==> q.max_hp == p.max_hp + 3 * n
            &&& p.class != Class::Warrior && p.hp <= p.max_hp ==> q.hp == p.hp + 3 * n
            &&& p.class == Class::Warrior && n >= 1 ==> q.max_hp == max_hp_of(effective_of(q)) + 3
            &&& n >= 1 ==> q.hp <= q.max_hp
        }),
    decreases MAX_LEVEL - p.level,
{
    if levels_up(p) {
        let s = level_step(p);
        assert(s.level == p.level + 1 && s.class == p.class && s.equipment == p.equipment);
        assert(s.base_stats == grown_stats(p.class, p.base_stats, 1));
        assert(growth_room(s));
        lemma_settled_grows(s);
        let q = xp_settled(s);
        assert(xp_settled(p) == q);
        assert(q.base_stats == grown_stats(p.class, p.base_stats, q.level - p.level));
        if !levels_up(s) {
            assert(q == s);
        }
        assert(s.hp <= s.max_hp);
        if p.class != Class::Warrior {
            assert(s.max_hp == p.max_hp + 3);
            assert(q.max_hp == p.max_hp + 3 * (q.level - p.level));
            if p.hp <= p.max_hp {
                assert(s.hp == p.hp + 3);
                assert(q.hp == p.hp + 3 * (q.level - p.level));
            }
        } else {
            assert(s.max_hp == max_hp_of(effective_of(s)) + 3);
            assert(q.max_hp == max_hp_of(effective_of(q)) + 3);
        }
        assert(q.hp <= q.max_hp);
    } else {
        assert(xp_settled(p) == p);
        assert(p.base_stats == grown_stats(p.class, p.base_stats, 0));
    }
}

/// Levelling grows a character by its class: after gaining `amount` XP
/// (see `gain_xp`), each level gained has added 1 to STR and CON for a
/// warrior, to DEX and STR for a rogue, to INT and DEX for a mage, and 3
/// to max HP (a warrior's max HP follows CON, plus 3); it has healed 3 a
/// level, never past max HP.
pub proof fn lemma_level_growth(a: Player, amount: int, b: Player)
    requires
        xp_gained(a, amount, b),
        growth_room(a),
        -1_000_000 <= a.xp <= 1_000_000,
        -1_000_000 <= amount <= 1_000_000,
    ensures
        ({
            let n = b.level - a.level;
            &&& n >= 0
            &&& b.base_stats == grown_stats(a.class, a.base_stats, n)
            &&& a.class != Class::Warrior ==> b.max_hp == a.max_hp + 3 * n
            &&& a.class != Class::Warrior && a.hp <= a.max_hp ==> b.hp == a.hp + 3 * n
            &&& a.class == Class::Warrior && n >= 1 ==> b.max_hp == max_hp_of(effective_of(b)) + 3
            &&& n >= 1 ==> b.hp <= b.max_hp
        }),
{
    let start = Player { xp: (a.xp + amount) as i32, ..a };
    assert(growth_room(start));
    lemma_settled_grows(start);
    let q = xp_settled(start);
    assert(b.base_stats == q.base_stats && b.max_hp == q.max_hp && b.hp == q.hp && b.level == q.level && b.equipment == q.equipment);
    assert(effective_of(b) == effective_of(q));
}

/// How many of the levels at which cooldowns are cut (3 and 7) lie above
/// `from` and at most `to`.
pub open spec fn cuts_passed(from: int, to: int) -> int {
    (if from < 3 <= to { 1int } else { 0 }) + (if from < 7 <= to { 1int } else { 0 })
}

/// Levelling and abilities: after gaining `amount` XP (see `gain_xp`), a
/// character without a second ability has one exactly when it reached
/// level 5 from below, the class's second ability, ready to use; and each
/// ability's cooldown has dropped by one for each of levels 3 and 7
/// reached (not below 1), and is otherwise unchanged.
pub proof fn lemma_level_abilities(a: Player, amount: int, b: Player)
    requires
        xp_gained(a, amount, b),
        a.level <= b.level,
    ensures
        a.ability_2 is None ==> (b.ability_2 is Some <==> a.level < 5 <= b.level),
        a.ability_2 is None && b.ability_2 is Some ==> b.ability_2->0.ability_type == second_ability(a.class)
            && b.ability_2->0.cooldown_remaining == 0 && !b.ability_2->0.is_active,
        ({
            let k = cuts_passed(a.level as int, b.level as int);
            &&& a.ability_1 is Some <==> b.ability_1 is Some
            &&& a.ability_1 is Some ==> b.ability_1->0.cooldown_max == (if k == 0 { a.ability_1->0.cooldown_max as int }
                else if a.ability_1->0.cooldown_max - k > 1 { a.ability_1->0.cooldown_max - k } else { 1 })
            &&& a.ability_2 is Some ==> b.ability_2 is Some && b.ability_2->0.cooldown_max == (if k == 0 { a.ability_2->0.cooldown_max as int }
                else if a.ability_2->0.cooldown_max - k > 1 { a.ability_2->0.cooldown_max - k } else { 1 })
        }),
{
}

/// XP is conserved by a gain: the XP left after gaining `amount` (see
/// `gain_xp`) plus the thresholds paid for the levels gained is the XP held
/// before plus `amount`; the threshold reached is the one those levels
/// lead to, and below the top level the XP left is under it.
pub proof fn lemma_xp_conserved(a: Player, amount: int, b: Player)
    requires
        xp_gained(a, amount, b),
        1 <= a.level <= MAX_LEVEL,
        -1_000_000 <= a.xp <= 1_000_000,
        -1_000_000 <= a.xp_to_next_level <= 1_000_000,
        -1_000_000 <= amount <= 1_000_000,
    ensures
        a.level <= b.level <= MAX_LEVEL,
        b.xp + xp_paid(a.xp_to_next_level as int, a.level as int, (b.level - a.level) as nat) == a.xp + amount,
        b.xp_to_next_level == threshold_after(a.xp_to_next_level as int, a.level as int, (b.level - a.level) as nat),
        b.level < MAX_LEVEL ==> b.xp < b.xp_to_next_level,
        b.monsters_slain == a.monsters_slain,
{
    let start = Player { xp: (a.xp + amount) as i32, ..a };
    lemma_settled_pays(start);
    let q = xp_settled(start);
    assert(b.level == q.level && b.xp == q.xp && b.xp_to_next_level == q.xp_to_next_level);
}

/// Levelling `a` up to `b` raised each attribute by at most the levels
/// gained, HP and max HP by at most 3 per level (max HP may also be reset
/// from CON, to at most 2,000,100) and the XP threshold by at most 800 per
/// level.
pub open spec fn grown_within(a: Player, b: Player) -> bool {
    let l = b.level - a.level;
    &&& b.base_stats.str_ <= a.base_stats.str_ + l
    &&& b.base_stats.dex <= a.base_stats.dex + l
    &&& b.base_stats.int <= a.base_stats.int + l
    &&& b.base_stats.con <= a.base_stats.con + l
    &&& b.hp <= a.hp + 3 * l
    &&& b.max_hp <= (if a.max_hp > 2_000_100 { a.max_hp as int } else { 2_000_100 }) + 3 * l
    &&& b.xp_to_next_level <= a.xp_to_next_level + 800 * l
}

/// `b` is `a` but for what levelling changes: level, XP, threshold, HP,
/// max HP, attributes and abilities.
pub open spec fn same_but_growth(a: Player, b: Player) -> bool {
    b == (Player {
        level: b.level,
        xp: b.xp,
        xp_to_next_level: b.xp_to_next_level,
        hp: b.hp,
        max_hp: b.max_hp,
        base_stats: b.base_stats,
        ability_1: b.ability_1,
        ability_2: b.ability_2,
        ..a
    })
}

/// `p` with the ability slots of `q`.
pub open spec fn with_slots(p: Player, q: Player) -> Player {
    Player { ability_1: q.ability_1, ability_2: q.ability_2, ..p }
}

/// An ability slot whose cooldown can be cut by one without overflow.
pub open spec fn cooldown_ok(a: Option<Ability>) -> bool {
    match a { Some(x) => x.cooldown_max > i32::MIN, None => true }
}

/// The characters of each text in a list.
pub open spec fn text_views(v: Seq<String>) -> Seq<Seq<char>> {
    v.map_values(|t: String| t@)
}

/// An ability slot with its cooldown cut once.
pub open spec fn cut_once(a: Option<Ability>) -> Option<Ability> {
    match a {
        Some(x) => Some(Ability { cooldown_max: cd_cut(x.cooldown_max as int) as i32, ..x }),
        None => None,
    }
}

/// The line that announces reaching `level`.
pub open spec fn level_line(level: int, c: Class) -> Seq<char> {
    "You reach level "@ + int_text(level) + "! "@ + stat_text(c) + ", Max HP +3"@
}

/// "You reach level N! <attributes>, Max HP +3".
fn level_message(level: i32, class: Class) -> (m: String)
    ensures
        m@ == level_line(level as int, class),
{
    let stat_msg = match class {
        Class::Warrior => "STR +1, CON +1",
        Class::Rogue => "DEX +1, STR +1",
        Class::Mage => "INT +1, DEX +1",
    };
    let mut m = String::from_str("You reach level ");
    m.append(int_to_string(level).as_str());
    m.append("! ");
    m.append(stat_msg);
    m.append(", Max HP +3");
    m
}

/// A cooldown cut by one, but not below 1.
pub open spec fn cd_cut(cm: int) -> int {
    if cm - 1 > 1 { cm - 1 } else { 1 }
}

/// A cooldown after the level rose from `from` to `to`: levels 3 and 7 each
/// cut it once.
pub open spec fn cd_after(cm: int, from: int, to: int) -> int {
    let c1 = if from < 3 <= to { cd_cut(cm) } else { cm };
    if from < 7 <= to { cd_cut(c1) } else { c1 }
}

/// An ability slot after the level rose from `from` to `to`.
pub open spec fn cut_slot(a: Option<Ability>, from: int, to: int) -> Option<Ability> {
    match a {
        Some(x) => Some(Ability { cooldown_max: cd_after(x.cooldown_max as int, from, to) as i32, ..x }),
        None => None,
    }
}

/// The second slot of a character who had no second ability at level
/// `from` and is now at level `to`: it is learned on reaching level 5, and
/// a cut at level 7 applies to it.
pub open spec fn unlocked(a: Option<Ability>, c: Class, from: int, to: int) -> bool {
    if from < 5 <= to {
        a is Some && {
            let x = a->0;
            let t = second_ability(c);
            &&& x.name@ == ability_name(t)
            &&& x.ability_type == t
            &&& x.cooldown_max == cd_after(base_cooldown(t), 5, to)
            &&& x.cooldown_remaining == 0
            &&& !x.is_active
            &&& x.charges == 0
            &&& x.buff_ticks_remaining == 0
        }
    } else {
        a is None
    }
}

/// The attributes each class raises on a level-up, as its message says.
pub open spec fn stat_text(c: Class) -> Seq<char> {
    match c {
        Class::Warrior => "STR +1, CON +1"@,
        Class::Rogue => "DEX +1, STR +1"@,
        Class::Mage => "INT +1, DEX +1"@,
    }
}

/// The player after one level-up, the ability slots aside.
pub open spec fn level_step(p: Player) -> Player {
    let level = (p.level + 1) as i32;
    let next = (p.xp_to_next_level + 20 + (level - 1) * 40) as i32;
    let q = Player { level, xp: (p.xp - p.xp_to_next_level) as i32, xp_to_next_level: next, ..p };
    let b = q.base_stats;
    let g = match p.class {
        Class::Warrior => recalculated(Player { base_stats: Stats { str_: (b.str_ + 1) as i32, con: (b.con + 1) as i32, ..b }, ..q }),
        Class::Rogue => Player { base_stats: Stats { dex: (b.dex + 1) as i32, str_: (b.str_ + 1) as i32, ..b }, ..q },
        Class::Mage => Player { base_stats: Stats { int: (b.int + 1) as i32, dex: (b.dex + 1) as i32, ..b }, ..q },
    };
    let max_hp = (g.max_hp + 3) as i32;
    let hp = if g.hp + 3 < max_hp { (g.hp + 3) as i32 } else { max_hp };
    Player { max_hp, hp, ..g }
}

/// Whether the player levels up now.
pub open spec fn levels_up(p: Player) -> bool {
    p.xp >= p.xp_to_next_level && p.level < MAX_LEVEL
}

/// The player after every level-up that the XP pays for, up to the top level,
/// the ability slots aside.
/// `b` is `a` after gaining `amount` XP (see `gain_xp`): the XP settled
/// into levels, cooldowns cut for the levels gained, and the second ability
/// unlocked on reaching level 5.
pub open spec fn xp_gained(a: Player, amount: int, b: Player) -> bool {
    let start = Player { xp: (a.xp + amount) as i32, ..a };
    let to = b.level as int;
    &&& Player { ability_1: a.ability_1, ability_2: a.ability_2, ..b } == xp_settled(start)
    &&& b.ability_1 == cut_slot(a.ability_1, a.level as int, to)
    &&& a.ability_2 is Some ==> b.ability_2 == cut_slot(a.ability_2, a.level as int, to)
    &&& a.ability_2 is None ==> unlocked(b.ability_2, a.class, a.level as int, to)
}

/// What a gain of `amount` XP leaves of `a` in `b`, in bounds: the
/// settled result (see `xp_gained`), the level not past the top, XP and
/// threshold moved as levelling moves them, the growth within its limits
/// and nothing else changed.
pub open spec fn xp_grown(a: Player, amount: int, b: Player) -> bool {
    &&& xp_gained(a, amount, b)
    &&& a.level <= b.level <= MAX_LEVEL
    &&& b.level == a.level ==> b.xp == a.xp + amount
    &&& b.level > a.level ==> b.xp >= 0
    &&& grown_within(a, b)
    &&& same_but_growth(a, b)
    &&& a.xp_to_next_level >= 0 ==> b.xp <= a.xp + amount && b.xp_to_next_level >= 0
    &&& -1_000_000 <= b.xp_to_next_level
    &&& player_bounded(b) && cooldown_ok(b.ability_1) && cooldown_ok(b.ability_2)
}

/// The player with a damage buff used up: the first slot holding one.
pub open spec fn buff_spent(p: Player) -> Player {
    if slot_has_buff(p.ability_1) {
        Player { ability_1: Some(consumed(p.ability_1->0).0), ..p }
    } else if slot_has_buff(p.ability_2) {
        Player { ability_2: Some(consumed(p.ability_2->0).0), ..p }
    } else {
        p
    }
}

/// The player with a charge of a poison buff used up: the first slot
/// holding one.
pub open spec fn poison_spent(p: Player) -> Player {
    if slot_has_poison(p.ability_1) {
        Player { ability_1: Some(consumed(p.ability_1->0).0), ..p }
    } else if slot_has_poison(p.ability_2) {
        Player { ability_2: Some(consumed(p.ability_2->0).0), ..p }
    } else {
        p
    }
}

pub open spec fn xp_settled(p: Player) -> Player
    decreases MAX_LEVEL - p.level,
{
    if levels_up(p) { xp_settled(level_step(p)) } else { p }
}

/// The lines one level-up prints (`has2`: whether the second ability is
/// already known).
pub open spec fn step_msgs(p: Player, has2: bool) -> Seq<Seq<char>> {
    let l = p.level + 1;
    let m1 = seq![level_line(l, p.class)];
    let m2 = if l == 3 || l == 7 { seq!["Your abilities grow stronger! Cooldowns reduced."@] } else { Seq::<Seq<char>>::empty() };
    let m3 = if l == 5 && !has2 { seq!["New ability unlocked: "@ + ability_name(second_ability(p.class)) + "!"@] } else { Seq::<Seq<char>>::empty() };
    m1 + m2 + m3
}

/// The lines of all the level-ups of `xp_settled`.
pub open spec fn xp_messages(p: Player, has2: bool) -> Seq<Seq<char>>
    decreases MAX_LEVEL - p.level,
{
    if levels_up(p) {
        step_msgs(p, has2) + xp_messages(level_step(p), has2 || p.level + 1 == 5)
    } else {
        Seq::<Seq<char>>::empty()
    }
}

/// What an ability slot holds after one tick.
pub open spec fn tick_slot(a: Option<Ability>) -> Option<Ability> {
    match a { Some(x) => Some(ticked(x)), None => None }
}

/// The player with max HP recomputed from the effective CON, and HP cut down
/// to it.
pub open spec fn recalculated(p: Player) -> Player {
    let m = max_hp_of(effective_of(p)) as i32;
    Player { max_hp: m, hp: if p.hp > m { m } else { p.hp }, ..p }
}

/// What a potion of `base` heals this player.
pub open spec fn potion_heal(p: Player, base: int) -> int {
    base + (if effective_of(p).int >= 10 { potion_bonus_of(effective_of(p)) } else { 0 })
}

/// The equipment slot that items of type `t` go to.
pub open spec fn slot_of(e: Equipment, t: ItemType) -> Option<Item> {
    match t {
        ItemType::Weapon => e.weapon,
        ItemType::Armor => e.armor,
        _ => e.ring,
    }
}

/// `q` is `p` after equipping the item at `index` of its inventory (see
/// `equip_from_inventory`): the item worn in its slot, what was worn there
/// at the end of the inventory, and max HP recomputed.
pub open spec fn equipped_from(p: Player, index: int, q: Player) -> bool {
    let it = p.inventory@[index];
    let rest = p.inventory@.remove(index);
    let worn = equipped_with(p.equipment, it);
    let before = slot_of(p.equipment, it.item_type);
    &&& q.inventory@ == (match before { Some(o) => rest.push(o), None => rest })
    &&& q == recalculated(Player { inventory: q.inventory, equipment: worn, ..p })
}

/// The item in a slot, as a multiset of zero or one item.
pub open spec fn slot_items(o: Option<Item>) -> Multiset<Item> {
    match o { Some(x) => Multiset::singleton(x), None => Multiset::empty() }
}

/// Every item worn.
pub open spec fn worn_items(e: Equipment) -> Multiset<Item> {
    slot_items(e.weapon).add(slot_items(e.armor)).add(slot_items(e.ring))
}

/// Equipping keeps every item: the items carried and worn are the same
/// before and after. The chosen item is worn in the slot of its kind, the
/// other slots are untouched, and what that slot held before goes to the
/// end of the inventory, after the other items in their order.
pub proof fn lemma_equip_keeps_items(p: Player, index: int, q: Player)
    requires
        0 <= index < p.inventory@.len(),
        p.inventory@[index].item_type != ItemType::Potion,
        equipped_from(p, index, q),
    ensures
        q.inventory@.to_multiset().add(worn_items(q.equipment)) == p.inventory@.to_multiset().add(worn_items(p.equipment)),
        ({
            let it = p.inventory@[index];
            let rest = p.inventory@.remove(index);
            &&& it.item_type == ItemType::Weapon ==> q.equipment == (Equipment { weapon: Some(it), ..p.equipment })
                && q.inventory@ == (if p.equipment.weapon is Some { rest.push(p.equipment.weapon->0) } else { rest })
            &&& it.item_type == ItemType::Armor ==> q.equipment == (Equipment { armor: Some(it), ..p.equipment })
                && q.inventory@ == (if p.equipment.armor is Some { rest.push(p.equipment.armor->0) } else { rest })
            &&& it.item_type == ItemType::Ring ==> q.equipment == (Equipment { ring: Some(it), ..p.equipment })
                && q.inventory@ == (if p.equipment.ring is Some { rest.push(p.equipment.ring->0) } else { rest })
        }),
{
    broadcast use vstd::seq_lib::group_to_multiset_ensures;
    let it = p.inventory@[index];
    let rest = p.inventory@.remove(index);
    assert(rest.to_multiset() == p.inventory@.to_multiset().remove(it));
    assert(p.inventory@.to_multiset().count(it) > 0) by {
        assert(p.inventory@.contains(it));
    }
    let before = slot_of(p.equipment, it.item_type);
    match before {
        Some(o) => { assert(q.inventory@.to_multiset() =~= rest.to_multiset().insert(o)); },
        None => {},
    }
    assert(q.inventory@.to_multiset().add(worn_items(q.equipment)) =~= p.inventory@.to_multiset().add(worn_items(p.equipment)));
}

/// The equipment with `it` worn in its slot.
pub open spec fn equipped_with(e: Equipment, it: Item) -> Equipment {
    match it.item_type {
        ItemType::Weapon => Equipment { weapon: Some(it), ..e },
        ItemType::Armor => Equipment { armor: Some(it), ..e },
        _ => Equipment { ring: Some(it), ..e },
    }
}

/// `c` is the outcome of a percent roll `roll` (0 to 99) against `chance`.
pub open spec fn c_witness(c: bool, chance: int, roll: int) -> bool {
    0 <= roll < 100 && c == (chance > 0 && roll < chance)
}

} // verus!
verus! {

/// Levelling up never lowers the level nor passes the top level, and it stops
/// only when the XP falls short of the next threshold or the top level is reached.
pub proof fn lemma_level_cap(p: Player)
    requires
        p.level <= MAX_LEVEL,
    ensures
        p.level <= xp_settled(p).level <= MAX_LEVEL,
        xp_settled(p).xp < xp_settled(p).xp_to_next_level || xp_settled(p).level == MAX_LEVEL,
    decreases MAX_LEVEL - p.level,
{
    if levels_up(p) {
        lemma_level_cap(level_step(p));
    }
}

} // verus!
