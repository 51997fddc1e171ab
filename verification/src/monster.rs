//! Monsters: their kinds and stats, and how each kind decides what to do on
//! its turn.
use vstd::prelude::*;
use crate::items::{floor_tier, tier_of};
use crate::map::{
    DungeonMap, Tile, abs, adjacent4, corridor_at, in_bounds, manhattan, map_wf, sight_clear, step_ok, tile_at, first_of_shortest, route_in,
    walkable,
};
use crate::projectile::{Projectile, direction_symbol};
use crate::player::c_witness;
use crate::rng::random_below;

verus! {

#[derive(Clone, Copy, Debug, PartialEq, Eq, Structural)]
pub enum BehaviorState {
    Idle,
    Chase,
    Attack,
    Ranged,
    Retreat,
    Reposition,
}

#[derive(Clone, Copy, Debug, PartialEq, Eq, Structural)]
pub enum MonsterType {
    Goblin,
    Skeleton,
    Troll,
    BatSwarm,
    Spider,
    Wraith,
    Necromancer,
    GoblinKing,
    BoneDragon,
    ShadowLord,
    Zombie,
    Ghoul,
    Specter,
    Imp,
    Demon,
    Hellfire,
    Minotaur,
    Bear,
    WolfPack,
    Orc,
    Bandit,
    Assassin,
    FireElemental,
    EarthElemental,
    IceElemental,
    Golem,
    Sentry,
    Bomber,
}

/// What a monster decided to do this turn.
pub enum MonsterAction {
    Nothing,
    MoveTo(usize, usize),
    /// A move that may pass through walls.
    MoveToPhase(usize, usize),
    MeleeAttack { damage: i32, name: String },
    PoisonAttack { damage: i32, name: String, poison_ticks: i32 },
    /// A hit that heals the attacker.
    DrainAttack { damage: i32, name: String },
    PlaceWeb(usize, usize),
    FireProjectile(Projectile),
    /// Raise the dead monster with this index.
    Resurrect(usize),
    BossSummon,
    BreathAttack { dx: i32, dy: i32, damage: i32, range: i32 },
    ShadowPulse { damage: i32, radius: i32 },
    BossTeleport,
}

pub struct Monster {
    pub x: usize,
    pub y: usize,
    pub symbol: char,
    pub name: String,
    pub hp: i32,
    pub max_hp: i32,
    pub attack: i32,
    pub base_attack: i32,
    pub monster_type: MonsterType,
    pub behavior: BehaviorState,
    pub can_see_player: bool,
    pub last_known_player_pos: Option<(usize, usize)>,
    pub ranged_cooldown: i32,
    /// Counts turns for the kinds that act every other turn.
    pub turn_parity: i32,
    /// 1 on floors up to 3, 2 on floors 4-6, 3 deeper.
    pub floor_tier: i32,
    pub is_berserk: bool,
    pub stun_ticks: i32,
    pub freeze_ticks: i32,
    pub poison_ticks: i32,
    pub attack_reduction: i32,
    pub web_cooldown: i32,
    pub summon_count: i32,
    pub summon_max: i32,
    /// A wraith inside a wall.
    pub is_phasing: bool,
    /// Where the monster died, for resurrection.
    pub death_pos: Option<(usize, usize)>,
    pub is_boss: bool,
    pub boss_tick: i32,
}

// --- The kinds' stats ---

pub open spec fn kind_symbol(t: MonsterType) -> char {
    match t {
        MonsterType::Goblin => 'g',
        MonsterType::Skeleton => 's',
        MonsterType::Troll => 'T',
        MonsterType::BatSwarm => 'b',
        MonsterType::Spider => 'x',
        MonsterType::Wraith => 'W',
        MonsterType::Necromancer => 'N',
        MonsterType::GoblinKing => 'K',
        MonsterType::BoneDragon => 'D',
        MonsterType::ShadowLord => 'S',
        MonsterType::Zombie => 'z',
        MonsterType::Ghoul => 'G',
        MonsterType::Specter => 'p',
        MonsterType::Imp => 'i',
        MonsterType::Demon => 'D',
        MonsterType::Hellfire => 'f',
        MonsterType::Minotaur => 'M',
        MonsterType::Bear => 'B',
        MonsterType::WolfPack => 'w',
        MonsterType::Orc => 'O',
        MonsterType::Bandit => 'b',
        MonsterType::Assassin => 'a',
        MonsterType::FireElemental => 'F',
        MonsterType::EarthElemental => 'E',
        MonsterType::IceElemental => 'I',
        MonsterType::Golem => 'G',
        MonsterType::Sentry => 's',
        MonsterType::Bomber => 'o',
    }
}

pub open spec fn kind_name(t: MonsterType) -> Seq<char> {
    match t {
        MonsterType::Goblin => "Goblin"@,
        MonsterType::Skeleton => "Skeleton"@,
        MonsterType::Troll => "Troll"@,
        MonsterType::BatSwarm => "Bat Swarm"@,
        MonsterType::Spider => "Spider"@,
        MonsterType::Wraith => "Wraith"@,
        MonsterType::Necromancer => "Necromancer"@,
        MonsterType::GoblinKing => "Goblin King"@,
        MonsterType::BoneDragon => "Bone Dragon"@,
        MonsterType::ShadowLord => "Shadow Lord"@,
        MonsterType::Zombie => "Zombie"@,
        MonsterType::Ghoul => "Ghoul"@,
        MonsterType::Specter => "Specter"@,
        MonsterType::Imp => "Imp"@,
        MonsterType::Demon => "Demon"@,
        MonsterType::Hellfire => "Hellfire Elemental"@,
        MonsterType::Minotaur => "Minotaur"@,
        MonsterType::Bear => "Bear"@,
        MonsterType::WolfPack => "Wolf"@,
        MonsterType::Orc => "Orc"@,
        MonsterType::Bandit => "Bandit"@,
        MonsterType::Assassin => "Assassin"@,
        MonsterType::FireElemental => "Fire Elemental"@,
        MonsterType::EarthElemental => "Earth Elemental"@,
        MonsterType::IceElemental => "Ice Elemental"@,
        MonsterType::Golem => "Golem"@,
        MonsterType::Sentry => "Sentry"@,
        MonsterType::Bomber => "Bomber"@,
    }
}

/// Starting (and maximum) HP of each kind.
pub open spec fn kind_hp(t: MonsterType) -> int {
    match t {
        MonsterType::Goblin => 6,
        MonsterType::Skeleton => 10,
        MonsterType::Troll => 20,
        MonsterType::BatSwarm => 4,
        MonsterType::Spider => 8,
        MonsterType::Wraith => 12,
        MonsterType::Necromancer => 8,
        MonsterType::GoblinKing => 60,
        MonsterType::BoneDragon => 100,
        MonsterType::ShadowLord => 120,
        MonsterType::Zombie => 12,
        MonsterType::Ghoul => 8,
        MonsterType::Specter => 6,
        MonsterType::Imp => 7,
        MonsterType::Demon => 18,
        MonsterType::Hellfire => 12,
        MonsterType::Minotaur => 25,
        MonsterType::Bear => 15,
        MonsterType::WolfPack => 6,
        MonsterType::Orc => 14,
        MonsterType::Bandit => 7,
        MonsterType::Assassin => 6,
        MonsterType::FireElemental => 10,
        MonsterType::EarthElemental => 20,
        MonsterType::IceElemental => 12,
        MonsterType::Golem => 40,
        MonsterType::Sentry => 10,
        MonsterType::Bomber => 8,
    }
}

pub open spec fn kind_attack(t: MonsterType) -> int {
    match t {
        MonsterType::Goblin => 2,
        MonsterType::Skeleton => 4,
        MonsterType::Troll => 8,
        MonsterType::BatSwarm => 1,
        MonsterType::Spider => 3,
        MonsterType::Wraith => 5,
        MonsterType::Necromancer => 2,
        MonsterType::GoblinKing => 5,
        MonsterType::BoneDragon => 6,
        MonsterType::ShadowLord => 5,
        MonsterType::Zombie => 3,
        MonsterType::Ghoul => 5,
        MonsterType::Specter => 7,
        MonsterType::Imp => 4,
        MonsterType::Demon => 6,
        MonsterType::Hellfire => 5,
        MonsterType::Minotaur => 8,
        MonsterType::Bear => 4,
        MonsterType::WolfPack => 3,
        MonsterType::Orc => 5,
        MonsterType::Bandit => 4,
        MonsterType::Assassin => 9,
        MonsterType::FireElemental => 5,
        MonsterType::EarthElemental => 5,
        MonsterType::IceElemental => 4,
        MonsterType::Golem => 3,
        MonsterType::Sentry => 6,
        MonsterType::Bomber => 10,
    }
}

/// How many dead a Necromancer may raise (5 in the deep tier, else 3) and
/// how many summons the Goblin King has (4); 0 for the others.
pub open spec fn kind_summon_max(t: MonsterType, tier: int) -> int {
    match t {
        MonsterType::Necromancer => if tier >= 3 { 5 } else { 3 },
        MonsterType::GoblinKing => 4,
        _ => 0,
    }
}

pub open spec fn is_boss_kind(t: MonsterType) -> bool {
    t == MonsterType::GoblinKing || t == MonsterType::BoneDragon || t == MonsterType::ShadowLord
}

/// A new monster of kind `t` at (x, y) on floor `floor`: full HP, idle, not
/// aware of the player, no status effects. Spiders start with their web
/// 4 turns away and Golems one turn into their two-turn rhythm.
pub open spec fn is_new_monster(m: Monster, x: usize, y: usize, t: MonsterType, floor: int) -> bool {
    let tier = tier_of(floor);
    &&& m.x == x && m.y == y
    &&& m.symbol == kind_symbol(t)
    &&& m.name@ == kind_name(t)
    &&& m.hp == kind_hp(t) && m.max_hp == kind_hp(t)
    &&& m.attack == kind_attack(t) && m.base_attack == kind_attack(t)
    &&& m.monster_type == t
    &&& m.behavior == BehaviorState::Idle
    &&& !m.can_see_player
    &&& m.last_known_player_pos is None
    &&& m.ranged_cooldown == 0
    &&& m.turn_parity == (if t == MonsterType::Golem { 1int } else { 0 })
    &&& m.floor_tier == tier
    &&& !m.is_berserk
    &&& m.stun_ticks == 0 && m.freeze_ticks == 0 && m.poison_ticks == 0 && m.attack_reduction == 0
    &&& m.web_cooldown == (if t == MonsterType::Spider { 4int } else { 0 })
    &&& m.summon_count == 0
    &&& m.summon_max == kind_summon_max(t, tier)
    &&& !m.is_phasing
    &&& m.death_pos is None
    &&& m.is_boss == is_boss_kind(t)
    &&& m.boss_tick == 0
}

/// The roster of the deepest floors: every kind but the bosses, undead,
/// demons, beasts, humanoids, elementals and constructs among them, in a
/// fixed order.
pub open spec fn deep_roster(i: usize) -> MonsterType {
    match i {
        0 => MonsterType::Goblin,
        1 => MonsterType::Skeleton,
        2 => MonsterType::Troll,
        3 => MonsterType::BatSwarm,
        4 => MonsterType::Spider,
        5 => MonsterType::Wraith,
        6 => MonsterType::Necromancer,
        7 => MonsterType::Zombie,
        8 => MonsterType::Ghoul,
        9 => MonsterType::Specter,
        10 => MonsterType::Imp,
        11 => MonsterType::Demon,
        12 => MonsterType::Hellfire,
        13 => MonsterType::Minotaur,
        14 => MonsterType::Bear,
        15 => MonsterType::WolfPack,
        16 => MonsterType::Orc,
        17 => MonsterType::Bandit,
        18 => MonsterType::Assassin,
        19 => MonsterType::FireElemental,
        20 => MonsterType::EarthElemental,
        21 => MonsterType::IceElemental,
        22 => MonsterType::Golem,
        23 => MonsterType::Sentry,
        _ => MonsterType::Bomber,
    }
}

/// The kind at place `i` of the deep roster (see `deep_roster`).
fn deep_roster_kind(i: usize) -> (t: MonsterType)
    ensures
        t == deep_roster(i),
{
    match i {
        0 => MonsterType::Goblin,
        1 => MonsterType::Skeleton,
        2 => MonsterType::Troll,
        3 => MonsterType::BatSwarm,
        4 => MonsterType::Spider,
        5 => MonsterType::Wraith,
        6 => MonsterType::Necromancer,
        7 => MonsterType::Zombie,
        8 => MonsterType::Ghoul,
        9 => MonsterType::Specter,
        10 => MonsterType::Imp,
        11 => MonsterType::Demon,
        12 => MonsterType::Hellfire,
        13 => MonsterType::Minotaur,
        14 => MonsterType::Bear,
        15 => MonsterType::WolfPack,
        16 => MonsterType::Orc,
        17 => MonsterType::Bandit,
        18 => MonsterType::Assassin,
        19 => MonsterType::FireElemental,
        20 => MonsterType::EarthElemental,
        21 => MonsterType::IceElemental,
        22 => MonsterType::Golem,
        23 => MonsterType::Sentry,
        _ => MonsterType::Bomber,
    }
}

/// The kind a spawn roll (0 to 99) gives on a floor: goblins only on the
/// first floor, then ever more kinds the deeper the floor; from floor 12 on
/// every kind but the bosses, 4 in 100 each (see `deep_roster`).
pub open spec fn spawn_kind(floor: int, roll: int) -> MonsterType {
    if floor <= 1 {
        MonsterType::Goblin
    } else if floor <= 2 {
        if roll < 60 { MonsterType::Goblin } else { MonsterType::BatSwarm }
    } else if floor <= 3 {
        if roll < 40 { MonsterType::Goblin }
        else if roll < 65 { MonsterType::BatSwarm }
        else if roll < 85 { MonsterType::Spider }
        else { MonsterType::Skeleton }
    } else if floor <= 5 {
        if roll < 25 { MonsterType::Goblin }
        else if roll < 40 { MonsterType::BatSwarm }
        else if roll < 55 { MonsterType::Spider }
        else if roll < 75 { MonsterType::Skeleton }
        else if roll < 90 { MonsterType::Wraith }
        else { MonsterType::Troll }
    } else if floor <= 8 {
        if roll < 12 { MonsterType::Goblin }
        else if roll < 22 { MonsterType::BatSwarm }
        else if roll < 32 { MonsterType::Spider }
        else if roll < 42 { MonsterType::Skeleton }
        else if roll < 52 { MonsterType::Wraith }
        else if roll < 62 { MonsterType::Troll }
        else if roll < 75 { MonsterType::Necromancer }
        else if roll < 85 { MonsterType::Zombie }
        else { MonsterType::Ghoul }
    } else if floor <= 11 {
        if roll < 10 { MonsterType::Goblin }
        else if roll < 18 { MonsterType::BatSwarm }
        else if roll < 26 { MonsterType::Spider }
        else if roll < 36 { MonsterType::Skeleton }
        else if roll < 46 { MonsterType::Wraith }
        else if roll < 56 { MonsterType::Troll }
        else if roll < 66 { MonsterType::Necromancer }
        else if roll < 76 { MonsterType::Zombie }
        else if roll < 86 { MonsterType::Ghoul }
        else { MonsterType::Specter }
    } else {
        deep_roster((roll / 4) as usize)
    }
}

/// XP for killing a monster of each kind.
pub open spec fn kind_xp(t: MonsterType) -> int {
    match t {
        MonsterType::Goblin => 10,
        MonsterType::BatSwarm => 15,
        MonsterType::Spider => 15,
        MonsterType::Skeleton => 20,
        MonsterType::Wraith => 30,
        MonsterType::Troll => 40,
        MonsterType::Necromancer => 50,
        MonsterType::GoblinKing => 150,
        MonsterType::BoneDragon => 300,
        MonsterType::ShadowLord => 500,
        MonsterType::Zombie => 18,
        MonsterType::Ghoul => 22,
        MonsterType::Specter => 35,
        MonsterType::Imp => 25,
        MonsterType::Demon => 45,
        MonsterType::Hellfire => 38,
        MonsterType::Minotaur => 60,
        MonsterType::Bear => 45,
        MonsterType::WolfPack => 20,
        MonsterType::Orc => 30,
        MonsterType::Bandit => 25,
        MonsterType::Assassin => 55,
        MonsterType::FireElemental => 40,
        MonsterType::EarthElemental => 50,
        MonsterType::IceElemental => 40,
        MonsterType::Golem => 70,
        MonsterType::Sentry => 35,
        MonsterType::Bomber => 30,
    }
}

/// The kind of the roll on a floor (see `spawn_kind`).
pub fn spawn_kind_for_roll(floor: i32, roll: usize) -> (t: MonsterType)
    ensures
        t == spawn_kind(floor as int, roll as int),
{
    if floor <= 1 {
        MonsterType::Goblin
    } else if floor <= 2 {
        if roll < 60 { MonsterType::Goblin } else { MonsterType::BatSwarm }
    } else if floor <= 3 {
        if roll < 40 { MonsterType::Goblin }
        else if roll < 65 { MonsterType::BatSwarm }
        else if roll < 85 { MonsterType::Spider }
        else { MonsterType::Skeleton }
    } else if floor <= 5 {
        if roll < 25 { MonsterType::Goblin }
        else if roll < 40 { MonsterType::BatSwarm }
        else if roll < 55 { MonsterType::Spider }
        else if roll < 75 { MonsterType::Skeleton }
        else if roll < 90 { MonsterType::Wraith }
        else { MonsterType::Troll }
    } else if floor <= 8 {
        if roll < 12 { MonsterType::Goblin }
        else if roll < 22 { MonsterType::BatSwarm }
        else if roll < 32 { MonsterType::Spider }
        else if roll < 42 { MonsterType::Skeleton }
        else if roll < 52 { MonsterType::Wraith }
        else if roll < 62 { MonsterType::Troll }
        else if roll < 75 { MonsterType::Necromancer }
        else if roll < 85 { MonsterType::Zombie }
        else { MonsterType::Ghoul }
    } else if floor <= 11 {
        if roll < 10 { MonsterType::Goblin }
        else if roll < 18 { MonsterType::BatSwarm }
        else if roll < 26 { MonsterType::Spider }
        else if roll < 36 { MonsterType::Skeleton }
        else if roll < 46 { MonsterType::Wraith }
        else if roll < 56 { MonsterType::Troll }
        else if roll < 66 { MonsterType::Necromancer }
        else if roll < 76 { MonsterType::Zombie }
        else if roll < 86 { MonsterType::Ghoul }
        else { MonsterType::Specter }
    } else {
        deep_roster_kind(roll / 4)
    }
}

impl Monster {
    /// A new monster of the given kind (see `is_new_monster`).
    pub fn new(x: usize, y: usize, monster_type: MonsterType, floor: i32) -> (m: Monster)
        ensures
            is_new_monster(m, x, y, monster_type, floor as int),
    {
        let floor_tier = floor_tier(floor);
        let (symbol, name, hp, attack) = match monster_type {
            MonsterType::Goblin => ('g', "Goblin", 6, 2),
            MonsterType::Skeleton => ('s', "Skeleton", 10, 4),
            MonsterType::Troll => ('T', "Troll", 20, 8),
            MonsterType::BatSwarm => ('b', "Bat Swarm", 4, 1),
            MonsterType::Spider => ('x', "Spider", 8, 3),
            MonsterType::Wraith => ('W', "Wraith", 12, 5),
            MonsterType::Necromancer => ('N', "Necromancer", 8, 2),
            MonsterType::GoblinKing => ('K', "Goblin King", 60, 5),
            MonsterType::BoneDragon => ('D', "Bone Dragon", 100, 6),
            MonsterType::ShadowLord => ('S', "Shadow Lord", 120, 5),
            MonsterType::Zombie => ('z', "Zombie", 12, 3),
            MonsterType::Ghoul => ('G', "Ghoul", 8, 5),
            MonsterType::Specter => ('p', "Specter", 6, 7),
            MonsterType::Imp => ('i', "Imp", 7, 4),
            MonsterType::Demon => ('D', "Demon", 18, 6),
            MonsterType::Hellfire => ('f', "Hellfire Elemental", 12, 5),
            MonsterType::Minotaur => ('M', "Minotaur", 25, 8),
            MonsterType::Bear => ('B', "Bear", 15, 4),
            MonsterType::WolfPack => ('w', "Wolf", 6, 3),
            MonsterType::Orc => ('O', "Orc", 14, 5),
            MonsterType::Bandit => ('b', "Bandit", 7, 4),
            MonsterType::Assassin => ('a', "Assassin", 6, 9),
            MonsterType::FireElemental => ('F', "Fire Elemental", 10, 5),
            MonsterType::EarthElemental => ('E', "Earth Elemental", 20, 5),
            MonsterType::IceElemental => ('I', "Ice Elemental", 12, 4),
            MonsterType::Golem => ('G', "Golem", 40, 3),
            MonsterType::Sentry => ('s', "Sentry", 10, 6),
            MonsterType::Bomber => ('o', "Bomber", 8, 10),
        };
        let summon_max = match monster_type {
            MonsterType::Necromancer => if floor_tier >= 3 { 5 } else { 3 },
            MonsterType::GoblinKing => 4,
            _ => 0,
        };
        let is_boss = match monster_type {
            MonsterType::GoblinKing | MonsterType::BoneDragon | MonsterType::ShadowLord => true,
            _ => false,
        };
        Monster {
            x,
            y,
            symbol,
            name: String::from_str(name),
            hp,
            max_hp: hp,
            attack,
            base_attack: attack,
            monster_type,
            behavior: BehaviorState::Idle,
            can_see_player: false,
            last_known_player_pos: None,
            ranged_cooldown: 0,
            turn_parity: if monster_type == MonsterType::Golem { 1 } else { 0 },
            floor_tier,
            is_berserk: false,
            stun_ticks: 0,
            freeze_ticks: 0,
            poison_ticks: 0,
            attack_reduction: 0,
            web_cooldown: if monster_type == MonsterType::Spider { 4 } else { 0 },
            summon_count: 0,
            summon_max,
            is_phasing: false,
            death_pos: None,
            is_boss,
            boss_tick: 0,
        }
    }

    /// A new monster of a kind drawn from the floor's spawn table.
    pub fn random_monster(x: usize, y: usize, floor: i32) -> (m: Monster)
        ensures
            exists|roll: int| 0 <= roll < 100 && #[trigger] is_new_monster(m, x, y, spawn_kind(floor as int, roll), floor as int),
    {
        let roll = random_below(100);
        let t = spawn_kind_for_roll(floor, roll);
        let m = Monster::new(x, y, t, floor);
        assert(is_new_monster(m, x, y, spawn_kind(floor as int, roll as int), floor as int));
        m
    }

    /// HP drops by `amount`, not below 0.
    pub fn take_damage(&mut self, amount: i32)
        requires
            i32::MIN <= old(self).hp - amount <= i32::MAX,
        ensures
            *final(self) == (Monster { hp: (if old(self).hp - amount > 0 { old(self).hp - amount } else { 0 }) as i32, ..*old(self) }),
    {
        let h = self.hp - amount;
        self.hp = if h > 0 { h } else { 0 };
    }

    pub fn is_alive(&self) -> (b: bool)
        ensures
            b == (self.hp > 0),
    {
        self.hp > 0
    }

    /// The XP reward for killing this monster (see `kind_xp`).
    pub fn xp_value(&self) -> (xp: i32)
        ensures
            xp == kind_xp(self.monster_type),
    {
        match self.monster_type {
            MonsterType::Goblin => 10,
            MonsterType::BatSwarm => 15,
            MonsterType::Spider => 15,
            MonsterType::Skeleton => 20,
            MonsterType::Wraith => 30,
            MonsterType::Troll => 40,
            MonsterType::Necromancer => 50,
            MonsterType::GoblinKing => 150,
            MonsterType::BoneDragon => 300,
            MonsterType::ShadowLord => 500,
            MonsterType::Zombie => 18,
            MonsterType::Ghoul => 22,
            MonsterType::Specter => 35,
            MonsterType::Imp => 25,
            MonsterType::Demon => 45,
            MonsterType::Hellfire => 38,
            MonsterType::Minotaur => 60,
            MonsterType::Bear => 45,
            MonsterType::WolfPack => 20,
            MonsterType::Orc => 30,
            MonsterType::Bandit => 25,
            MonsterType::Assassin => 55,
            MonsterType::FireElemental => 40,
            MonsterType::EarthElemental => 50,
            MonsterType::IceElemental => 40,
            MonsterType::Golem => 70,
            MonsterType::Sentry => 35,
            MonsterType::Bomber => 30,
        }
    }

    /// Bat swarms of tier 2 and deeper dodge a quarter of attacks; nothing
    /// else dodges.
    pub fn can_dodge_attack(&self) -> (b: bool)
        ensures
            !(self.monster_type == MonsterType::BatSwarm && self.floor_tier >= 2) ==> !b,
            self.monster_type == MonsterType::BatSwarm && self.floor_tier >= 2 ==>
                exists|roll: int| #[trigger] c_witness(b, 25, roll),
    {
        if self.monster_type == MonsterType::BatSwarm && self.floor_tier >= 2 {
            let roll = random_below(100);
            assert(c_witness(roll < 25, 25, roll as int));
            return roll < 25;
        }
        false
    }
}


// --- Deciding a turn ---

/// A monster action with the attacker's name left out (see `act_of`).
pub enum Act {
    Nothing,
    MoveTo(usize, usize),
    MoveToPhase(usize, usize),
    Melee(i32),
    Poison(i32, i32),
    Drain(i32),
    Web(usize, usize),
    Fire(usize, usize, i32, i32, i32, char),
    Resurrect(usize),
    BossSummon,
    Breath(i32, i32, i32, i32),
    Pulse(i32, i32),
    BossTeleport,
}

pub open spec fn act_of(a: MonsterAction) -> Act {
    match a {
        MonsterAction::Nothing => Act::Nothing,
        MonsterAction::MoveTo(x, y) => Act::MoveTo(x, y),
        MonsterAction::MoveToPhase(x, y) => Act::MoveToPhase(x, y),
        MonsterAction::MeleeAttack { damage, .. } => Act::Melee(damage),
        MonsterAction::PoisonAttack { damage, poison_ticks, .. } => Act::Poison(damage, poison_ticks),
        MonsterAction::DrainAttack { damage, .. } => Act::Drain(damage),
        MonsterAction::PlaceWeb(x, y) => Act::Web(x, y),
        MonsterAction::FireProjectile(p) => Act::Fire(p.x, p.y, p.dx, p.dy, p.damage, p.symbol),
        MonsterAction::Resurrect(i) => Act::Resurrect(i),
        MonsterAction::BossSummon => Act::BossSummon,
        MonsterAction::BreathAttack { dx, dy, damage, range } => Act::Breath(dx, dy, damage, range),
        MonsterAction::ShadowPulse { damage, radius } => Act::Pulse(damage, radius),
        MonsterAction::BossTeleport => Act::BossTeleport,
    }
}

/// Every name an action carries is `name`.
pub open spec fn named(a: MonsterAction, name: Seq<char>) -> bool {
    match a {
        MonsterAction::MeleeAttack { name: n, .. } => n@ == name,
        MonsterAction::PoisonAttack { name: n, .. } => n@ == name,
        MonsterAction::DrainAttack { name: n, .. } => n@ == name,
        MonsterAction::FireProjectile(p) => p.source_name@ == name,
        _ => true,
    }
}

/// The outcomes of the searches and dice a turn may use: the A* steps toward
/// the player (`chase`, and `chase2` for a second search), toward the nearest
/// ally (`lure`) and toward the last place the player was seen (`back`), a
/// wander direction (0 to 3), a percent roll and a pick among the dead.
pub struct Draws {
    pub chase: Option<(usize, usize)>,
    pub chase2: Option<(usize, usize)>,
    pub lure: Option<(usize, usize)>,
    pub back: Option<(usize, usize)>,
    pub dir: usize,
    pub coin: usize,
    pub pick: usize,
}

pub open spec fn pos_of(m: Monster) -> (usize, usize) {
    (m.x, m.y)
}

/// What `astar_next_step` may answer for a search from `start` to `goal`.
pub open spec fn path_ok(map: DungeonMap, start: (usize, usize), goal: (usize, usize), occ: Seq<(usize, usize)>, r: Option<(usize, usize)>) -> bool {
    &&& start == goal ==> r == Some(goal)
    &&& adjacent4((start.0 as int, start.1 as int), (goal.0 as int, goal.1 as int)) && walkable(map, goal.0 as int, goal.1 as int)
        ==> r == Some(goal)
    &&& start != goal && r is Some ==> step_ok(map, start, goal, occ, r->0) && first_of_shortest(map, occ, goal, start, r->0)
}

/// The living monster nearest to `m` among `all` from index `i` on (the
/// first one at the least distance; `m`'s own cell is skipped).
pub open spec fn nearest_from(p: (usize, usize), all: Seq<(usize, usize)>, i: int, best: Option<(usize, usize)>, best_d: int) -> Option<(usize, usize)>
    decreases all.len() - i,
{
    if i < 0 || i >= all.len() {
        best
    } else if all[i] == p {
        nearest_from(p, all, i + 1, best, best_d)
    } else {
        let d = manhattan(p.0 as int, p.1 as int, all[i].0 as int, all[i].1 as int);
        if d < best_d {
            nearest_from(p, all, i + 1, Some(all[i]), d)
        } else {
            nearest_from(p, all, i + 1, best, best_d)
        }
    }
}

pub open spec fn nearest_ally(m: Monster, all: Seq<(usize, usize)>) -> Option<(usize, usize)> {
    nearest_from(pos_of(m), all, 0, None, i32::MAX as int)
}

/// The searches toward the player and the last place it was seen, the
/// wander direction and the percent roll are ones this turn can give.
pub open spec fn draws_base_ok(m: Monster, map: DungeonMap, player: (usize, usize), occ: Seq<(usize, usize)>, o: Draws) -> bool {
    &&& path_ok(map, pos_of(m), player, occ, o.chase)
    &&& path_ok(map, pos_of(m), player, occ, o.chase2)
    &&& (match m.last_known_player_pos { Some(lp) => path_ok(map, pos_of(m), lp, occ, o.back), None => true })
    &&& o.dir < 4
    &&& o.coin < 100
}

/// The draws are ones the searches and dice can give this turn.
pub open spec fn draws_ok(m: Monster, map: DungeonMap, player: (usize, usize), occ: Seq<(usize, usize)>,
    all: Seq<(usize, usize)>, dead: Seq<usize>, o: Draws) -> bool {
    &&& path_ok(map, pos_of(m), player, occ, o.chase)
    &&& path_ok(map, pos_of(m), player, occ, o.chase2)
    &&& (match nearest_ally(m, all) { Some(t) => path_ok(map, pos_of(m), t, occ, o.lure), None => true })
    &&& (match m.last_known_player_pos { Some(lp) => path_ok(map, pos_of(m), lp, occ, o.back), None => true })
    &&& o.dir < 4
    &&& o.coin < 100
    &&& (dead.len() > 0 ==> o.pick < dead.len())
}

/// The side neighbour `k` (left, right, up, down) of (x, y); a step off the
/// top or left edge wraps around to `usize::MAX`.
pub open spec fn side_neighbour(x: usize, y: usize, k: int) -> (usize, usize) {
    if k == 0 {
        (if x == 0 { usize::MAX } else { (x - 1) as usize }, y)
    } else if k == 1 {
        ((x + 1) as usize, y)
    } else if k == 2 {
        (x, if y == 0 { usize::MAX } else { (y - 1) as usize })
    } else {
        (x, (y + 1) as usize)
    }
}

/// The neighbour, from index `k` on, that is farthest from `target` and
/// farther than `best_d` (the first such on ties), among the walkable cells
/// no other monster holds.
pub open spec fn flee_pick(p: (usize, usize), target: (usize, usize), map: DungeonMap, occ: Seq<(usize, usize)>, k: int,
    best: Option<(usize, usize)>, best_d: int) -> Option<(usize, usize)>
    decreases 4 - k,
{
    if k < 0 || k >= 4 {
        best
    } else {
        let n = side_neighbour(p.0, p.1, k);
        if walkable(map, n.0 as int, n.1 as int) && !occ.contains(n) {
            let d = manhattan(n.0 as int, n.1 as int, target.0 as int, target.1 as int);
            if d > best_d {
                flee_pick(p, target, map, occ, k + 1, Some(n), d)
            } else {
                flee_pick(p, target, map, occ, k + 1, best, best_d)
            }
        } else {
            flee_pick(p, target, map, occ, k + 1, best, best_d)
        }
    }
}

/// Fleeing: the move to the free neighbour that gets farthest from `target`,
/// or nothing when no neighbour gets farther.
pub open spec fn flee_act(m: Monster, target: (usize, usize), map: DungeonMap, occ: Seq<(usize, usize)>) -> Act {
    match flee_pick(pos_of(m), target, map, occ, 0, None, manhattan(m.x as int, m.y as int, target.0 as int, target.1 as int)) {
        Some(n) => Act::MoveTo(n.0, n.1),
        None => Act::Nothing,
    }
}

/// The unit step of direction `dir` (left, right, up, down).
pub open spec fn dir_step(dir: int) -> (int, int) {
    if dir == 0 { (-1, 0) } else if dir == 1 { (1, 0) } else if dir == 2 { (0, -1) } else { (0, 1) }
}

/// A random step in direction `dir`, when that cell is walkable and free.
pub open spec fn random_step(m: Monster, map: DungeonMap, occ: Seq<(usize, usize)>, dir: int) -> Act {
    let nx = m.x + dir_step(dir).0;
    let ny = m.y + dir_step(dir).1;
    if nx >= 0 && ny >= 0 && walkable(map, nx, ny) && !occ.contains((nx as usize, ny as usize)) {
        Act::MoveTo(nx as usize, ny as usize)
    } else {
        Act::Nothing
    }
}

/// Wandering: head for where the player was last seen (forgetting it on
/// arrival, or when no path leads there), else a random step.
pub open spec fn wander_spec(m: Monster, map: DungeonMap, occ: Seq<(usize, usize)>, o: Draws) -> (Monster, Act) {
    match m.last_known_player_pos {
        Some(lp) => match o.back {
            Some(next) => (
                if next == lp { Monster { last_known_player_pos: None, ..m } } else { m },
                Act::MoveTo(next.0, next.1),
            ),
            None => (Monster { last_known_player_pos: None, ..m }, random_step(m, map, occ, o.dir as int)),
        },
        None => (m, random_step(m, map, occ, o.dir as int)),
    }
}

pub open spec fn with_behavior(m: Monster, b: BehaviorState) -> Monster {
    Monster { behavior: b, ..m }
}

/// The sign of `v`: -1, 0 or 1.
pub open spec fn sgn(v: int) -> int {
    if v > 0 { 1 } else if v < 0 { -1 } else { 0 }
}

/// An arrow (or bolt) from `m` toward the player: it starts on the next cell
/// in the player's direction.
pub open spec fn shot(m: Monster, player: (usize, usize), damage: int) -> Act {
    let dx = sgn(player.0 - m.x);
    let dy = sgn(player.1 - m.y);
    Act::Fire((m.x + dx) as usize, (m.y + dy) as usize, dx as i32, dy as i32, damage as i32, direction_symbol(dx, dy))
}

/// Percent of HP left, rounded down.
pub open spec fn hp_percent(m: Monster) -> int {
    (m.hp * 100) / (m.max_hp as int)
}

/// Chase with one A* step toward the player, else wander as an idle monster.
pub open spec fn chase_or_idle(m: Monster, map: DungeonMap, occ: Seq<(usize, usize)>, step: Option<(usize, usize)>, o: Draws) -> (Monster, Act) {
    match step {
        Some(n) => (m, Act::MoveTo(n.0, n.1)),
        None => wander_spec(with_behavior(m, BehaviorState::Idle), map, occ, o),
    }
}

/// The plain brute: hits when adjacent, chases a seen player within `range`,
/// else wanders idle.
pub open spec fn basic_spec(m: Monster, map: DungeonMap, occ: Seq<(usize, usize)>, adjacent: bool, dist: int,
    range: int, attack: Act, o: Draws) -> (Monster, Act) {
    if adjacent {
        (m, attack)
    } else if m.can_see_player && dist <= range && o.chase is Some {
        (m, Act::MoveTo((o.chase->0).0, (o.chase->0).1))
    } else {
        wander_spec(with_behavior(m, BehaviorState::Idle), map, occ, o)
    }
}

pub open spec fn goblin_spec(m: Monster, player: (usize, usize), map: DungeonMap, occ: Seq<(usize, usize)>,
    all: Seq<(usize, usize)>, adjacent: bool, low_hp: bool, o: Draws) -> (Monster, Act) {
    if adjacent {
        (with_behavior(m, BehaviorState::Attack), Act::Melee(m.attack))
    } else if low_hp && m.floor_tier >= 2 && m.can_see_player {
        let m1 = with_behavior(m, BehaviorState::Retreat);
        match nearest_ally(m, all) {
            Some(t) => match o.lure {
                Some(n) => (m1, Act::MoveTo(n.0, n.1)),
                None => (m1, flee_act(m1, player, map, occ)),
            },
            None => (m1, flee_act(m1, player, map, occ)),
        }
    } else if m.can_see_player {
        let m1 = with_behavior(m, BehaviorState::Chase);
        if m.floor_tier >= 3 && o.chase is Some {
            (m1, Act::MoveTo((o.chase->0).0, (o.chase->0).1))
        } else {
            chase_or_idle(m1, map, occ, if m.floor_tier >= 3 { o.chase2 } else { o.chase }, o)
        }
    } else {
        wander_spec(with_behavior(m, BehaviorState::Idle), map, occ, o)
    }
}

pub open spec fn skeleton_spec(m: Monster, player: (usize, usize), map: DungeonMap, occ: Seq<(usize, usize)>,
    adjacent: bool, dist: int, o: Draws) -> (Monster, Act) {
    if adjacent {
        (with_behavior(m, BehaviorState::Attack), Act::Melee(m.attack))
    } else if m.floor_tier >= 3 && m.can_see_player && dist < 4 {
        let m1 = with_behavior(m, BehaviorState::Reposition);
        (m1, flee_act(m1, player, map, occ))
    } else if m.floor_tier >= 2 && m.can_see_player && 3 <= dist <= 8 && m.ranged_cooldown <= 0 {
        (Monster { behavior: BehaviorState::Ranged, ranged_cooldown: 2, ..m }, shot(m, player, 3))
    } else if m.can_see_player {
        chase_or_idle(with_behavior(m, BehaviorState::Chase), map, occ, o.chase, o)
    } else {
        wander_spec(with_behavior(m, BehaviorState::Idle), map, occ, o)
    }
}

pub open spec fn troll_spec(m: Monster, map: DungeonMap, occ: Seq<(usize, usize)>, adjacent: bool, low_hp: bool, o: Draws) -> (Monster, Act) {
    let m1 = if low_hp && m.floor_tier >= 3 && !m.is_berserk { Monster { is_berserk: true, attack: 12, ..m } } else { m };
    let m2 = Monster { turn_parity: (m1.turn_parity + 1) as i32, ..m1 };
    if !m2.is_berserk && (m2.turn_parity as int) % 2 != 0 {
        (m2, Act::Nothing)
    } else if adjacent {
        (with_behavior(m2, BehaviorState::Attack), Act::Melee(m2.attack))
    } else if m2.floor_tier >= 2 && corridor_at(map, m2.x as int, m2.y as int) && m2.can_see_player {
        (with_behavior(m2, BehaviorState::Idle), Act::Nothing)
    } else if m2.can_see_player {
        chase_or_idle(with_behavior(m2, BehaviorState::Chase), map, occ, o.chase, o)
    } else {
        wander_spec(with_behavior(m2, BehaviorState::Idle), map, occ, o)
    }
}

pub open spec fn bat_spec(m: Monster, map: DungeonMap, occ: Seq<(usize, usize)>, adjacent: bool, o: Draws) -> (Monster, Act) {
    if adjacent {
        (with_behavior(m, BehaviorState::Attack), Act::Melee(m.attack))
    } else if m.can_see_player {
        let m1 = with_behavior(m, BehaviorState::Chase);
        if o.coin < 30 {
            wander_spec(m1, map, occ, o)
        } else {
            chase_or_idle(m1, map, occ, o.chase, o)
        }
    } else {
        wander_spec(with_behavior(m, BehaviorState::Idle), map, occ, o)
    }
}

pub open spec fn spider_spec(m: Monster, player: (usize, usize), adjacent: bool, dist: int, o: Draws) -> (Monster, Act) {
    if adjacent {
        (with_behavior(m, BehaviorState::Attack), if m.floor_tier >= 2 { Act::Poison(m.attack, 2) } else { Act::Melee(m.attack) })
    } else if m.can_see_player && 3 <= dist <= 5 && m.web_cooldown <= 0 {
        (Monster { web_cooldown: if m.floor_tier >= 2 { 2 } else { 4 }, behavior: BehaviorState::Ranged, ..m }, Act::Web(player.0, player.1))
    } else if !m.can_see_player || dist > 4 {
        (with_behavior(m, BehaviorState::Idle), Act::Nothing)
    } else {
        let m1 = with_behavior(m, BehaviorState::Chase);
        match o.chase {
            Some(n) => (m1, Act::MoveTo(n.0, n.1)),
            None => (m1, Act::Nothing),
        }
    }
}

/// One cell from `m` toward the player, through walls, when on the map.
pub open spec fn phase_step(m: Monster, player: (usize, usize), map: DungeonMap) -> Option<(usize, usize)> {
    let nx = (m.x + sgn(player.0 - m.x)) as usize;
    let ny = (m.y + sgn(player.1 - m.y)) as usize;
    if nx < map.width && ny < map.height { Some((nx, ny)) } else { None }
}

/// The first side neighbour of the player, from index `k` on, that is
/// walkable, free and not the player's cell.
pub open spec fn emerge_from(player: (usize, usize), map: DungeonMap, occ: Seq<(usize, usize)>, k: int) -> Option<(usize, usize)>
    decreases 4 - k,
{
    if k < 0 || k >= 4 {
        None
    } else {
        let n = side_neighbour(player.0, player.1, k);
        if n.0 < map.width && n.1 < map.height && walkable(map, n.0 as int, n.1 as int) && !occ.contains(n) && n != player {
            Some(n)
        } else {
            emerge_from(player, map, occ, k + 1)
        }
    }
}

/// The wraith after it chose not to retreat (or found no wall).
pub open spec fn wraith_rest(m: Monster, player: (usize, usize), map: DungeonMap, occ: Seq<(usize, usize)>, dist: int, o: Draws) -> (Monster, Act) {
    if m.is_phasing && m.can_see_player && (emerge_from(player, map, occ, 0) is Some || phase_step(m, player, map) is Some) {
        let m1 = with_behavior(m, BehaviorState::Chase);
        match emerge_from(player, map, occ, 0) {
            Some(n) => (m1, Act::MoveToPhase(n.0, n.1)),
            None => (m1, Act::MoveToPhase((phase_step(m, player, map)->0).0, (phase_step(m, player, map)->0).1)),
        }
    } else {
        let m1 = if m.is_phasing && m.can_see_player { with_behavior(m, BehaviorState::Chase) } else { m };
        if m1.can_see_player && dist > 1 {
            let m2 = with_behavior(m1, BehaviorState::Chase);
            match o.chase {
                Some(n) => (m2, Act::MoveTo(n.0, n.1)),
                None => match phase_step(m2, player, map) {
                    Some(s) => (m2, Act::MoveToPhase(s.0, s.1)),
                    None => wander_spec(with_behavior(m2, BehaviorState::Idle), map, occ, o),
                },
            }
        } else {
            wander_spec(with_behavior(m1, BehaviorState::Idle), map, occ, o)
        }
    }
}

pub open spec fn wraith_spec(m: Monster, player: (usize, usize), map: DungeonMap, occ: Seq<(usize, usize)>,
    adjacent: bool, dist: int, o: Draws) -> (Monster, Act) {
    let m1 = if m.floor_tier <= 1 { Monster { turn_parity: (m.turn_parity + 1) as i32, ..m } } else { m };
    if m.floor_tier <= 1 && (m1.turn_parity as int) % 2 != 0 {
        (m1, Act::Nothing)
    } else if adjacent && !m1.is_phasing {
        (with_behavior(m1, BehaviorState::Attack), Act::Drain(m1.attack))
    } else if m1.behavior == BehaviorState::Attack && !m1.is_phasing {
        let m2 = with_behavior(m1, BehaviorState::Retreat);
        match nearest_wall(m2, map) {
            Some(w) => (m2, Act::MoveToPhase(w.0, w.1)),
            None => wraith_rest(m2, player, map, occ, dist, o),
        }
    } else {
        wraith_rest(m1, player, map, occ, dist, o)
    }
}

pub open spec fn necromancer_spec(m: Monster, player: (usize, usize), map: DungeonMap, occ: Seq<(usize, usize)>,
    dead: Seq<usize>, adjacent: bool, dist: int, o: Draws) -> (Monster, Act) {
    if adjacent {
        (with_behavior(m, BehaviorState::Attack), Act::Melee(m.attack))
    } else if m.can_see_player && dist < 6 {
        let m1 = with_behavior(m, BehaviorState::Retreat);
        (m1, flee_act(m1, player, map, occ))
    } else {
        let m1 = Monster { turn_parity: (m.turn_parity + 1) as i32, ..m };
        let interval: int = if m.floor_tier >= 3 { 4 } else { 6 };
        if (m1.turn_parity as int) % interval == 0 && m1.summon_count < m1.summon_max && dead.len() > 0 {
            (Monster { summon_count: (m1.summon_count + 1) as i32, ..m1 }, Act::Resurrect(dead[o.pick as int]))
        } else if m1.can_see_player && dist > 8 {
            chase_or_idle(with_behavior(m1, BehaviorState::Chase), map, occ, o.chase, o)
        } else if m1.can_see_player {
            (with_behavior(m1, BehaviorState::Reposition), Act::Nothing)
        } else {
            wander_spec(with_behavior(m1, BehaviorState::Idle), map, occ, o)
        }
    }
}

pub open spec fn goblin_king_spec(m: Monster, map: DungeonMap, occ: Seq<(usize, usize)>, adjacent: bool, dist: int, o: Draws) -> (Monster, Act) {
    let m1 = Monster { boss_tick: (m.boss_tick + 1) as i32, ..m };
    let enraged = hp_percent(m) < 50;
    let interval: int = if enraged { 3 } else { 4 };
    if (m1.boss_tick as int) % interval == 0 && m1.summon_count < m1.summon_max {
        (Monster { summon_count: (m1.summon_count + 1) as i32, ..m1 }, Act::BossSummon)
    } else if adjacent {
        (with_behavior(m1, BehaviorState::Attack), Act::Melee(if enraged { (m1.attack + 2) as i32 } else { m1.attack }))
    } else if m1.can_see_player && dist <= 12 {
        let m2 = with_behavior(m1, BehaviorState::Chase);
        match o.chase {
            Some(n) => (m2, Act::MoveTo(n.0, n.1)),
            None => wander_spec(m2, map, occ, o),
        }
    } else {
        wander_spec(m1, map, occ, o)
    }
}

pub open spec fn bone_dragon_spec(m: Monster, player: (usize, usize), map: DungeonMap, occ: Seq<(usize, usize)>,
    adjacent: bool, dist: int, o: Draws) -> (Monster, Act) {
    let m1 = Monster { boss_tick: (m.boss_tick + 1) as i32, ..m };
    let enraged = hp_percent(m) < 50;
    let interval: int = if enraged { 2 } else { 3 };
    let range: int = if enraged { 5 } else { 3 };
    if (m1.boss_tick as int) % interval == 0 && dist <= range && dist > 1 && sight_clear(map, m.x as int, m.y as int, player.0 as int, player.1 as int) {
        (m1, Act::Breath(sgn(player.0 - m.x) as i32, sgn(player.1 - m.y) as i32, 8, range as i32))
    } else if adjacent {
        (with_behavior(m1, BehaviorState::Attack), Act::Melee(m1.attack))
    } else if (m1.boss_tick as int) % 2 != 0 {
        (m1, Act::Nothing)
    } else if m1.can_see_player && dist <= 12 {
        let m2 = with_behavior(m1, BehaviorState::Chase);
        match o.chase {
            Some(n) => (m2, Act::MoveTo(n.0, n.1)),
            None => wander_spec(m2, map, occ, o),
        }
    } else {
        wander_spec(m1, map, occ, o)
    }
}

/// The first side neighbour of `m`, from index `k` on, that is walkable and
/// closer to the player than `best_d` (strictly, keeping the closest).
pub open spec fn approach_pick(m: Monster, player: (usize, usize), map: DungeonMap, k: int, best: Option<(usize, usize)>, best_d: int)
    -> Option<(usize, usize)>
    decreases 4 - k,
{
    if k < 0 || k >= 4 {
        best
    } else {
        let n = side_neighbour(m.x, m.y, k);
        if walkable(map, n.0 as int, n.1 as int) && manhattan(n.0 as int, n.1 as int, player.0 as int, player.1 as int) < best_d {
            approach_pick(m, player, map, k + 1, Some(n), manhattan(n.0 as int, n.1 as int, player.0 as int, player.1 as int))
        } else {
            approach_pick(m, player, map, k + 1, best, best_d)
        }
    }
}

pub open spec fn shadow_lord_spec(m: Monster, player: (usize, usize), map: DungeonMap, adjacent: bool, dist: int) -> (Monster, Act) {
    let m1 = Monster { boss_tick: (m.boss_tick + 1) as i32, ..m };
    let enraged = hp_percent(m) < 50;
    let pulse: int = if enraged { 4 } else { 5 };
    let radius: int = if enraged { 3 } else { 2 };
    let tp: int = if enraged { 2 } else { 3 };
    if (m1.boss_tick as int) % pulse == 0 && dist <= radius + 1 {
        (m1, Act::Pulse(3, radius as i32))
    } else if (m1.boss_tick as int) % tp == 0 && dist > 2 {
        (m1, Act::BossTeleport)
    } else if adjacent {
        (with_behavior(m1, BehaviorState::Attack), Act::Drain(m1.attack))
    } else if m1.can_see_player && dist <= 12 {
        let m2 = with_behavior(m1, BehaviorState::Chase);
        match approach_pick(m2, player, map, 0, None, dist) {
            Some(n) => (m2, Act::MoveTo(n.0, n.1)),
            None => (m2, Act::Nothing),
        }
    } else {
        (m1, Act::Nothing)
    }
}

pub open spec fn specter_spec(m: Monster, player: (usize, usize), map: DungeonMap, adjacent: bool, dist: int) -> (Monster, Act) {
    if adjacent {
        (m, Act::Melee(m.attack))
    } else if m.can_see_player && dist <= 6 && phase_step(m, player, map) is Some {
        (m, Act::MoveToPhase((phase_step(m, player, map)->0).0, (phase_step(m, player, map)->0).1))
    } else {
        (m, Act::Nothing)
    }
}

/// A ranged attacker: hits when adjacent, shoots a seen player within
/// `range` when its cooldown is over (starting a cooldown of `cooldown`),
/// chases within `chase_range` (0: never), else wanders idle.
pub open spec fn shooter_spec(m: Monster, player: (usize, usize), map: DungeonMap, occ: Seq<(usize, usize)>,
    adjacent: bool, dist: int, range: int, cooldown: int, chase_range: int, o: Draws) -> (Monster, Act) {
    if adjacent {
        (m, Act::Melee(m.attack))
    } else if m.can_see_player && dist <= range && m.ranged_cooldown <= 0 {
        (Monster { ranged_cooldown: cooldown as i32, ..m }, shot(m, player, m.attack as int))
    } else if m.can_see_player && dist <= chase_range && o.chase is Some {
        (m, Act::MoveTo((o.chase->0).0, (o.chase->0).1))
    } else {
        wander_spec(with_behavior(m, BehaviorState::Idle), map, occ, o)
    }
}

pub open spec fn golem_spec(m: Monster, map: DungeonMap, occ: Seq<(usize, usize)>, adjacent: bool, dist: int, o: Draws) -> (Monster, Act) {
    let m1 = Monster { turn_parity: ((m.turn_parity + 1) % 2) as i32, ..m };
    if m1.turn_parity == 0 {
        (m1, Act::Nothing)
    } else {
        basic_spec(m1, map, occ, adjacent, dist, 10, Act::Melee(m1.attack), o)
    }
}

/// What each kind does (see the kind's own rule), given the draws.
#[verifier::opaque]
pub open spec fn kind_turn(m: Monster, player: (usize, usize), map: DungeonMap, occ: Seq<(usize, usize)>,
    all: Seq<(usize, usize)>, dead: Seq<usize>, adjacent: bool, low_hp: bool, dist: int, o: Draws) -> (Monster, Act) {
    match m.monster_type {
        MonsterType::Goblin => goblin_spec(m, player, map, occ, all, adjacent, low_hp, o),
        MonsterType::Skeleton => skeleton_spec(m, player, map, occ, adjacent, dist, o),
        MonsterType::Troll => troll_spec(m, map, occ, adjacent, low_hp, o),
        MonsterType::BatSwarm => bat_spec(m, map, occ, adjacent, o),
        MonsterType::Spider => spider_spec(m, player, adjacent, dist, o),
        MonsterType::Wraith => wraith_spec(m, player, map, occ, adjacent, dist, o),
        MonsterType::Necromancer => necromancer_spec(m, player, map, occ, dead, adjacent, dist, o),
        MonsterType::GoblinKing => goblin_king_spec(m, map, occ, adjacent, dist, o),
        MonsterType::BoneDragon => bone_dragon_spec(m, player, map, occ, adjacent, dist, o),
        MonsterType::ShadowLord => shadow_lord_spec(m, player, map, adjacent, dist),
        MonsterType::Zombie => {
            let m1 = Monster { hp: if m.hp + 1 < m.max_hp { (m.hp + 1) as i32 } else { m.max_hp }, ..m };
            basic_spec(m1, map, occ, adjacent, dist, 8, Act::Melee(m1.attack), o)
        },
        MonsterType::Ghoul => basic_spec(m, map, occ, adjacent, dist, 10, Act::Poison(m.attack, 3), o),
        MonsterType::Specter => specter_spec(m, player, map, adjacent, dist),
        MonsterType::Imp => shooter_spec(m, player, map, occ, adjacent, dist, 5, 3, 8, o),
        MonsterType::Demon => basic_spec(m, map, occ, adjacent, dist, 10, Act::Melee(m.attack), o),
        MonsterType::Hellfire => basic_spec(m, map, occ, adjacent, dist, 8, Act::Poison(m.attack, 2), o),
        MonsterType::Minotaur => basic_spec(m, map, occ, adjacent, dist, 10, Act::Melee(m.attack), o),
        MonsterType::Bear => basic_spec(m, map, occ, adjacent, dist, 8,
            Act::Melee(if low_hp { (m.attack * 2) as i32 } else { m.attack }), o),
        MonsterType::WolfPack => basic_spec(m, map, occ, adjacent, dist, 12, Act::Melee(m.attack), o),
        MonsterType::Orc => basic_spec(m, map, occ, adjacent, dist, 10, Act::Melee(m.attack), o),
        MonsterType::Bandit => basic_spec(m, map, occ, adjacent, dist, 8, Act::Drain(m.attack), o),
        MonsterType::Assassin => basic_spec(m, map, occ, adjacent, dist, 6, Act::Melee(m.attack), o),
        MonsterType::FireElemental => basic_spec(m, map, occ, adjacent, dist, 8, Act::Poison(m.attack, 2), o),
        MonsterType::EarthElemental => basic_spec(m, map, occ, adjacent, dist, 8, Act::Melee(m.attack), o),
        MonsterType::IceElemental => basic_spec(m, map, occ, adjacent, dist, 8, Act::Poison(m.attack, 2), o),
        MonsterType::Golem => golem_spec(m, map, occ, adjacent, dist, o),
        MonsterType::Sentry => shooter_spec(m, player, map, occ, adjacent, dist, 6, 2, -1, o),
        MonsterType::Bomber => basic_spec(m, map, occ, adjacent, dist, 6, Act::Melee((m.attack * 2) as i32), o),
    }
}

/// The start of every turn: the monster looks for the player (wraiths and
/// the Shadow Lord sense within 10 cells through walls, the others need a
/// line of sight within 12), remembers where it saw the player, and its
/// ranged and web cooldowns count down.
pub open spec fn look_around(m: Monster, player: (usize, usize), map: DungeonMap) -> Monster {
    let dist = manhattan(m.x as int, m.y as int, player.0 as int, player.1 as int);
    let sees = if m.monster_type == MonsterType::Wraith || m.monster_type == MonsterType::ShadowLord {
        dist <= 10
    } else {
        dist <= 12 && sight_clear(map, m.x as int, m.y as int, player.0 as int, player.1 as int)
    };
    Monster {
        can_see_player: sees,
        last_known_player_pos: if sees { Some(player) } else { m.last_known_player_pos },
        ranged_cooldown: if m.ranged_cooldown > 0 { (m.ranged_cooldown - 1) as i32 } else { m.ranged_cooldown },
        web_cooldown: if m.web_cooldown > 0 { (m.web_cooldown - 1) as i32 } else { m.web_cooldown },
        ..m
    }
}

/// The monster's turn: look around, then act by its kind's rule.
pub open spec fn monster_turn(m: Monster, player: (usize, usize), map: DungeonMap, occ: Seq<(usize, usize)>,
    all: Seq<(usize, usize)>, dead: Seq<usize>, o: Draws) -> (Monster, Act) {
    let m1 = look_around(m, player, map);
    let dist = manhattan(m.x as int, m.y as int, player.0 as int, player.1 as int);
    let adjacent = dist <= 1 && pos_of(m) != player;
    kind_turn(m1, player, map, occ, all, dead, adjacent, hp_percent(m) < 30, dist, o)
}

/// A monster that stands on the map and last saw the player on it.
pub open spec fn monster_place_ok(m: Monster, map: DungeonMap) -> bool {
    &&& m.x < map.width && m.y < map.height
    &&& (m.last_known_player_pos matches Some(lp) ==> lp.0 < map.width && lp.1 < map.height)
}

/// A monster whose numbers stay far from the `i32` limits and that stands
/// on the map.
pub open spec fn monster_ok(m: Monster, map: DungeonMap) -> bool {
    &&& monster_place_ok(m, map)
    &&& 1 <= m.max_hp <= 1_000_000
    &&& 0 <= m.hp <= 1_000_000
    &&& 0 <= m.attack <= 1_000_000
    &&& 1 <= m.floor_tier <= 3
    &&& 0 <= m.turn_parity <= 1_000_000_000
    &&& 0 <= m.boss_tick <= 1_000_000_000
    &&& -1_000_000 <= m.summon_count <= 1_000_000
    &&& m.ranged_cooldown >= -1_000_000
    &&& m.web_cooldown >= -1_000_000
}

/// The nearest wall or secret door around `m`: the smallest square (radius
/// 1 to 3) that holds one, and in it the first at the least distance,
/// scanning column by column.
pub open spec fn nearest_wall(m: Monster, map: DungeonMap) -> Option<(usize, usize)> {
    match wall_in_box(m, map, 1) {
        Some(w) => Some(w),
        None => match wall_in_box(m, map, 2) {
            Some(w) => Some(w),
            None => wall_in_box(m, map, 3),
        },
    }
}

/// The square of radius `r` around `m`, cut to the map: (sx, sy, ex, ey).
pub open spec fn box_of(m: Monster, map: DungeonMap, r: int) -> (int, int, int, int) {
    let sx = if m.x - r > 0 { m.x - r } else { 0 };
    let sy = if m.y - r > 0 { m.y - r } else { 0 };
    let ex = if m.x + r < map.width - 1 { m.x + r } else { map.width - 1 };
    let ey = if m.y + r < map.height - 1 { m.y + r } else { map.height - 1 };
    (sx, sy, ex, ey)
}

pub open spec fn blocks_wraith(map: DungeonMap, x: int, y: int) -> bool {
    tile_at(map, x, y) == Tile::Wall || tile_at(map, x, y) == Tile::SecretDoor
}

/// The scan of the box of radius `r` from cell number `k` on (column by
/// column), keeping the first wall at the least distance.
pub open spec fn box_scan(m: Monster, map: DungeonMap, r: int, k: int, best: Option<(usize, usize)>, best_d: int) -> Option<(usize, usize)>
    decreases (box_of(m, map, r).2 - box_of(m, map, r).0 + 1) * (box_of(m, map, r).3 - box_of(m, map, r).1 + 1) - k,
{
    let (sx, sy, ex, ey) = box_of(m, map, r);
    let rows = ey - sy + 1;
    let n = (ex - sx + 1) * rows;
    if k < 0 || k >= n || rows <= 0 {
        best
    } else {
        let tx = sx + k / rows;
        let ty = sy + k % rows;
        let d = manhattan(m.x as int, m.y as int, tx, ty);
        if blocks_wraith(map, tx, ty) && d < best_d {
            box_scan(m, map, r, k + 1, Some((tx as usize, ty as usize)), d)
        } else {
            box_scan(m, map, r, k + 1, best, best_d)
        }
    }
}

pub open spec fn wall_in_box(m: Monster, map: DungeonMap, r: int) -> Option<(usize, usize)> {
    box_scan(m, map, r, 0, None, i32::MAX as int)
}


/// The draws a turn starts from: searches that found nothing (or the start
/// itself) and zero dice.
pub open spec fn default_path(map: DungeonMap, start: (usize, usize), goal: (usize, usize)) -> Option<(usize, usize)> {
    if start == goal || (adjacent4((start.0 as int, start.1 as int), (goal.0 as int, goal.1 as int))
        && walkable(map, goal.0 as int, goal.1 as int)) { Some(goal) } else { None }
}

/// The search answer a turn starts from is one `astar_next_step` may give.
proof fn lemma_default_path(map: DungeonMap, start: (usize, usize), goal: (usize, usize), occ: Seq<(usize, usize)>)
    ensures
        path_ok(map, start, goal, occ, default_path(map, start, goal)),
{
    assert(route_in(map, occ, goal, 0, goal.0 as int, goal.1 as int));
}

/// The draws a turn starts from are ones the searches and dice can give.
proof fn lemma_default_draws(m: Monster, map: DungeonMap, player: (usize, usize), occ: Seq<(usize, usize)>, all: Seq<(usize, usize)>)
    ensures
        draws_base_ok(m, map, player, occ, default_draws(m, map, player, all)),
        match nearest_ally(m, all) { Some(t) => path_ok(map, pos_of(m), t, occ, default_draws(m, map, player, all).lure), None => true },
{
    lemma_default_path(map, pos_of(m), player, occ);
    if let Some(t) = nearest_ally(m, all) {
        lemma_default_path(map, pos_of(m), t, occ);
    }
    if let Some(lp) = m.last_known_player_pos {
        lemma_default_path(map, pos_of(m), lp, occ);
    }
}

pub open spec fn default_draws(m: Monster, map: DungeonMap, player: (usize, usize), all: Seq<(usize, usize)>) -> Draws {
    Draws {
        chase: default_path(map, pos_of(m), player),
        chase2: default_path(map, pos_of(m), player),
        lure: match nearest_ally(m, all) { Some(t) => default_path(map, pos_of(m), t), None => None },
        back: match m.last_known_player_pos { Some(lp) => default_path(map, pos_of(m), lp), None => None },
        dir: 0,
        coin: 0,
        pick: 0,
    }
}

/// The sign of `v`.
fn sign(v: i32) -> (s: i32)
    ensures
        s == sgn(v as int),
{
    if v > 0 { 1 } else if v < 0 { -1 } else { 0 }
}

/// `x - 1`, wrapping around to `usize::MAX` at 0.
fn step_back(x: usize) -> (r: usize)
    ensures
        r == (if x == 0 { usize::MAX } else { (x - 1) as usize }),
{
    if x == 0 { usize::MAX } else { x - 1 }
}

/// The side neighbour `k` of (x, y) (see `side_neighbour`).
fn neighbour(x: usize, y: usize, k: usize) -> (n: (usize, usize))
    requires
        x < usize::MAX,
        y < usize::MAX,
    ensures
        n == side_neighbour(x, y, k as int),
{
    if k == 0 {
        (step_back(x), y)
    } else if k == 1 {
        (x + 1, y)
    } else if k == 2 {
        (x, step_back(y))
    } else {
        (x, y + 1)
    }
}

/// Whether `p` is in the list.
fn holds_pos(v: &[(usize, usize)], p: (usize, usize)) -> (b: bool)
    ensures
        b == v@.contains(p),
{
    let mut i: usize = 0;
    while i < v.len()
        invariant
            i <= v@.len(),
            forall|j: int| 0 <= j < i ==> v@[j] != p,
        decreases v@.len() - i,
    {
        if v[i].0 == p.0 && v[i].1 == p.1 {
            return true;
        }
        i = i + 1;
    }
    false
}

impl Monster {
    /// Moves to the free neighbour farthest from `target` (see `flee_act`).
    fn flee_from(&self, target: (usize, usize), map: &DungeonMap, occupied: &[(usize, usize)]) -> (a: MonsterAction)
        requires
            map_wf(*map),
            monster_place_ok(*self, *map),
            target.0 <= 0x1fff_ffff && target.1 <= 0x1fff_ffff,
        ensures
            act_of(a) == flee_act(*self, target, *map, occupied@),
            named(a, self.name@),
    {
        let mut best: Option<(usize, usize)> = None;
        let mut best_dist = DungeonMap::distance(self.x, self.y, target.0, target.1);
        let mut k: usize = 0;
        while k < 4
            invariant
                map_wf(*map),
                monster_place_ok(*self, *map),
                target.0 <= 0x1fff_ffff && target.1 <= 0x1fff_ffff,
                k <= 4,
                flee_pick(pos_of(*self), target, *map, occupied@, 0, None, manhattan(self.x as int, self.y as int, target.0 as int, target.1 as int))
                    == flee_pick(pos_of(*self), target, *map, occupied@, k as int, best, best_dist as int),
            decreases 4 - k,
        {
            let n = neighbour(self.x, self.y, k);
            if n.0 < map.width && n.1 < map.height && map.is_walkable(n.0, n.1) && !holds_pos(occupied, n) {
                let d = DungeonMap::distance(n.0, n.1, target.0, target.1);
                if d > best_dist {
                    best_dist = d;
                    best = Some(n);
                }
            }
            k = k + 1;
        }
        match best {
            Some(n) => MonsterAction::MoveTo(n.0, n.1),
            None => MonsterAction::Nothing,
        }
    }

    /// Heads for where the player was last seen, else takes a random step
    /// (see `wander_spec`); also gives back the search result and direction
    /// it used.
    fn wander(&mut self, map: &DungeonMap, occupied: &[(usize, usize)]) -> (r: (MonsterAction, Ghost<Draws>))
        requires
            map_wf(*map),
            monster_place_ok(*old(self), *map),
            old(self).last_known_player_pos matches Some(lp) ==> lp.0 <= 0x1fff_ffff && lp.1 <= 0x1fff_ffff,
        ensures
            (*final(self), act_of(r.0)) == wander_spec(*old(self), *map, occupied@, r.1@),
            match old(self).last_known_player_pos {
                Some(lp) => path_ok(*map, pos_of(*old(self)), lp, occupied@, r.1@.back),
                None => true,
            },
            r.1@.dir < 4,
            named(r.0, old(self).name@),
    {
        let ghost m0 = *self;
        let ghost mut o = Draws { chase: None, chase2: None, lure: None, back: None, dir: 0, coin: 0, pick: 0 };
        match self.last_known_player_pos {
            Some(last_pos) => {
                let next = map.astar_next_step((self.x, self.y), last_pos, occupied);
                proof { o = Draws { back: next, ..o }; }
                match next {
                    Some(n) => {
                        if n.0 == last_pos.0 && n.1 == last_pos.1 {
                            self.last_known_player_pos = None;
                        }
                        return (MonsterAction::MoveTo(n.0, n.1), Ghost(o));
                    },
                    None => {},
                }
                self.last_known_player_pos = None;
            },
            None => {},
        }
        let dir = random_below(4);
        proof { o = Draws { dir, ..o }; }
        let (dx, dy): (i32, i32) = if dir == 0 { (-1, 0) } else if dir == 1 { (1, 0) } else if dir == 2 { (0, -1) } else { (0, 1) };
        let nx = self.x as i32 + dx;
        let ny = self.y as i32 + dy;
        if nx >= 0 && ny >= 0 {
            let ux = nx as usize;
            let uy = ny as usize;
            if map.is_walkable(ux, uy) && !holds_pos(occupied, (ux, uy)) {
                return (MonsterAction::MoveTo(ux, uy), Ghost(o));
            }
        }
        (MonsterAction::Nothing, Ghost(o))
    }

    /// The nearest other living monster (see `nearest_ally`).
    fn find_nearest_ally(&self, all_positions: &[(usize, usize)]) -> (r: Option<(usize, usize)>)
        requires
            self.x <= 0x1fff_ffff && self.y <= 0x1fff_ffff,
            forall|i: int| 0 <= i < all_positions@.len() ==> (#[trigger] all_positions@[i]).0 <= 0x1fff_ffff && all_positions@[i].1 <= 0x1fff_ffff,
        ensures
            r == nearest_ally(*self, all_positions@),
            r matches Some(t) ==> t.0 <= 0x1fff_ffff && t.1 <= 0x1fff_ffff,
    {
        let mut best: Option<(usize, usize)> = None;
        let mut best_dist: i32 = i32::MAX;
        let mut i: usize = 0;
        while i < all_positions.len()
            invariant
                self.x <= 0x1fff_ffff && self.y <= 0x1fff_ffff,
                forall|j: int| 0 <= j < all_positions@.len() ==> (#[trigger] all_positions@[j]).0 <= 0x1fff_ffff && all_positions@[j].1 <= 0x1fff_ffff,
                i <= all_positions@.len(),
                nearest_ally(*self, all_positions@) == nearest_from(pos_of(*self), all_positions@, i as int, best, best_dist as int),
                best matches Some(b) ==> b.0 <= 0x1fff_ffff && b.1 <= 0x1fff_ffff,
            decreases all_positions@.len() - i,
        {
            let p = all_positions[i];
            if !(p.0 == self.x && p.1 == self.y) {
                let d = DungeonMap::distance(self.x, self.y, p.0, p.1);
                if d < best_dist {
                    best_dist = d;
                    best = Some(p);
                }
            }
            i = i + 1;
        }
        best
    }

    /// The nearest wall or secret door within three cells (see
    /// `nearest_wall`).
    fn find_nearest_wall(&self, map: &DungeonMap) -> (r: Option<(usize, usize)>)
        requires
            map_wf(*map),
            monster_place_ok(*self, *map),
        ensures
            r == nearest_wall(*self, *map),
    {
        let mut radius: i32 = 1;
        while radius <= 3
            invariant
                map_wf(*map),
                monster_place_ok(*self, *map),
                1 <= radius <= 4,
                nearest_wall(*self, *map) == (if radius == 1 { nearest_wall(*self, *map) }
                    else if radius == 2 { match wall_in_box(*self, *map, 2) { Some(w) => Some(w), None => wall_in_box(*self, *map, 3) } }
                    else if radius == 3 { wall_in_box(*self, *map, 3) } else { None }),
            decreases 4 - radius,
        {
            let best = self.wall_in_radius(map, radius);
            if best.is_some() {
                return best;
            }
            radius = radius + 1;
        }
        None
    }

    /// The first wall at the least distance in the square of radius `radius`.
    fn wall_in_radius(&self, map: &DungeonMap, radius: i32) -> (r: Option<(usize, usize)>)
        requires
            map_wf(*map),
            monster_place_ok(*self, *map),
            1 <= radius <= 3,
        ensures
            r == wall_in_box(*self, *map, radius as int),
    {
        let xi = self.x as i32;
        let yi = self.y as i32;
        let sx: usize = if xi - radius > 0 { (xi - radius) as usize } else { 0 };
        let sy: usize = if yi - radius > 0 { (yi - radius) as usize } else { 0 };
        let ex: usize = if ((xi + radius) as usize) < map.width - 1 { (xi + radius) as usize } else { map.width - 1 };
        let ey: usize = if ((yi + radius) as usize) < map.height - 1 { (yi + radius) as usize } else { map.height - 1 };
        let ghost rows = ey - sy + 1;
        assert(box_of(*self, *map, radius as int) == (sx as int, sy as int, ex as int, ey as int));
        let mut best: Option<(usize, usize)> = None;
        let mut best_dist: i32 = i32::MAX;
        let mut tx = sx;
        while tx <= ex
            invariant
                map_wf(*map),
                monster_place_ok(*self, *map),
                box_of(*self, *map, radius as int) == (sx as int, sy as int, ex as int, ey as int),
                sx <= ex < map.width && sy <= ey < map.height,
                rows == ey - sy + 1,
                sx <= tx <= ex + 1,
                wall_in_box(*self, *map, radius as int) == box_scan(*self, *map, radius as int, (tx - sx) * rows, best, best_dist as int),
            decreases ex + 1 - tx,
        {
            let mut ty = sy;
            while ty <= ey
                invariant
                    map_wf(*map),
                    monster_place_ok(*self, *map),
                    box_of(*self, *map, radius as int) == (sx as int, sy as int, ex as int, ey as int),
                    sx <= ex < map.width && sy <= ey < map.height,
                    rows == ey - sy + 1,
                    sx <= tx <= ex,
                    sy <= ty <= ey + 1,
                    wall_in_box(*self, *map, radius as int) == box_scan(*self, *map, radius as int, (tx - sx) * rows + (ty - sy), best, best_dist as int),
                decreases ey + 1 - ty,
            {
                proof {
                    let k = (tx - sx) * rows + (ty - sy);
                    crate::map::lemma_cell_index((tx - sx) as int, (ty - sy) as int, rows);
                    assert(k < (ex - sx + 1) * rows) by (nonlinear_arith)
                        requires k == (tx - sx) * rows + (ty - sy), sx <= tx <= ex, 0 <= ty - sy < rows, rows >= 1;
                }
                if map.tiles[tx][ty] == Tile::Wall || map.tiles[tx][ty] == Tile::SecretDoor {
                    let d = DungeonMap::distance(self.x, self.y, tx, ty);
                    if d < best_dist {
                        best_dist = d;
                        best = Some((tx, ty));
                    }
                }
                ty = ty + 1;
            }
            proof {
                assert((tx - sx) * rows + rows == (tx + 1 - sx) * rows) by (nonlinear_arith);
            }
            tx = tx + 1;
        }
        proof {
            assert((ex + 1 - sx) * rows >= (ex - sx + 1) * rows);
        }
        best
    }
}

impl Monster {
    /// The plain brute (see `basic_spec`): `attack` when adjacent.
    fn basic_ai(&mut self, player_pos: (usize, usize), map: &DungeonMap, occupied: &[(usize, usize)], adjacent: bool, dist: i32,
        range: i32, attack: MonsterAction) -> (r: (MonsterAction, Ghost<Draws>))
        requires
            map_wf(*map),
            monster_place_ok(*old(self), *map),
            player_pos.0 < map.width && player_pos.1 < map.height,
            dist == manhattan(old(self).x as int, old(self).y as int, player_pos.0 as int, player_pos.1 as int),
            adjacent == (dist <= 1 && pos_of(*old(self)) != player_pos),
            named(attack, old(self).name@),
        ensures
            (*final(self), act_of(r.0)) == basic_spec(*old(self), *map, occupied@, adjacent, dist as int, range as int, act_of(attack), r.1@),
            draws_base_ok(*old(self), *map, player_pos, occupied@, r.1@),
            named(r.0, old(self).name@),
    {
        let ghost mut o = default_draws(*self, *map, player_pos, Seq::empty());
        proof { lemma_default_draws(*self, *map, player_pos, occupied@, Seq::empty()); }
        if adjacent {
            return (attack, Ghost(o));
        }
        if self.can_see_player && dist <= range {
            let next = map.astar_next_step((self.x, self.y), player_pos, occupied);
            proof { o = Draws { chase: next, ..o }; }
            match next {
                Some(n) => { return (MonsterAction::MoveTo(n.0, n.1), Ghost(o)); },
                None => {},
            }
        }
        self.behavior = BehaviorState::Idle;
        let (a, w) = self.wander(map, occupied);
        proof { o = Draws { back: w@.back, dir: w@.dir, ..o }; }
        (a, Ghost(o))
    }

    /// One A* step toward the player, else idle wandering (see
    /// `chase_or_idle`); `o` is the draws so far.
    fn chase_or_idle(&mut self, player_pos: (usize, usize), map: &DungeonMap, occupied: &[(usize, usize)], Ghost(o): Ghost<Draws>, second: bool)
        -> (r: (MonsterAction, Ghost<Draws>))
        requires
            map_wf(*map),
            monster_place_ok(*old(self), *map),
            player_pos.0 < map.width && player_pos.1 < map.height,
            draws_base_ok(*old(self), *map, player_pos, occupied@, o),
        ensures
            (*final(self), act_of(r.0)) == chase_or_idle(*old(self), *map, occupied@, if second { r.1@.chase2 } else { r.1@.chase }, r.1@),
            draws_base_ok(*old(self), *map, player_pos, occupied@, r.1@),
            r.1@.coin == o.coin,
            !second ==> r.1@.chase2 == o.chase2,
            second ==> r.1@.chase == o.chase,
            r.1@.lure == o.lure && r.1@.pick == o.pick,
            named(r.0, old(self).name@),
    {
        let ghost mut o = o;
        let next = map.astar_next_step((self.x, self.y), player_pos, occupied);
        proof { if second { o = Draws { chase2: next, ..o }; } else { o = Draws { chase: next, ..o }; } }
        match next {
            Some(n) => (MonsterAction::MoveTo(n.0, n.1), Ghost(o)),
            None => {
                self.behavior = BehaviorState::Idle;
                let (a, w) = self.wander(map, occupied);
                proof { o = Draws { back: w@.back, dir: w@.dir, ..o }; }
                (a, Ghost(o))
            },
        }
    }

    fn melee(&self) -> (a: MonsterAction)
        ensures
            act_of(a) == Act::Melee(self.attack),
            named(a, self.name@),
    {
        MonsterAction::MeleeAttack { damage: self.attack, name: self.name.clone() }
    }

    /// An arrow or bolt toward the player (see `shot`).
    fn shoot(&self, player_pos: (usize, usize), damage: i32) -> (a: MonsterAction)
        requires
            self.x <= 10_000 && self.y <= 10_000,
            player_pos.0 <= 10_000 && player_pos.1 <= 10_000,
        ensures
            act_of(a) == shot(*self, player_pos, damage as int),
            named(a, self.name@),
    {
        let dx = sign(player_pos.0 as i32 - self.x as i32);
        let dy = sign(player_pos.1 as i32 - self.y as i32);
        let symbol = Projectile::symbol_for_direction(dx, dy);
        MonsterAction::FireProjectile(Projectile {
            x: (self.x as i32 + dx) as usize,
            y: (self.y as i32 + dy) as usize,
            dx,
            dy,
            damage,
            symbol,
            source_name: self.name.clone(),
        })
    }

    fn goblin_ai(&mut self, player_pos: (usize, usize), map: &DungeonMap, occupied: &[(usize, usize)], all_monster_positions: &[(usize, usize)],
        adjacent: bool, low_hp: bool, dist: i32) -> (r: (MonsterAction, Ghost<Draws>))
        requires
            map_wf(*map),
            monster_ok(*old(self), *map),
            player_pos.0 < map.width && player_pos.1 < map.height,
            dist == manhattan(old(self).x as int, old(self).y as int, player_pos.0 as int, player_pos.1 as int),
            adjacent == (dist <= 1 && pos_of(*old(self)) != player_pos),
            forall|i: int| 0 <= i < all_monster_positions@.len() ==>
                (#[trigger] all_monster_positions@[i]).0 <= 0x1fff_ffff && all_monster_positions@[i].1 <= 0x1fff_ffff,
        ensures
            (*final(self), act_of(r.0)) == goblin_spec(*old(self), player_pos, *map, occupied@, all_monster_positions@, adjacent, low_hp, r.1@),
            draws_base_ok(*old(self), *map, player_pos, occupied@, r.1@),
            match nearest_ally(*old(self), all_monster_positions@) {
                Some(t) => path_ok(*map, pos_of(*old(self)), t, occupied@, r.1@.lure),
                None => true,
            },
            named(r.0, old(self).name@),
    {
        let ghost m0 = *self;
        let ghost mut o = default_draws(*self, *map, player_pos, all_monster_positions@);
        proof { lemma_default_draws(*self, *map, player_pos, occupied@, all_monster_positions@); }
        if adjacent {
            self.behavior = BehaviorState::Attack;
            return (self.melee(), Ghost(o));
        }
        if low_hp && self.floor_tier >= 2 && self.can_see_player {
            self.behavior = BehaviorState::Retreat;
            let lure_target = self.find_nearest_ally(all_monster_positions);
            match lure_target {
                Some(target) => {
                    let next = map.astar_next_step((self.x, self.y), target, occupied);
                    proof { o = Draws { lure: next, ..o }; }
                    match next {
                        Some(n) => { return (MonsterAction::MoveTo(n.0, n.1), Ghost(o)); },
                        None => {},
                    }
                },
                None => {},
            }
            return (self.flee_from(player_pos, map, occupied), Ghost(o));
        }
        if self.can_see_player {
            self.behavior = BehaviorState::Chase;
            if self.floor_tier >= 3 {
                let first = map.astar_next_step((self.x, self.y), player_pos, occupied);
                proof { o = Draws { chase: first, ..o }; }
                match first {
                    Some(n) => { return (MonsterAction::MoveTo(n.0, n.1), Ghost(o)); },
                    None => {},
                }
                return self.chase_or_idle(player_pos, map, occupied, Ghost(o), true);
            }
            return self.chase_or_idle(player_pos, map, occupied, Ghost(o), false);
        }
        self.behavior = BehaviorState::Idle;
        let (a, w) = self.wander(map, occupied);
        proof { o = Draws { back: w@.back, dir: w@.dir, ..o }; }
        (a, Ghost(o))
    }

    fn skeleton_ai(&mut self, player_pos: (usize, usize), map: &DungeonMap, occupied: &[(usize, usize)], adjacent: bool, dist: i32)
        -> (r: (MonsterAction, Ghost<Draws>))
        requires
            map_wf(*map),
            monster_ok(*old(self), *map),
            player_pos.0 < map.width && player_pos.1 < map.height,
            dist == manhattan(old(self).x as int, old(self).y as int, player_pos.0 as int, player_pos.1 as int),
            adjacent == (dist <= 1 && pos_of(*old(self)) != player_pos),
        ensures
            (*final(self), act_of(r.0)) == skeleton_spec(*old(self), player_pos, *map, occupied@, adjacent, dist as int, r.1@),
            draws_base_ok(*old(self), *map, player_pos, occupied@, r.1@),
            named(r.0, old(self).name@),
    {
        let ghost o = default_draws(*self, *map, player_pos, Seq::empty());
        proof { lemma_default_draws(*self, *map, player_pos, occupied@, Seq::empty()); }
        if adjacent {
            self.behavior = BehaviorState::Attack;
            return (self.melee(), Ghost(o));
        }
        if self.floor_tier >= 3 && self.can_see_player && dist < 4 {
            self.behavior = BehaviorState::Reposition;
            return (self.flee_from(player_pos, map, occupied), Ghost(o));
        }
        if self.floor_tier >= 2 && self.can_see_player && dist >= 3 && dist <= 8 && self.ranged_cooldown <= 0 {
            self.behavior = BehaviorState::Ranged;
            self.ranged_cooldown = 2;
            return (self.shoot(player_pos, 3), Ghost(o));
        }
        if self.can_see_player {
            self.behavior = BehaviorState::Chase;
            return self.chase_or_idle(player_pos, map, occupied, Ghost(o), false);
        }
        self.behavior = BehaviorState::Idle;
        let (a, w) = self.wander(map, occupied);
        (a, Ghost(Draws { back: w@.back, dir: w@.dir, ..o }))
    }

    fn troll_ai(&mut self, player_pos: (usize, usize), map: &DungeonMap, occupied: &[(usize, usize)], adjacent: bool, low_hp: bool, dist: i32)
        -> (r: (MonsterAction, Ghost<Draws>))
        requires
            map_wf(*map),
            monster_ok(*old(self), *map),
            player_pos.0 < map.width && player_pos.1 < map.height,
            dist == manhattan(old(self).x as int, old(self).y as int, player_pos.0 as int, player_pos.1 as int),
            adjacent == (dist <= 1 && pos_of(*old(self)) != player_pos),
        ensures
            (*final(self), act_of(r.0)) == troll_spec(*old(self), *map, occupied@, adjacent, low_hp, r.1@),
            draws_base_ok(*old(self), *map, player_pos, occupied@, r.1@),
            named(r.0, old(self).name@),
    {
        let ghost o = default_draws(*self, *map, player_pos, Seq::empty());
        proof { lemma_default_draws(*self, *map, player_pos, occupied@, Seq::empty()); }
        if low_hp && self.floor_tier >= 3 && !self.is_berserk {
            self.is_berserk = true;
            self.attack = 12;
        }
        self.turn_parity = self.turn_parity + 1;
        if !self.is_berserk && self.turn_parity % 2 != 0 {
            return (MonsterAction::Nothing, Ghost(o));
        }
        if adjacent {
            self.behavior = BehaviorState::Attack;
            return (self.melee(), Ghost(o));
        }
        if self.floor_tier >= 2 && map.is_corridor(self.x, self.y) && self.can_see_player {
            self.behavior = BehaviorState::Idle;
            return (MonsterAction::Nothing, Ghost(o));
        }
        if self.can_see_player {
            self.behavior = BehaviorState::Chase;
            return self.chase_or_idle(player_pos, map, occupied, Ghost(o), false);
        }
        self.behavior = BehaviorState::Idle;
        let (a, w) = self.wander(map, occupied);
        (a, Ghost(Draws { back: w@.back, dir: w@.dir, ..o }))
    }

    fn bat_swarm_ai(&mut self, player_pos: (usize, usize), map: &DungeonMap, occupied: &[(usize, usize)], adjacent: bool, dist: i32)
        -> (r: (MonsterAction, Ghost<Draws>))
        requires
            map_wf(*map),
            monster_ok(*old(self), *map),
            player_pos.0 < map.width && player_pos.1 < map.height,
            dist == manhattan(old(self).x as int, old(self).y as int, player_pos.0 as int, player_pos.1 as int),
            adjacent == (dist <= 1 && pos_of(*old(self)) != player_pos),
        ensures
            (*final(self), act_of(r.0)) == bat_spec(*old(self), *map, occupied@, adjacent, r.1@),
            draws_base_ok(*old(self), *map, player_pos, occupied@, r.1@),
            named(r.0, old(self).name@),
    {
        let ghost o = default_draws(*self, *map, player_pos, Seq::empty());
        proof { lemma_default_draws(*self, *map, player_pos, occupied@, Seq::empty()); }
        if adjacent {
            self.behavior = BehaviorState::Attack;
            return (self.melee(), Ghost(o));
        }
        if self.can_see_player {
            self.behavior = BehaviorState::Chase;
            let coin = random_below(100);
            let ghost o1 = Draws { coin, ..o };
            if coin < 30 {
                let (a, w) = self.wander(map, occupied);
                return (a, Ghost(Draws { back: w@.back, dir: w@.dir, ..o1 }));
            }
            return self.chase_or_idle(player_pos, map, occupied, Ghost(o1), false);
        }
        self.behavior = BehaviorState::Idle;
        let (a, w) = self.wander(map, occupied);
        (a, Ghost(Draws { back: w@.back, dir: w@.dir, ..o }))
    }

    fn spider_ai(&mut self, player_pos: (usize, usize), map: &DungeonMap, occupied: &[(usize, usize)], adjacent: bool, dist: i32)
        -> (r: (MonsterAction, Ghost<Draws>))
        requires
            map_wf(*map),
            monster_ok(*old(self), *map),
            player_pos.0 < map.width && player_pos.1 < map.height,
            dist == manhattan(old(self).x as int, old(self).y as int, player_pos.0 as int, player_pos.1 as int),
            adjacent == (dist <= 1 && pos_of(*old(self)) != player_pos),
        ensures
            (*final(self), act_of(r.0)) == spider_spec(*old(self), player_pos, adjacent, dist as int, r.1@),
            draws_base_ok(*old(self), *map, player_pos, occupied@, r.1@),
            named(r.0, old(self).name@),
    {
        let ghost mut o = default_draws(*self, *map, player_pos, Seq::empty());
        proof { lemma_default_draws(*self, *map, player_pos, occupied@, Seq::empty()); }
        if adjacent {
            self.behavior = BehaviorState::Attack;
            if self.floor_tier >= 2 {
                return (MonsterAction::PoisonAttack { damage: self.attack, name: self.name.clone(), poison_ticks: 2 }, Ghost(o));
            }
            return (self.melee(), Ghost(o));
        }
        if self.can_see_player && dist >= 3 && dist <= 5 && self.web_cooldown <= 0 {
            self.web_cooldown = if self.floor_tier >= 2 { 2 } else { 4 };
            self.behavior = BehaviorState::Ranged;
            return (MonsterAction::PlaceWeb(player_pos.0, player_pos.1), Ghost(o));
        }
        if !self.can_see_player || dist > 4 {
            self.behavior = BehaviorState::Idle;
            return (MonsterAction::Nothing, Ghost(o));
        }
        self.behavior = BehaviorState::Chase;
        let next = map.astar_next_step((self.x, self.y), player_pos, occupied);
        proof { o = Draws { chase: next, ..o }; }
        match next {
            Some(n) => (MonsterAction::MoveTo(n.0, n.1), Ghost(o)),
            None => (MonsterAction::Nothing, Ghost(o)),
        }
    }
}

impl Monster {
    fn wraith_ai(&mut self, player_pos: (usize, usize), map: &DungeonMap, occupied: &[(usize, usize)], adjacent: bool, dist: i32)
        -> (r: (MonsterAction, Ghost<Draws>))
        requires
            map_wf(*map),
            monster_ok(*old(self), *map),
            player_pos.0 < map.width && player_pos.1 < map.height,
            dist == manhattan(old(self).x as int, old(self).y as int, player_pos.0 as int, player_pos.1 as int),
            adjacent == (dist <= 1 && pos_of(*old(self)) != player_pos),
        ensures
            (*final(self), act_of(r.0)) == wraith_spec(*old(self), player_pos, *map, occupied@, adjacent, dist as int, r.1@),
            draws_base_ok(*old(self), *map, player_pos, occupied@, r.1@),
            named(r.0, old(self).name@),
    {
        let ghost o = default_draws(*self, *map, player_pos, Seq::empty());
        proof { lemma_default_draws(*self, *map, player_pos, occupied@, Seq::empty()); }
        if self.floor_tier <= 1 {
            self.turn_parity = self.turn_parity + 1;
            if self.turn_parity % 2 != 0 {
                return (MonsterAction::Nothing, Ghost(o));
            }
        }
        if adjacent && !self.is_phasing {
            self.behavior = BehaviorState::Attack;
            return (MonsterAction::DrainAttack { damage: self.attack, name: self.name.clone() }, Ghost(o));
        }
        if self.behavior == BehaviorState::Attack && !self.is_phasing {
            self.behavior = BehaviorState::Retreat;
            match self.find_nearest_wall(map) {
                Some(w) => { return (MonsterAction::MoveToPhase(w.0, w.1), Ghost(o)); },
                None => {},
            }
        }
        self.wraith_rest(player_pos, map, occupied, dist, Ghost(o))
    }

    /// The wraith's moves once it neither drained nor retreated (see
    /// `wraith_rest`).
    fn wraith_rest(&mut self, player_pos: (usize, usize), map: &DungeonMap, occupied: &[(usize, usize)], dist: i32, Ghost(o): Ghost<Draws>)
        -> (r: (MonsterAction, Ghost<Draws>))
        requires
            map_wf(*map),
            monster_place_ok(*old(self), *map),
            player_pos.0 < map.width && player_pos.1 < map.height,
            draws_base_ok(*old(self), *map, player_pos, occupied@, o),
        ensures
            (*final(self), act_of(r.0)) == wraith_rest(*old(self), player_pos, *map, occupied@, dist as int, r.1@),
            draws_base_ok(*old(self), *map, player_pos, occupied@, r.1@),
            named(r.0, old(self).name@),
    {
        let ghost m0 = *self;
        let ghost mut o = o;
        if self.is_phasing && self.can_see_player {
            self.behavior = BehaviorState::Chase;
            let mut k: usize = 0;
            while k < 4
                invariant
                    map_wf(*map),
                    player_pos.0 < map.width && player_pos.1 < map.height,
                    k <= 4,
                    emerge_from(player_pos, *map, occupied@, 0) == emerge_from(player_pos, *map, occupied@, k as int),
                    *self == with_behavior(*old(self), BehaviorState::Chase),
                    old(self).is_phasing && old(self).can_see_player,
                    draws_base_ok(*old(self), *map, player_pos, occupied@, o),
                decreases 4 - k,
            {
                let n = neighbour(player_pos.0, player_pos.1, k);
                if n.0 < map.width && n.1 < map.height && map.is_walkable(n.0, n.1) && !holds_pos(occupied, n)
                    && !(n.0 == player_pos.0 && n.1 == player_pos.1) {
                    return (MonsterAction::MoveToPhase(n.0, n.1), Ghost(o));
                }
                k = k + 1;
            }
            let dx = sign(player_pos.0 as i32 - self.x as i32);
            let dy = sign(player_pos.1 as i32 - self.y as i32);
            let nx = (self.x as i32 + dx) as usize;
            let ny = (self.y as i32 + dy) as usize;
            if nx < map.width && ny < map.height {
                return (MonsterAction::MoveToPhase(nx, ny), Ghost(o));
            }
        }
        if self.can_see_player && dist > 1 {
            self.behavior = BehaviorState::Chase;
            let next = map.astar_next_step((self.x, self.y), player_pos, occupied);
            proof { o = Draws { chase: next, ..o }; }
            match next {
                Some(n) => { return (MonsterAction::MoveTo(n.0, n.1), Ghost(o)); },
                None => {},
            }
            let dx = sign(player_pos.0 as i32 - self.x as i32);
            let dy = sign(player_pos.1 as i32 - self.y as i32);
            let nx = (self.x as i32 + dx) as usize;
            let ny = (self.y as i32 + dy) as usize;
            if nx < map.width && ny < map.height {
                return (MonsterAction::MoveToPhase(nx, ny), Ghost(o));
            }
        }
        self.behavior = BehaviorState::Idle;
        let (a, w) = self.wander(map, occupied);
        proof { o = Draws { back: w@.back, dir: w@.dir, ..o }; }
        (a, Ghost(o))
    }

    fn necromancer_ai(&mut self, player_pos: (usize, usize), map: &DungeonMap, occupied: &[(usize, usize)], adjacent: bool, dist: i32,
        dead_indices: &[usize]) -> (r: (MonsterAction, Ghost<Draws>))
        requires
            map_wf(*map),
            monster_ok(*old(self), *map),
            player_pos.0 < map.width && player_pos.1 < map.height,
            dist == manhattan(old(self).x as int, old(self).y as int, player_pos.0 as int, player_pos.1 as int),
            adjacent == (dist <= 1 && pos_of(*old(self)) != player_pos),
        ensures
            (*final(self), act_of(r.0)) == necromancer_spec(*old(self), player_pos, *map, occupied@, dead_indices@, adjacent, dist as int, r.1@),
            draws_base_ok(*old(self), *map, player_pos, occupied@, r.1@),
            dead_indices@.len() > 0 ==> r.1@.pick < dead_indices@.len(),
            named(r.0, old(self).name@),
    {
        let ghost mut o = default_draws(*self, *map, player_pos, Seq::empty());
        proof { lemma_default_draws(*self, *map, player_pos, occupied@, Seq::empty()); }
        if adjacent {
            self.behavior = BehaviorState::Attack;
            return (self.melee(), Ghost(o));
        }
        if self.can_see_player && dist < 6 {
            self.behavior = BehaviorState::Retreat;
            return (self.flee_from(player_pos, map, occupied), Ghost(o));
        }
        self.turn_parity = self.turn_parity + 1;
        let resurrect_interval: i32 = if self.floor_tier >= 3 { 4 } else { 6 };
        if self.turn_parity % resurrect_interval == 0 && self.summon_count < self.summon_max && dead_indices.len() > 0 {
            let pick = random_below(dead_indices.len());
            proof { o = Draws { pick, ..o }; }
            self.summon_count = self.summon_count + 1;
            return (MonsterAction::Resurrect(dead_indices[pick]), Ghost(o));
        }
        if self.can_see_player {
            if dist > 8 {
                self.behavior = BehaviorState::Chase;
                return self.chase_or_idle(player_pos, map, occupied, Ghost(o), false);
            } else {
                self.behavior = BehaviorState::Reposition;
                return (MonsterAction::Nothing, Ghost(o));
            }
        }
        self.behavior = BehaviorState::Idle;
        let (a, w) = self.wander(map, occupied);
        proof { o = Draws { back: w@.back, dir: w@.dir, ..o }; }
        (a, Ghost(o))
    }

    fn goblin_king_ai(&mut self, player_pos: (usize, usize), map: &DungeonMap, occupied: &[(usize, usize)], adjacent: bool, dist: i32)
        -> (r: (MonsterAction, Ghost<Draws>))
        requires
            map_wf(*map),
            monster_ok(*old(self), *map),
            player_pos.0 < map.width && player_pos.1 < map.height,
            dist == manhattan(old(self).x as int, old(self).y as int, player_pos.0 as int, player_pos.1 as int),
            adjacent == (dist <= 1 && pos_of(*old(self)) != player_pos),
        ensures
            (*final(self), act_of(r.0)) == goblin_king_spec(*old(self), *map, occupied@, adjacent, dist as int, r.1@),
            draws_base_ok(*old(self), *map, player_pos, occupied@, r.1@),
            named(r.0, old(self).name@),
    {
        let ghost mut o = default_draws(*self, *map, player_pos, Seq::empty());
        proof { lemma_default_draws(*self, *map, player_pos, occupied@, Seq::empty()); }
        self.boss_tick = self.boss_tick + 1;
        let enraged = self.hp * 100 / self.max_hp < 50;
        let summon_interval: i32 = if enraged { 3 } else { 4 };
        if self.boss_tick % summon_interval == 0 && self.summon_count < self.summon_max {
            self.summon_count = self.summon_count + 1;
            return (MonsterAction::BossSummon, Ghost(o));
        }
        if adjacent {
            let damage = if enraged { self.attack + 2 } else { self.attack };
            self.behavior = BehaviorState::Attack;
            return (MonsterAction::MeleeAttack { damage, name: self.name.clone() }, Ghost(o));
        }
        if self.can_see_player && dist <= 12 {
            self.behavior = BehaviorState::Chase;
            let next = map.astar_next_step((self.x, self.y), player_pos, occupied);
            proof { o = Draws { chase: next, ..o }; }
            match next {
                Some(n) => { return (MonsterAction::MoveTo(n.0, n.1), Ghost(o)); },
                None => {},
            }
        }
        let (a, w) = self.wander(map, occupied);
        proof { o = Draws { back: w@.back, dir: w@.dir, ..o }; }
        (a, Ghost(o))
    }

    fn bone_dragon_ai(&mut self, player_pos: (usize, usize), map: &DungeonMap, occupied: &[(usize, usize)], adjacent: bool, dist: i32)
        -> (r: (MonsterAction, Ghost<Draws>))
        requires
            map_wf(*map),
            monster_ok(*old(self), *map),
            player_pos.0 < map.width && player_pos.1 < map.height,
            dist == manhattan(old(self).x as int, old(self).y as int, player_pos.0 as int, player_pos.1 as int),
            adjacent == (dist <= 1 && pos_of(*old(self)) != player_pos),
        ensures
            (*final(self), act_of(r.0)) == bone_dragon_spec(*old(self), player_pos, *map, occupied@, adjacent, dist as int, r.1@),
            draws_base_ok(*old(self), *map, player_pos, occupied@, r.1@),
            named(r.0, old(self).name@),
    {
        let ghost mut o = default_draws(*self, *map, player_pos, Seq::empty());
        proof { lemma_default_draws(*self, *map, player_pos, occupied@, Seq::empty()); }
        self.boss_tick = self.boss_tick + 1;
        let enraged = self.hp * 100 / self.max_hp < 50;
        let breath_interval: i32 = if enraged { 2 } else { 3 };
        let breath_range: i32 = if enraged { 5 } else { 3 };
        if self.boss_tick % breath_interval == 0 && dist <= breath_range && dist > 1
            && map.has_line_of_sight(self.x, self.y, player_pos.0, player_pos.1) {
            let dx = sign(player_pos.0 as i32 - self.x as i32);
            let dy = sign(player_pos.1 as i32 - self.y as i32);
            return (MonsterAction::BreathAttack { dx, dy, damage: 8, range: breath_range }, Ghost(o));
        }
        if adjacent {
            self.behavior = BehaviorState::Attack;
            return (self.melee(), Ghost(o));
        }
        if self.boss_tick % 2 != 0 {
            return (MonsterAction::Nothing, Ghost(o));
        }
        if self.can_see_player && dist <= 12 {
            self.behavior = BehaviorState::Chase;
            let next = map.astar_next_step((self.x, self.y), player_pos, occupied);
            proof { o = Draws { chase: next, ..o }; }
            match next {
                Some(n) => { return (MonsterAction::MoveTo(n.0, n.1), Ghost(o)); },
                None => {},
            }
        }
        let (a, w) = self.wander(map, occupied);
        proof { o = Draws { back: w@.back, dir: w@.dir, ..o }; }
        (a, Ghost(o))
    }

    fn shadow_lord_ai(&mut self, player_pos: (usize, usize), map: &DungeonMap, adjacent: bool, dist: i32) -> (a: MonsterAction)
        requires
            map_wf(*map),
            monster_ok(*old(self), *map),
            player_pos.0 < map.width && player_pos.1 < map.height,
            dist == manhattan(old(self).x as int, old(self).y as int, player_pos.0 as int, player_pos.1 as int),
            adjacent == (dist <= 1 && pos_of(*old(self)) != player_pos),
        ensures
            (*final(self), act_of(a)) == shadow_lord_spec(*old(self), player_pos, *map, adjacent, dist as int),
            named(a, old(self).name@),
    {
        self.boss_tick = self.boss_tick + 1;
        let enraged = self.hp * 100 / self.max_hp < 50;
        let pulse_interval: i32 = if enraged { 4 } else { 5 };
        let pulse_radius: i32 = if enraged { 3 } else { 2 };
        if self.boss_tick % pulse_interval == 0 && dist <= pulse_radius + 1 {
            return MonsterAction::ShadowPulse { damage: 3, radius: pulse_radius };
        }
        let tp_interval: i32 = if enraged { 2 } else { 3 };
        if self.boss_tick % tp_interval == 0 && dist > 2 {
            return MonsterAction::BossTeleport;
        }
        if adjacent {
            self.behavior = BehaviorState::Attack;
            return MonsterAction::DrainAttack { damage: self.attack, name: self.name.clone() };
        }
        if self.can_see_player && dist <= 12 {
            self.behavior = BehaviorState::Chase;
            let mut best: Option<(usize, usize)> = None;
            let mut best_dist = dist;
            let mut k: usize = 0;
            while k < 4
                invariant
                    map_wf(*map),
                    monster_place_ok(*self, *map),
                    player_pos.0 < map.width && player_pos.1 < map.height,
                    k <= 4,
                    approach_pick(*self, player_pos, *map, 0, None, dist as int)
                        == approach_pick(*self, player_pos, *map, k as int, best, best_dist as int),
                decreases 4 - k,
            {
                let n = neighbour(self.x, self.y, k);
                if n.0 < map.width && n.1 < map.height && map.is_walkable(n.0, n.1) {
                    let d = DungeonMap::distance(n.0, n.1, player_pos.0, player_pos.1);
                    if d < best_dist {
                        best_dist = d;
                        best = Some(n);
                    }
                }
                k = k + 1;
            }
            match best {
                Some(n) => { return MonsterAction::MoveTo(n.0, n.1); },
                None => {},
            }
        }
        MonsterAction::Nothing
    }

    fn specter_ai(&mut self, player_pos: (usize, usize), map: &DungeonMap, adjacent: bool, dist: i32) -> (a: MonsterAction)
        requires
            map_wf(*map),
            monster_ok(*old(self), *map),
            player_pos.0 < map.width && player_pos.1 < map.height,
            dist == manhattan(old(self).x as int, old(self).y as int, player_pos.0 as int, player_pos.1 as int),
            adjacent == (dist <= 1 && pos_of(*old(self)) != player_pos),
        ensures
            (*final(self), act_of(a)) == specter_spec(*old(self), player_pos, *map, adjacent, dist as int),
            named(a, old(self).name@),
    {
        if adjacent {
            return self.melee();
        }
        if self.can_see_player && dist <= 6 {
            let step_x = sign(player_pos.0 as i32 - self.x as i32);
            let step_y = sign(player_pos.1 as i32 - self.y as i32);
            let nx = (self.x as i32 + step_x) as usize;
            let ny = (self.y as i32 + step_y) as usize;
            if nx < map.width && ny < map.height {
                return MonsterAction::MoveToPhase(nx, ny);
            }
        }
        MonsterAction::Nothing
    }

    /// A ranged attacker (see `shooter_spec`).
    fn shooter_ai(&mut self, player_pos: (usize, usize), map: &DungeonMap, occupied: &[(usize, usize)], adjacent: bool, dist: i32,
        range: i32, cooldown: i32, chase_range: i32) -> (r: (MonsterAction, Ghost<Draws>))
        requires
            map_wf(*map),
            monster_ok(*old(self), *map),
            player_pos.0 < map.width && player_pos.1 < map.height,
            dist == manhattan(old(self).x as int, old(self).y as int, player_pos.0 as int, player_pos.1 as int),
            adjacent == (dist <= 1 && pos_of(*old(self)) != player_pos),
        ensures
            (*final(self), act_of(r.0)) == shooter_spec(*old(self), player_pos, *map, occupied@, adjacent, dist as int, range as int, cooldown as int, chase_range as int, r.1@),
            draws_base_ok(*old(self), *map, player_pos, occupied@, r.1@),
            named(r.0, old(self).name@),
    {
        let ghost mut o = default_draws(*self, *map, player_pos, Seq::empty());
        proof { lemma_default_draws(*self, *map, player_pos, occupied@, Seq::empty()); }
        if adjacent {
            return (self.melee(), Ghost(o));
        }
        if self.can_see_player && dist <= range && self.ranged_cooldown <= 0 {
            self.ranged_cooldown = cooldown;
            return (self.shoot(player_pos, self.attack), Ghost(o));
        }
        if self.can_see_player && dist <= chase_range {
            let next = map.astar_next_step((self.x, self.y), player_pos, occupied);
            proof { o = Draws { chase: next, ..o }; }
            match next {
                Some(n) => { return (MonsterAction::MoveTo(n.0, n.1), Ghost(o)); },
                None => {},
            }
        }
        self.behavior = BehaviorState::Idle;
        let (a, w) = self.wander(map, occupied);
        proof { o = Draws { back: w@.back, dir: w@.dir, ..o }; }
        (a, Ghost(o))
    }

    fn imp_ai(&mut self, player_pos: (usize, usize), map: &DungeonMap, occupied: &[(usize, usize)], adjacent: bool, dist: i32)
        -> (r: (MonsterAction, Ghost<Draws>))
        requires
            map_wf(*map),
            monster_ok(*old(self), *map),
            player_pos.0 < map.width && player_pos.1 < map.height,
            dist == manhattan(old(self).x as int, old(self).y as int, player_pos.0 as int, player_pos.1 as int),
            adjacent == (dist <= 1 && pos_of(*old(self)) != player_pos),
        ensures
            (*final(self), act_of(r.0)) == shooter_spec(*old(self), player_pos, *map, occupied@, adjacent, dist as int, 5, 3, 8, r.1@),
            draws_base_ok(*old(self), *map, player_pos, occupied@, r.1@),
            named(r.0, old(self).name@),
    {
        self.shooter_ai(player_pos, map, occupied, adjacent, dist, 5, 3, 8)
    }

    fn sentry_ai(&mut self, player_pos: (usize, usize), map: &DungeonMap, occupied: &[(usize, usize)], adjacent: bool, dist: i32)
        -> (r: (MonsterAction, Ghost<Draws>))
        requires
            map_wf(*map),
            monster_ok(*old(self), *map),
            player_pos.0 < map.width && player_pos.1 < map.height,
            dist == manhattan(old(self).x as int, old(self).y as int, player_pos.0 as int, player_pos.1 as int),
            adjacent == (dist <= 1 && pos_of(*old(self)) != player_pos),
        ensures
            (*final(self), act_of(r.0)) == shooter_spec(*old(self), player_pos, *map, occupied@, adjacent, dist as int, 6, 2, -1, r.1@),
            draws_base_ok(*old(self), *map, player_pos, occupied@, r.1@),
            named(r.0, old(self).name@),
    {
        self.shooter_ai(player_pos, map, occupied, adjacent, dist, 6, 2, -1)
    }

    fn golem_ai(&mut self, player_pos: (usize, usize), map: &DungeonMap, occupied: &[(usize, usize)], adjacent: bool, dist: i32)
        -> (r: (MonsterAction, Ghost<Draws>))
        requires
            map_wf(*map),
            monster_ok(*old(self), *map),
            player_pos.0 < map.width && player_pos.1 < map.height,
            dist == manhattan(old(self).x as int, old(self).y as int, player_pos.0 as int, player_pos.1 as int),
            adjacent == (dist <= 1 && pos_of(*old(self)) != player_pos),
        ensures
            (*final(self), act_of(r.0)) == golem_spec(*old(self), *map, occupied@, adjacent, dist as int, r.1@),
            draws_base_ok(*old(self), *map, player_pos, occupied@, r.1@),
            named(r.0, old(self).name@),
    {
        let ghost o = default_draws(*self, *map, player_pos, Seq::empty());
        proof { lemma_default_draws(*self, *map, player_pos, occupied@, Seq::empty()); }
        self.turn_parity = (self.turn_parity + 1) % 2;
        if self.turn_parity == 0 {
            return (MonsterAction::Nothing, Ghost(o));
        }
        let atk = self.melee();
        self.basic_ai(player_pos, map, occupied, adjacent, dist, 10, atk)
    }

    fn zombie_ai(&mut self, player_pos: (usize, usize), map: &DungeonMap, occupied: &[(usize, usize)], adjacent: bool, dist: i32)
        -> (r: (MonsterAction, Ghost<Draws>))
        requires
            map_wf(*map),
            monster_ok(*old(self), *map),
            player_pos.0 < map.width && player_pos.1 < map.height,
            dist == manhattan(old(self).x as int, old(self).y as int, player_pos.0 as int, player_pos.1 as int),
            adjacent == (dist <= 1 && pos_of(*old(self)) != player_pos),
            old(self).monster_type == MonsterType::Zombie,
        ensures
            (*final(self), act_of(r.0)) == kind_turn(*old(self), player_pos, *map, occupied@, Seq::empty(), Seq::empty(), adjacent, false, dist as int, r.1@),
            draws_base_ok(*old(self), *map, player_pos, occupied@, r.1@),
            named(r.0, old(self).name@),
    {
        proof { reveal(kind_turn); }
        self.hp = if self.hp + 1 < self.max_hp { self.hp + 1 } else { self.max_hp };
        let atk = self.melee();
        self.basic_ai(player_pos, map, occupied, adjacent, dist, 8, atk)
    }

    fn ghoul_ai(&mut self, player_pos: (usize, usize), map: &DungeonMap, occupied: &[(usize, usize)], adjacent: bool, dist: i32)
        -> (r: (MonsterAction, Ghost<Draws>))
        requires
            map_wf(*map),
            monster_ok(*old(self), *map),
            player_pos.0 < map.width && player_pos.1 < map.height,
            dist == manhattan(old(self).x as int, old(self).y as int, player_pos.0 as int, player_pos.1 as int),
            adjacent == (dist <= 1 && pos_of(*old(self)) != player_pos),
            old(self).monster_type == MonsterType::Ghoul,
        ensures
            (*final(self), act_of(r.0)) == kind_turn(*old(self), player_pos, *map, occupied@, Seq::empty(), Seq::empty(), adjacent, false, dist as int, r.1@),
            draws_base_ok(*old(self), *map, player_pos, occupied@, r.1@),
            named(r.0, old(self).name@),
    {
        proof { reveal(kind_turn); }
        let atk = MonsterAction::PoisonAttack { damage: self.attack, name: self.name.clone(), poison_ticks: 3 };
        self.basic_ai(player_pos, map, occupied, adjacent, dist, 10, atk)
    }

    fn demon_ai(&mut self, player_pos: (usize, usize), map: &DungeonMap, occupied: &[(usize, usize)], adjacent: bool, dist: i32)
        -> (r: (MonsterAction, Ghost<Draws>))
        requires
            map_wf(*map),
            monster_ok(*old(self), *map),
            player_pos.0 < map.width && player_pos.1 < map.height,
            dist == manhattan(old(self).x as int, old(self).y as int, player_pos.0 as int, player_pos.1 as int),
            adjacent == (dist <= 1 && pos_of(*old(self)) != player_pos),
            old(self).monster_type == MonsterType::Demon,
        ensures
            (*final(self), act_of(r.0)) == kind_turn(*old(self), player_pos, *map, occupied@, Seq::empty(), Seq::empty(), adjacent, false, dist as int, r.1@),
            draws_base_ok(*old(self), *map, player_pos, occupied@, r.1@),
            named(r.0, old(self).name@),
    {
        proof { reveal(kind_turn); }
        let atk = self.melee();
        self.basic_ai(player_pos, map, occupied, adjacent, dist, 10, atk)
    }

    fn hellfire_ai(&mut self, player_pos: (usize, usize), map: &DungeonMap, occupied: &[(usize, usize)], adjacent: bool, dist: i32)
        -> (r: (MonsterAction, Ghost<Draws>))
        requires
            map_wf(*map),
            monster_ok(*old(self), *map),
            player_pos.0 < map.width && player_pos.1 < map.height,
            dist == manhattan(old(self).x as int, old(self).y as int, player_pos.0 as int, player_pos.1 as int),
            adjacent == (dist <= 1 && pos_of(*old(self)) != player_pos),
            old(self).monster_type == MonsterType::Hellfire,
        ensures
            (*final(self), act_of(r.0)) == kind_turn(*old(self), player_pos, *map, occupied@, Seq::empty(), Seq::empty(), adjacent, false, dist as int, r.1@),
            draws_base_ok(*old(self), *map, player_pos, occupied@, r.1@),
            named(r.0, old(self).name@),
    {
        proof { reveal(kind_turn); }
        let atk = MonsterAction::PoisonAttack { damage: self.attack, name: self.name.clone(), poison_ticks: 2 };
        self.basic_ai(player_pos, map, occupied, adjacent, dist, 8, atk)
    }

    fn minotaur_ai(&mut self, player_pos: (usize, usize), map: &DungeonMap, occupied: &[(usize, usize)], adjacent: bool, dist: i32)
        -> (r: (MonsterAction, Ghost<Draws>))
        requires
            map_wf(*map),
            monster_ok(*old(self), *map),
            player_pos.0 < map.width && player_pos.1 < map.height,
            dist == manhattan(old(self).x as int, old(self).y as int, player_pos.0 as int, player_pos.1 as int),
            adjacent == (dist <= 1 && pos_of(*old(self)) != player_pos),
            old(self).monster_type == MonsterType::Minotaur,
        ensures
            (*final(self), act_of(r.0)) == kind_turn(*old(self), player_pos, *map, occupied@, Seq::empty(), Seq::empty(), adjacent, false, dist as int, r.1@),
            draws_base_ok(*old(self), *map, player_pos, occupied@, r.1@),
            named(r.0, old(self).name@),
    {
        proof { reveal(kind_turn); }
        let atk = self.melee();
        self.basic_ai(player_pos, map, occupied, adjacent, dist, 10, atk)
    }

    fn bear_ai(&mut self, player_pos: (usize, usize), map: &DungeonMap, occupied: &[(usize, usize)], adjacent: bool, low_hp: bool, dist: i32)
        -> (r: (MonsterAction, Ghost<Draws>))
        requires
            map_wf(*map),
            monster_ok(*old(self), *map),
            player_pos.0 < map.width && player_pos.1 < map.height,
            dist == manhattan(old(self).x as int, old(self).y as int, player_pos.0 as int, player_pos.1 as int),
            adjacent == (dist <= 1 && pos_of(*old(self)) != player_pos),
            old(self).monster_type == MonsterType::Bear,
        ensures
            (*final(self), act_of(r.0)) == kind_turn(*old(self), player_pos, *map, occupied@, Seq::empty(), Seq::empty(), adjacent, low_hp, dist as int, r.1@),
            draws_base_ok(*old(self), *map, player_pos, occupied@, r.1@),
            named(r.0, old(self).name@),
    {
        proof { reveal(kind_turn); }
        let atk = MonsterAction::MeleeAttack { damage: if low_hp { self.attack * 2 } else { self.attack }, name: self.name.clone() };
        self.basic_ai(player_pos, map, occupied, adjacent, dist, 8, atk)
    }

    fn wolf_ai(&mut self, player_pos: (usize, usize), map: &DungeonMap, occupied: &[(usize, usize)], adjacent: bool, dist: i32)
        -> (r: (MonsterAction, Ghost<Draws>))
        requires
            map_wf(*map),
            monster_ok(*old(self), *map),
            player_pos.0 < map.width && player_pos.1 < map.height,
            dist == manhattan(old(self).x as int, old(self).y as int, player_pos.0 as int, player_pos.1 as int),
            adjacent == (dist <= 1 && pos_of(*old(self)) != player_pos),
            old(self).monster_type == MonsterType::WolfPack,
        ensures
            (*final(self), act_of(r.0)) == kind_turn(*old(self), player_pos, *map, occupied@, Seq::empty(), Seq::empty(), adjacent, false, dist as int, r.1@),
            draws_base_ok(*old(self), *map, player_pos, occupied@, r.1@),
            named(r.0, old(self).name@),
    {
        proof { reveal(kind_turn); }
        let atk = self.melee();
        self.basic_ai(player_pos, map, occupied, adjacent, dist, 12, atk)
    }

    fn orc_ai(&mut self, player_pos: (usize, usize), map: &DungeonMap, occupied: &[(usize, usize)], adjacent: bool, dist: i32)
        -> (r: (MonsterAction, Ghost<Draws>))
        requires
            map_wf(*map),
            monster_ok(*old(self), *map),
            player_pos.0 < map.width && player_pos.1 < map.height,
            dist == manhattan(old(self).x as int, old(self).y as int, player_pos.0 as int, player_pos.1 as int),
            adjacent == (dist <= 1 && pos_of(*old(self)) != player_pos),
            old(self).monster_type == MonsterType::Orc,
        ensures
            (*final(self), act_of(r.0)) == kind_turn(*old(self), player_pos, *map, occupied@, Seq::empty(), Seq::empty(), adjacent, false, dist as int, r.1@),
            draws_base_ok(*old(self), *map, player_pos, occupied@, r.1@),
            named(r.0, old(self).name@),
    {
        proof { reveal(kind_turn); }
        let atk = self.melee();
        self.basic_ai(player_pos, map, occupied, adjacent, dist, 10, atk)
    }

    fn bandit_ai(&mut self, player_pos: (usize, usize), map: &DungeonMap, occupied: &[(usize, usize)], adjacent: bool, dist: i32)
        -> (r: (MonsterAction, Ghost<Draws>))
        requires
            map_wf(*map),
            monster_ok(*old(self), *map),
            player_pos.0 < map.width && player_pos.1 < map.height,
            dist == manhattan(old(self).x as int, old(self).y as int, player_pos.0 as int, player_pos.1 as int),
            adjacent == (dist <= 1 && pos_of(*old(self)) != player_pos),
            old(self).monster_type == MonsterType::Bandit,
        ensures
            (*final(self), act_of(r.0)) == kind_turn(*old(self), player_pos, *map, occupied@, Seq::empty(), Seq::empty(), adjacent, false, dist as int, r.1@),
            draws_base_ok(*old(self), *map, player_pos, occupied@, r.1@),
            named(r.0, old(self).name@),
    {
        proof { reveal(kind_turn); }
        let atk = MonsterAction::DrainAttack { damage: self.attack, name: self.name.clone() };
        self.basic_ai(player_pos, map, occupied, adjacent, dist, 8, atk)
    }

    fn assassin_ai(&mut self, player_pos: (usize, usize), map: &DungeonMap, occupied: &[(usize, usize)], adjacent: bool, dist: i32)
        -> (r: (MonsterAction, Ghost<Draws>))
        requires
            map_wf(*map),
            monster_ok(*old(self), *map),
            player_pos.0 < map.width && player_pos.1 < map.height,
            dist == manhattan(old(self).x as int, old(self).y as int, player_pos.0 as int, player_pos.1 as int),
            adjacent == (dist <= 1 && pos_of(*old(self)) != player_pos),
            old(self).monster_type == MonsterType::Assassin,
        ensures
            (*final(self), act_of(r.0)) == kind_turn(*old(self), player_pos, *map, occupied@, Seq::empty(), Seq::empty(), adjacent, false, dist as int, r.1@),
            draws_base_ok(*old(self), *map, player_pos, occupied@, r.1@),
            named(r.0, old(self).name@),
    {
        proof { reveal(kind_turn); }
        let atk = self.melee();
        self.basic_ai(player_pos, map, occupied, adjacent, dist, 6, atk)
    }

    fn fire_elemental_ai(&mut self, player_pos: (usize, usize), map: &DungeonMap, occupied: &[(usize, usize)], adjacent: bool, dist: i32)
        -> (r: (MonsterAction, Ghost<Draws>))
        requires
            map_wf(*map),
            monster_ok(*old(self), *map),
            player_pos.0 < map.width && player_pos.1 < map.height,
            dist == manhattan(old(self).x as int, old(self).y as int, player_pos.0 as int, player_pos.1 as int),
            adjacent == (dist <= 1 && pos_of(*old(self)) != player_pos),
            old(self).monster_type == MonsterType::FireElemental,
        ensures
            (*final(self), act_of(r.0)) == kind_turn(*old(self), player_pos, *map, occupied@, Seq::empty(), Seq::empty(), adjacent, false, dist as int, r.1@),
            draws_base_ok(*old(self), *map, player_pos, occupied@, r.1@),
            named(r.0, old(self).name@),
    {
        proof { reveal(kind_turn); }
        let atk = MonsterAction::PoisonAttack { damage: self.attack, name: self.name.clone(), poison_ticks: 2 };
        self.basic_ai(player_pos, map, occupied, adjacent, dist, 8, atk)
    }

    fn earth_elemental_ai(&mut self, player_pos: (usize, usize), map: &DungeonMap, occupied: &[(usize, usize)], adjacent: bool, dist: i32)
        -> (r: (MonsterAction, Ghost<Draws>))
        requires
            map_wf(*map),
            monster_ok(*old(self), *map),
            player_pos.0 < map.width && player_pos.1 < map.height,
            dist == manhattan(old(self).x as int, old(self).y as int, player_pos.0 as int, player_pos.1 as int),
            adjacent == (dist <= 1 && pos_of(*old(self)) != player_pos),
            old(self).monster_type == MonsterType::EarthElemental,
        ensures
            (*final(self), act_of(r.0)) == kind_turn(*old(self), player_pos, *map, occupied@, Seq::empty(), Seq::empty(), adjacent, false, dist as int, r.1@),
            draws_base_ok(*old(self), *map, player_pos, occupied@, r.1@),
            named(r.0, old(self).name@),
    {
        proof { reveal(kind_turn); }
        let atk = self.melee();
        self.basic_ai(player_pos, map, occupied, adjacent, dist, 8, atk)
    }

    fn ice_elemental_ai(&mut self, player_pos: (usize, usize), map: &DungeonMap, occupied: &[(usize, usize)], adjacent: bool, dist: i32)
        -> (r: (MonsterAction, Ghost<Draws>))
        requires
            map_wf(*map),
            monster_ok(*old(self), *map),
            player_pos.0 < map.width && player_pos.1 < map.height,
            dist == manhattan(old(self).x as int, old(self).y as int, player_pos.0 as int, player_pos.1 as int),
            adjacent == (dist <= 1 && pos_of(*old(self)) != player_pos),
            old(self).monster_type == MonsterType::IceElemental,
        ensures
            (*final(self), act_of(r.0)) == kind_turn(*old(self), player_pos, *map, occupied@, Seq::empty(), Seq::empty(), adjacent, false, dist as int, r.1@),
            draws_base_ok(*old(self), *map, player_pos, occupied@, r.1@),
            named(r.0, old(self).name@),
    {
        proof { reveal(kind_turn); }
        let atk = MonsterAction::PoisonAttack { damage: self.attack, name: self.name.clone(), poison_ticks: 2 };
        self.basic_ai(player_pos, map, occupied, adjacent, dist, 8, atk)
    }

    fn bomber_ai(&mut self, player_pos: (usize, usize), map: &DungeonMap, occupied: &[(usize, usize)], adjacent: bool, dist: i32)
        -> (r: (MonsterAction, Ghost<Draws>))
        requires
            map_wf(*map),
            monster_ok(*old(self), *map),
            player_pos.0 < map.width && player_pos.1 < map.height,
            dist == manhattan(old(self).x as int, old(self).y as int, player_pos.0 as int, player_pos.1 as int),
            adjacent == (dist <= 1 && pos_of(*old(self)) != player_pos),
            old(self).monster_type == MonsterType::Bomber,
        ensures
            (*final(self), act_of(r.0)) == kind_turn(*old(self), player_pos, *map, occupied@, Seq::empty(), Seq::empty(), adjacent, false, dist as int, r.1@),
            draws_base_ok(*old(self), *map, player_pos, occupied@, r.1@),
            named(r.0, old(self).name@),
    {
        proof { reveal(kind_turn); }
        let atk = MonsterAction::MeleeAttack { damage: self.attack * 2, name: self.name.clone() };
        self.basic_ai(player_pos, map, occupied, adjacent, dist, 6, atk)
    }

}

impl Monster {
    /// The monster's turn (see `monster_turn`): it looks for the player,
    /// counts its cooldowns down and acts by its kind's rule. The searches
    /// and dice the turn uses are some draws those can give (`draws_ok`).
    /// `all_monster_positions` are the living monsters (a fleeing goblin runs
    /// to the nearest), `dead_indices` the dead a Necromancer may raise.
    #[verifier::rlimit(40)]
    #[verifier::spinoff_prover]
    pub fn decide_action(&mut self, player_pos: (usize, usize), map: &DungeonMap, occupied: &[(usize, usize)],
        all_monster_positions: &[(usize, usize)], dead_indices: &[usize]) -> (a: MonsterAction)
        requires
            map_wf(*map),
            monster_ok(*old(self), *map),
            player_pos.0 < map.width && player_pos.1 < map.height,
            forall|i: int| 0 <= i < all_monster_positions@.len() ==>
                (#[trigger] all_monster_positions@[i]).0 <= 0x1fff_ffff && all_monster_positions@[i].1 <= 0x1fff_ffff,
        ensures
            exists|o: Draws| #[trigger] draws_ok(look_around(*old(self), player_pos, *map), *map, player_pos, occupied@,
                all_monster_positions@, dead_indices@, o)
                && (*final(self), act_of(a)) == monster_turn(*old(self), player_pos, *map, occupied@, all_monster_positions@, dead_indices@, o),
            named(a, old(self).name@),
            turn_result_ok(*old(self), player_pos, (*final(self), act_of(a))),
            old(self).summon_count <= old(self).summon_max ==> summons_kept(*old(self), (*final(self), act_of(a)), dead_indices@)
                && final(self).summon_count <= final(self).summon_max,
            manhattan(old(self).x as int, old(self).y as int, player_pos.0 as int, player_pos.1 as int) <= 1
                && pos_of(*old(self)) != player_pos && strikes_when_adjacent(old(self).monster_type)
                ==> strike_damage(act_of(a)) == Some(adjacent_blow(*old(self), hp_percent(*old(self)) < 30)),
            at_most_one_step(*old(self), act_of(a), *map),
            strike_damage(act_of(a)) is Some ==> manhattan(old(self).x as int, old(self).y as int, player_pos.0 as int, player_pos.1 as int) <= 1
                && pos_of(*old(self)) != player_pos,
    {
        let dist = DungeonMap::distance(self.x, self.y, player_pos.0, player_pos.1);
        if self.monster_type == MonsterType::Wraith || self.monster_type == MonsterType::ShadowLord {
            self.can_see_player = dist <= 10;
        } else {
            self.can_see_player = dist <= 12 && map.has_line_of_sight(self.x, self.y, player_pos.0, player_pos.1);
        }
        if self.can_see_player {
            self.last_known_player_pos = Some(player_pos);
        }
        if self.ranged_cooldown > 0 {
            self.ranged_cooldown = self.ranged_cooldown - 1;
        }
        if self.web_cooldown > 0 {
            self.web_cooldown = self.web_cooldown - 1;
        }
        let adjacent = dist <= 1 && !(self.x == player_pos.0 && self.y == player_pos.1);
        let low_hp = self.hp * 100 / self.max_hp < 30;
        let ghost pre = *self;
        assert(pre == look_around(*old(self), player_pos, *map));
        let (a, g) = self.act_by_kind(player_pos, map, occupied, all_monster_positions, dead_indices, adjacent, low_hp, dist);
        proof {
            assert(draws_ok(pre, *map, player_pos, occupied@, all_monster_positions@, dead_indices@, g@));
            lemma_turn_bounded(*old(self), player_pos, *map, occupied@, all_monster_positions@, dead_indices@, g@);
            assert(turn_result_ok(*old(self), player_pos, (*self, act_of(a))));
            lemma_monsters_step_once(*old(self), player_pos, *map, occupied@, all_monster_positions@, dead_indices@, g@);
            if manhattan(old(self).x as int, old(self).y as int, player_pos.0 as int, player_pos.1 as int) <= 1
                && pos_of(*old(self)) != player_pos && strikes_when_adjacent(old(self).monster_type) {
                lemma_adjacent_strikes(*old(self), player_pos, *map, occupied@, all_monster_positions@, dead_indices@, g@);
            }
            if old(self).summon_count <= old(self).summon_max {
                let t = monster_turn(*old(self), player_pos, *map, occupied@, all_monster_positions@, dead_indices@, g@);
                assert(summons_kept(*old(self), t, dead_indices@) && t.0.summon_count <= old(self).summon_max) by {
                    lemma_summons_counted(*old(self), player_pos, *map, occupied@, all_monster_positions@, dead_indices@, g@);
                }
            }
        }
        a
    }
}

/// The draws of a kind's rule with the ally search and the pick among the
/// dead, which only goblins and Necromancers use, set to plain values.
pub open spec fn fill_draws(m: Monster, map: DungeonMap, player: (usize, usize), all: Seq<(usize, usize)>, g: Draws) -> Draws {
    Draws { lure: default_draws(m, map, player, all).lure, pick: 0, ..g }
}

pub proof fn lemma_fill_draws(m: Monster, map: DungeonMap, player: (usize, usize), occ: Seq<(usize, usize)>,
    all: Seq<(usize, usize)>, dead: Seq<usize>, g: Draws)
    requires
        draws_base_ok(m, map, player, occ, g),
    ensures
        draws_ok(m, map, player, occ, all, dead, fill_draws(m, map, player, all, g)),
{
    lemma_default_draws(m, map, player, occ, all);
}

impl Monster {
    /// Acts by the kind's rule (see `kind_turn`).
    fn act_by_kind(&mut self, player_pos: (usize, usize), map: &DungeonMap, occupied: &[(usize, usize)],
        all_monster_positions: &[(usize, usize)], dead_indices: &[usize], adjacent: bool, low_hp: bool, dist: i32)
        -> (r: (MonsterAction, Ghost<Draws>))
        requires
            map_wf(*map),
            monster_ok(*old(self), *map),
            player_pos.0 < map.width && player_pos.1 < map.height,
            forall|i: int| 0 <= i < all_monster_positions@.len() ==>
                (#[trigger] all_monster_positions@[i]).0 <= 0x1fff_ffff && all_monster_positions@[i].1 <= 0x1fff_ffff,
            dist == manhattan(old(self).x as int, old(self).y as int, player_pos.0 as int, player_pos.1 as int),
            adjacent == (dist <= 1 && pos_of(*old(self)) != player_pos),
            low_hp == (hp_percent(*old(self)) < 30),
        ensures
            draws_ok(*old(self), *map, player_pos, occupied@, all_monster_positions@, dead_indices@, r.1@),
            (*final(self), act_of(r.0)) == kind_turn(*old(self), player_pos, *map, occupied@, all_monster_positions@, dead_indices@,
                adjacent, low_hp, dist as int, r.1@),
            named(r.0, old(self).name@),
    {
        match self.monster_type {
            MonsterType::Goblin | MonsterType::Necromancer =>
                self.act_leaders(player_pos, map, occupied, all_monster_positions, dead_indices, adjacent, low_hp, dist),
            MonsterType::Skeleton | MonsterType::Troll | MonsterType::BatSwarm | MonsterType::Spider | MonsterType::Wraith
            | MonsterType::GoblinKing | MonsterType::BoneDragon | MonsterType::ShadowLord | MonsterType::Specter
            | MonsterType::Imp | MonsterType::Golem | MonsterType::Sentry =>
                self.act_special(player_pos, map, occupied, all_monster_positions, dead_indices, adjacent, low_hp, dist),
            _ => self.act_plain(player_pos, map, occupied, all_monster_positions, dead_indices, adjacent, low_hp, dist),
        }
    }

    /// Goblins, which run to their allies, and Necromancers, which raise
    /// the dead.
    fn act_leaders(&mut self, player_pos: (usize, usize), map: &DungeonMap, occupied: &[(usize, usize)],
        all_monster_positions: &[(usize, usize)], dead_indices: &[usize], adjacent: bool, low_hp: bool, dist: i32)
        -> (r: (MonsterAction, Ghost<Draws>))
        requires
            map_wf(*map),
            monster_ok(*old(self), *map),
            player_pos.0 < map.width && player_pos.1 < map.height,
            forall|i: int| 0 <= i < all_monster_positions@.len() ==>
                (#[trigger] all_monster_positions@[i]).0 <= 0x1fff_ffff && all_monster_positions@[i].1 <= 0x1fff_ffff,
            dist == manhattan(old(self).x as int, old(self).y as int, player_pos.0 as int, player_pos.1 as int),
            adjacent == (dist <= 1 && pos_of(*old(self)) != player_pos),
            low_hp == (hp_percent(*old(self)) < 30),
            old(self).monster_type == MonsterType::Goblin || old(self).monster_type == MonsterType::Necromancer,
        ensures
            draws_ok(*old(self), *map, player_pos, occupied@, all_monster_positions@, dead_indices@, r.1@),
            (*final(self), act_of(r.0)) == kind_turn(*old(self), player_pos, *map, occupied@, all_monster_positions@, dead_indices@,
                adjacent, low_hp, dist as int, r.1@),
            named(r.0, old(self).name@),
    {
        proof {
            reveal(kind_turn);
            lemma_default_draws(*old(self), *map, player_pos, occupied@, all_monster_positions@);
        }
        match self.monster_type {
            MonsterType::Goblin => {
                let (a, g) = self.goblin_ai(player_pos, map, occupied, all_monster_positions, adjacent, low_hp, dist);
                (a, Ghost(Draws { pick: 0, ..g@ }))
            },
            MonsterType::Necromancer => {
                let (a, g) = self.necromancer_ai(player_pos, map, occupied, adjacent, dist, dead_indices);
                let ghost o = Draws { lure: default_draws(*old(self), *map, player_pos, all_monster_positions@).lure, ..g@ };
                (a, Ghost(o))
            },
            _ => (MonsterAction::Nothing, Ghost(default_draws(*old(self), *map, player_pos, all_monster_positions@))),
        }
    }

    /// The kinds with rules of their own.
    fn act_special(&mut self, player_pos: (usize, usize), map: &DungeonMap, occupied: &[(usize, usize)],
        all_monster_positions: &[(usize, usize)], dead_indices: &[usize], adjacent: bool, low_hp: bool, dist: i32)
        -> (r: (MonsterAction, Ghost<Draws>))
        requires
            map_wf(*map),
            monster_ok(*old(self), *map),
            player_pos.0 < map.width && player_pos.1 < map.height,
            forall|i: int| 0 <= i < all_monster_positions@.len() ==>
                (#[trigger] all_monster_positions@[i]).0 <= 0x1fff_ffff && all_monster_positions@[i].1 <= 0x1fff_ffff,
            dist == manhattan(old(self).x as int, old(self).y as int, player_pos.0 as int, player_pos.1 as int),
            adjacent == (dist <= 1 && pos_of(*old(self)) != player_pos),
            low_hp == (hp_percent(*old(self)) < 30),
            old(self).monster_type != MonsterType::Goblin && old(self).monster_type != MonsterType::Necromancer,
            !(old(self).monster_type == MonsterType::Zombie || old(self).monster_type == MonsterType::Ghoul
                || old(self).monster_type == MonsterType::Demon || old(self).monster_type == MonsterType::Hellfire
                || old(self).monster_type == MonsterType::Minotaur || old(self).monster_type == MonsterType::Bear
                || old(self).monster_type == MonsterType::WolfPack || old(self).monster_type == MonsterType::Orc
                || old(self).monster_type == MonsterType::Bandit || old(self).monster_type == MonsterType::Assassin
                || old(self).monster_type == MonsterType::FireElemental || old(self).monster_type == MonsterType::EarthElemental
                || old(self).monster_type == MonsterType::IceElemental || old(self).monster_type == MonsterType::Bomber),
        ensures
            draws_ok(*old(self), *map, player_pos, occupied@, all_monster_positions@, dead_indices@, r.1@),
            (*final(self), act_of(r.0)) == kind_turn(*old(self), player_pos, *map, occupied@, all_monster_positions@, dead_indices@,
                adjacent, low_hp, dist as int, r.1@),
            named(r.0, old(self).name@),
    {
        proof { reveal(kind_turn); }
        match self.monster_type {
            MonsterType::Skeleton | MonsterType::Troll | MonsterType::BatSwarm | MonsterType::Spider =>
                self.act_group_a(player_pos, map, occupied, all_monster_positions, dead_indices, adjacent, low_hp, dist),
            MonsterType::Wraith | MonsterType::GoblinKing | MonsterType::BoneDragon | MonsterType::ShadowLord =>
                self.act_group_b(player_pos, map, occupied, all_monster_positions, dead_indices, adjacent, low_hp, dist),
            MonsterType::Specter | MonsterType::Imp | MonsterType::Golem | MonsterType::Sentry =>
                self.act_group_c(player_pos, map, occupied, all_monster_positions, dead_indices, adjacent, low_hp, dist),
            _ => (MonsterAction::Nothing, Ghost(default_draws(*old(self), *map, player_pos, all_monster_positions@))),
        }
    }

    fn act_group_a(&mut self, player_pos: (usize, usize), map: &DungeonMap, occupied: &[(usize, usize)],
        all_monster_positions: &[(usize, usize)], dead_indices: &[usize], adjacent: bool, low_hp: bool, dist: i32)
        -> (r: (MonsterAction, Ghost<Draws>))
        requires
            map_wf(*map),
            monster_ok(*old(self), *map),
            player_pos.0 < map.width && player_pos.1 < map.height,
            forall|i: int| 0 <= i < all_monster_positions@.len() ==>
                (#[trigger] all_monster_positions@[i]).0 <= 0x1fff_ffff && all_monster_positions@[i].1 <= 0x1fff_ffff,
            dist == manhattan(old(self).x as int, old(self).y as int, player_pos.0 as int, player_pos.1 as int),
            adjacent == (dist <= 1 && pos_of(*old(self)) != player_pos),
            low_hp == (hp_percent(*old(self)) < 30),
            old(self).monster_type == MonsterType::Skeleton || old(self).monster_type == MonsterType::Troll || old(self).monster_type == MonsterType::BatSwarm || old(self).monster_type == MonsterType::Spider,
        ensures
            draws_ok(*old(self), *map, player_pos, occupied@, all_monster_positions@, dead_indices@, r.1@),
            (*final(self), act_of(r.0)) == kind_turn(*old(self), player_pos, *map, occupied@, all_monster_positions@, dead_indices@,
                adjacent, low_hp, dist as int, r.1@),
            named(r.0, old(self).name@),
    {
        proof { reveal(kind_turn); }
        let ghost pre = *self;
        proof {
            lemma_default_draws(pre, *map, player_pos, occupied@, all_monster_positions@);
            lemma_default_draws(pre, *map, player_pos, occupied@, Seq::empty());
        }
        match self.monster_type {
            MonsterType::Skeleton => {
                let (a, g) = self.skeleton_ai(player_pos, map, occupied, adjacent, dist);
                proof { lemma_fill_draws(pre, *map, player_pos, occupied@, all_monster_positions@, dead_indices@, g@); }
                (a, Ghost(fill_draws(pre, *map, player_pos, all_monster_positions@, g@)))
            },
            MonsterType::Troll => {
                let (a, g) = self.troll_ai(player_pos, map, occupied, adjacent, low_hp, dist);
                proof { lemma_fill_draws(pre, *map, player_pos, occupied@, all_monster_positions@, dead_indices@, g@); }
                (a, Ghost(fill_draws(pre, *map, player_pos, all_monster_positions@, g@)))
            },
            MonsterType::BatSwarm => {
                let (a, g) = self.bat_swarm_ai(player_pos, map, occupied, adjacent, dist);
                proof { lemma_fill_draws(pre, *map, player_pos, occupied@, all_monster_positions@, dead_indices@, g@); }
                (a, Ghost(fill_draws(pre, *map, player_pos, all_monster_positions@, g@)))
            },
            MonsterType::Spider => {
                let (a, g) = self.spider_ai(player_pos, map, occupied, adjacent, dist);
                proof { lemma_fill_draws(pre, *map, player_pos, occupied@, all_monster_positions@, dead_indices@, g@); }
                (a, Ghost(fill_draws(pre, *map, player_pos, all_monster_positions@, g@)))
            },
            _ => (MonsterAction::Nothing, Ghost(default_draws(pre, *map, player_pos, all_monster_positions@))),
        }
    }

    fn act_group_b(&mut self, player_pos: (usize, usize), map: &DungeonMap, occupied: &[(usize, usize)],
        all_monster_positions: &[(usize, usize)], dead_indices: &[usize], adjacent: bool, low_hp: bool, dist: i32)
        -> (r: (MonsterAction, Ghost<Draws>))
        requires
            map_wf(*map),
            monster_ok(*old(self), *map),
            player_pos.0 < map.width && player_pos.1 < map.height,
            forall|i: int| 0 <= i < all_monster_positions@.len() ==>
                (#[trigger] all_monster_positions@[i]).0 <= 0x1fff_ffff && all_monster_positions@[i].1 <= 0x1fff_ffff,
            dist == manhattan(old(self).x as int, old(self).y as int, player_pos.0 as int, player_pos.1 as int),
            adjacent == (dist <= 1 && pos_of(*old(self)) != player_pos),
            low_hp == (hp_percent(*old(self)) < 30),
            old(self).monster_type == MonsterType::Wraith || old(self).monster_type == MonsterType::GoblinKing || old(self).monster_type == MonsterType::BoneDragon || old(self).monster_type == MonsterType::ShadowLord,
        ensures
            draws_ok(*old(self), *map, player_pos, occupied@, all_monster_positions@, dead_indices@, r.1@),
            (*final(self), act_of(r.0)) == kind_turn(*old(self), player_pos, *map, occupied@, all_monster_positions@, dead_indices@,
                adjacent, low_hp, dist as int, r.1@),
            named(r.0, old(self).name@),
    {
        proof { reveal(kind_turn); }
        let ghost pre = *self;
        proof {
            lemma_default_draws(pre, *map, player_pos, occupied@, all_monster_positions@);
            lemma_default_draws(pre, *map, player_pos, occupied@, Seq::empty());
        }
        match self.monster_type {
            MonsterType::Wraith => {
                let (a, g) = self.wraith_ai(player_pos, map, occupied, adjacent, dist);
                proof { lemma_fill_draws(pre, *map, player_pos, occupied@, all_monster_positions@, dead_indices@, g@); }
                (a, Ghost(fill_draws(pre, *map, player_pos, all_monster_positions@, g@)))
            },
            MonsterType::GoblinKing => {
                let (a, g) = self.goblin_king_ai(player_pos, map, occupied, adjacent, dist);
                proof { lemma_fill_draws(pre, *map, player_pos, occupied@, all_monster_positions@, dead_indices@, g@); }
                (a, Ghost(fill_draws(pre, *map, player_pos, all_monster_positions@, g@)))
            },
            MonsterType::BoneDragon => {
                let (a, g) = self.bone_dragon_ai(player_pos, map, occupied, adjacent, dist);
                proof { lemma_fill_draws(pre, *map, player_pos, occupied@, all_monster_positions@, dead_indices@, g@); }
                (a, Ghost(fill_draws(pre, *map, player_pos, all_monster_positions@, g@)))
            },
            MonsterType::ShadowLord => {
                let (a, g) = { let a = self.shadow_lord_ai(player_pos, map, adjacent, dist); (a, Ghost(default_draws(pre, *map, player_pos, Seq::empty()))) };
                proof { lemma_fill_draws(pre, *map, player_pos, occupied@, all_monster_positions@, dead_indices@, g@); }
                (a, Ghost(fill_draws(pre, *map, player_pos, all_monster_positions@, g@)))
            },
            _ => (MonsterAction::Nothing, Ghost(default_draws(pre, *map, player_pos, all_monster_positions@))),
        }
    }

    fn act_group_c(&mut self, player_pos: (usize, usize), map: &DungeonMap, occupied: &[(usize, usize)],
        all_monster_positions: &[(usize, usize)], dead_indices: &[usize], adjacent: bool, low_hp: bool, dist: i32)
        -> (r: (MonsterAction, Ghost<Draws>))
        requires
            map_wf(*map),
            monster_ok(*old(self), *map),
            player_pos.0 < map.width && player_pos.1 < map.height,
            forall|i: int| 0 <= i < all_monster_positions@.len() ==>
                (#[trigger] all_monster_positions@[i]).0 <= 0x1fff_ffff && all_monster_positions@[i].1 <= 0x1fff_ffff,
            dist == manhattan(old(self).x as int, old(self).y as int, player_pos.0 as int, player_pos.1 as int),
            adjacent == (dist <= 1 && pos_of(*old(self)) != player_pos),
            low_hp == (hp_percent(*old(self)) < 30),
            old(self).monster_type == MonsterType::Specter || old(self).monster_type == MonsterType::Imp || old(self).monster_type == MonsterType::Golem || old(self).monster_type == MonsterType::Sentry,
        ensures
            draws_ok(*old(self), *map, player_pos, occupied@, all_monster_positions@, dead_indices@, r.1@),
            (*final(self), act_of(r.0)) == kind_turn(*old(self), player_pos, *map, occupied@, all_monster_positions@, dead_indices@,
                adjacent, low_hp, dist as int, r.1@),
            named(r.0, old(self).name@),
    {
        proof { reveal(kind_turn); }
        let ghost pre = *self;
        proof {
            lemma_default_draws(pre, *map, player_pos, occupied@, all_monster_positions@);
            lemma_default_draws(pre, *map, player_pos, occupied@, Seq::empty());
        }
        match self.monster_type {
            MonsterType::Specter => {
                let (a, g) = { let a = self.specter_ai(player_pos, map, adjacent, dist); (a, Ghost(default_draws(pre, *map, player_pos, Seq::empty()))) };
                proof { lemma_fill_draws(pre, *map, player_pos, occupied@, all_monster_positions@, dead_indices@, g@); }
                (a, Ghost(fill_draws(pre, *map, player_pos, all_monster_positions@, g@)))
            },
            MonsterType::Imp => {
                let (a, g) = self.imp_ai(player_pos, map, occupied, adjacent, dist);
                proof { lemma_fill_draws(pre, *map, player_pos, occupied@, all_monster_positions@, dead_indices@, g@); }
                (a, Ghost(fill_draws(pre, *map, player_pos, all_monster_positions@, g@)))
            },
            MonsterType::Golem => {
                let (a, g) = self.golem_ai(player_pos, map, occupied, adjacent, dist);
                proof { lemma_fill_draws(pre, *map, player_pos, occupied@, all_monster_positions@, dead_indices@, g@); }
                (a, Ghost(fill_draws(pre, *map, player_pos, all_monster_positions@, g@)))
            },
            MonsterType::Sentry => {
                let (a, g) = self.sentry_ai(player_pos, map, occupied, adjacent, dist);
                proof { lemma_fill_draws(pre, *map, player_pos, occupied@, all_monster_positions@, dead_indices@, g@); }
                (a, Ghost(fill_draws(pre, *map, player_pos, all_monster_positions@, g@)))
            },
            _ => (MonsterAction::Nothing, Ghost(default_draws(pre, *map, player_pos, all_monster_positions@))),
        }
    }

    /// The kinds that hit when adjacent and chase within a range.
    #[verifier::rlimit(40)]
    fn act_plain(&mut self, player_pos: (usize, usize), map: &DungeonMap, occupied: &[(usize, usize)],
        all_monster_positions: &[(usize, usize)], dead_indices: &[usize], adjacent: bool, low_hp: bool, dist: i32)
        -> (r: (MonsterAction, Ghost<Draws>))
        requires
            map_wf(*map),
            monster_ok(*old(self), *map),
            player_pos.0 < map.width && player_pos.1 < map.height,
            forall|i: int| 0 <= i < all_monster_positions@.len() ==>
                (#[trigger] all_monster_positions@[i]).0 <= 0x1fff_ffff && all_monster_positions@[i].1 <= 0x1fff_ffff,
            dist == manhattan(old(self).x as int, old(self).y as int, player_pos.0 as int, player_pos.1 as int),
            adjacent == (dist <= 1 && pos_of(*old(self)) != player_pos),
            low_hp == (hp_percent(*old(self)) < 30),
            old(self).monster_type == MonsterType::Zombie || old(self).monster_type == MonsterType::Ghoul
                || old(self).monster_type == MonsterType::Demon || old(self).monster_type == MonsterType::Hellfire
                || old(self).monster_type == MonsterType::Minotaur || old(self).monster_type == MonsterType::Bear
                || old(self).monster_type == MonsterType::WolfPack || old(self).monster_type == MonsterType::Orc
                || old(self).monster_type == MonsterType::Bandit || old(self).monster_type == MonsterType::Assassin
                || old(self).monster_type == MonsterType::FireElemental || old(self).monster_type == MonsterType::EarthElemental
                || old(self).monster_type == MonsterType::IceElemental || old(self).monster_type == MonsterType::Bomber,
        ensures
            draws_ok(*old(self), *map, player_pos, occupied@, all_monster_positions@, dead_indices@, r.1@),
            (*final(self), act_of(r.0)) == kind_turn(*old(self), player_pos, *map, occupied@, all_monster_positions@, dead_indices@,
                adjacent, low_hp, dist as int, r.1@),
            named(r.0, old(self).name@),
    {
        proof { reveal(kind_turn); }
        let ghost pre = *self;
        proof {
            lemma_default_draws(pre, *map, player_pos, occupied@, all_monster_positions@);
            lemma_default_draws(pre, *map, player_pos, occupied@, Seq::empty());
        }
        match self.monster_type {
            MonsterType::Zombie => {
                let (a, g) = self.zombie_ai(player_pos, map, occupied, adjacent, dist);
                proof { lemma_fill_draws(pre, *map, player_pos, occupied@, all_monster_positions@, dead_indices@, g@); }
                (a, Ghost(fill_draws(pre, *map, player_pos, all_monster_positions@, g@)))
            },
            MonsterType::Ghoul => {
                let (a, g) = self.ghoul_ai(player_pos, map, occupied, adjacent, dist);
                proof { lemma_fill_draws(pre, *map, player_pos, occupied@, all_monster_positions@, dead_indices@, g@); }
                (a, Ghost(fill_draws(pre, *map, player_pos, all_monster_positions@, g@)))
            },
            MonsterType::Demon => {
                let (a, g) = self.demon_ai(player_pos, map, occupied, adjacent, dist);
                proof { lemma_fill_draws(pre, *map, player_pos, occupied@, all_monster_positions@, dead_indices@, g@); }
                (a, Ghost(fill_draws(pre, *map, player_pos, all_monster_positions@, g@)))
            },
            MonsterType::Hellfire => {
                let (a, g) = self.hellfire_ai(player_pos, map, occupied, adjacent, dist);
                proof { lemma_fill_draws(pre, *map, player_pos, occupied@, all_monster_positions@, dead_indices@, g@); }
                (a, Ghost(fill_draws(pre, *map, player_pos, all_monster_positions@, g@)))
            },
            MonsterType::Minotaur => {
                let (a, g) = self.minotaur_ai(player_pos, map, occupied, adjacent, dist);
                proof { lemma_fill_draws(pre, *map, player_pos, occupied@, all_monster_positions@, dead_indices@, g@); }
                (a, Ghost(fill_draws(pre, *map, player_pos, all_monster_positions@, g@)))
            },
            MonsterType::Bear => {
                let (a, g) = self.bear_ai(player_pos, map, occupied, adjacent, low_hp, dist);
                proof { lemma_fill_draws(pre, *map, player_pos, occupied@, all_monster_positions@, dead_indices@, g@); }
                (a, Ghost(fill_draws(pre, *map, player_pos, all_monster_positions@, g@)))
            },
            MonsterType::WolfPack => {
                let (a, g) = self.wolf_ai(player_pos, map, occupied, adjacent, dist);
                proof { lemma_fill_draws(pre, *map, player_pos, occupied@, all_monster_positions@, dead_indices@, g@); }
                (a, Ghost(fill_draws(pre, *map, player_pos, all_monster_positions@, g@)))
            },
            MonsterType::Orc => {
                let (a, g) = self.orc_ai(player_pos, map, occupied, adjacent, dist);
                proof { lemma_fill_draws(pre, *map, player_pos, occupied@, all_monster_positions@, dead_indices@, g@); }
                (a, Ghost(fill_draws(pre, *map, player_pos, all_monster_positions@, g@)))
            },
            MonsterType::Bandit => {
                let (a, g) = self.bandit_ai(player_pos, map, occupied, adjacent, dist);
                proof { lemma_fill_draws(pre, *map, player_pos, occupied@, all_monster_positions@, dead_indices@, g@); }
                (a, Ghost(fill_draws(pre, *map, player_pos, all_monster_positions@, g@)))
            },
            MonsterType::Assassin => {
                let (a, g) = self.assassin_ai(player_pos, map, occupied, adjacent, dist);
                proof { lemma_fill_draws(pre, *map, player_pos, occupied@, all_monster_positions@, dead_indices@, g@); }
                (a, Ghost(fill_draws(pre, *map, player_pos, all_monster_positions@, g@)))
            },
            MonsterType::FireElemental => {
                let (a, g) = self.fire_elemental_ai(player_pos, map, occupied, adjacent, dist);
                proof { lemma_fill_draws(pre, *map, player_pos, occupied@, all_monster_positions@, dead_indices@, g@); }
                (a, Ghost(fill_draws(pre, *map, player_pos, all_monster_positions@, g@)))
            },
            MonsterType::EarthElemental => {
                let (a, g) = self.earth_elemental_ai(player_pos, map, occupied, adjacent, dist);
                proof { lemma_fill_draws(pre, *map, player_pos, occupied@, all_monster_positions@, dead_indices@, g@); }
                (a, Ghost(fill_draws(pre, *map, player_pos, all_monster_positions@, g@)))
            },
            MonsterType::IceElemental => {
                let (a, g) = self.ice_elemental_ai(player_pos, map, occupied, adjacent, dist);
                proof { lemma_fill_draws(pre, *map, player_pos, occupied@, all_monster_positions@, dead_indices@, g@); }
                (a, Ghost(fill_draws(pre, *map, player_pos, all_monster_positions@, g@)))
            },
            MonsterType::Bomber => {
                let (a, g) = self.bomber_ai(player_pos, map, occupied, adjacent, dist);
                proof { lemma_fill_draws(pre, *map, player_pos, occupied@, all_monster_positions@, dead_indices@, g@); }
                (a, Ghost(fill_draws(pre, *map, player_pos, all_monster_positions@, g@)))
            },
            _ => (MonsterAction::Nothing, Ghost(default_draws(pre, *map, player_pos, all_monster_positions@))),
        }
    }
}

/// An action's numbers stay small: damage up to twice an attack of at most
/// 1,000,000 (plus 4), poison up to 3 ticks, unit directions, breath range
/// up to 5 and pulse radius up to 3.
pub open spec fn act_bounded(a: Act) -> bool {
    match a {
        Act::Melee(d) => 0 <= d <= 2_000_004,
        Act::Drain(d) => 0 <= d <= 2_000_004,
        Act::Poison(d, t) => 0 <= d <= 2_000_004 && 0 <= t <= 3,
        Act::Fire(_, _, dx, dy, d, _) => -1 <= dx <= 1 && -1 <= dy <= 1 && 0 <= d <= 2_000_004,
        Act::Breath(dx, dy, d, r) => -1 <= dx <= 1 && -1 <= dy <= 1 && d == 8 && 0 <= r <= 5,
        Act::Pulse(d, r) => d == 3 && 0 <= r <= 3,
        _ => true,
    }
}

/// What a kind's rule may change of a monster `m`: not its place, kind,
/// tier, max HP or place of death; its HP and attack stay within bounds; it
/// may forget where it saw the player; and its action's numbers are small.
pub open spec fn kind_result_ok(m: Monster, r: (Monster, Act)) -> bool {
    &&& act_bounded(r.1)
    &&& r.0.x == m.x && r.0.y == m.y
    &&& r.0.max_hp == m.max_hp && r.0.death_pos == m.death_pos
    &&& r.0.monster_type == m.monster_type && r.0.floor_tier == m.floor_tier
    &&& 0 <= r.0.hp <= 1_000_000
    &&& 0 <= r.0.attack <= 1_000_000
    &&& (r.0.last_known_player_pos == m.last_known_player_pos || r.0.last_known_player_pos is None)
}

/// What a turn may change of a monster `m` (see `kind_result_ok`); it may
/// also remember the player's cell.
pub open spec fn turn_result_ok(m: Monster, player: (usize, usize), r: (Monster, Act)) -> bool {
    &&& act_bounded(r.1)
    &&& r.0.x == m.x && r.0.y == m.y
    &&& r.0.max_hp == m.max_hp && r.0.death_pos == m.death_pos
    &&& r.0.monster_type == m.monster_type && r.0.floor_tier == m.floor_tier
    &&& 0 <= r.0.hp <= 1_000_000
    &&& 0 <= r.0.attack <= 1_000_000
    &&& (r.0.last_known_player_pos == m.last_known_player_pos || r.0.last_known_player_pos is None
        || r.0.last_known_player_pos == Some(player))
}

/// Whatever a monster in good shape decides, the numbers of its action
/// stay small (see `act_bounded`).
pub proof fn lemma_turn_bounded(m: Monster, player: (usize, usize), map: DungeonMap, occ: Seq<(usize, usize)>,
    all: Seq<(usize, usize)>, dead: Seq<usize>, o: Draws)
    requires
        monster_ok(m, map),
    ensures
        turn_result_ok(m, player, monster_turn(m, player, map, occ, all, dead, o)),
{
    let m1 = look_around(m, player, map);
    let dist = manhattan(m.x as int, m.y as int, player.0 as int, player.1 as int);
    let adjacent = dist <= 1 && pos_of(m) != player;
    let low = hp_percent(m) < 30;
    lemma_kind_bounded(m1, player, map, occ, all, dead, adjacent, low, dist, o);
}

/// Moving, wandering and fleeing carry no numbers, and change at most the
/// behaviour and the memory of the player of a monster.
proof fn lemma_moves_bounded(map: DungeonMap, occ: Seq<(usize, usize)>, player: (usize, usize), dist: int, o: Draws)
    ensures
        forall|mm: Monster, oo: Draws| #[trigger] wander_spec(mm, map, occ, oo) == wander_spec(mm, map, occ, oo)
            && act_bounded(wander_spec(mm, map, occ, oo).1)
            && (wander_spec(mm, map, occ, oo).0 == mm || wander_spec(mm, map, occ, oo).0 == (Monster { last_known_player_pos: None, ..mm })),
        forall|mm: Monster, t: (usize, usize)| act_bounded(#[trigger] flee_act(mm, t, map, occ)),
        forall|mm: Monster, st: Option<(usize, usize)>, oo: Draws| #[trigger] chase_or_idle(mm, map, occ, st, oo) == chase_or_idle(mm, map, occ, st, oo)
            && act_bounded(chase_or_idle(mm, map, occ, st, oo).1)
            && (chase_or_idle(mm, map, occ, st, oo).0 == mm
                || chase_or_idle(mm, map, occ, st, oo).0 == with_behavior(mm, BehaviorState::Idle)
                || chase_or_idle(mm, map, occ, st, oo).0 == (Monster { last_known_player_pos: None, ..with_behavior(mm, BehaviorState::Idle) })),
        forall|mm: Monster| #[trigger] wraith_rest(mm, player, map, occ, dist, o) == wraith_rest(mm, player, map, occ, dist, o)
            && act_bounded(wraith_rest(mm, player, map, occ, dist, o).1)
            && (exists|b: BehaviorState| wraith_rest(mm, player, map, occ, dist, o).0 == with_behavior(mm, b)
                || wraith_rest(mm, player, map, occ, dist, o).0 == (Monster { last_known_player_pos: None, ..with_behavior(mm, b) })),
{
    assert forall|mm: Monster, oo: Draws| #[trigger] wander_spec(mm, map, occ, oo) == wander_spec(mm, map, occ, oo)
        && act_bounded(wander_spec(mm, map, occ, oo).1)
        && (wander_spec(mm, map, occ, oo).0 == mm || wander_spec(mm, map, occ, oo).0 == (Monster { last_known_player_pos: None, ..mm })) by {}
    assert forall|mm: Monster, t: (usize, usize)| act_bounded(#[trigger] flee_act(mm, t, map, occ)) by {}
    assert forall|mm: Monster, st: Option<(usize, usize)>, oo: Draws| #[trigger] chase_or_idle(mm, map, occ, st, oo) == chase_or_idle(mm, map, occ, st, oo)
        && act_bounded(chase_or_idle(mm, map, occ, st, oo).1)
        && (chase_or_idle(mm, map, occ, st, oo).0 == mm
            || chase_or_idle(mm, map, occ, st, oo).0 == with_behavior(mm, BehaviorState::Idle)
            || chase_or_idle(mm, map, occ, st, oo).0 == (Monster { last_known_player_pos: None, ..with_behavior(mm, BehaviorState::Idle) })) by {}
    assert forall|mm: Monster| #[trigger] wraith_rest(mm, player, map, occ, dist, o) == wraith_rest(mm, player, map, occ, dist, o)
        && act_bounded(wraith_rest(mm, player, map, occ, dist, o).1)
        && (exists|b: BehaviorState| wraith_rest(mm, player, map, occ, dist, o).0 == with_behavior(mm, b)
            || wraith_rest(mm, player, map, occ, dist, o).0 == (Monster { last_known_player_pos: None, ..with_behavior(mm, b) })) by {
        let r = wraith_rest(mm, player, map, occ, dist, o);
        assert(r.0 == with_behavior(mm, r.0.behavior) || r.0 == (Monster { last_known_player_pos: None, ..with_behavior(mm, r.0.behavior) }));
    }
}

proof fn lemma_kind_bounded(m: Monster, player: (usize, usize), map: DungeonMap, occ: Seq<(usize, usize)>,
    all: Seq<(usize, usize)>, dead: Seq<usize>, adjacent: bool, low: bool, dist: int, o: Draws)
    requires
        0 <= m.attack <= 1_000_000,
        0 <= m.hp <= 1_000_000,
        1 <= m.max_hp <= 1_000_000,
    ensures
        kind_result_ok(m, kind_turn(m, player, map, occ, all, dead, adjacent, low, dist, o)),
{
    match m.monster_type {
        MonsterType::Goblin => lemma_bounded_goblin(m, player, map, occ, all, dead, adjacent, low, dist, o),
        MonsterType::Skeleton => lemma_bounded_skeleton(m, player, map, occ, all, dead, adjacent, low, dist, o),
        MonsterType::Troll => lemma_bounded_troll(m, player, map, occ, all, dead, adjacent, low, dist, o),
        MonsterType::BatSwarm => lemma_bounded_bat_swarm(m, player, map, occ, all, dead, adjacent, low, dist, o),
        MonsterType::Spider => lemma_bounded_spider(m, player, map, occ, all, dead, adjacent, low, dist, o),
        MonsterType::Wraith => lemma_bounded_wraith(m, player, map, occ, all, dead, adjacent, low, dist, o),
        MonsterType::Necromancer => lemma_bounded_necromancer(m, player, map, occ, all, dead, adjacent, low, dist, o),
        MonsterType::GoblinKing => lemma_bounded_goblin_king(m, player, map, occ, all, dead, adjacent, low, dist, o),
        MonsterType::BoneDragon => lemma_bounded_bone_dragon(m, player, map, occ, all, dead, adjacent, low, dist, o),
        MonsterType::ShadowLord => lemma_bounded_shadow_lord(m, player, map, occ, all, dead, adjacent, low, dist, o),
        MonsterType::Zombie => lemma_bounded_zombie(m, player, map, occ, all, dead, adjacent, low, dist, o),
        MonsterType::Ghoul => lemma_bounded_ghoul(m, player, map, occ, all, dead, adjacent, low, dist, o),
        MonsterType::Specter => lemma_bounded_specter(m, player, map, occ, all, dead, adjacent, low, dist, o),
        MonsterType::Imp => lemma_bounded_imp(m, player, map, occ, all, dead, adjacent, low, dist, o),
        MonsterType::Demon => lemma_bounded_demon(m, player, map, occ, all, dead, adjacent, low, dist, o),
        MonsterType::Hellfire => lemma_bounded_hellfire(m, player, map, occ, all, dead, adjacent, low, dist, o),
        MonsterType::Minotaur => lemma_bounded_minotaur(m, player, map, occ, all, dead, adjacent, low, dist, o),
        MonsterType::Bear => lemma_bounded_bear(m, player, map, occ, all, dead, adjacent, low, dist, o),
        MonsterType::WolfPack => lemma_bounded_wolf_pack(m, player, map, occ, all, dead, adjacent, low, dist, o),
        MonsterType::Orc => lemma_bounded_orc(m, player, map, occ, all, dead, adjacent, low, dist, o),
        MonsterType::Bandit => lemma_bounded_bandit(m, player, map, occ, all, dead, adjacent, low, dist, o),
        MonsterType::Assassin => lemma_bounded_assassin(m, player, map, occ, all, dead, adjacent, low, dist, o),
        MonsterType::FireElemental => lemma_bounded_fire_elemental(m, player, map, occ, all, dead, adjacent, low, dist, o),
        MonsterType::EarthElemental => lemma_bounded_earth_elemental(m, player, map, occ, all, dead, adjacent, low, dist, o),
        MonsterType::IceElemental => lemma_bounded_ice_elemental(m, player, map, occ, all, dead, adjacent, low, dist, o),
        MonsterType::Golem => lemma_bounded_golem(m, player, map, occ, all, dead, adjacent, low, dist, o),
        MonsterType::Sentry => lemma_bounded_sentry(m, player, map, occ, all, dead, adjacent, low, dist, o),
        MonsterType::Bomber => lemma_bounded_bomber(m, player, map, occ, all, dead, adjacent, low, dist, o),
    }
}

proof fn lemma_bounded_goblin(m: Monster, player: (usize, usize), map: DungeonMap, occ: Seq<(usize, usize)>,
    all: Seq<(usize, usize)>, dead: Seq<usize>, adjacent: bool, low: bool, dist: int, o: Draws)
    requires
        0 <= m.attack <= 1_000_000,
        0 <= m.hp <= 1_000_000,
        1 <= m.max_hp <= 1_000_000,
        m.monster_type == MonsterType::Goblin,
    ensures
        kind_result_ok(m, kind_turn(m, player, map, occ, all, dead, adjacent, low, dist, o)),
{
    reveal(kind_turn);
    lemma_moves_bounded(map, occ, player, dist, o);
}

proof fn lemma_bounded_skeleton(m: Monster, player: (usize, usize), map: DungeonMap, occ: Seq<(usize, usize)>,
    all: Seq<(usize, usize)>, dead: Seq<usize>, adjacent: bool, low: bool, dist: int, o: Draws)
    requires
        0 <= m.attack <= 1_000_000,
        0 <= m.hp <= 1_000_000,
        1 <= m.max_hp <= 1_000_000,
        m.monster_type == MonsterType::Skeleton,
    ensures
        kind_result_ok(m, kind_turn(m, player, map, occ, all, dead, adjacent, low, dist, o)),
{
    reveal(kind_turn);
    lemma_moves_bounded(map, occ, player, dist, o);
}

proof fn lemma_bounded_troll(m: Monster, player: (usize, usize), map: DungeonMap, occ: Seq<(usize, usize)>,
    all: Seq<(usize, usize)>, dead: Seq<usize>, adjacent: bool, low: bool, dist: int, o: Draws)
    requires
        0 <= m.attack <= 1_000_000,
        0 <= m.hp <= 1_000_000,
        1 <= m.max_hp <= 1_000_000,
        m.monster_type == MonsterType::Troll,
    ensures
        kind_result_ok(m, kind_turn(m, player, map, occ, all, dead, adjacent, low, dist, o)),
{
    reveal(kind_turn);
    lemma_moves_bounded(map, occ, player, dist, o);
}

proof fn lemma_bounded_bat_swarm(m: Monster, player: (usize, usize), map: DungeonMap, occ: Seq<(usize, usize)>,
    all: Seq<(usize, usize)>, dead: Seq<usize>, adjacent: bool, low: bool, dist: int, o: Draws)
    requires
        0 <= m.attack <= 1_000_000,
        0 <= m.hp <= 1_000_000,
        1 <= m.max_hp <= 1_000_000,
        m.monster_type == MonsterType::BatSwarm,
    ensures
        kind_result_ok(m, kind_turn(m, player, map, occ, all, dead, adjacent, low, dist, o)),
{
    reveal(kind_turn);
    lemma_moves_bounded(map, occ, player, dist, o);
}

proof fn lemma_bounded_spider(m: Monster, player: (usize, usize), map: DungeonMap, occ: Seq<(usize, usize)>,
    all: Seq<(usize, usize)>, dead: Seq<usize>, adjacent: bool, low: bool, dist: int, o: Draws)
    requires
        0 <= m.attack <= 1_000_000,
        0 <= m.hp <= 1_000_000,
        1 <= m.max_hp <= 1_000_000,
        m.monster_type == MonsterType::Spider,
    ensures
        kind_result_ok(m, kind_turn(m, player, map, occ, all, dead, adjacent, low, dist, o)),
{
    reveal(kind_turn);
    lemma_moves_bounded(map, occ, player, dist, o);
}

proof fn lemma_bounded_wraith(m: Monster, player: (usize, usize), map: DungeonMap, occ: Seq<(usize, usize)>,
    all: Seq<(usize, usize)>, dead: Seq<usize>, adjacent: bool, low: bool, dist: int, o: Draws)
    requires
        0 <= m.attack <= 1_000_000,
        0 <= m.hp <= 1_000_000,
        1 <= m.max_hp <= 1_000_000,
        m.monster_type == MonsterType::Wraith,
    ensures
        kind_result_ok(m, kind_turn(m, player, map, occ, all, dead, adjacent, low, dist, o)),
{
    reveal(kind_turn);
    lemma_moves_bounded(map, occ, player, dist, o);
}

proof fn lemma_bounded_necromancer(m: Monster, player: (usize, usize), map: DungeonMap, occ: Seq<(usize, usize)>,
    all: Seq<(usize, usize)>, dead: Seq<usize>, adjacent: bool, low: bool, dist: int, o: Draws)
    requires
        0 <= m.attack <= 1_000_000,
        0 <= m.hp <= 1_000_000,
        1 <= m.max_hp <= 1_000_000,
        m.monster_type == MonsterType::Necromancer,
    ensures
        kind_result_ok(m, kind_turn(m, player, map, occ, all, dead, adjacent, low, dist, o)),
{
    reveal(kind_turn);
    lemma_moves_bounded(map, occ, player, dist, o);
}

proof fn lemma_bounded_goblin_king(m: Monster, player: (usize, usize), map: DungeonMap, occ: Seq<(usize, usize)>,
    all: Seq<(usize, usize)>, dead: Seq<usize>, adjacent: bool, low: bool, dist: int, o: Draws)
    requires
        0 <= m.attack <= 1_000_000,
        0 <= m.hp <= 1_000_000,
        1 <= m.max_hp <= 1_000_000,
        m.monster_type == MonsterType::GoblinKing,
    ensures
        kind_result_ok(m, kind_turn(m, player, map, occ, all, dead, adjacent, low, dist, o)),
{
    reveal(kind_turn);
    lemma_moves_bounded(map, occ, player, dist, o);
}

proof fn lemma_bounded_bone_dragon(m: Monster, player: (usize, usize), map: DungeonMap, occ: Seq<(usize, usize)>,
    all: Seq<(usize, usize)>, dead: Seq<usize>, adjacent: bool, low: bool, dist: int, o: Draws)
    requires
        0 <= m.attack <= 1_000_000,
        0 <= m.hp <= 1_000_000,
        1 <= m.max_hp <= 1_000_000,
        m.monster_type == MonsterType::BoneDragon,
    ensures
        kind_result_ok(m, kind_turn(m, player, map, occ, all, dead, adjacent, low, dist, o)),
{
    reveal(kind_turn);
    lemma_moves_bounded(map, occ, player, dist, o);
}

proof fn lemma_bounded_shadow_lord(m: Monster, player: (usize, usize), map: DungeonMap, occ: Seq<(usize, usize)>,
    all: Seq<(usize, usize)>, dead: Seq<usize>, adjacent: bool, low: bool, dist: int, o: Draws)
    requires
        0 <= m.attack <= 1_000_000,
        0 <= m.hp <= 1_000_000,
        1 <= m.max_hp <= 1_000_000,
        m.monster_type == MonsterType::ShadowLord,
    ensures
        kind_result_ok(m, kind_turn(m, player, map, occ, all, dead, adjacent, low, dist, o)),
{
    reveal(kind_turn);
    lemma_moves_bounded(map, occ, player, dist, o);
}

proof fn lemma_bounded_zombie(m: Monster, player: (usize, usize), map: DungeonMap, occ: Seq<(usize, usize)>,
    all: Seq<(usize, usize)>, dead: Seq<usize>, adjacent: bool, low: bool, dist: int, o: Draws)
    requires
        0 <= m.attack <= 1_000_000,
        0 <= m.hp <= 1_000_000,
        1 <= m.max_hp <= 1_000_000,
        m.monster_type == MonsterType::Zombie,
    ensures
        kind_result_ok(m, kind_turn(m, player, map, occ, all, dead, adjacent, low, dist, o)),
{
    reveal(kind_turn);
    lemma_moves_bounded(map, occ, player, dist, o);
}

proof fn lemma_bounded_ghoul(m: Monster, player: (usize, usize), map: DungeonMap, occ: Seq<(usize, usize)>,
    all: Seq<(usize, usize)>, dead: Seq<usize>, adjacent: bool, low: bool, dist: int, o: Draws)
    requires
        0 <= m.attack <= 1_000_000,
        0 <= m.hp <= 1_000_000,
        1 <= m.max_hp <= 1_000_000,
        m.monster_type == MonsterType::Ghoul,
    ensures
        kind_result_ok(m, kind_turn(m, player, map, occ, all, dead, adjacent, low, dist, o)),
{
    reveal(kind_turn);
    lemma_moves_bounded(map, occ, player, dist, o);
}

proof fn lemma_bounded_specter(m: Monster, player: (usize, usize), map: DungeonMap, occ: Seq<(usize, usize)>,
    all: Seq<(usize, usize)>, dead: Seq<usize>, adjacent: bool, low: bool, dist: int, o: Draws)
    requires
        0 <= m.attack <= 1_000_000,
        0 <= m.hp <= 1_000_000,
        1 <= m.max_hp <= 1_000_000,
        m.monster_type == MonsterType::Specter,
    ensures
        kind_result_ok(m, kind_turn(m, player, map, occ, all, dead, adjacent, low, dist, o)),
{
    reveal(kind_turn);
    lemma_moves_bounded(map, occ, player, dist, o);
}

proof fn lemma_bounded_imp(m: Monster, player: (usize, usize), map: DungeonMap, occ: Seq<(usize, usize)>,
    all: Seq<(usize, usize)>, dead: Seq<usize>, adjacent: bool, low: bool, dist: int, o: Draws)
    requires
        0 <= m.attack <= 1_000_000,
        0 <= m.hp <= 1_000_000,
        1 <= m.max_hp <= 1_000_000,
        m.monster_type == MonsterType::Imp,
    ensures
        kind_result_ok(m, kind_turn(m, player, map, occ, all, dead, adjacent, low, dist, o)),
{
    reveal(kind_turn);
    lemma_moves_bounded(map, occ, player, dist, o);
}

proof fn lemma_bounded_demon(m: Monster, player: (usize, usize), map: DungeonMap, occ: Seq<(usize, usize)>,
    all: Seq<(usize, usize)>, dead: Seq<usize>, adjacent: bool, low: bool, dist: int, o: Draws)
    requires
        0 <= m.attack <= 1_000_000,
        0 <= m.hp <= 1_000_000,
        1 <= m.max_hp <= 1_000_000,
        m.monster_type == MonsterType::Demon,
    ensures
        kind_result_ok(m, kind_turn(m, player, map, occ, all, dead, adjacent, low, dist, o)),
{
    reveal(kind_turn);
    lemma_moves_bounded(map, occ, player, dist, o);
}

proof fn lemma_bounded_hellfire(m: Monster, player: (usize, usize), map: DungeonMap, occ: Seq<(usize, usize)>,
    all: Seq<(usize, usize)>, dead: Seq<usize>, adjacent: bool, low: bool, dist: int, o: Draws)
    requires
        0 <= m.attack <= 1_000_000,
        0 <= m.hp <= 1_000_000,
        1 <= m.max_hp <= 1_000_000,
        m.monster_type == MonsterType::Hellfire,
    ensures
        kind_result_ok(m, kind_turn(m, player, map, occ, all, dead, adjacent, low, dist, o)),
{
    reveal(kind_turn);
    lemma_moves_bounded(map, occ, player, dist, o);
}

proof fn lemma_bounded_minotaur(m: Monster, player: (usize, usize), map: DungeonMap, occ: Seq<(usize, usize)>,
    all: Seq<(usize, usize)>, dead: Seq<usize>, adjacent: bool, low: bool, dist: int, o: Draws)
    requires
        0 <= m.attack <= 1_000_000,
        0 <= m.hp <= 1_000_000,
        1 <= m.max_hp <= 1_000_000,
        m.monster_type == MonsterType::Minotaur,
    ensures
        kind_result_ok(m, kind_turn(m, player, map, occ, all, dead, adjacent, low, dist, o)),
{
    reveal(kind_turn);
    lemma_moves_bounded(map, occ, player, dist, o);
}

proof fn lemma_bounded_bear(m: Monster, player: (usize, usize), map: DungeonMap, occ: Seq<(usize, usize)>,
    all: Seq<(usize, usize)>, dead: Seq<usize>, adjacent: bool, low: bool, dist: int, o: Draws)
    requires
        0 <= m.attack <= 1_000_000,
        0 <= m.hp <= 1_000_000,
        1 <= m.max_hp <= 1_000_000,
        m.monster_type == MonsterType::Bear,
    ensures
        kind_result_ok(m, kind_turn(m, player, map, occ, all, dead, adjacent, low, dist, o)),
{
    reveal(kind_turn);
    lemma_moves_bounded(map, occ, player, dist, o);
}

proof fn lemma_bounded_wolf_pack(m: Monster, player: (usize, usize), map: DungeonMap, occ: Seq<(usize, usize)>,
    all: Seq<(usize, usize)>, dead: Seq<usize>, adjacent: bool, low: bool, dist: int, o: Draws)
    requires
        0 <= m.attack <= 1_000_000,
        0 <= m.hp <= 1_000_000,
        1 <= m.max_hp <= 1_000_000,
        m.monster_type == MonsterType::WolfPack,
    ensures
        kind_result_ok(m, kind_turn(m, player, map, occ, all, dead, adjacent, low, dist, o)),
{
    reveal(kind_turn);
    lemma_moves_bounded(map, occ, player, dist, o);
}

proof fn lemma_bounded_orc(m: Monster, player: (usize, usize), map: DungeonMap, occ: Seq<(usize, usize)>,
    all: Seq<(usize, usize)>, dead: Seq<usize>, adjacent: bool, low: bool, dist: int, o: Draws)
    requires
        0 <= m.attack <= 1_000_000,
        0 <= m.hp <= 1_000_000,
        1 <= m.max_hp <= 1_000_000,
        m.monster_type == MonsterType::Orc,
    ensures
        kind_result_ok(m, kind_turn(m, player, map, occ, all, dead, adjacent, low, dist, o)),
{
    reveal(kind_turn);
    lemma_moves_bounded(map, occ, player, dist, o);
}

proof fn lemma_bounded_bandit(m: Monster, player: (usize, usize), map: DungeonMap, occ: Seq<(usize, usize)>,
    all: Seq<(usize, usize)>, dead: Seq<usize>, adjacent: bool, low: bool, dist: int, o: Draws)
    requires
        0 <= m.attack <= 1_000_000,
        0 <= m.hp <= 1_000_000,
        1 <= m.max_hp <= 1_000_000,
        m.monster_type == MonsterType::Bandit,
    ensures
        kind_result_ok(m, kind_turn(m, player, map, occ, all, dead, adjacent, low, dist, o)),
{
    reveal(kind_turn);
    lemma_moves_bounded(map, occ, player, dist, o);
}

proof fn lemma_bounded_assassin(m: Monster, player: (usize, usize), map: DungeonMap, occ: Seq<(usize, usize)>,
    all: Seq<(usize, usize)>, dead: Seq<usize>, adjacent: bool, low: bool, dist: int, o: Draws)
    requires
        0 <= m.attack <= 1_000_000,
        0 <= m.hp <= 1_000_000,
        1 <= m.max_hp <= 1_000_000,
        m.monster_type == MonsterType::Assassin,
    ensures
        kind_result_ok(m, kind_turn(m, player, map, occ, all, dead, adjacent, low, dist, o)),
{
    reveal(kind_turn);
    lemma_moves_bounded(map, occ, player, dist, o);
}

proof fn lemma_bounded_fire_elemental(m: Monster, player: (usize, usize), map: DungeonMap, occ: Seq<(usize, usize)>,
    all: Seq<(usize, usize)>, dead: Seq<usize>, adjacent: bool, low: bool, dist: int, o: Draws)
    requires
        0 <= m.attack <= 1_000_000,
        0 <= m.hp <= 1_000_000,
        1 <= m.max_hp <= 1_000_000,
        m.monster_type == MonsterType::FireElemental,
    ensures
        kind_result_ok(m, kind_turn(m, player, map, occ, all, dead, adjacent, low, dist, o)),
{
    reveal(kind_turn);
    lemma_moves_bounded(map, occ, player, dist, o);
}

proof fn lemma_bounded_earth_elemental(m: Monster, player: (usize, usize), map: DungeonMap, occ: Seq<(usize, usize)>,
    all: Seq<(usize, usize)>, dead: Seq<usize>, adjacent: bool, low: bool, dist: int, o: Draws)
    requires
        0 <= m.attack <= 1_000_000,
        0 <= m.hp <= 1_000_000,
        1 <= m.max_hp <= 1_000_000,
        m.monster_type == MonsterType::EarthElemental,
    ensures
        kind_result_ok(m, kind_turn(m, player, map, occ, all, dead, adjacent, low, dist, o)),
{
    reveal(kind_turn);
    lemma_moves_bounded(map, occ, player, dist, o);
}

proof fn lemma_bounded_ice_elemental(m: Monster, player: (usize, usize), map: DungeonMap, occ: Seq<(usize, usize)>,
    all: Seq<(usize, usize)>, dead: Seq<usize>, adjacent: bool, low: bool, dist: int, o: Draws)
    requires
        0 <= m.attack <= 1_000_000,
        0 <= m.hp <= 1_000_000,
        1 <= m.max_hp <= 1_000_000,
        m.monster_type == MonsterType::IceElemental,
    ensures
        kind_result_ok(m, kind_turn(m, player, map, occ, all, dead, adjacent, low, dist, o)),
{
    reveal(kind_turn);
    lemma_moves_bounded(map, occ, player, dist, o);
}

proof fn lemma_bounded_golem(m: Monster, player: (usize, usize), map: DungeonMap, occ: Seq<(usize, usize)>,
    all: Seq<(usize, usize)>, dead: Seq<usize>, adjacent: bool, low: bool, dist: int, o: Draws)
    requires
        0 <= m.attack <= 1_000_000,
        0 <= m.hp <= 1_000_000,
        1 <= m.max_hp <= 1_000_000,
        m.monster_type == MonsterType::Golem,
    ensures
        kind_result_ok(m, kind_turn(m, player, map, occ, all, dead, adjacent, low, dist, o)),
{
    reveal(kind_turn);
    lemma_moves_bounded(map, occ, player, dist, o);
}

proof fn lemma_bounded_sentry(m: Monster, player: (usize, usize), map: DungeonMap, occ: Seq<(usize, usize)>,
    all: Seq<(usize, usize)>, dead: Seq<usize>, adjacent: bool, low: bool, dist: int, o: Draws)
    requires
        0 <= m.attack <= 1_000_000,
        0 <= m.hp <= 1_000_000,
        1 <= m.max_hp <= 1_000_000,
        m.monster_type == MonsterType::Sentry,
    ensures
        kind_result_ok(m, kind_turn(m, player, map, occ, all, dead, adjacent, low, dist, o)),
{
    reveal(kind_turn);
    lemma_moves_bounded(map, occ, player, dist, o);
}

proof fn lemma_bounded_bomber(m: Monster, player: (usize, usize), map: DungeonMap, occ: Seq<(usize, usize)>,
    all: Seq<(usize, usize)>, dead: Seq<usize>, adjacent: bool, low: bool, dist: int, o: Draws)
    requires
        0 <= m.attack <= 1_000_000,
        0 <= m.hp <= 1_000_000,
        1 <= m.max_hp <= 1_000_000,
        m.monster_type == MonsterType::Bomber,
    ensures
        kind_result_ok(m, kind_turn(m, player, map, occ, all, dead, adjacent, low, dist, o)),
{
    reveal(kind_turn);
    lemma_moves_bounded(map, occ, player, dist, o);
}

} // verus!
verus! {

/// A decision `r` of monster `m` keeps its summon limit, raises the count
/// by one exactly when it raises one of `dead` or calls help as a boss
/// (only while under the limit), and keeps it otherwise.
pub open spec fn summons_kept(m: Monster, r: (Monster, Act), dead: Seq<usize>) -> bool {
    &&& r.0.summon_max == m.summon_max
    &&& (match r.1 {
        Act::Resurrect(d) => dead.contains(d) && m.summon_count < m.summon_max && r.0.summon_count == m.summon_count + 1,
        Act::BossSummon => m.summon_count < m.summon_max && r.0.summon_count == m.summon_count + 1,
        _ => r.0.summon_count == m.summon_count,
    })
}

/// Summons are counted for the kinds Goblin, Skeleton, Troll, BatSwarm.
#[verifier::rlimit(100)]
#[verifier::spinoff_prover]
proof fn lemma_summons_kinds_0(m: Monster, player: (usize, usize), map: DungeonMap, occ: Seq<(usize, usize)>,
    all: Seq<(usize, usize)>, dead: Seq<usize>, adjacent: bool, low: bool, dist: int, o: Draws)
    requires
        m.monster_type == MonsterType::Goblin || m.monster_type == MonsterType::Skeleton || m.monster_type == MonsterType::Troll || m.monster_type == MonsterType::BatSwarm,
        dead.len() > 0 ==> o.pick < dead.len(),
    ensures
        summons_kept(m, kind_turn(m, player, map, occ, all, dead, adjacent, low, dist, o), dead),
{
    assert(dead.len() > 0 ==> dead.contains(dead[o.pick as int]));
    match m.monster_type {
        MonsterType::Goblin => {
            assert(kind_turn(m, player, map, occ, all, dead, adjacent, low, dist, o) == goblin_spec(m, player, map, occ, all, adjacent, low, o)) by { reveal(kind_turn); }
        },
        MonsterType::Skeleton => {
            assert(kind_turn(m, player, map, occ, all, dead, adjacent, low, dist, o) == skeleton_spec(m, player, map, occ, adjacent, dist, o)) by { reveal(kind_turn); }
        },
        MonsterType::Troll => {
            assert(kind_turn(m, player, map, occ, all, dead, adjacent, low, dist, o) == troll_spec(m, map, occ, adjacent, low, o)) by { reveal(kind_turn); }
        },
        MonsterType::BatSwarm => {
            assert(kind_turn(m, player, map, occ, all, dead, adjacent, low, dist, o) == bat_spec(m, map, occ, adjacent, o)) by { reveal(kind_turn); }
        },
        _ => {},
    }
}

/// Summons are counted for the kinds Spider, Wraith, Necromancer, GoblinKing.
#[verifier::rlimit(100)]
#[verifier::spinoff_prover]
proof fn lemma_summons_kinds_1(m: Monster, player: (usize, usize), map: DungeonMap, occ: Seq<(usize, usize)>,
    all: Seq<(usize, usize)>, dead: Seq<usize>, adjacent: bool, low: bool, dist: int, o: Draws)
    requires
        m.monster_type == MonsterType::Spider || m.monster_type == MonsterType::Wraith || m.monster_type == MonsterType::Necromancer || m.monster_type == MonsterType::GoblinKing,
        dead.len() > 0 ==> o.pick < dead.len(),
    ensures
        summons_kept(m, kind_turn(m, player, map, occ, all, dead, adjacent, low, dist, o), dead),
{
    assert(dead.len() > 0 ==> dead.contains(dead[o.pick as int]));
    match m.monster_type {
        MonsterType::Spider => {
            assert(kind_turn(m, player, map, occ, all, dead, adjacent, low, dist, o) == spider_spec(m, player, adjacent, dist, o)) by { reveal(kind_turn); }
        },
        MonsterType::Wraith => {
            assert(kind_turn(m, player, map, occ, all, dead, adjacent, low, dist, o) == wraith_spec(m, player, map, occ, adjacent, dist, o)) by { reveal(kind_turn); }
        },
        MonsterType::Necromancer => {
            assert(kind_turn(m, player, map, occ, all, dead, adjacent, low, dist, o) == necromancer_spec(m, player, map, occ, dead, adjacent, dist, o)) by { reveal(kind_turn); }
        },
        MonsterType::GoblinKing => {
            assert(kind_turn(m, player, map, occ, all, dead, adjacent, low, dist, o) == goblin_king_spec(m, map, occ, adjacent, dist, o)) by { reveal(kind_turn); }
        },
        _ => {},
    }
}

/// Summons are counted for the kinds BoneDragon, ShadowLord, Zombie, Ghoul.
#[verifier::rlimit(100)]
#[verifier::spinoff_prover]
proof fn lemma_summons_kinds_2(m: Monster, player: (usize, usize), map: DungeonMap, occ: Seq<(usize, usize)>,
    all: Seq<(usize, usize)>, dead: Seq<usize>, adjacent: bool, low: bool, dist: int, o: Draws)
    requires
        m.monster_type == MonsterType::BoneDragon || m.monster_type == MonsterType::ShadowLord || m.monster_type == MonsterType::Zombie || m.monster_type == MonsterType::Ghoul,
        dead.len() > 0 ==> o.pick < dead.len(),
    ensures
        summons_kept(m, kind_turn(m, player, map, occ, all, dead, adjacent, low, dist, o), dead),
{
    assert(dead.len() > 0 ==> dead.contains(dead[o.pick as int]));
    match m.monster_type {
        MonsterType::BoneDragon => {
            assert(kind_turn(m, player, map, occ, all, dead, adjacent, low, dist, o) == bone_dragon_spec(m, player, map, occ, adjacent, dist, o)) by { reveal(kind_turn); }
        },
        MonsterType::ShadowLord => {
            assert(kind_turn(m, player, map, occ, all, dead, adjacent, low, dist, o) == shadow_lord_spec(m, player, map, adjacent, dist)) by { reveal(kind_turn); }
        },
        MonsterType::Zombie => {
            let mz = Monster { hp: if m.hp + 1 < m.max_hp { (m.hp + 1) as i32 } else { m.max_hp }, ..m };
            assert(kind_turn(m, player, map, occ, all, dead, adjacent, low, dist, o) == basic_spec(mz, map, occ, adjacent, dist, 8, Act::Melee(mz.attack), o)) by { reveal(kind_turn); }
        },
        MonsterType::Ghoul => {
            assert(kind_turn(m, player, map, occ, all, dead, adjacent, low, dist, o) == basic_spec(m, map, occ, adjacent, dist, 10, Act::Poison(m.attack, 3), o)) by { reveal(kind_turn); }
        },
        _ => {},
    }
}

/// Summons are counted for the kinds Specter, Imp, Demon, Hellfire.
#[verifier::rlimit(100)]
#[verifier::spinoff_prover]
proof fn lemma_summons_kinds_3(m: Monster, player: (usize, usize), map: DungeonMap, occ: Seq<(usize, usize)>,
    all: Seq<(usize, usize)>, dead: Seq<usize>, adjacent: bool, low: bool, dist: int, o: Draws)
    requires
        m.monster_type == MonsterType::Specter || m.monster_type == MonsterType::Imp || m.monster_type == MonsterType::Demon || m.monster_type == MonsterType::Hellfire,
        dead.len() > 0 ==> o.pick < dead.len(),
    ensures
        summons_kept(m, kind_turn(m, player, map, occ, all, dead, adjacent, low, dist, o), dead),
{
    assert(dead.len() > 0 ==> dead.contains(dead[o.pick as int]));
    match m.monster_type {
        MonsterType::Specter => {
            assert(kind_turn(m, player, map, occ, all, dead, adjacent, low, dist, o) == specter_spec(m, player, map, adjacent, dist)) by { reveal(kind_turn); }
        },
        MonsterType::Imp => {
            assert(kind_turn(m, player, map, occ, all, dead, adjacent, low, dist, o) == shooter_spec(m, player, map, occ, adjacent, dist, 5, 3, 8, o)) by { reveal(kind_turn); }
        },
        MonsterType::Demon => {
            assert(kind_turn(m, player, map, occ, all, dead, adjacent, low, dist, o) == basic_spec(m, map, occ, adjacent, dist, 10, Act::Melee(m.attack), o)) by { reveal(kind_turn); }
        },
        MonsterType::Hellfire => {
            assert(kind_turn(m, player, map, occ, all, dead, adjacent, low, dist, o) == basic_spec(m, map, occ, adjacent, dist, 8, Act::Poison(m.attack, 2), o)) by { reveal(kind_turn); }
        },
        _ => {},
    }
}

/// Summons are counted for the kinds Minotaur, Bear, WolfPack, Orc.
#[verifier::rlimit(100)]
#[verifier::spinoff_prover]
proof fn lemma_summons_kinds_4(m: Monster, player: (usize, usize), map: DungeonMap, occ: Seq<(usize, usize)>,
    all: Seq<(usize, usize)>, dead: Seq<usize>, adjacent: bool, low: bool, dist: int, o: Draws)
    requires
        m.monster_type == MonsterType::Minotaur || m.monster_type == MonsterType::Bear || m.monster_type == MonsterType::WolfPack || m.monster_type == MonsterType::Orc,
        dead.len() > 0 ==> o.pick < dead.len(),
    ensures
        summons_kept(m, kind_turn(m, player, map, occ, all, dead, adjacent, low, dist, o), dead),
{
    assert(dead.len() > 0 ==> dead.contains(dead[o.pick as int]));
    match m.monster_type {
        MonsterType::Minotaur => {
            assert(kind_turn(m, player, map, occ, all, dead, adjacent, low, dist, o) == basic_spec(m, map, occ, adjacent, dist, 10, Act::Melee(m.attack), o)) by { reveal(kind_turn); }
        },
        MonsterType::Bear => {
            assert(kind_turn(m, player, map, occ, all, dead, adjacent, low, dist, o) == basic_spec(m, map, occ, adjacent, dist, 8,
            Act::Melee(if low { (m.attack * 2) as i32 } else { m.attack }), o)) by { reveal(kind_turn); }
        },
        MonsterType::WolfPack => {
            assert(kind_turn(m, player, map, occ, all, dead, adjacent, low, dist, o) == basic_spec(m, map, occ, adjacent, dist, 12, Act::Melee(m.attack), o)) by { reveal(kind_turn); }
        },
        MonsterType::Orc => {
            assert(kind_turn(m, player, map, occ, all, dead, adjacent, low, dist, o) == basic_spec(m, map, occ, adjacent, dist, 10, Act::Melee(m.attack), o)) by { reveal(kind_turn); }
        },
        _ => {},
    }
}

/// Summons are counted for the kinds Bandit, Assassin, FireElemental, EarthElemental.
#[verifier::rlimit(100)]
#[verifier::spinoff_prover]
proof fn lemma_summons_kinds_5(m: Monster, player: (usize, usize), map: DungeonMap, occ: Seq<(usize, usize)>,
    all: Seq<(usize, usize)>, dead: Seq<usize>, adjacent: bool, low: bool, dist: int, o: Draws)
    requires
        m.monster_type == MonsterType::Bandit || m.monster_type == MonsterType::Assassin || m.monster_type == MonsterType::FireElemental || m.monster_type == MonsterType::EarthElemental,
        dead.len() > 0 ==> o.pick < dead.len(),
    ensures
        summons_kept(m, kind_turn(m, player, map, occ, all, dead, adjacent, low, dist, o), dead),
{
    assert(dead.len() > 0 ==> dead.contains(dead[o.pick as int]));
    match m.monster_type {
        MonsterType::Bandit => {
            assert(kind_turn(m, player, map, occ, all, dead, adjacent, low, dist, o) == basic_spec(m, map, occ, adjacent, dist, 8, Act::Drain(m.attack), o)) by { reveal(kind_turn); }
        },
        MonsterType::Assassin => {
            assert(kind_turn(m, player, map, occ, all, dead, adjacent, low, dist, o) == basic_spec(m, map, occ, adjacent, dist, 6, Act::Melee(m.attack), o)) by { reveal(kind_turn); }
        },
        MonsterType::FireElemental => {
            assert(kind_turn(m, player, map, occ, all, dead, adjacent, low, dist, o) == basic_spec(m, map, occ, adjacent, dist, 8, Act::Poison(m.attack, 2), o)) by { reveal(kind_turn); }
        },
        MonsterType::EarthElemental => {
            assert(kind_turn(m, player, map, occ, all, dead, adjacent, low, dist, o) == basic_spec(m, map, occ, adjacent, dist, 8, Act::Melee(m.attack), o)) by { reveal(kind_turn); }
        },
        _ => {},
    }
}

/// Summons are counted for the kinds IceElemental, Golem, Sentry, Bomber.
#[verifier::rlimit(100)]
#[verifier::spinoff_prover]
proof fn lemma_summons_kinds_6(m: Monster, player: (usize, usize), map: DungeonMap, occ: Seq<(usize, usize)>,
    all: Seq<(usize, usize)>, dead: Seq<usize>, adjacent: bool, low: bool, dist: int, o: Draws)
    requires
        m.monster_type == MonsterType::IceElemental || m.monster_type == MonsterType::Golem || m.monster_type == MonsterType::Sentry || m.monster_type == MonsterType::Bomber,
        dead.len() > 0 ==> o.pick < dead.len(),
    ensures
        summons_kept(m, kind_turn(m, player, map, occ, all, dead, adjacent, low, dist, o), dead),
{
    assert(dead.len() > 0 ==> dead.contains(dead[o.pick as int]));
    match m.monster_type {
        MonsterType::IceElemental => {
            assert(kind_turn(m, player, map, occ, all, dead, adjacent, low, dist, o) == basic_spec(m, map, occ, adjacent, dist, 8, Act::Poison(m.attack, 2), o)) by { reveal(kind_turn); }
        },
        MonsterType::Golem => {
            assert(kind_turn(m, player, map, occ, all, dead, adjacent, low, dist, o) == golem_spec(m, map, occ, adjacent, dist, o)) by { reveal(kind_turn); }
        },
        MonsterType::Sentry => {
            assert(kind_turn(m, player, map, occ, all, dead, adjacent, low, dist, o) == shooter_spec(m, player, map, occ, adjacent, dist, 6, 2, -1, o)) by { reveal(kind_turn); }
        },
        MonsterType::Bomber => {
            assert(kind_turn(m, player, map, occ, all, dead, adjacent, low, dist, o) == basic_spec(m, map, occ, adjacent, dist, 6, Act::Melee((m.attack * 2) as i32), o)) by { reveal(kind_turn); }
        },
        _ => {},
    }
}

/// Summons are counted: a monster's decision never changes how many it
/// may summon, raises its count by one exactly when it raises one of the
/// dead (always one of `dead`) or calls help as a boss, and only while under
/// its limit, so the count stays within the limit.
pub proof fn lemma_summons_counted(m: Monster, player: (usize, usize), map: DungeonMap, occ: Seq<(usize, usize)>,
    all: Seq<(usize, usize)>, dead: Seq<usize>, o: Draws)
    requires
        m.summon_count <= m.summon_max,
        draws_ok(look_around(m, player, map), map, player, occ, all, dead, o),
    ensures
        summons_kept(m, monster_turn(m, player, map, occ, all, dead, o), dead),
        monster_turn(m, player, map, occ, all, dead, o).0.summon_count <= m.summon_max,
{
    let m1 = look_around(m, player, map);
    let dist = manhattan(m.x as int, m.y as int, player.0 as int, player.1 as int);
    let adjacent = dist <= 1 && pos_of(m) != player;
    let low = hp_percent(m) < 30;
    if m1.monster_type == MonsterType::Goblin || m1.monster_type == MonsterType::Skeleton || m1.monster_type == MonsterType::Troll || m1.monster_type == MonsterType::BatSwarm {
        lemma_summons_kinds_0(m1, player, map, occ, all, dead, adjacent, low, dist, o);
    }
    if m1.monster_type == MonsterType::Spider || m1.monster_type == MonsterType::Wraith || m1.monster_type == MonsterType::Necromancer || m1.monster_type == MonsterType::GoblinKing {
        lemma_summons_kinds_1(m1, player, map, occ, all, dead, adjacent, low, dist, o);
    }
    if m1.monster_type == MonsterType::BoneDragon || m1.monster_type == MonsterType::ShadowLord || m1.monster_type == MonsterType::Zombie || m1.monster_type == MonsterType::Ghoul {
        lemma_summons_kinds_2(m1, player, map, occ, all, dead, adjacent, low, dist, o);
    }
    if m1.monster_type == MonsterType::Specter || m1.monster_type == MonsterType::Imp || m1.monster_type == MonsterType::Demon || m1.monster_type == MonsterType::Hellfire {
        lemma_summons_kinds_3(m1, player, map, occ, all, dead, adjacent, low, dist, o);
    }
    if m1.monster_type == MonsterType::Minotaur || m1.monster_type == MonsterType::Bear || m1.monster_type == MonsterType::WolfPack || m1.monster_type == MonsterType::Orc {
        lemma_summons_kinds_4(m1, player, map, occ, all, dead, adjacent, low, dist, o);
    }
    if m1.monster_type == MonsterType::Bandit || m1.monster_type == MonsterType::Assassin || m1.monster_type == MonsterType::FireElemental || m1.monster_type == MonsterType::EarthElemental {
        lemma_summons_kinds_5(m1, player, map, occ, all, dead, adjacent, low, dist, o);
    }
    if m1.monster_type == MonsterType::IceElemental || m1.monster_type == MonsterType::Golem || m1.monster_type == MonsterType::Sentry || m1.monster_type == MonsterType::Bomber {
        lemma_summons_kinds_6(m1, player, map, occ, all, dead, adjacent, low, dist, o);
    }
}

/// The damage of a blow, a poisoned blow or a draining blow; `None` for
/// any other act.
pub open spec fn strike_damage(a: Act) -> Option<int> {
    match a {
        Act::Melee(d) => Some(d as int),
        Act::Poison(d, _) => Some(d as int),
        Act::Drain(d) => Some(d as int),
        _ => None,
    }
}

/// The kinds that strike whenever they stand next to the player: all but
/// the troll and the wraith (which rest on some turns), the golem (which
/// acts every other turn) and the Goblin King and Shadow Lord (whose
/// summons and pulses come first).
pub open spec fn strikes_when_adjacent(t: MonsterType) -> bool {
    !(t == MonsterType::Troll || t == MonsterType::Wraith || t == MonsterType::Golem
        || t == MonsterType::GoblinKing || t == MonsterType::ShadowLord)
}

/// The damage such a monster strikes with next to the player: its attack,
/// twice that for a bomber, and for a bear at low HP.
pub open spec fn adjacent_blow(m: Monster, low: bool) -> int {
    if m.monster_type == MonsterType::Bomber || (m.monster_type == MonsterType::Bear && low) { 2 * m.attack } else { m.attack as int }
}

/// A monster next to the player (one side step away, not on the player's
/// cell) of a kind that strikes when adjacent strikes on its turn, whatever
/// the searches and dice give: a blow (poisoned or draining for some kinds)
/// with its attack (see `adjacent_blow`).
#[verifier::rlimit(100)]
#[verifier::spinoff_prover]
pub proof fn lemma_adjacent_strikes(m: Monster, player: (usize, usize), map: DungeonMap, occ: Seq<(usize, usize)>,
    all: Seq<(usize, usize)>, dead: Seq<usize>, o: Draws)
    requires
        manhattan(m.x as int, m.y as int, player.0 as int, player.1 as int) <= 1,
        pos_of(m) != player,
        strikes_when_adjacent(m.monster_type),
        0 <= m.attack <= 1_000_000,
    ensures
        strike_damage(monster_turn(m, player, map, occ, all, dead, o).1) == Some(adjacent_blow(m, hp_percent(m) < 30)),
{
    reveal(kind_turn);
    let m1 = look_around(m, player, map);
    assert(m1.monster_type == m.monster_type && m1.attack == m.attack);
}

/// The other kinds next to the player either strike, or wait out a
/// resting turn, or (bosses) call help or send out a pulse; a wraith that
/// is not phasing is among them. None of them steps away or wanders.
#[verifier::rlimit(100)]
#[verifier::spinoff_prover]
pub proof fn lemma_adjacent_strikes_or_waits(m: Monster, player: (usize, usize), map: DungeonMap, occ: Seq<(usize, usize)>,
    all: Seq<(usize, usize)>, dead: Seq<usize>, o: Draws)
    requires
        manhattan(m.x as int, m.y as int, player.0 as int, player.1 as int) <= 1,
        pos_of(m) != player,
        !strikes_when_adjacent(m.monster_type),
        m.monster_type == MonsterType::Wraith ==> !m.is_phasing,
        0 <= m.attack <= 1_000_000,
        0 <= m.turn_parity <= 1_000_000_000,
        0 <= m.boss_tick <= 1_000_000_000,
        -1_000_000 <= m.summon_count <= 1_000_000,
    ensures
        ({
            let a = monster_turn(m, player, map, occ, all, dead, o).1;
            strike_damage(a) is Some || a == Act::Nothing || a == Act::BossSummon || a is Pulse
        }),
{
    reveal(kind_turn);
    let m1 = look_around(m, player, map);
    assert(m1.monster_type == m.monster_type && m1.attack == m.attack && m1.is_phasing == m.is_phasing);
}

/// A move to (x, y) from where `m` stands is at most one side step onto
/// a walkable cell (staying put counts); other acts move nothing this way.
pub open spec fn at_most_one_step(m: Monster, a: Act, map: DungeonMap) -> bool {
    match a {
        Act::MoveTo(x, y) => (x == m.x && y == m.y)
            || (adjacent4((m.x as int, m.y as int), (x as int, y as int)) && walkable(map, x as int, y as int)),
        _ => true,
    }
}

/// The neighbour fleeing picks is one side step away, onto a walkable
/// cell.
proof fn lemma_flee_pick_steps(p: (usize, usize), target: (usize, usize), map: DungeonMap, occ: Seq<(usize, usize)>, k: int,
    best: Option<(usize, usize)>, best_d: int)
    requires
        map_wf(map),
        p.0 < map.width && p.1 < map.height,
        best matches Some(b) ==> adjacent4((p.0 as int, p.1 as int), (b.0 as int, b.1 as int)) && walkable(map, b.0 as int, b.1 as int),
    ensures
        flee_pick(p, target, map, occ, k, best, best_d) matches Some(b) ==>
            adjacent4((p.0 as int, p.1 as int), (b.0 as int, b.1 as int)) && walkable(map, b.0 as int, b.1 as int),
    decreases 4 - k,
{
    if 0 <= k < 4 {
        let n = side_neighbour(p.0, p.1, k);
        if walkable(map, n.0 as int, n.1 as int) && !occ.contains(n) {
            let d = manhattan(n.0 as int, n.1 as int, target.0 as int, target.1 as int);
            if d > best_d {
                lemma_flee_pick_steps(p, target, map, occ, k + 1, Some(n), d);
            } else {
                lemma_flee_pick_steps(p, target, map, occ, k + 1, best, best_d);
            }
        } else {
            lemma_flee_pick_steps(p, target, map, occ, k + 1, best, best_d);
        }
    }
}

/// The neighbour an approach picks is one side step away, onto a walkable
/// cell.
proof fn lemma_approach_pick_steps(m: Monster, player: (usize, usize), map: DungeonMap, k: int,
    best: Option<(usize, usize)>, best_d: int)
    requires
        map_wf(map),
        m.x < map.width && m.y < map.height,
        best matches Some(b) ==> adjacent4((m.x as int, m.y as int), (b.0 as int, b.1 as int)) && walkable(map, b.0 as int, b.1 as int),
    ensures
        approach_pick(m, player, map, k, best, best_d) matches Some(b) ==>
            adjacent4((m.x as int, m.y as int), (b.0 as int, b.1 as int)) && walkable(map, b.0 as int, b.1 as int),
    decreases 4 - k,
{
    if 0 <= k < 4 {
        let n = side_neighbour(m.x, m.y, k);
        if walkable(map, n.0 as int, n.1 as int) && manhattan(n.0 as int, n.1 as int, player.0 as int, player.1 as int) < best_d {
            lemma_approach_pick_steps(m, player, map, k + 1, Some(n), manhattan(n.0 as int, n.1 as int, player.0 as int, player.1 as int));
        } else {
            lemma_approach_pick_steps(m, player, map, k + 1, best, best_d);
        }
    }
}

/// Wandering and fleeing move at most one side step, onto a walkable cell.
proof fn lemma_wander_flee_steps(m: Monster, player: (usize, usize), map: DungeonMap, occ: Seq<(usize, usize)>, o: Draws)
    requires
        map_wf(map),
        monster_place_ok(m, map),
        o.dir < 4,
        m.last_known_player_pos matches Some(lp) ==> path_ok(map, pos_of(m), lp, occ, o.back),
    ensures
        forall|q: Monster| q.x == m.x && q.y == m.y && q.last_known_player_pos == m.last_known_player_pos
            ==> at_most_one_step(m, (#[trigger] wander_spec(q, map, occ, o)).1, map),
        forall|q: Monster, t: (usize, usize)| q.x == m.x && q.y == m.y
            ==> at_most_one_step(m, #[trigger] flee_act(q, t, map, occ), map),
        forall|q: Monster| q.x == m.x && q.y == m.y
            ==> at_most_one_step(m, #[trigger] random_step(q, map, occ, o.dir as int), map),
{
    assert forall|q: Monster, t: (usize, usize)| q.x == m.x && q.y == m.y
        implies at_most_one_step(m, #[trigger] flee_act(q, t, map, occ), map) by {
        lemma_flee_pick_steps(pos_of(q), t, map, occ, 0, None, manhattan(q.x as int, q.y as int, t.0 as int, t.1 as int));
    }
}

/// Moves stay one side step for the kinds Goblin, Skeleton, Troll, BatSwarm.
#[verifier::rlimit(100)]
#[verifier::spinoff_prover]
proof fn lemma_steps_kinds_0(m: Monster, player: (usize, usize), map: DungeonMap, occ: Seq<(usize, usize)>,
    all: Seq<(usize, usize)>, dead: Seq<usize>, adjacent: bool, low: bool, dist: int, o: Draws)
    requires
        m.monster_type == MonsterType::Goblin || m.monster_type == MonsterType::Skeleton || m.monster_type == MonsterType::Troll || m.monster_type == MonsterType::BatSwarm,
        map_wf(map),
        monster_place_ok(m, map),
        player.0 < map.width && player.1 < map.height,
        draws_ok(m, map, player, occ, all, dead, o),
    ensures
        at_most_one_step(m, kind_turn(m, player, map, occ, all, dead, adjacent, low, dist, o).1, map),
{
    lemma_wander_flee_steps(m, player, map, occ, o);
    let m2 = with_behavior(Monster { boss_tick: (m.boss_tick + 1) as i32, ..m }, BehaviorState::Chase);
    lemma_approach_pick_steps(m2, player, map, 0, None, dist);
    match m.monster_type {
        MonsterType::Goblin => {
            assert(kind_turn(m, player, map, occ, all, dead, adjacent, low, dist, o) == goblin_spec(m, player, map, occ, all, adjacent, low, o)) by { reveal(kind_turn); }
        },
        MonsterType::Skeleton => {
            assert(kind_turn(m, player, map, occ, all, dead, adjacent, low, dist, o) == skeleton_spec(m, player, map, occ, adjacent, dist, o)) by { reveal(kind_turn); }
        },
        MonsterType::Troll => {
            assert(kind_turn(m, player, map, occ, all, dead, adjacent, low, dist, o) == troll_spec(m, map, occ, adjacent, low, o)) by { reveal(kind_turn); }
        },
        MonsterType::BatSwarm => {
            assert(kind_turn(m, player, map, occ, all, dead, adjacent, low, dist, o) == bat_spec(m, map, occ, adjacent, o)) by { reveal(kind_turn); }
        },
        _ => {},
    }
}

/// Moves stay one side step for the kinds Spider, Wraith, Necromancer, GoblinKing.
#[verifier::rlimit(100)]
#[verifier::spinoff_prover]
proof fn lemma_steps_kinds_1(m: Monster, player: (usize, usize), map: DungeonMap, occ: Seq<(usize, usize)>,
    all: Seq<(usize, usize)>, dead: Seq<usize>, adjacent: bool, low: bool, dist: int, o: Draws)
    requires
        m.monster_type == MonsterType::Spider || m.monster_type == MonsterType::Wraith || m.monster_type == MonsterType::Necromancer || m.monster_type == MonsterType::GoblinKing,
        map_wf(map),
        monster_place_ok(m, map),
        player.0 < map.width && player.1 < map.height,
        draws_ok(m, map, player, occ, all, dead, o),
    ensures
        at_most_one_step(m, kind_turn(m, player, map, occ, all, dead, adjacent, low, dist, o).1, map),
{
    lemma_wander_flee_steps(m, player, map, occ, o);
    let m2 = with_behavior(Monster { boss_tick: (m.boss_tick + 1) as i32, ..m }, BehaviorState::Chase);
    lemma_approach_pick_steps(m2, player, map, 0, None, dist);
    match m.monster_type {
        MonsterType::Spider => {
            assert(kind_turn(m, player, map, occ, all, dead, adjacent, low, dist, o) == spider_spec(m, player, adjacent, dist, o)) by { reveal(kind_turn); }
        },
        MonsterType::Wraith => {
            assert(kind_turn(m, player, map, occ, all, dead, adjacent, low, dist, o) == wraith_spec(m, player, map, occ, adjacent, dist, o)) by { reveal(kind_turn); }
        },
        MonsterType::Necromancer => {
            assert(kind_turn(m, player, map, occ, all, dead, adjacent, low, dist, o) == necromancer_spec(m, player, map, occ, dead, adjacent, dist, o)) by { reveal(kind_turn); }
        },
        MonsterType::GoblinKing => {
            assert(kind_turn(m, player, map, occ, all, dead, adjacent, low, dist, o) == goblin_king_spec(m, map, occ, adjacent, dist, o)) by { reveal(kind_turn); }
        },
        _ => {},
    }
}

/// Moves stay one side step for the kinds BoneDragon, ShadowLord, Zombie, Ghoul.
#[verifier::rlimit(100)]
#[verifier::spinoff_prover]
proof fn lemma_steps_kinds_2(m: Monster, player: (usize, usize), map: DungeonMap, occ: Seq<(usize, usize)>,
    all: Seq<(usize, usize)>, dead: Seq<usize>, adjacent: bool, low: bool, dist: int, o: Draws)
    requires
        m.monster_type == MonsterType::BoneDragon || m.monster_type == MonsterType::ShadowLord || m.monster_type == MonsterType::Zombie || m.monster_type == MonsterType::Ghoul,
        map_wf(map),
        monster_place_ok(m, map),
        player.0 < map.width && player.1 < map.height,
        draws_ok(m, map, player, occ, all, dead, o),
    ensures
        at_most_one_step(m, kind_turn(m, player, map, occ, all, dead, adjacent, low, dist, o).1, map),
{
    lemma_wander_flee_steps(m, player, map, occ, o);
    let m2 = with_behavior(Monster { boss_tick: (m.boss_tick + 1) as i32, ..m }, BehaviorState::Chase);
    lemma_approach_pick_steps(m2, player, map, 0, None, dist);
    match m.monster_type {
        MonsterType::BoneDragon => {
            assert(kind_turn(m, player, map, occ, all, dead, adjacent, low, dist, o) == bone_dragon_spec(m, player, map, occ, adjacent, dist, o)) by { reveal(kind_turn); }
        },
        MonsterType::ShadowLord => {
            assert(kind_turn(m, player, map, occ, all, dead, adjacent, low, dist, o) == shadow_lord_spec(m, player, map, adjacent, dist)) by { reveal(kind_turn); }
        },
        MonsterType::Zombie => {
            let mz = Monster { hp: if m.hp + 1 < m.max_hp { (m.hp + 1) as i32 } else { m.max_hp }, ..m };
            assert(kind_turn(m, player, map, occ, all, dead, adjacent, low, dist, o) == basic_spec(mz, map, occ, adjacent, dist, 8, Act::Melee(mz.attack), o)) by { reveal(kind_turn); }
        },
        MonsterType::Ghoul => {
            assert(kind_turn(m, player, map, occ, all, dead, adjacent, low, dist, o) == basic_spec(m, map, occ, adjacent, dist, 10, Act::Poison(m.attack, 3), o)) by { reveal(kind_turn); }
        },
        _ => {},
    }
}

/// Moves stay one side step for the kinds Specter, Imp, Demon, Hellfire.
#[verifier::rlimit(100)]
#[verifier::spinoff_prover]
proof fn lemma_steps_kinds_3(m: Monster, player: (usize, usize), map: DungeonMap, occ: Seq<(usize, usize)>,
    all: Seq<(usize, usize)>, dead: Seq<usize>, adjacent: bool, low: bool, dist: int, o: Draws)
    requires
        m.monster_type == MonsterType::Specter || m.monster_type == MonsterType::Imp || m.monster_type == MonsterType::Demon || m.monster_type == MonsterType::Hellfire,
        map_wf(map),
        monster_place_ok(m, map),
        player.0 < map.width && player.1 < map.height,
        draws_ok(m, map, player, occ, all, dead, o),
    ensures
        at_most_one_step(m, kind_turn(m, player, map, occ, all, dead, adjacent, low, dist, o).1, map),
{
    lemma_wander_flee_steps(m, player, map, occ, o);
    let m2 = with_behavior(Monster { boss_tick: (m.boss_tick + 1) as i32, ..m }, BehaviorState::Chase);
    lemma_approach_pick_steps(m2, player, map, 0, None, dist);
    match m.monster_type {
        MonsterType::Specter => {
            assert(kind_turn(m, player, map, occ, all, dead, adjacent, low, dist, o) == specter_spec(m, player, map, adjacent, dist)) by { reveal(kind_turn); }
        },
        MonsterType::Imp => {
            assert(kind_turn(m, player, map, occ, all, dead, adjacent, low, dist, o) == shooter_spec(m, player, map, occ, adjacent, dist, 5, 3, 8, o)) by { reveal(kind_turn); }
        },
        MonsterType::Demon => {
            assert(kind_turn(m, player, map, occ, all, dead, adjacent, low, dist, o) == basic_spec(m, map, occ, adjacent, dist, 10, Act::Melee(m.attack), o)) by { reveal(kind_turn); }
        },
        MonsterType::Hellfire => {
            assert(kind_turn(m, player, map, occ, all, dead, adjacent, low, dist, o) == basic_spec(m, map, occ, adjacent, dist, 8, Act::Poison(m.attack, 2), o)) by { reveal(kind_turn); }
        },
        _ => {},
    }
}

/// Moves stay one side step for the kinds Minotaur, Bear, WolfPack, Orc.
#[verifier::rlimit(100)]
#[verifier::spinoff_prover]
proof fn lemma_steps_kinds_4(m: Monster, player: (usize, usize), map: DungeonMap, occ: Seq<(usize, usize)>,
    all: Seq<(usize, usize)>, dead: Seq<usize>, adjacent: bool, low: bool, dist: int, o: Draws)
    requires
        m.monster_type == MonsterType::Minotaur || m.monster_type == MonsterType::Bear || m.monster_type == MonsterType::WolfPack || m.monster_type == MonsterType::Orc,
        map_wf(map),
        monster_place_ok(m, map),
        player.0 < map.width && player.1 < map.height,
        draws_ok(m, map, player, occ, all, dead, o),
    ensures
        at_most_one_step(m, kind_turn(m, player, map, occ, all, dead, adjacent, low, dist, o).1, map),
{
    lemma_wander_flee_steps(m, player, map, occ, o);
    let m2 = with_behavior(Monster { boss_tick: (m.boss_tick + 1) as i32, ..m }, BehaviorState::Chase);
    lemma_approach_pick_steps(m2, player, map, 0, None, dist);
    match m.monster_type {
        MonsterType::Minotaur => {
            assert(kind_turn(m, player, map, occ, all, dead, adjacent, low, dist, o) == basic_spec(m, map, occ, adjacent, dist, 10, Act::Melee(m.attack), o)) by { reveal(kind_turn); }
        },
        MonsterType::Bear => {
            assert(kind_turn(m, player, map, occ, all, dead, adjacent, low, dist, o) == basic_spec(m, map, occ, adjacent, dist, 8, Act::Melee(if low { (m.attack * 2) as i32 } else { m.attack }), o)) by { reveal(kind_turn); }
        },
        MonsterType::WolfPack => {
            assert(kind_turn(m, player, map, occ, all, dead, adjacent, low, dist, o) == basic_spec(m, map, occ, adjacent, dist, 12, Act::Melee(m.attack), o)) by { reveal(kind_turn); }
        },
        MonsterType::Orc => {
            assert(kind_turn(m, player, map, occ, all, dead, adjacent, low, dist, o) == basic_spec(m, map, occ, adjacent, dist, 10, Act::Melee(m.attack), o)) by { reveal(kind_turn); }
        },
        _ => {},
    }
}

/// Moves stay one side step for the kinds Bandit, Assassin, FireElemental, EarthElemental.
#[verifier::rlimit(100)]
#[verifier::spinoff_prover]
proof fn lemma_steps_kinds_5(m: Monster, player: (usize, usize), map: DungeonMap, occ: Seq<(usize, usize)>,
    all: Seq<(usize, usize)>, dead: Seq<usize>, adjacent: bool, low: bool, dist: int, o: Draws)
    requires
        m.monster_type == MonsterType::Bandit || m.monster_type == MonsterType::Assassin || m.monster_type == MonsterType::FireElemental || m.monster_type == MonsterType::EarthElemental,
        map_wf(map),
        monster_place_ok(m, map),
        player.0 < map.width && player.1 < map.height,
        draws_ok(m, map, player, occ, all, dead, o),
    ensures
        at_most_one_step(m, kind_turn(m, player, map, occ, all, dead, adjacent, low, dist, o).1, map),
{
    lemma_wander_flee_steps(m, player, map, occ, o);
    let m2 = with_behavior(Monster { boss_tick: (m.boss_tick + 1) as i32, ..m }, BehaviorState::Chase);
    lemma_approach_pick_steps(m2, player, map, 0, None, dist);
    match m.monster_type {
        MonsterType::Bandit => {
            assert(kind_turn(m, player, map, occ, all, dead, adjacent, low, dist, o) == basic_spec(m, map, occ, adjacent, dist, 8, Act::Drain(m.attack), o)) by { reveal(kind_turn); }
        },
        MonsterType::Assassin => {
            assert(kind_turn(m, player, map, occ, all, dead, adjacent, low, dist, o) == basic_spec(m, map, occ, adjacent, dist, 6, Act::Melee(m.attack), o)) by { reveal(kind_turn); }
        },
        MonsterType::FireElemental => {
            assert(kind_turn(m, player, map, occ, all, dead, adjacent, low, dist, o) == basic_spec(m, map, occ, adjacent, dist, 8, Act::Poison(m.attack, 2), o)) by { reveal(kind_turn); }
        },
        MonsterType::EarthElemental => {
            assert(kind_turn(m, player, map, occ, all, dead, adjacent, low, dist, o) == basic_spec(m, map, occ, adjacent, dist, 8, Act::Melee(m.attack), o)) by { reveal(kind_turn); }
        },
        _ => {},
    }
}

/// Moves stay one side step for the kinds IceElemental, Golem, Sentry, Bomber.
#[verifier::rlimit(100)]
#[verifier::spinoff_prover]
proof fn lemma_steps_kinds_6(m: Monster, player: (usize, usize), map: DungeonMap, occ: Seq<(usize, usize)>,
    all: Seq<(usize, usize)>, dead: Seq<usize>, adjacent: bool, low: bool, dist: int, o: Draws)
    requires
        m.monster_type == MonsterType::IceElemental || m.monster_type == MonsterType::Golem || m.monster_type == MonsterType::Sentry || m.monster_type == MonsterType::Bomber,
        map_wf(map),
        monster_place_ok(m, map),
        player.0 < map.width && player.1 < map.height,
        draws_ok(m, map, player, occ, all, dead, o),
    ensures
        at_most_one_step(m, kind_turn(m, player, map, occ, all, dead, adjacent, low, dist, o).1, map),
{
    lemma_wander_flee_steps(m, player, map, occ, o);
    let m2 = with_behavior(Monster { boss_tick: (m.boss_tick + 1) as i32, ..m }, BehaviorState::Chase);
    lemma_approach_pick_steps(m2, player, map, 0, None, dist);
    match m.monster_type {
        MonsterType::IceElemental => {
            assert(kind_turn(m, player, map, occ, all, dead, adjacent, low, dist, o) == basic_spec(m, map, occ, adjacent, dist, 8, Act::Poison(m.attack, 2), o)) by { reveal(kind_turn); }
        },
        MonsterType::Golem => {
            assert(kind_turn(m, player, map, occ, all, dead, adjacent, low, dist, o) == golem_spec(m, map, occ, adjacent, dist, o)) by { reveal(kind_turn); }
        },
        MonsterType::Sentry => {
            assert(kind_turn(m, player, map, occ, all, dead, adjacent, low, dist, o) == shooter_spec(m, player, map, occ, adjacent, dist, 6, 2, -1, o)) by { reveal(kind_turn); }
        },
        MonsterType::Bomber => {
            assert(kind_turn(m, player, map, occ, all, dead, adjacent, low, dist, o) == basic_spec(m, map, occ, adjacent, dist, 6, Act::Melee((m.attack * 2) as i32), o)) by { reveal(kind_turn); }
        },
        _ => {},
    }
}

/// Only next to the player do the kinds Goblin, Skeleton, Troll, BatSwarm strike.
#[verifier::rlimit(100)]
#[verifier::spinoff_prover]
proof fn lemma_strikes_kinds_0(m: Monster, player: (usize, usize), map: DungeonMap, occ: Seq<(usize, usize)>,
    all: Seq<(usize, usize)>, dead: Seq<usize>, adjacent: bool, low: bool, dist: int, o: Draws)
    requires
        m.monster_type == MonsterType::Goblin || m.monster_type == MonsterType::Skeleton || m.monster_type == MonsterType::Troll || m.monster_type == MonsterType::BatSwarm,
    ensures
        strike_damage(kind_turn(m, player, map, occ, all, dead, adjacent, low, dist, o).1) is Some ==> adjacent,
{
    match m.monster_type {
        MonsterType::Goblin => {
            assert(kind_turn(m, player, map, occ, all, dead, adjacent, low, dist, o) == goblin_spec(m, player, map, occ, all, adjacent, low, o)) by { reveal(kind_turn); }
        },
        MonsterType::Skeleton => {
            assert(kind_turn(m, player, map, occ, all, dead, adjacent, low, dist, o) == skeleton_spec(m, player, map, occ, adjacent, dist, o)) by { reveal(kind_turn); }
        },
        MonsterType::Troll => {
            assert(kind_turn(m, player, map, occ, all, dead, adjacent, low, dist, o) == troll_spec(m, map, occ, adjacent, low, o)) by { reveal(kind_turn); }
        },
        MonsterType::BatSwarm => {
            assert(kind_turn(m, player, map, occ, all, dead, adjacent, low, dist, o) == bat_spec(m, map, occ, adjacent, o)) by { reveal(kind_turn); }
        },
        _ => {},
    }
}

/// Only next to the player do the kinds Spider, Wraith, Necromancer, GoblinKing strike.
#[verifier::rlimit(100)]
#[verifier::spinoff_prover]
proof fn lemma_strikes_kinds_1(m: Monster, player: (usize, usize), map: DungeonMap, occ: Seq<(usize, usize)>,
    all: Seq<(usize, usize)>, dead: Seq<usize>, adjacent: bool, low: bool, dist: int, o: Draws)
    requires
        m.monster_type == MonsterType::Spider || m.monster_type == MonsterType::Wraith || m.monster_type == MonsterType::Necromancer || m.monster_type == MonsterType::GoblinKing,
    ensures
        strike_damage(kind_turn(m, player, map, occ, all, dead, adjacent, low, dist, o).1) is Some ==> adjacent,
{
    match m.monster_type {
        MonsterType::Spider => {
            assert(kind_turn(m, player, map, occ, all, dead, adjacent, low, dist, o) == spider_spec(m, player, adjacent, dist, o)) by { reveal(kind_turn); }
        },
        MonsterType::Wraith => {
            assert(kind_turn(m, player, map, occ, all, dead, adjacent, low, dist, o) == wraith_spec(m, player, map, occ, adjacent, dist, o)) by { reveal(kind_turn); }
        },
        MonsterType::Necromancer => {
            assert(kind_turn(m, player, map, occ, all, dead, adjacent, low, dist, o) == necromancer_spec(m, player, map, occ, dead, adjacent, dist, o)) by { reveal(kind_turn); }
        },
        MonsterType::GoblinKing => {
            assert(kind_turn(m, player, map, occ, all, dead, adjacent, low, dist, o) == goblin_king_spec(m, map, occ, adjacent, dist, o)) by { reveal(kind_turn); }
        },
        _ => {},
    }
}

/// Only next to the player do the kinds BoneDragon, ShadowLord, Zombie, Ghoul strike.
#[verifier::rlimit(100)]
#[verifier::spinoff_prover]
proof fn lemma_strikes_kinds_2(m: Monster, player: (usize, usize), map: DungeonMap, occ: Seq<(usize, usize)>,
    all: Seq<(usize, usize)>, dead: Seq<usize>, adjacent: bool, low: bool, dist: int, o: Draws)
    requires
        m.monster_type == MonsterType::BoneDragon || m.monster_type == MonsterType::ShadowLord || m.monster_type == MonsterType::Zombie || m.monster_type == MonsterType::Ghoul,
    ensures
        strike_damage(kind_turn(m, player, map, occ, all, dead, adjacent, low, dist, o).1) is Some ==> adjacent,
{
    match m.monster_type {
        MonsterType::BoneDragon => {
            assert(kind_turn(m, player, map, occ, all, dead, adjacent, low, dist, o) == bone_dragon_spec(m, player, map, occ, adjacent, dist, o)) by { reveal(kind_turn); }
        },
        MonsterType::ShadowLord => {
            assert(kind_turn(m, player, map, occ, all, dead, adjacent, low, dist, o) == shadow_lord_spec(m, player, map, adjacent, dist)) by { reveal(kind_turn); }
        },
        MonsterType::Zombie => {
            let mz = Monster { hp: if m.hp + 1 < m.max_hp { (m.hp + 1) as i32 } else { m.max_hp }, ..m };
            assert(kind_turn(m, player, map, occ, all, dead, adjacent, low, dist, o) == basic_spec(mz, map, occ, adjacent, dist, 8, Act::Melee(mz.attack), o)) by { reveal(kind_turn); }
        },
        MonsterType::Ghoul => {
            assert(kind_turn(m, player, map, occ, all, dead, adjacent, low, dist, o) == basic_spec(m, map, occ, adjacent, dist, 10, Act::Poison(m.attack, 3), o)) by { reveal(kind_turn); }
        },
        _ => {},
    }
}

/// Only next to the player do the kinds Specter, Imp, Demon, Hellfire strike.
#[verifier::rlimit(100)]
#[verifier::spinoff_prover]
proof fn lemma_strikes_kinds_3(m: Monster, player: (usize, usize), map: DungeonMap, occ: Seq<(usize, usize)>,
    all: Seq<(usize, usize)>, dead: Seq<usize>, adjacent: bool, low: bool, dist: int, o: Draws)
    requires
        m.monster_type == MonsterType::Specter || m.monster_type == MonsterType::Imp || m.monster_type == MonsterType::Demon || m.monster_type == MonsterType::Hellfire,
    ensures
        strike_damage(kind_turn(m, player, map, occ, all, dead, adjacent, low, dist, o).1) is Some ==> adjacent,
{
    match m.monster_type {
        MonsterType::Specter => {
            assert(kind_turn(m, player, map, occ, all, dead, adjacent, low, dist, o) == specter_spec(m, player, map, adjacent, dist)) by { reveal(kind_turn); }
        },
        MonsterType::Imp => {
            assert(kind_turn(m, player, map, occ, all, dead, adjacent, low, dist, o) == shooter_spec(m, player, map, occ, adjacent, dist, 5, 3, 8, o)) by { reveal(kind_turn); }
        },
        MonsterType::Demon => {
            assert(kind_turn(m, player, map, occ, all, dead, adjacent, low, dist, o) == basic_spec(m, map, occ, adjacent, dist, 10, Act::Melee(m.attack), o)) by { reveal(kind_turn); }
        },
        MonsterType::Hellfire => {
            assert(kind_turn(m, player, map, occ, all, dead, adjacent, low, dist, o) == basic_spec(m, map, occ, adjacent, dist, 8, Act::Poison(m.attack, 2), o)) by { reveal(kind_turn); }
        },
        _ => {},
    }
}

/// Only next to the player do the kinds Minotaur, Bear, WolfPack, Orc strike.
#[verifier::rlimit(100)]
#[verifier::spinoff_prover]
proof fn lemma_strikes_kinds_4(m: Monster, player: (usize, usize), map: DungeonMap, occ: Seq<(usize, usize)>,
    all: Seq<(usize, usize)>, dead: Seq<usize>, adjacent: bool, low: bool, dist: int, o: Draws)
    requires
        m.monster_type == MonsterType::Minotaur || m.monster_type == MonsterType::Bear || m.monster_type == MonsterType::WolfPack || m.monster_type == MonsterType::Orc,
    ensures
        strike_damage(kind_turn(m, player, map, occ, all, dead, adjacent, low, dist, o).1) is Some ==> adjacent,
{
    match m.monster_type {
        MonsterType::Minotaur => {
            assert(kind_turn(m, player, map, occ, all, dead, adjacent, low, dist, o) == basic_spec(m, map, occ, adjacent, dist, 10, Act::Melee(m.attack), o)) by { reveal(kind_turn); }
        },
        MonsterType::Bear => {
            assert(kind_turn(m, player, map, occ, all, dead, adjacent, low, dist, o) == basic_spec(m, map, occ, adjacent, dist, 8, Act::Melee(if low { (m.attack * 2) as i32 } else { m.attack }), o)) by { reveal(kind_turn); }
        },
        MonsterType::WolfPack => {
            assert(kind_turn(m, player, map, occ, all, dead, adjacent, low, dist, o) == basic_spec(m, map, occ, adjacent, dist, 12, Act::Melee(m.attack), o)) by { reveal(kind_turn); }
        },
        MonsterType::Orc => {
            assert(kind_turn(m, player, map, occ, all, dead, adjacent, low, dist, o) == basic_spec(m, map, occ, adjacent, dist, 10, Act::Melee(m.attack), o)) by { reveal(kind_turn); }
        },
        _ => {},
    }
}

/// Only next to the player do the kinds Bandit, Assassin, FireElemental, EarthElemental strike.
#[verifier::rlimit(100)]
#[verifier::spinoff_prover]
proof fn lemma_strikes_kinds_5(m: Monster, player: (usize, usize), map: DungeonMap, occ: Seq<(usize, usize)>,
    all: Seq<(usize, usize)>, dead: Seq<usize>, adjacent: bool, low: bool, dist: int, o: Draws)
    requires
        m.monster_type == MonsterType::Bandit || m.monster_type == MonsterType::Assassin || m.monster_type == MonsterType::FireElemental || m.monster_type == MonsterType::EarthElemental,
    ensures
        strike_damage(kind_turn(m, player, map, occ, all, dead, adjacent, low, dist, o).1) is Some ==> adjacent,
{
    match m.monster_type {
        MonsterType::Bandit => {
            assert(kind_turn(m, player, map, occ, all, dead, adjacent, low, dist, o) == basic_spec(m, map, occ, adjacent, dist, 8, Act::Drain(m.attack), o)) by { reveal(kind_turn); }
        },
        MonsterType::Assassin => {
            assert(kind_turn(m, player, map, occ, all, dead, adjacent, low, dist, o) == basic_spec(m, map, occ, adjacent, dist, 6, Act::Melee(m.attack), o)) by { reveal(kind_turn); }
        },
        MonsterType::FireElemental => {
            assert(kind_turn(m, player, map, occ, all, dead, adjacent, low, dist, o) == basic_spec(m, map, occ, adjacent, dist, 8, Act::Poison(m.attack, 2), o)) by { reveal(kind_turn); }
        },
        MonsterType::EarthElemental => {
            assert(kind_turn(m, player, map, occ, all, dead, adjacent, low, dist, o) == basic_spec(m, map, occ, adjacent, dist, 8, Act::Melee(m.attack), o)) by { reveal(kind_turn); }
        },
        _ => {},
    }
}

/// Only next to the player do the kinds IceElemental, Golem, Sentry, Bomber strike.
#[verifier::rlimit(100)]
#[verifier::spinoff_prover]
proof fn lemma_strikes_kinds_6(m: Monster, player: (usize, usize), map: DungeonMap, occ: Seq<(usize, usize)>,
    all: Seq<(usize, usize)>, dead: Seq<usize>, adjacent: bool, low: bool, dist: int, o: Draws)
    requires
        m.monster_type == MonsterType::IceElemental || m.monster_type == MonsterType::Golem || m.monster_type == MonsterType::Sentry || m.monster_type == MonsterType::Bomber,
    ensures
        strike_damage(kind_turn(m, player, map, occ, all, dead, adjacent, low, dist, o).1) is Some ==> adjacent,
{
    match m.monster_type {
        MonsterType::IceElemental => {
            assert(kind_turn(m, player, map, occ, all, dead, adjacent, low, dist, o) == basic_spec(m, map, occ, adjacent, dist, 8, Act::Poison(m.attack, 2), o)) by { reveal(kind_turn); }
        },
        MonsterType::Golem => {
            assert(kind_turn(m, player, map, occ, all, dead, adjacent, low, dist, o) == golem_spec(m, map, occ, adjacent, dist, o)) by { reveal(kind_turn); }
        },
        MonsterType::Sentry => {
            assert(kind_turn(m, player, map, occ, all, dead, adjacent, low, dist, o) == shooter_spec(m, player, map, occ, adjacent, dist, 6, 2, -1, o)) by { reveal(kind_turn); }
        },
        MonsterType::Bomber => {
            assert(kind_turn(m, player, map, occ, all, dead, adjacent, low, dist, o) == basic_spec(m, map, occ, adjacent, dist, 6, Act::Melee((m.attack * 2) as i32), o)) by { reveal(kind_turn); }
        },
        _ => {},
    }
}

/// Monsters move at most one side step a turn, onto a walkable cell: a
/// monster's move, chasing, fleeing, luring, returning or wandering, goes
/// to a side neighbour that can be walked on (or keeps it where it is);
/// only phasing moves (wraiths, specters) pass through walls. And only a
/// monster next to the player strikes it in melee (a blow, poisoned or
/// draining); from afar monsters shoot, spin webs, breathe or pulse.
pub proof fn lemma_monsters_step_once(m: Monster, player: (usize, usize), map: DungeonMap, occ: Seq<(usize, usize)>,
    all: Seq<(usize, usize)>, dead: Seq<usize>, o: Draws)
    requires
        map_wf(map),
        monster_ok(m, map),
        player.0 < map.width && player.1 < map.height,
        draws_ok(look_around(m, player, map), map, player, occ, all, dead, o),
    ensures
        at_most_one_step(m, monster_turn(m, player, map, occ, all, dead, o).1, map),
        strike_damage(monster_turn(m, player, map, occ, all, dead, o).1) is Some
            ==> manhattan(m.x as int, m.y as int, player.0 as int, player.1 as int) <= 1 && pos_of(m) != player,
{
    let m1 = look_around(m, player, map);
    let dist = manhattan(m.x as int, m.y as int, player.0 as int, player.1 as int);
    let adjacent = dist <= 1 && pos_of(m) != player;
    let low = hp_percent(m) < 30;
    assert(m1.x == m.x && m1.y == m.y && m1.monster_type == m.monster_type);
    if m1.monster_type == MonsterType::Goblin || m1.monster_type == MonsterType::Skeleton || m1.monster_type == MonsterType::Troll || m1.monster_type == MonsterType::BatSwarm {
        lemma_steps_kinds_0(m1, player, map, occ, all, dead, adjacent, low, dist, o);
        lemma_strikes_kinds_0(m1, player, map, occ, all, dead, adjacent, low, dist, o);
    }
    if m1.monster_type == MonsterType::Spider || m1.monster_type == MonsterType::Wraith || m1.monster_type == MonsterType::Necromancer || m1.monster_type == MonsterType::GoblinKing {
        lemma_steps_kinds_1(m1, player, map, occ, all, dead, adjacent, low, dist, o);
        lemma_strikes_kinds_1(m1, player, map, occ, all, dead, adjacent, low, dist, o);
    }
    if m1.monster_type == MonsterType::BoneDragon || m1.monster_type == MonsterType::ShadowLord || m1.monster_type == MonsterType::Zombie || m1.monster_type == MonsterType::Ghoul {
        lemma_steps_kinds_2(m1, player, map, occ, all, dead, adjacent, low, dist, o);
        lemma_strikes_kinds_2(m1, player, map, occ, all, dead, adjacent, low, dist, o);
    }
    if m1.monster_type == MonsterType::Specter || m1.monster_type == MonsterType::Imp || m1.monster_type == MonsterType::Demon || m1.monster_type == MonsterType::Hellfire {
        lemma_steps_kinds_3(m1, player, map, occ, all, dead, adjacent, low, dist, o);
        lemma_strikes_kinds_3(m1, player, map, occ, all, dead, adjacent, low, dist, o);
    }
    if m1.monster_type == MonsterType::Minotaur || m1.monster_type == MonsterType::Bear || m1.monster_type == MonsterType::WolfPack || m1.monster_type == MonsterType::Orc {
        lemma_steps_kinds_4(m1, player, map, occ, all, dead, adjacent, low, dist, o);
        lemma_strikes_kinds_4(m1, player, map, occ, all, dead, adjacent, low, dist, o);
    }
    if m1.monster_type == MonsterType::Bandit || m1.monster_type == MonsterType::Assassin || m1.monster_type == MonsterType::FireElemental || m1.monster_type == MonsterType::EarthElemental {
        lemma_steps_kinds_5(m1, player, map, occ, all, dead, adjacent, low, dist, o);
        lemma_strikes_kinds_5(m1, player, map, occ, all, dead, adjacent, low, dist, o);
    }
    if m1.monster_type == MonsterType::IceElemental || m1.monster_type == MonsterType::Golem || m1.monster_type == MonsterType::Sentry || m1.monster_type == MonsterType::Bomber {
        lemma_steps_kinds_6(m1, player, map, occ, all, dead, adjacent, low, dist, o);
        lemma_strikes_kinds_6(m1, player, map, occ, all, dead, adjacent, low, dist, o);
    }
}

} // verus!
