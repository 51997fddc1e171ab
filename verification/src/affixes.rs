//! Item affixes (prefixes and suffixes that add bonuses to ordinary items)
//! and exotic items (unique gear with a trade-off).
use vstd::prelude::*;
use crate::items::{Item, ItemType, Rarity, rarity_rank, same_item};
use crate::rng::{random_below, random_ratio};

verus! {

// --- Prefixes ---

#[derive(Clone, Copy, Debug, PartialEq, Eq, Structural)]
pub enum Prefix {
    Sharp,
    Vicious,
    Brutal,
    Sturdy,
    Fortified,
    Iron,
    Swift,
    Mighty,
    Arcane,
    Vital,
    Vampiric,
    Hasty,
}

pub open spec fn prefix_name(p: Prefix) -> Seq<char> {
    match p {
        Prefix::Sharp => "Sharp"@,
        Prefix::Vicious => "Vicious"@,
        Prefix::Brutal => "Brutal"@,
        Prefix::Sturdy => "Sturdy"@,
        Prefix::Fortified => "Fortified"@,
        Prefix::Iron => "Iron"@,
        Prefix::Swift => "Swift"@,
        Prefix::Mighty => "Mighty"@,
        Prefix::Arcane => "Arcane"@,
        Prefix::Vital => "Vital"@,
        Prefix::Vampiric => "Vampiric"@,
        Prefix::Hasty => "Hasty"@,
    }
}

pub open spec fn prefix_min_floor(p: Prefix) -> int {
    match p {
        Prefix::Sharp => 1,
        Prefix::Vicious => 4,
        Prefix::Brutal => 8,
        Prefix::Sturdy => 1,
        Prefix::Fortified => 4,
        Prefix::Iron => 8,
        Prefix::Swift => 1,
        Prefix::Mighty => 1,
        Prefix::Arcane => 1,
        Prefix::Vital => 1,
        Prefix::Vampiric => 6,
        Prefix::Hasty => 8,
    }
}

/// Weapon prefixes (Sharp, Vicious, Brutal, Vampiric, Hasty) go on weapons,
/// Sturdy, Fortified and Iron on armor, Swift on armor and rings, Mighty,
/// Arcane and Vital on anything.
pub open spec fn prefix_fits(p: Prefix, t: ItemType) -> bool {
    match p {
        Prefix::Sharp | Prefix::Vicious | Prefix::Brutal | Prefix::Vampiric | Prefix::Hasty => t == ItemType::Weapon,
        Prefix::Sturdy | Prefix::Fortified | Prefix::Iron => t == ItemType::Armor,
        Prefix::Swift => t == ItemType::Armor || t == ItemType::Ring,
        Prefix::Mighty | Prefix::Arcane | Prefix::Vital => true,
    }
}

impl Prefix {
    pub fn name(&self) -> (s: &'static str)
        ensures
            s@ == prefix_name(*self),
    {
        match self {
            Prefix::Sharp => "Sharp",
            Prefix::Vicious => "Vicious",
            Prefix::Brutal => "Brutal",
            Prefix::Sturdy => "Sturdy",
            Prefix::Fortified => "Fortified",
            Prefix::Iron => "Iron",
            Prefix::Swift => "Swift",
            Prefix::Mighty => "Mighty",
            Prefix::Arcane => "Arcane",
            Prefix::Vital => "Vital",
            Prefix::Vampiric => "Vampiric",
            Prefix::Hasty => "Hasty",
        }
    }

    pub fn min_floor(&self) -> (f: i32)
        ensures
            f == prefix_min_floor(*self),
    {
        match self {
            Prefix::Sharp | Prefix::Sturdy | Prefix::Swift | Prefix::Mighty | Prefix::Arcane | Prefix::Vital => 1,
            Prefix::Vicious | Prefix::Fortified => 4,
            Prefix::Vampiric => 6,
            Prefix::Brutal | Prefix::Iron | Prefix::Hasty => 8,
        }
    }

    pub fn applies_to(&self, item_type: &ItemType) -> (b: bool)
        ensures
            b == prefix_fits(*self, *item_type),
    {
        match self {
            Prefix::Sharp | Prefix::Vicious | Prefix::Brutal | Prefix::Vampiric | Prefix::Hasty => *item_type == ItemType::Weapon,
            Prefix::Sturdy | Prefix::Fortified | Prefix::Iron => *item_type == ItemType::Armor,
            Prefix::Swift => *item_type == ItemType::Armor || *item_type == ItemType::Ring,
            Prefix::Mighty | Prefix::Arcane | Prefix::Vital => true,
        }
    }
}

// --- Suffixes ---

#[derive(Clone, Copy, Debug, PartialEq, Eq, Structural)]
pub enum Suffix {
    Health,
    Warding,
    OfTheBear,
    OfTheFox,
    OfTheOwl,
    OfTheOx,
    OfHaste,
    OfFrost,
    OfFlame,
    OfTheLeech,
}

pub open spec fn suffix_name(s: Suffix) -> Seq<char> {
    match s {
        Suffix::Health => "of Health"@,
        Suffix::Warding => "of Warding"@,
        Suffix::OfTheBear => "of the Bear"@,
        Suffix::OfTheFox => "of the Fox"@,
        Suffix::OfTheOwl => "of the Owl"@,
        Suffix::OfTheOx => "of the Ox"@,
        Suffix::OfHaste => "of Haste"@,
        Suffix::OfFrost => "of Frost"@,
        Suffix::OfFlame => "of Flame"@,
        Suffix::OfTheLeech => "of the Leech"@,
    }
}

pub open spec fn suffix_min_floor(s: Suffix) -> int {
    match s {
        Suffix::Health => 1,
        Suffix::Warding => 6,
        Suffix::OfTheBear => 4,
        Suffix::OfTheFox => 4,
        Suffix::OfTheOwl => 4,
        Suffix::OfTheOx => 4,
        Suffix::OfHaste => 10,
        Suffix::OfFrost => 8,
        Suffix::OfFlame => 8,
        Suffix::OfTheLeech => 10,
    }
}

/// Health and Warding go on anything, the four attribute suffixes on rings and
/// armor, Haste, Frost, Flame and the Leech on weapons.
pub open spec fn suffix_fits(s: Suffix, t: ItemType) -> bool {
    match s {
        Suffix::Health | Suffix::Warding => true,
        Suffix::OfTheBear | Suffix::OfTheFox | Suffix::OfTheOwl | Suffix::OfTheOx => t == ItemType::Ring || t == ItemType::Armor,
        Suffix::OfHaste | Suffix::OfFrost | Suffix::OfFlame | Suffix::OfTheLeech => t == ItemType::Weapon,
    }
}

impl Suffix {
    pub fn name(&self) -> (s: &'static str)
        ensures
            s@ == suffix_name(*self),
    {
        match self {
            Suffix::Health => "of Health",
            Suffix::Warding => "of Warding",
            Suffix::OfTheBear => "of the Bear",
            Suffix::OfTheFox => "of the Fox",
            Suffix::OfTheOwl => "of the Owl",
            Suffix::OfTheOx => "of the Ox",
            Suffix::OfHaste => "of Haste",
            Suffix::OfFrost => "of Frost",
            Suffix::OfFlame => "of Flame",
            Suffix::OfTheLeech => "of the Leech",
        }
    }

    pub fn min_floor(&self) -> (f: i32)
        ensures
            f == suffix_min_floor(*self),
    {
        match self {
            Suffix::Health => 1,
            Suffix::OfTheBear | Suffix::OfTheFox | Suffix::OfTheOwl | Suffix::OfTheOx => 4,
            Suffix::Warding => 6,
            Suffix::OfFrost | Suffix::OfFlame => 8,
            Suffix::OfHaste | Suffix::OfTheLeech => 10,
        }
    }

    pub fn applies_to(&self, item_type: &ItemType) -> (b: bool)
        ensures
            b == suffix_fits(*self, *item_type),
    {
        match self {
            Suffix::Health | Suffix::Warding => true,
            Suffix::OfTheBear | Suffix::OfTheFox | Suffix::OfTheOwl | Suffix::OfTheOx => *item_type == ItemType::Ring || *item_type == ItemType::Armor,
            Suffix::OfHaste | Suffix::OfFrost | Suffix::OfFlame | Suffix::OfTheLeech => *item_type == ItemType::Weapon,
        }
    }
}

// --- Exotic types ---

#[derive(Clone, Copy, Debug, PartialEq, Eq, Structural)]
pub enum ExoticType {
    Bloodthirst,
    SoulReaper,
    WorldEater,
    WhisperOfTheVoid,
    CrimsonDancer,
    Godsbane,
    ThePeacemaker,
    LastBreath,
    PhoenixDown,
    FrostbiteGauntlets,
    StormcallersMantle,
    ShadowWeaveBoots,
    TheIronMaiden,
    SkinOfTheHydra,
    AegisOfTheFallen,
    CowardsCloak,
    BerserkersPlate,
    ShroudOfTheNameless,
    TheGlassCannon,
    TimeWeaversRing,
    RingOfTheGambler,
    TheMartyrsBand,
    Ouroboros,
    TheHoardersSignet,
    RingOfEchoes,
    ThePacifistsOath,
    FatesThread,
}

pub open spec fn exotic_name(e: ExoticType) -> Seq<char> {
    match e {
        ExoticType::Bloodthirst => "Bloodthirst"@,
        ExoticType::SoulReaper => "Soul Reaper"@,
        ExoticType::WorldEater => "The World-Eater"@,
        ExoticType::WhisperOfTheVoid => "Whisper of the Void"@,
        ExoticType::CrimsonDancer => "Crimson Dancer"@,
        ExoticType::Godsbane => "Godsbane"@,
        ExoticType::ThePeacemaker => "The Peacemaker"@,
        ExoticType::LastBreath => "Last Breath"@,
        ExoticType::PhoenixDown => "Phoenix Down"@,
        ExoticType::FrostbiteGauntlets => "Frostbite Gauntlets"@,
        ExoticType::StormcallersMantle => "Stormcaller's Mantle"@,
        ExoticType::ShadowWeaveBoots => "Shadow-weave Boots"@,
        ExoticType::TheIronMaiden => "The Iron Maiden"@,
        ExoticType::SkinOfTheHydra => "Skin of the Hydra"@,
        ExoticType::AegisOfTheFallen => "Aegis of the Fallen"@,
        ExoticType::CowardsCloak => "The Coward's Cloak"@,
        ExoticType::BerserkersPlate => "Berserker's Plate"@,
        ExoticType::ShroudOfTheNameless => "Shroud of the Nameless"@,
        ExoticType::TheGlassCannon => "The Glass Cannon"@,
        ExoticType::TimeWeaversRing => "Time Weaver's Ring"@,
        ExoticType::RingOfTheGambler => "Ring of the Gambler"@,
        ExoticType::TheMartyrsBand => "The Martyr's Band"@,
        ExoticType::Ouroboros => "Ouroboros"@,
        ExoticType::TheHoardersSignet => "The Hoarder's Signet"@,
        ExoticType::RingOfEchoes => "Ring of Echoes"@,
        ExoticType::ThePacifistsOath => "The Pacifist's Oath"@,
        ExoticType::FatesThread => "Fate's Thread"@,
    }
}

pub open spec fn exotic_text(e: ExoticType) -> Seq<char> {
    match e {
        ExoticType::Bloodthirst => "+50% damage, -30% max HP"@,
        ExoticType::SoulReaper => "Kills heal 5 HP, -3 STR"@,
        ExoticType::WorldEater => "Every 5th hit 3x damage, -20% attack speed"@,
        ExoticType::WhisperOfTheVoid => "Ignores armor, -50% base damage"@,
        ExoticType::CrimsonDancer => "+2 dmg per consecutive hit, resets on damage taken"@,
        ExoticType::Godsbane => "10% instant kill on non-bosses, -50% vs bosses"@,
        ExoticType::ThePeacemaker => "Monsters don't aggro unless attacked, +100% damage taken"@,
        ExoticType::LastBreath => "Up to 3x damage at 1 HP, -50% at full HP"@,
        ExoticType::PhoenixDown => "Revive once/floor at 50% HP, -20% all stats"@,
        ExoticType::FrostbiteGauntlets => "10% freeze on hit, -2 INT"@,
        ExoticType::StormcallersMantle => "Lightning chains +2, -3 CON"@,
        ExoticType::ShadowWeaveBoots => "No Shadow Step cooldown, costs 2 HP/use"@,
        ExoticType::TheIronMaiden => "Reflect 50% damage, -3 DEF, +10% damage taken"@,
        ExoticType::SkinOfTheHydra => "Regen 1 HP/3 ticks, -50% potion effectiveness"@,
        ExoticType::AegisOfTheFallen => "First hit each floor negated, -10 max HP/floor"@,
        ExoticType::CowardsCloak => "+30% dodge, -50% damage dealt"@,
        ExoticType::BerserkersPlate => "+50% dmg below 30% HP, -30% above 70% HP"@,
        ExoticType::ShroudOfTheNameless => "Invisible 3 ticks after kill, -20% movement"@,
        ExoticType::TheGlassCannon => "+10 INT, Max HP = 1"@,
        ExoticType::TimeWeaversRing => "All cooldowns -2, -5 DEX"@,
        ExoticType::RingOfTheGambler => "25% chance 4x damage, 25% chance 0 damage"@,
        ExoticType::TheMartyrsBand => "Allies take 50% less, you take 25% more"@,
        ExoticType::Ouroboros => "No ability cooldowns, drains 2 HP per use"@,
        ExoticType::TheHoardersSignet => "+200% gold drops, -50% XP"@,
        ExoticType::RingOfEchoes => "Abilities hit twice, +50% cooldowns"@,
        ExoticType::ThePacifistsOath => "+50% XP, no critical hits"@,
        ExoticType::FatesThread => "Reroll one death/run, -30% gold/XP, -20% stats"@,
    }
}

pub open spec fn exotic_kind(e: ExoticType) -> ItemType {
    match e {
        ExoticType::Bloodthirst => ItemType::Weapon,
        ExoticType::SoulReaper => ItemType::Weapon,
        ExoticType::WorldEater => ItemType::Weapon,
        ExoticType::WhisperOfTheVoid => ItemType::Weapon,
        ExoticType::CrimsonDancer => ItemType::Weapon,
        ExoticType::Godsbane => ItemType::Weapon,
        ExoticType::ThePeacemaker => ItemType::Weapon,
        ExoticType::LastBreath => ItemType::Weapon,
        ExoticType::PhoenixDown => ItemType::Armor,
        ExoticType::FrostbiteGauntlets => ItemType::Armor,
        ExoticType::StormcallersMantle => ItemType::Armor,
        ExoticType::ShadowWeaveBoots => ItemType::Armor,
        ExoticType::TheIronMaiden => ItemType::Armor,
        ExoticType::SkinOfTheHydra => ItemType::Armor,
        ExoticType::AegisOfTheFallen => ItemType::Armor,
        ExoticType::CowardsCloak => ItemType::Armor,
        ExoticType::BerserkersPlate => ItemType::Armor,
        ExoticType::ShroudOfTheNameless => ItemType::Armor,
        ExoticType::TheGlassCannon => ItemType::Ring,
        ExoticType::TimeWeaversRing => ItemType::Ring,
        ExoticType::RingOfTheGambler => ItemType::Ring,
        ExoticType::TheMartyrsBand => ItemType::Ring,
        ExoticType::Ouroboros => ItemType::Ring,
        ExoticType::TheHoardersSignet => ItemType::Ring,
        ExoticType::RingOfEchoes => ItemType::Ring,
        ExoticType::ThePacifistsOath => ItemType::Ring,
        ExoticType::FatesThread => ItemType::Ring,
    }
}

/// The base fields of each exotic item: damage, defense, attribute bonus and
/// cooldown reduction.
pub open spec fn exotic_stats(e: ExoticType) -> (int, int, Seq<char>, int, int) {
    match e {
        ExoticType::Bloodthirst => (3, 0, Seq::empty(), 0, 0),
        ExoticType::SoulReaper => (4, 0, Seq::empty(), 0, 0),
        ExoticType::WorldEater => (5, 0, Seq::empty(), 0, 0),
        ExoticType::WhisperOfTheVoid => (2, 0, Seq::empty(), 0, 0),
        ExoticType::CrimsonDancer => (3, 0, "DEX"@, 2, 0),
        ExoticType::Godsbane => (4, 0, Seq::empty(), 0, 0),
        ExoticType::ThePeacemaker => (1, 0, "CON"@, 2, 0),
        ExoticType::LastBreath => (2, 0, Seq::empty(), 0, 0),
        ExoticType::PhoenixDown => (0, 3, Seq::empty(), 0, 0),
        ExoticType::FrostbiteGauntlets => (0, 2, Seq::empty(), 0, 0),
        ExoticType::StormcallersMantle => (0, 3, "INT"@, 2, 0),
        ExoticType::ShadowWeaveBoots => (0, 1, "DEX"@, 3, 0),
        ExoticType::TheIronMaiden => (0, 2, Seq::empty(), 0, 0),
        ExoticType::SkinOfTheHydra => (0, 2, "CON"@, 2, 0),
        ExoticType::AegisOfTheFallen => (0, 4, Seq::empty(), 0, 0),
        ExoticType::CowardsCloak => (0, 1, "DEX"@, 4, 0),
        ExoticType::BerserkersPlate => (0, 3, "STR"@, 2, 0),
        ExoticType::ShroudOfTheNameless => (0, 2, "DEX"@, 2, 0),
        ExoticType::TheGlassCannon => (0, 0, "INT"@, 10, 0),
        ExoticType::TimeWeaversRing => (0, 0, Seq::empty(), 0, 2),
        ExoticType::RingOfTheGambler => (0, 0, "STR"@, 2, 0),
        ExoticType::TheMartyrsBand => (0, 0, "CON"@, 3, 0),
        ExoticType::Ouroboros => (0, 0, Seq::empty(), 0, 0),
        ExoticType::TheHoardersSignet => (0, 0, "DEX"@, 2, 0),
        ExoticType::RingOfEchoes => (0, 0, "INT"@, 3, 0),
        ExoticType::ThePacifistsOath => (0, 0, "CON"@, 2, 0),
        ExoticType::FatesThread => (0, 0, Seq::empty(), 0, 0),
    }
}

impl ExoticType {
    pub fn name(&self) -> (s: &'static str)
        ensures
            s@ == exotic_name(*self),
    {
        match self {
            ExoticType::Bloodthirst => "Bloodthirst",
            ExoticType::SoulReaper => "Soul Reaper",
            ExoticType::WorldEater => "The World-Eater",
            ExoticType::WhisperOfTheVoid => "Whisper of the Void",
            ExoticType::CrimsonDancer => "Crimson Dancer",
            ExoticType::Godsbane => "Godsbane",
            ExoticType::ThePeacemaker => "The Peacemaker",
            ExoticType::LastBreath => "Last Breath",
            ExoticType::PhoenixDown => "Phoenix Down",
            ExoticType::FrostbiteGauntlets => "Frostbite Gauntlets",
            ExoticType::StormcallersMantle => "Stormcaller's Mantle",
            ExoticType::ShadowWeaveBoots => "Shadow-weave Boots",
            ExoticType::TheIronMaiden => "The Iron Maiden",
            ExoticType::SkinOfTheHydra => "Skin of the Hydra",
            ExoticType::AegisOfTheFallen => "Aegis of the Fallen",
            ExoticType::CowardsCloak => "The Coward's Cloak",
            ExoticType::BerserkersPlate => "Berserker's Plate",
            ExoticType::ShroudOfTheNameless => "Shroud of the Nameless",
            ExoticType::TheGlassCannon => "The Glass Cannon",
            ExoticType::TimeWeaversRing => "Time Weaver's Ring",
            ExoticType::RingOfTheGambler => "Ring of the Gambler",
            ExoticType::TheMartyrsBand => "The Martyr's Band",
            ExoticType::Ouroboros => "Ouroboros",
            ExoticType::TheHoardersSignet => "The Hoarder's Signet",
            ExoticType::RingOfEchoes => "Ring of Echoes",
            ExoticType::ThePacifistsOath => "The Pacifist's Oath",
            ExoticType::FatesThread => "Fate's Thread",
        }
    }

    pub fn description(&self) -> (s: &'static str)
        ensures
            s@ == exotic_text(*self),
    {
        match self {
            ExoticType::Bloodthirst => "+50% damage, -30% max HP",
            ExoticType::SoulReaper => "Kills heal 5 HP, -3 STR",
            ExoticType::WorldEater => "Every 5th hit 3x damage, -20% attack speed",
            ExoticType::WhisperOfTheVoid => "Ignores armor, -50% base damage",
            ExoticType::CrimsonDancer => "+2 dmg per consecutive hit, resets on damage taken",
            ExoticType::Godsbane => "10% instant kill on non-bosses, -50% vs bosses",
            ExoticType::ThePeacemaker => "Monsters don't aggro unless attacked, +100% damage taken",
            ExoticType::LastBreath => "Up to 3x damage at 1 HP, -50% at full HP",
            ExoticType::PhoenixDown => "Revive once/floor at 50% HP, -20% all stats",
            ExoticType::FrostbiteGauntlets => "10% freeze on hit, -2 INT",
            ExoticType::StormcallersMantle => "Lightning chains +2, -3 CON",
            ExoticType::ShadowWeaveBoots => "No Shadow Step cooldown, costs 2 HP/use",
            ExoticType::TheIronMaiden => "Reflect 50% damage, -3 DEF, +10% damage taken",
            ExoticType::SkinOfTheHydra => "Regen 1 HP/3 ticks, -50% potion effectiveness",
            ExoticType::AegisOfTheFallen => "First hit each floor negated, -10 max HP/floor",
            ExoticType::CowardsCloak => "+30% dodge, -50% damage dealt",
            ExoticType::BerserkersPlate => "+50% dmg below 30% HP, -30% above 70% HP",
            ExoticType::ShroudOfTheNameless => "Invisible 3 ticks after kill, -20% movement",
            ExoticType::TheGlassCannon => "+10 INT, Max HP = 1",
            ExoticType::TimeWeaversRing => "All cooldowns -2, -5 DEX",
            ExoticType::RingOfTheGambler => "25% chance 4x damage, 25% chance 0 damage",
            ExoticType::TheMartyrsBand => "Allies take 50% less, you take 25% more",
            ExoticType::Ouroboros => "No ability cooldowns, drains 2 HP per use",
            ExoticType::TheHoardersSignet => "+200% gold drops, -50% XP",
            ExoticType::RingOfEchoes => "Abilities hit twice, +50% cooldowns",
            ExoticType::ThePacifistsOath => "+50% XP, no critical hits",
            ExoticType::FatesThread => "Reroll one death/run, -30% gold/XP, -20% stats",
        }
    }

    pub fn item_type(&self) -> (t: ItemType)
        ensures
            t == exotic_kind(*self),
    {
        match self {
            ExoticType::Bloodthirst => ItemType::Weapon,
            ExoticType::SoulReaper => ItemType::Weapon,
            ExoticType::WorldEater => ItemType::Weapon,
            ExoticType::WhisperOfTheVoid => ItemType::Weapon,
            ExoticType::CrimsonDancer => ItemType::Weapon,
            ExoticType::Godsbane => ItemType::Weapon,
            ExoticType::ThePeacemaker => ItemType::Weapon,
            ExoticType::LastBreath => ItemType::Weapon,
            ExoticType::PhoenixDown => ItemType::Armor,
            ExoticType::FrostbiteGauntlets => ItemType::Armor,
            ExoticType::StormcallersMantle => ItemType::Armor,
            ExoticType::ShadowWeaveBoots => ItemType::Armor,
            ExoticType::TheIronMaiden => ItemType::Armor,
            ExoticType::SkinOfTheHydra => ItemType::Armor,
            ExoticType::AegisOfTheFallen => ItemType::Armor,
            ExoticType::CowardsCloak => ItemType::Armor,
            ExoticType::BerserkersPlate => ItemType::Armor,
            ExoticType::ShroudOfTheNameless => ItemType::Armor,
            ExoticType::TheGlassCannon => ItemType::Ring,
            ExoticType::TimeWeaversRing => ItemType::Ring,
            ExoticType::RingOfTheGambler => ItemType::Ring,
            ExoticType::TheMartyrsBand => ItemType::Ring,
            ExoticType::Ouroboros => ItemType::Ring,
            ExoticType::TheHoardersSignet => ItemType::Ring,
            ExoticType::RingOfEchoes => ItemType::Ring,
            ExoticType::ThePacifistsOath => ItemType::Ring,
            ExoticType::FatesThread => ItemType::Ring,
        }
    }
}

/// The exotic item of type `e` found on `floor`.
pub open spec fn is_exotic_item(it: Item, e: ExoticType, floor: int) -> bool {
    let (dmg, def, st, sv, cdr) = exotic_stats(e);
    &&& it.name@ == exotic_name(e)
    &&& it.item_type == exotic_kind(e)
    &&& it.symbol == (match exotic_kind(e) { ItemType::Weapon => '/', ItemType::Armor => '[', _ => '=' })
    &&& it.damage_bonus == dmg
    &&& it.defense_bonus == def
    &&& it.stat_bonus_type@ == st
    &&& it.stat_bonus_value == sv
    &&& it.heal_amount == 0
    &&& it.floor_level == floor
    &&& it.rarity == Rarity::Exotic
    &&& !it.is_artifact
    &&& it.artifact_effect == crate::items::ArtifactEffect::NoEffect
    &&& it.prefix is None
    &&& it.suffix is None
    &&& it.exotic_type == Some(e)
    &&& it.lifesteal == 0
    &&& it.cooldown_reduction == cdr
    &&& it.freeze_chance == 0
    &&& it.burn_chance == 0
    &&& it.hp_bonus == 0
}

fn exotic_base(name: &str, e: ExoticType, item_type: ItemType, symbol: char, dmg: i32, def: i32, st: &str, sv: i32, cdr: i32, floor: i32) -> (r: Item)
    ensures
        r.name@ == name@, r.item_type == item_type, r.symbol == symbol, r.damage_bonus == dmg,
        r.defense_bonus == def, r.stat_bonus_type@ == st@, r.stat_bonus_value == sv,
        r.heal_amount == 0, r.floor_level == floor, r.rarity == Rarity::Exotic, !r.is_artifact,
        r.artifact_effect == crate::items::ArtifactEffect::NoEffect, r.prefix is None,
        r.suffix is None, r.exotic_type == Some(e), r.lifesteal == 0, r.cooldown_reduction == cdr,
        r.freeze_chance == 0, r.burn_chance == 0, r.hp_bonus == 0,
{
    Item {
        name: String::from_str(name),
        item_type,
        symbol,
        damage_bonus: dmg,
        defense_bonus: def,
        stat_bonus_type: String::from_str(st),
        stat_bonus_value: sv,
        heal_amount: 0,
        floor_level: floor,
        rarity: Rarity::Exotic,
        is_artifact: false,
        artifact_effect: crate::items::ArtifactEffect::NoEffect,
        prefix: None,
        suffix: None,
        exotic_type: Some(e),
        lifesteal: 0,
        cooldown_reduction: cdr,
        freeze_chance: 0,
        burn_chance: 0,
        hp_bonus: 0,
    }
}

/// The exotic item of type `e` for `floor`.
pub fn exotic_item(e: ExoticType, floor: i32) -> (r: Item)
    ensures
        is_exotic_item(r, e, floor as int),
{
    proof { reveal_strlit(""); assert(""@ =~= Seq::<char>::empty()); }
    match e {
        ExoticType::Bloodthirst => exotic_base("Bloodthirst", e, ItemType::Weapon, '/', 3, 0, "", 0, 0, floor),
        ExoticType::SoulReaper => exotic_base("Soul Reaper", e, ItemType::Weapon, '/', 4, 0, "", 0, 0, floor),
        ExoticType::WorldEater => exotic_base("The World-Eater", e, ItemType::Weapon, '/', 5, 0, "", 0, 0, floor),
        ExoticType::WhisperOfTheVoid => exotic_base("Whisper of the Void", e, ItemType::Weapon, '/', 2, 0, "", 0, 0, floor),
        ExoticType::CrimsonDancer => exotic_base("Crimson Dancer", e, ItemType::Weapon, '/', 3, 0, "DEX", 2, 0, floor),
        ExoticType::Godsbane => exotic_base("Godsbane", e, ItemType::Weapon, '/', 4, 0, "", 0, 0, floor),
        ExoticType::ThePeacemaker => exotic_base("The Peacemaker", e, ItemType::Weapon, '/', 1, 0, "CON", 2, 0, floor),
        ExoticType::LastBreath => exotic_base("Last Breath", e, ItemType::Weapon, '/', 2, 0, "", 0, 0, floor),
        ExoticType::PhoenixDown => exotic_base("Phoenix Down", e, ItemType::Armor, '[', 0, 3, "", 0, 0, floor),
        ExoticType::FrostbiteGauntlets => exotic_base("Frostbite Gauntlets", e, ItemType::Armor, '[', 0, 2, "", 0, 0, floor),
        ExoticType::StormcallersMantle => exotic_base("Stormcaller's Mantle", e, ItemType::Armor, '[', 0, 3, "INT", 2, 0, floor),
        ExoticType::ShadowWeaveBoots => exotic_base("Shadow-weave Boots", e, ItemType::Armor, '[', 0, 1, "DEX", 3, 0, floor),
        ExoticType::TheIronMaiden => exotic_base("The Iron Maiden", e, ItemType::Armor, '[', 0, 2, "", 0, 0, floor),
        ExoticType::SkinOfTheHydra => exotic_base("Skin of the Hydra", e, ItemType::Armor, '[', 0, 2, "CON", 2, 0, floor),
        ExoticType::AegisOfTheFallen => exotic_base("Aegis of the Fallen", e, ItemType::Armor, '[', 0, 4, "", 0, 0, floor),
        ExoticType::CowardsCloak => exotic_base("The Coward's Cloak", e, ItemType::Armor, '[', 0, 1, "DEX", 4, 0, floor),
        ExoticType::BerserkersPlate => exotic_base("Berserker's Plate", e, ItemType::Armor, '[', 0, 3, "STR", 2, 0, floor),
        ExoticType::ShroudOfTheNameless => exotic_base("Shroud of the Nameless", e, ItemType::Armor, '[', 0, 2, "DEX", 2, 0, floor),
        ExoticType::TheGlassCannon => exotic_base("The Glass Cannon", e, ItemType::Ring, '=', 0, 0, "INT", 10, 0, floor),
        ExoticType::TimeWeaversRing => exotic_base("Time Weaver's Ring", e, ItemType::Ring, '=', 0, 0, "", 0, 2, floor),
        ExoticType::RingOfTheGambler => exotic_base("Ring of the Gambler", e, ItemType::Ring, '=', 0, 0, "STR", 2, 0, floor),
        ExoticType::TheMartyrsBand => exotic_base("The Martyr's Band", e, ItemType::Ring, '=', 0, 0, "CON", 3, 0, floor),
        ExoticType::Ouroboros => exotic_base("Ouroboros", e, ItemType::Ring, '=', 0, 0, "", 0, 0, floor),
        ExoticType::TheHoardersSignet => exotic_base("The Hoarder's Signet", e, ItemType::Ring, '=', 0, 0, "DEX", 2, 0, floor),
        ExoticType::RingOfEchoes => exotic_base("Ring of Echoes", e, ItemType::Ring, '=', 0, 0, "INT", 3, 0, floor),
        ExoticType::ThePacifistsOath => exotic_base("The Pacifist's Oath", e, ItemType::Ring, '=', 0, 0, "CON", 2, 0, floor),
        ExoticType::FatesThread => exotic_base("Fate's Thread", e, ItemType::Ring, '=', 0, 0, "", 0, 0, floor),
    }
}

/// The exotic type at position `k` of the full list, in declaration order.
pub open spec fn exotic_at(k: int) -> ExoticType {
    if k == 0 { ExoticType::Bloodthirst }
    else if k == 1 { ExoticType::SoulReaper }
    else if k == 2 { ExoticType::WorldEater }
    else if k == 3 { ExoticType::WhisperOfTheVoid }
    else if k == 4 { ExoticType::CrimsonDancer }
    else if k == 5 { ExoticType::Godsbane }
    else if k == 6 { ExoticType::ThePeacemaker }
    else if k == 7 { ExoticType::LastBreath }
    else if k == 8 { ExoticType::PhoenixDown }
    else if k == 9 { ExoticType::FrostbiteGauntlets }
    else if k == 10 { ExoticType::StormcallersMantle }
    else if k == 11 { ExoticType::ShadowWeaveBoots }
    else if k == 12 { ExoticType::TheIronMaiden }
    else if k == 13 { ExoticType::SkinOfTheHydra }
    else if k == 14 { ExoticType::AegisOfTheFallen }
    else if k == 15 { ExoticType::CowardsCloak }
    else if k == 16 { ExoticType::BerserkersPlate }
    else if k == 17 { ExoticType::ShroudOfTheNameless }
    else if k == 18 { ExoticType::TheGlassCannon }
    else if k == 19 { ExoticType::TimeWeaversRing }
    else if k == 20 { ExoticType::RingOfTheGambler }
    else if k == 21 { ExoticType::TheMartyrsBand }
    else if k == 22 { ExoticType::Ouroboros }
    else if k == 23 { ExoticType::TheHoardersSignet }
    else if k == 24 { ExoticType::RingOfEchoes }
    else if k == 25 { ExoticType::ThePacifistsOath }
    else { ExoticType::FatesThread }
}

fn exotic_of(k: usize) -> (e: ExoticType)
    ensures
        e == exotic_at(k as int),
{
    if k == 0 { ExoticType::Bloodthirst }
    else if k == 1 { ExoticType::SoulReaper }
    else if k == 2 { ExoticType::WorldEater }
    else if k == 3 { ExoticType::WhisperOfTheVoid }
    else if k == 4 { ExoticType::CrimsonDancer }
    else if k == 5 { ExoticType::Godsbane }
    else if k == 6 { ExoticType::ThePeacemaker }
    else if k == 7 { ExoticType::LastBreath }
    else if k == 8 { ExoticType::PhoenixDown }
    else if k == 9 { ExoticType::FrostbiteGauntlets }
    else if k == 10 { ExoticType::StormcallersMantle }
    else if k == 11 { ExoticType::ShadowWeaveBoots }
    else if k == 12 { ExoticType::TheIronMaiden }
    else if k == 13 { ExoticType::SkinOfTheHydra }
    else if k == 14 { ExoticType::AegisOfTheFallen }
    else if k == 15 { ExoticType::CowardsCloak }
    else if k == 16 { ExoticType::BerserkersPlate }
    else if k == 17 { ExoticType::ShroudOfTheNameless }
    else if k == 18 { ExoticType::TheGlassCannon }
    else if k == 19 { ExoticType::TimeWeaversRing }
    else if k == 20 { ExoticType::RingOfTheGambler }
    else if k == 21 { ExoticType::TheMartyrsBand }
    else if k == 22 { ExoticType::Ouroboros }
    else if k == 23 { ExoticType::TheHoardersSignet }
    else if k == 24 { ExoticType::RingOfEchoes }
    else if k == 25 { ExoticType::ThePacifistsOath }
    else { ExoticType::FatesThread }
}

/// Draws one of the 27 exotic items, each equally likely.
pub fn generate_exotic(floor: i32) -> (r: Option<Item>)
    ensures
        r is Some,
        exists|k: int| 0 <= k < 27 && is_exotic_item(r->0, exotic_at(k), floor as int),
{
    let k = random_below(27);
    let e = exotic_of(k);
    let it = exotic_item(e, floor);
    assert(is_exotic_item(it, exotic_at(k as int), floor as int));
    Some(it)
}

// --- Affix application ---

pub open spec fn all_prefixes() -> Seq<Prefix> {
    seq![Prefix::Sharp, Prefix::Vicious, Prefix::Brutal, Prefix::Sturdy, Prefix::Fortified,
        Prefix::Iron, Prefix::Swift, Prefix::Mighty, Prefix::Arcane, Prefix::Vital,
        Prefix::Vampiric, Prefix::Hasty]
}

pub open spec fn all_suffixes() -> Seq<Suffix> {
    seq![Suffix::Health, Suffix::Warding, Suffix::OfTheBear, Suffix::OfTheFox, Suffix::OfTheOwl,
        Suffix::OfTheOx, Suffix::OfHaste, Suffix::OfFrost, Suffix::OfFlame, Suffix::OfTheLeech]
}

/// The prefixes an item of type `t` may roll on `floor`, in declaration order.
pub open spec fn valid_prefixes(t: ItemType, floor: int) -> Seq<Prefix> {
    all_prefixes().filter(|p: Prefix| prefix_fits(p, t) && prefix_min_floor(p) <= floor)
}

/// The suffixes an item of type `t` may roll on `floor`, in declaration order.
pub open spec fn valid_suffixes(t: ItemType, floor: int) -> Seq<Suffix> {
    all_suffixes().filter(|s: Suffix| suffix_fits(s, t) && suffix_min_floor(s) <= floor)
}

/// Deeper floors offer every affix shallower ones do: a prefix or suffix
/// an item may roll on floor `f1` fits its type, was open from `f1` on,
/// and may still roll on any deeper floor `f2`.
pub proof fn lemma_deeper_affixes(t: ItemType, f1: int, f2: int, p: Prefix, s: Suffix)
    requires
        f1 <= f2,
    ensures
        valid_prefixes(t, f1).contains(p) ==> prefix_fits(p, t) && prefix_min_floor(p) <= f1 && valid_prefixes(t, f2).contains(p),
        valid_suffixes(t, f1).contains(s) ==> suffix_fits(s, t) && suffix_min_floor(s) <= f1 && valid_suffixes(t, f2).contains(s),
{
    let pp1 = |q: Prefix| prefix_fits(q, t) && prefix_min_floor(q) <= f1;
    let pp2 = |q: Prefix| prefix_fits(q, t) && prefix_min_floor(q) <= f2;
    if valid_prefixes(t, f1).contains(p) {
        let v = all_prefixes().filter(pp1);
        assert(v == valid_prefixes(t, f1));
        let i = choose|i: int| 0 <= i < v.len() && v[i] == p;
        all_prefixes().lemma_filter_pred(pp1, i);
        all_prefixes().lemma_filter_contains_rev(pp1, p);
        let k = choose|k: int| 0 <= k < all_prefixes().len() && all_prefixes()[k] == p;
        all_prefixes().lemma_filter_contains(pp2, k);
        assert(valid_prefixes(t, f2) == all_prefixes().filter(pp2));
    }
    let sp1 = |q: Suffix| suffix_fits(q, t) && suffix_min_floor(q) <= f1;
    let sp2 = |q: Suffix| suffix_fits(q, t) && suffix_min_floor(q) <= f2;
    if valid_suffixes(t, f1).contains(s) {
        let v = all_suffixes().filter(sp1);
        assert(v == valid_suffixes(t, f1));
        let i = choose|i: int| 0 <= i < v.len() && v[i] == s;
        all_suffixes().lemma_filter_pred(sp1, i);
        all_suffixes().lemma_filter_contains_rev(sp1, s);
        let k = choose|k: int| 0 <= k < all_suffixes().len() && all_suffixes()[k] == s;
        all_suffixes().lemma_filter_contains(sp2, k);
        assert(valid_suffixes(t, f2) == all_suffixes().filter(sp2));
    }
}

/// A rarer item never rolls fewer affixes: from Common to Legendary the
/// number of prefixes and of suffixes does not drop, for the same coin.
pub proof fn lemma_rarer_more_affixes(r1: Rarity, r2: Rarity, coin: bool)
    requires
        rarity_rank(r1) <= rarity_rank(r2) <= 4,
    ensures
        affix_counts(r1, coin).0 <= affix_counts(r2, coin).0,
        affix_counts(r1, coin).1 <= affix_counts(r2, coin).1,
{
}

fn prefix_at(i: usize) -> (p: Prefix)
    requires
        i < 12,
    ensures
        p == all_prefixes()[i as int],
{
    if i == 0 { Prefix::Sharp }
    else if i == 1 { Prefix::Vicious }
    else if i == 2 { Prefix::Brutal }
    else if i == 3 { Prefix::Sturdy }
    else if i == 4 { Prefix::Fortified }
    else if i == 5 { Prefix::Iron }
    else if i == 6 { Prefix::Swift }
    else if i == 7 { Prefix::Mighty }
    else if i == 8 { Prefix::Arcane }
    else if i == 9 { Prefix::Vital }
    else if i == 10 { Prefix::Vampiric }
    else { Prefix::Hasty }
}

fn suffix_at(i: usize) -> (s: Suffix)
    requires
        i < 10,
    ensures
        s == all_suffixes()[i as int],
{
    if i == 0 { Suffix::Health }
    else if i == 1 { Suffix::Warding }
    else if i == 2 { Suffix::OfTheBear }
    else if i == 3 { Suffix::OfTheFox }
    else if i == 4 { Suffix::OfTheOwl }
    else if i == 5 { Suffix::OfTheOx }
    else if i == 6 { Suffix::OfHaste }
    else if i == 7 { Suffix::OfFrost }
    else if i == 8 { Suffix::OfFlame }
    else { Suffix::OfTheLeech }
}

/// The prefixes an item of `item_type` may roll on `floor`.
pub fn prefixes_for(item_type: ItemType, floor: i32) -> (v: Vec<Prefix>)
    ensures
        v@ == valid_prefixes(item_type, floor as int),
{
    let ghost pred = |p: Prefix| prefix_fits(p, item_type) && prefix_min_floor(p) <= floor;
    let mut v: Vec<Prefix> = Vec::new();
    let mut i: usize = 0;
    while i < 12
        invariant
            i <= 12,
            v@ == all_prefixes().take(i as int).filter(pred),
            forall|q: Prefix| #[trigger] pred(q) == (prefix_fits(q, item_type) && prefix_min_floor(q) <= floor),
        decreases 12 - i,
    {
        let p = prefix_at(i);
        let ghost s1 = all_prefixes().take(i + 1);
        assert(s1.drop_last() =~= all_prefixes().take(i as int));
        assert(s1.last() == p);
        let keep = p.applies_to(&item_type) && p.min_floor() <= floor;
        assert(keep == pred(p));
        reveal_with_fuel(Seq::<_>::filter, 1);
        assert(s1.filter(pred) == s1.drop_last().filter(pred) + (if pred(p) { seq![p] } else { Seq::empty() }));
        if keep {
            v.push(p);
        }
        i = i + 1;
    }
    assert(all_prefixes().take(12) =~= all_prefixes());
    v
}

/// The suffixes an item of `item_type` may roll on `floor`.
pub fn suffixes_for(item_type: ItemType, floor: i32) -> (v: Vec<Suffix>)
    ensures
        v@ == valid_suffixes(item_type, floor as int),
{
    let ghost pred = |s: Suffix| suffix_fits(s, item_type) && suffix_min_floor(s) <= floor;
    let mut v: Vec<Suffix> = Vec::new();
    let mut i: usize = 0;
    while i < 10
        invariant
            i <= 10,
            v@ == all_suffixes().take(i as int).filter(pred),
            forall|q: Suffix| #[trigger] pred(q) == (suffix_fits(q, item_type) && suffix_min_floor(q) <= floor),
        decreases 10 - i,
    {
        let s = suffix_at(i);
        let ghost s1 = all_suffixes().take(i + 1);
        assert(s1.drop_last() =~= all_suffixes().take(i as int));
        assert(s1.last() == s);
        let keep = s.applies_to(&item_type) && s.min_floor() <= floor;
        assert(keep == pred(s));
        reveal_with_fuel(Seq::<_>::filter, 1);
        assert(s1.filter(pred) == s1.drop_last().filter(pred) + (if pred(s) { seq![s] } else { Seq::empty() }));
        if keep {
            v.push(s);
        }
        i = i + 1;
    }
    assert(all_suffixes().take(10) =~= all_suffixes());
    v
}

/// Numbers of prefixes and suffixes a rarity gets; `coin` decides the
/// Uncommon prefix and the Rare suffix.
pub open spec fn affix_counts(r: Rarity, coin: bool) -> (int, int) {
    match r {
        Rarity::Common => (0, 0),
        Rarity::Uncommon => if coin { (1, 0) } else { (0, 0) },
        Rarity::Rare => if coin { (1, 1) } else { (1, 0) },
        Rarity::Epic | Rarity::Legendary => (1, 1),
        Rarity::Exotic => (0, 0),
    }
}

/// Legendary affixes give twice the attribute, damage, defense and HP.
pub open spec fn stat_mult(r: Rarity) -> int {
    if r == Rarity::Legendary { 2 } else { 1 }
}

pub open spec fn prefix_damage(p: Option<Prefix>, floor: int, mult: int) -> int {
    match p {
        Some(Prefix::Sharp) => mult * (if 1 <= floor <= 3 { 1int } else if 4 <= floor <= 7 { 2 } else { 3 }),
        Some(Prefix::Vicious) => mult * (if 4 <= floor <= 7 { 2int } else { 4 }),
        Some(Prefix::Brutal) => mult * (if 8 <= floor <= 11 { 3int } else { 5 }),
        _ => 0,
    }
}

pub open spec fn prefix_defense(p: Option<Prefix>, floor: int, mult: int) -> int {
    match p {
        Some(Prefix::Sturdy) => mult * (if 1 <= floor <= 3 { 1int } else if 4 <= floor <= 7 { 2 } else { 3 }),
        Some(Prefix::Fortified) => mult * (if 4 <= floor <= 7 { 2int } else { 4 }),
        Some(Prefix::Iron) => mult * (if 8 <= floor <= 11 { 3int } else { 5 }),
        _ => 0,
    }
}

/// The attribute a prefix sets on an item of type `t`, if any.
pub open spec fn prefix_stat_kind(p: Option<Prefix>, t: ItemType) -> Option<Seq<char>> {
    match p {
        Some(Prefix::Swift) => if t == ItemType::Ring { Some("DEX"@) } else { None },
        Some(Prefix::Mighty) => Some("STR"@),
        Some(Prefix::Arcane) => Some("INT"@),
        Some(Prefix::Vital) => Some("CON"@),
        _ => None,
    }
}

pub open spec fn prefix_cooldown(p: Option<Prefix>) -> int {
    match p {
        Some(Prefix::Swift) | Some(Prefix::Hasty) => 1,
        _ => 0,
    }
}

pub open spec fn prefix_lifesteal(p: Option<Prefix>, floor: int) -> int {
    match p {
        Some(Prefix::Vampiric) => if 6 <= floor <= 10 { 5 } else { 10 },
        _ => 0,
    }
}

pub open spec fn suffix_hp(s: Option<Suffix>, floor: int, mult: int) -> int {
    match s {
        Some(Suffix::Health) => mult * (if 1 <= floor <= 5 { 3int } else if 6 <= floor <= 10 { 6 } else { 10 }),
        Some(Suffix::Warding) => mult * (if 6 <= floor <= 10 { 5int } else { 10 }),
        _ => 0,
    }
}

/// The attribute a suffix sets, if any.
pub open spec fn suffix_stat_kind(s: Option<Suffix>) -> Option<Seq<char>> {
    match s {
        Some(Suffix::OfTheBear) => Some("STR"@),
        Some(Suffix::OfTheFox) => Some("DEX"@),
        Some(Suffix::OfTheOwl) => Some("INT"@),
        Some(Suffix::OfTheOx) => Some("CON"@),
        _ => None,
    }
}

pub open spec fn suffix_stat(s: Option<Suffix>, floor: int, mult: int) -> int {
    if suffix_stat_kind(s) is Some {
        mult * (if 4 <= floor <= 7 { 1int } else { 2 })
    } else {
        0
    }
}

pub open spec fn suffix_cooldown(s: Option<Suffix>) -> int {
    if s == Some(Suffix::OfHaste) { 1 } else { 0 }
}

pub open spec fn suffix_freeze(s: Option<Suffix>, floor: int) -> int {
    if s == Some(Suffix::OfFrost) { if 8 <= floor <= 11 { 5 } else { 10 } } else { 0 }
}

pub open spec fn suffix_burn(s: Option<Suffix>, floor: int) -> int {
    if s == Some(Suffix::OfFlame) { if 8 <= floor <= 11 { 5 } else { 10 } } else { 0 }
}

pub open spec fn suffix_lifesteal(s: Option<Suffix>, floor: int) -> int {
    if s == Some(Suffix::OfTheLeech) { if 10 <= floor <= 12 { 5 } else { 10 } } else { 0 }
}

/// `after` is `before` with prefix `p` and suffix `s` (each optional) applied
/// on `floor` with multiplier `mult`.
pub open spec fn affix_outcome(
    before: Item,
    after: Item,
    p: Option<Prefix>,
    s: Option<Suffix>,
    floor: int,
    mult: int,
) -> bool {
    let t = before.item_type;
    &&& after.name@ == before.name@
    &&& after.item_type == t
    &&& after.symbol == before.symbol
    &&& after.damage_bonus == before.damage_bonus + prefix_damage(p, floor, mult)
    &&& after.defense_bonus == before.defense_bonus + prefix_defense(p, floor, mult)
    &&& after.stat_bonus_type@ == (
        if suffix_stat_kind(s) is Some { suffix_stat_kind(s)->0 }
        else if prefix_stat_kind(p, t) is Some { prefix_stat_kind(p, t)->0 }
        else { before.stat_bonus_type@ })
    &&& after.stat_bonus_value == before.stat_bonus_value
        + (if prefix_stat_kind(p, t) is Some { mult } else { 0 }) + suffix_stat(s, floor, mult)
    &&& after.heal_amount == before.heal_amount
    &&& after.floor_level == before.floor_level
    &&& after.rarity == before.rarity
    &&& after.is_artifact == before.is_artifact
    &&& after.artifact_effect == before.artifact_effect
    &&& after.prefix == (if p is Some { p } else { before.prefix })
    &&& after.suffix == (if s is Some { s } else { before.suffix })
    &&& after.exotic_type == before.exotic_type
    &&& after.lifesteal == before.lifesteal + prefix_lifesteal(p, floor) + suffix_lifesteal(s, floor)
    &&& after.cooldown_reduction == before.cooldown_reduction + prefix_cooldown(p) + suffix_cooldown(s)
    &&& after.freeze_chance == before.freeze_chance + suffix_freeze(s, floor)
    &&& after.burn_chance == before.burn_chance + suffix_burn(s, floor)
    &&& after.hp_bonus == before.hp_bonus + suffix_hp(s, floor, mult)
}

/// The numeric fields an affix adds to lie within `m` of zero.
pub open spec fn fields_within(it: Item, m: int) -> bool {
    &&& -m <= it.damage_bonus <= m
    &&& -m <= it.defense_bonus <= m
    &&& -m <= it.stat_bonus_value <= m
    &&& -m <= it.lifesteal <= m
    &&& -m <= it.cooldown_reduction <= m
    &&& -m <= it.freeze_chance <= m
    &&& -m <= it.burn_chance <= m
    &&& -m <= it.hp_bonus <= m
}

/// The numeric fields an affix adds stay far from the `i32` limits.
pub open spec fn affixable_bounds(it: Item) -> bool {
    fields_within(it, 2_000_000_000)
}

/// Adds prefix `p` to `item` (multiplier 1 or 2).
pub fn apply_prefix(item: &mut Item, p: Prefix, floor: i32, mult: i32)
    requires
        fields_within(*old(item), 2_000_000_100),
        1 <= mult <= 2,
    ensures
        affix_outcome(*old(item), *final(item), Some(p), None, floor as int, mult as int),
{
    match p {
        Prefix::Sharp => {
            let v = if 1 <= floor && floor <= 3 { 1 } else if 4 <= floor && floor <= 7 { 2 } else { 3 };
            item.damage_bonus = item.damage_bonus + mult * v;
        },
        Prefix::Vicious => {
            let v = if 4 <= floor && floor <= 7 { 2 } else { 4 };
            item.damage_bonus = item.damage_bonus + mult * v;
        },
        Prefix::Brutal => {
            let v = if 8 <= floor && floor <= 11 { 3 } else { 5 };
            item.damage_bonus = item.damage_bonus + mult * v;
        },
        Prefix::Sturdy => {
            let v = if 1 <= floor && floor <= 3 { 1 } else if 4 <= floor && floor <= 7 { 2 } else { 3 };
            item.defense_bonus = item.defense_bonus + mult * v;
        },
        Prefix::Fortified => {
            let v = if 4 <= floor && floor <= 7 { 2 } else { 4 };
            item.defense_bonus = item.defense_bonus + mult * v;
        },
        Prefix::Iron => {
            let v = if 8 <= floor && floor <= 11 { 3 } else { 5 };
            item.defense_bonus = item.defense_bonus + mult * v;
        },
        Prefix::Swift => {
            if item.item_type == ItemType::Ring {
                item.stat_bonus_type = String::from_str("DEX");
                item.stat_bonus_value = item.stat_bonus_value + mult;
            }
            item.cooldown_reduction = item.cooldown_reduction + 1;
        },
        Prefix::Mighty => {
            item.stat_bonus_type = String::from_str("STR");
            item.stat_bonus_value = item.stat_bonus_value + mult;
        },
        Prefix::Arcane => {
            item.stat_bonus_type = String::from_str("INT");
            item.stat_bonus_value = item.stat_bonus_value + mult;
        },
        Prefix::Vital => {
            item.stat_bonus_type = String::from_str("CON");
            item.stat_bonus_value = item.stat_bonus_value + mult;
        },
        Prefix::Vampiric => {
            let v = if 6 <= floor && floor <= 10 { 5 } else { 10 };
            item.lifesteal = item.lifesteal + v;
        },
        Prefix::Hasty => {
            item.cooldown_reduction = item.cooldown_reduction + 1;
        },
    }
    item.prefix = Some(p);
}

/// Adds suffix `s` to `item` (multiplier 1 or 2).
pub fn apply_suffix(item: &mut Item, s: Suffix, floor: i32, mult: i32)
    requires
        fields_within(*old(item), 2_000_000_100),
        1 <= mult <= 2,
    ensures
        affix_outcome(*old(item), *final(item), None, Some(s), floor as int, mult as int),
{
    match s {
        Suffix::Health => {
            let v = if 1 <= floor && floor <= 5 { 3 } else if 6 <= floor && floor <= 10 { 6 } else { 10 };
            item.hp_bonus = item.hp_bonus + mult * v;
        },
        Suffix::Warding => {
            let v = if 6 <= floor && floor <= 10 { 5 } else { 10 };
            item.hp_bonus = item.hp_bonus + mult * v;
        },
        Suffix::OfTheBear => {
            item.stat_bonus_type = String::from_str("STR");
            let v = if 4 <= floor && floor <= 7 { 1 } else { 2 };
            item.stat_bonus_value = item.stat_bonus_value + mult * v;
        },
        Suffix::OfTheFox => {
            item.stat_bonus_type = String::from_str("DEX");
            let v = if 4 <= floor && floor <= 7 { 1 } else { 2 };
            item.stat_bonus_value = item.stat_bonus_value + mult * v;
        },
        Suffix::OfTheOwl => {
            item.stat_bonus_type = String::from_str("INT");
            let v = if 4 <= floor && floor <= 7 { 1 } else { 2 };
            item.stat_bonus_value = item.stat_bonus_value + mult * v;
        },
        Suffix::OfTheOx => {
            item.stat_bonus_type = String::from_str("CON");
            let v = if 4 <= floor && floor <= 7 { 1 } else { 2 };
            item.stat_bonus_value = item.stat_bonus_value + mult * v;
        },
        Suffix::OfHaste => {
            item.cooldown_reduction = item.cooldown_reduction + 1;
        },
        Suffix::OfFrost => {
            let v = if 8 <= floor && floor <= 11 { 5 } else { 10 };
            item.freeze_chance = item.freeze_chance + v;
        },
        Suffix::OfFlame => {
            let v = if 8 <= floor && floor <= 11 { 5 } else { 10 };
            item.burn_chance = item.burn_chance + v;
        },
        Suffix::OfTheLeech => {
            let v = if 10 <= floor && floor <= 12 { 5 } else { 10 };
            item.lifesteal = item.lifesteal + v;
        },
    }
    item.suffix = Some(s);
}

/// Artifacts, exotic items and potions never take affixes.
pub open spec fn never_affixed(it: Item) -> bool {
    it.is_artifact || it.exotic_type is Some || it.item_type == ItemType::Potion
}

/// What `apply_affixes` does for given random choices: `coin` settles the
/// Uncommon prefix and the Rare suffix, `pp` and `sp` pick among the valid
/// prefixes and suffixes.
pub open spec fn affixed(before: Item, after: Item, rarity: Rarity, floor: int, coin: bool, pp: int, sp: int) -> bool {
    if never_affixed(before) {
        same_item(after, before)
    } else {
        let (pc, sc) = affix_counts(rarity, coin);
        let vp = valid_prefixes(before.item_type, floor);
        let vs = valid_suffixes(before.item_type, floor);
        let p = if pc > 0 && vp.len() > 0 { Some(vp[pp]) } else { None };
        let s = if sc > 0 && vs.len() > 0 { Some(vs[sp]) } else { None };
        affix_outcome(before, after, p, s, floor, stat_mult(rarity))
    }
}

/// Applies affixes for given choices (see `affixed`).
pub fn apply_affixes_with(item: &mut Item, rarity: &Rarity, floor: i32, coin: bool, pp: usize, sp: usize)
    requires
        affixable_bounds(*old(item)),
        valid_prefixes(old(item).item_type, floor as int).len() > 0 ==> pp < valid_prefixes(old(item).item_type, floor as int).len(),
        valid_suffixes(old(item).item_type, floor as int).len() > 0 ==> sp < valid_suffixes(old(item).item_type, floor as int).len(),
    ensures
        affixed(*old(item), *final(item), *rarity, floor as int, coin, pp as int, sp as int),
{
    if item.is_artifact || item.exotic_type.is_some() || item.item_type == ItemType::Potion {
        return;
    }
    let (pc, sc): (i32, i32) = match rarity {
        Rarity::Common => (0, 0),
        Rarity::Uncommon => if coin { (1, 0) } else { (0, 0) },
        Rarity::Rare => if coin { (1, 1) } else { (1, 0) },
        Rarity::Epic | Rarity::Legendary => (1, 1),
        Rarity::Exotic => (0, 0),
    };
    let mult: i32 = if *rarity == Rarity::Legendary { 2 } else { 1 };
    let ghost before = *item;
    let t = item.item_type;
    let vp = prefixes_for(t, floor);
    let vs = suffixes_for(t, floor);
    if pc > 0 && vp.len() > 0 {
        apply_prefix(item, vp[pp], floor, mult);
    }
    let ghost mid = *item;
    assert(fields_within(mid, 2_000_000_100));
    if sc > 0 && vs.len() > 0 {
        apply_suffix(item, vs[sp], floor, mult);
    }
}

/// Rolls affixes onto an ordinary item according to its rarity: Uncommon
/// items get a prefix half the time, Rare items a prefix and half the time a
/// suffix, Epic and Legendary items one of each; each is picked uniformly
/// among those valid for the item's type and the floor.
pub fn apply_affixes(item: &mut Item, rarity: &Rarity, floor: i32)
    requires
        affixable_bounds(*old(item)),
    ensures
        exists|coin: bool, pp: int, sp: int|
            0 <= pp && (valid_prefixes(old(item).item_type, floor as int).len() > 0 ==> pp < valid_prefixes(old(item).item_type, floor as int).len())
            && 0 <= sp && (valid_suffixes(old(item).item_type, floor as int).len() > 0 ==> sp < valid_suffixes(old(item).item_type, floor as int).len())
            && #[trigger] affixed(*old(item), *final(item), *rarity, floor as int, coin, pp, sp),
{
    let ghost before = *item;
    let coin = match rarity {
        Rarity::Uncommon | Rarity::Rare => random_ratio(1, 2),
        _ => false,
    };
    let np = prefixes_for(item.item_type, floor).len();
    let ns = suffixes_for(item.item_type, floor).len();
    let pp = if np > 0 { random_below(np) } else { 0 };
    let sp = if ns > 0 { random_below(ns) } else { 0 };
    apply_affixes_with(item, rarity, floor, coin, pp, sp);
    assert(affixed(before, *item, *rarity, floor as int, coin, pp as int, sp as int));
}

} // verus!
