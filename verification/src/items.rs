//! Items: rarities, artifact effects, the item record, how it is named, and
//! the fixed and random items a dungeon hands out.
use vstd::prelude::*;
use crate::affixes::{ExoticType, Prefix, Suffix};
use crate::rng::{random_below, random_ratio};
use crate::text::{int_text, int_to_string, str_equal};

verus! {

// --- Rarity ---

#[derive(Clone, Copy, Debug, PartialEq, Eq, Structural)]
pub enum Rarity {
    Common,
    Uncommon,
    Rare,
    Epic,
    Legendary,
    Exotic,
}

pub open spec fn rarity_label(r: Rarity) -> Seq<char> {
    match r {
        Rarity::Common => "COMMON"@,
        Rarity::Uncommon => "UNCOMMON"@,
        Rarity::Rare => "RARE"@,
        Rarity::Epic => "EPIC"@,
        Rarity::Legendary => "LEGENDARY"@,
        Rarity::Exotic => "EXOTIC"@,
    }
}

impl Rarity {
    pub fn label(&self) -> (s: &'static str)
        ensures
            s@ == rarity_label(*self),
    {
        match self {
            Rarity::Common => "COMMON",
            Rarity::Uncommon => "UNCOMMON",
            Rarity::Rare => "RARE",
            Rarity::Epic => "EPIC",
            Rarity::Legendary => "LEGENDARY",
            Rarity::Exotic => "EXOTIC",
        }
    }
}

/// The chance thresholds of each rarity on a floor, in twenty-thousandths:
/// Legendary below the first, Epic below the second, Rare below the third,
/// Uncommon below the fourth, Common otherwise. Each grows with the floor and
/// is capped (2%, 8%, 20% and 40%).
pub open spec fn rarity_thresholds(floor: int) -> (int, int, int, int) {
    (
        if 20 + 10 * floor < 400 { 20 + 10 * floor } else { 400 },
        if 200 + 60 * floor < 1600 { 200 + 60 * floor } else { 1600 },
        if 1000 + 200 * floor < 4000 { 1000 + 200 * floor } else { 4000 },
        if 4000 + 400 * floor < 8000 { 4000 + 400 * floor } else { 8000 },
    )
}

pub open spec fn rarity_for(floor: int, roll: int) -> Rarity {
    let t = rarity_thresholds(floor);
    if roll < t.0 {
        Rarity::Legendary
    } else if roll < t.1 {
        Rarity::Epic
    } else if roll < t.2 {
        Rarity::Rare
    } else if roll < t.3 {
        Rarity::Uncommon
    } else {
        Rarity::Common
    }
}

/// How rare a rarity is: Common 0 up to Legendary 4 (Exotic 5).
pub open spec fn rarity_rank(r: Rarity) -> int {
    match r {
        Rarity::Common => 0,
        Rarity::Uncommon => 1,
        Rarity::Rare => 2,
        Rarity::Epic => 3,
        Rarity::Legendary => 4,
        Rarity::Exotic => 5,
    }
}

/// Rarity rolls on a floor from 0 on: a lower roll never gives a less rare
/// item, a deeper floor never gives a less rare item for the same roll, and
/// each of Legendary, Epic, Rare, Uncommon and Common comes from some roll
/// in `0..20000`.
pub proof fn lemma_rarity_rolls(floor: int)
    requires
        floor >= 0,
    ensures
        forall|r1: int, r2: int| r1 <= r2 ==> rarity_rank(#[trigger] rarity_for(floor, r2)) <= rarity_rank(#[trigger] rarity_for(floor, r1)),
        forall|f2: int, r: int| floor <= f2 ==> rarity_rank(#[trigger] rarity_for(floor, r)) <= rarity_rank(#[trigger] rarity_for(f2, r)),
        exists|r: int| 0 <= r < 20000 && #[trigger] rarity_for(floor, r) == Rarity::Legendary,
        exists|r: int| 0 <= r < 20000 && #[trigger] rarity_for(floor, r) == Rarity::Epic,
        exists|r: int| 0 <= r < 20000 && #[trigger] rarity_for(floor, r) == Rarity::Rare,
        exists|r: int| 0 <= r < 20000 && #[trigger] rarity_for(floor, r) == Rarity::Uncommon,
        exists|r: int| 0 <= r < 20000 && #[trigger] rarity_for(floor, r) == Rarity::Common,
{
    let t = rarity_thresholds(floor);
    assert(0 < t.0 < t.1 < t.2 < t.3 <= 8000);
    assert(rarity_rank(rarity_for(floor, 0)) == 4);
    assert(rarity_rank(rarity_for(floor, t.0)) == 3);
    assert(rarity_rank(rarity_for(floor, t.1)) == 2);
    assert(rarity_rank(rarity_for(floor, t.2)) == 1);
    assert(rarity_rank(rarity_for(floor, 19_999)) == 0);
}

/// The rarity that a roll in `0..20000` gives on `floor`.
pub fn rarity_for_roll(floor: i32, roll: u32) -> (r: Rarity)
    ensures
        r == rarity_for(floor as int, roll as int),
{
    let f = floor as i64;
    let leg = if 20 + 10 * f < 400 { 20 + 10 * f } else { 400 };
    let epic = if 200 + 60 * f < 1600 { 200 + 60 * f } else { 1600 };
    let rare = if 1000 + 200 * f < 4000 { 1000 + 200 * f } else { 4000 };
    let unc = if 4000 + 400 * f < 8000 { 4000 + 400 * f } else { 8000 };
    let roll = roll as i64;
    if roll < leg {
        Rarity::Legendary
    } else if roll < epic {
        Rarity::Epic
    } else if roll < rare {
        Rarity::Rare
    } else if roll < unc {
        Rarity::Uncommon
    } else {
        Rarity::Common
    }
}

/// Rolls a rarity for an item found on `floor`.
pub fn roll_rarity(floor: i32) -> (r: Rarity)
    ensures
        exists|roll: int| 0 <= roll < 20000 && r == rarity_for(floor as int, roll),
{
    let roll = random_below(20000);
    rarity_for_roll(floor, roll as u32)
}

// --- Artifact effects ---

#[derive(Clone, Copy, Debug, PartialEq, Eq, Structural)]
pub enum ArtifactEffect {
    NoEffect,
    Ragefang,
    StonehidePlate,
    WarlordSignet,
    Shadowfang,
    Wraithwalkers,
    Venomcoil,
    StormcallerStaff,
    FrostweavRobe,
    MindFireCrown,
}

pub open spec fn artifact_text(e: ArtifactEffect) -> Seq<char> {
    match e {
        ArtifactEffect::Ragefang => "Kill = +1 ATK for 3 ticks (max 5 stacks)"@,
        ArtifactEffect::StonehidePlate => "Below 30% HP: gain +3 DEF permanently (once)"@,
        ArtifactEffect::WarlordSignet => "War Cry also grants +3 ATK for 2 ticks"@,
        ArtifactEffect::Shadowfang => "Post-ShadowStep attacks always crit. Poison deals +1/tick"@,
        ArtifactEffect::Wraithwalkers => "+15% dodge. On dodge: next hit = 2x dmg"@,
        ArtifactEffect::Venomcoil => "Poison Blade: 5 hits. Poisoned = +2 dmg"@,
        ArtifactEffect::StormcallerStaff => "Chain Lightning hits 5 targets, +1 dmg/chain"@,
        ArtifactEffect::FrostweavRobe => "Frost Nova radius 5. Frozen kills explode"@,
        ArtifactEffect::MindFireCrown => "Every 10 kills: next ability = 2x dmg"@,
        ArtifactEffect::NoEffect => ""@,
    }
}

impl ArtifactEffect {
    pub fn description(&self) -> (s: &'static str)
        ensures
            s@ == artifact_text(*self),
    {
        match self {
            ArtifactEffect::Ragefang => "Kill = +1 ATK for 3 ticks (max 5 stacks)",
            ArtifactEffect::StonehidePlate => "Below 30% HP: gain +3 DEF permanently (once)",
            ArtifactEffect::WarlordSignet => "War Cry also grants +3 ATK for 2 ticks",
            ArtifactEffect::Shadowfang => "Post-ShadowStep attacks always crit. Poison deals +1/tick",
            ArtifactEffect::Wraithwalkers => "+15% dodge. On dodge: next hit = 2x dmg",
            ArtifactEffect::Venomcoil => "Poison Blade: 5 hits. Poisoned = +2 dmg",
            ArtifactEffect::StormcallerStaff => "Chain Lightning hits 5 targets, +1 dmg/chain",
            ArtifactEffect::FrostweavRobe => "Frost Nova radius 5. Frozen kills explode",
            ArtifactEffect::MindFireCrown => "Every 10 kills: next ability = 2x dmg",
            ArtifactEffect::NoEffect => "",
        }
    }
}

// --- Item types ---

#[derive(Clone, Copy, Debug, PartialEq, Eq, Structural)]
pub enum ItemType {
    Weapon,
    Armor,
    Ring,
    Potion,
}

// --- Item ---

#[derive(Debug)]
pub struct Item {
    pub name: String,
    pub item_type: ItemType,
    pub symbol: char,
    pub damage_bonus: i32,
    pub defense_bonus: i32,
    pub stat_bonus_type: String,
    pub stat_bonus_value: i32,
    pub heal_amount: i32,
    pub floor_level: i32,
    pub rarity: Rarity,
    pub is_artifact: bool,
    pub artifact_effect: ArtifactEffect,
    pub prefix: Option<Prefix>,
    pub suffix: Option<Suffix>,
    pub exotic_type: Option<ExoticType>,
    pub lifesteal: i32,
    pub cooldown_reduction: i32,
    pub freeze_chance: i32,
    pub burn_chance: i32,
    pub hp_bonus: i32,
}

/// Two items agree in every field, the two text fields by their characters.
pub open spec fn same_item(a: Item, b: Item) -> bool {
    &&& a.name@ == b.name@
    &&& a.item_type == b.item_type
    &&& a.symbol == b.symbol
    &&& a.damage_bonus == b.damage_bonus
    &&& a.defense_bonus == b.defense_bonus
    &&& a.stat_bonus_type@ == b.stat_bonus_type@
    &&& a.stat_bonus_value == b.stat_bonus_value
    &&& a.heal_amount == b.heal_amount
    &&& a.floor_level == b.floor_level
    &&& a.rarity == b.rarity
    &&& a.is_artifact == b.is_artifact
    &&& a.artifact_effect == b.artifact_effect
    &&& a.prefix == b.prefix
    &&& a.suffix == b.suffix
    &&& a.exotic_type == b.exotic_type
    &&& a.lifesteal == b.lifesteal
    &&& a.cooldown_reduction == b.cooldown_reduction
    &&& a.freeze_chance == b.freeze_chance
    &&& a.burn_chance == b.burn_chance
    &&& a.hp_bonus == b.hp_bonus
}

/// An item with the given base fields and no affix, exotic trait, lifesteal,
/// cooldown reduction, freeze or burn chance, or HP bonus.
pub open spec fn plain_item(
    it: Item,
    name: Seq<char>,
    item_type: ItemType,
    symbol: char,
    damage: int,
    defense: int,
    stat_type: Seq<char>,
    stat_value: int,
    heal: int,
    floor_level: int,
    rarity: Rarity,
    is_artifact: bool,
    effect: ArtifactEffect,
) -> bool {
    &&& it.name@ == name
    &&& it.item_type == item_type
    &&& it.symbol == symbol
    &&& it.damage_bonus == damage
    &&& it.defense_bonus == defense
    &&& it.stat_bonus_type@ == stat_type
    &&& it.stat_bonus_value == stat_value
    &&& it.heal_amount == heal
    &&& it.floor_level == floor_level
    &&& it.rarity == rarity
    &&& it.is_artifact == is_artifact
    &&& it.artifact_effect == effect
    &&& it.prefix is None
    &&& it.suffix is None
    &&& it.exotic_type is None
    &&& it.lifesteal == 0
    &&& it.cooldown_reduction == 0
    &&& it.freeze_chance == 0
    &&& it.burn_chance == 0
    &&& it.hp_bonus == 0
}

/// What `display_name` writes before the rarity tag.
pub open spec fn base_text(it: Item) -> Seq<char> {
    match it.item_type {
        ItemType::Weapon => it.name@ + " (+"@ + int_text(it.damage_bonus as int) + " dmg)"@,
        ItemType::Armor => it.name@ + " (+"@ + int_text(it.defense_bonus as int) + " def)"@,
        ItemType::Ring => if it.stat_bonus_type@.len() > 0 {
            it.name@ + " (+"@ + int_text(it.stat_bonus_value as int) + " "@ + it.stat_bonus_type@ + ")"@
        } else {
            it.name@
        },
        ItemType::Potion => it.name@ + " (heals "@ + int_text(it.heal_amount as int) + ")"@,
    }
}

/// The rarity tag: nothing for Common items, " [LABEL]" otherwise.
pub open spec fn rarity_tag(r: Rarity) -> Seq<char> {
    if r == Rarity::Common {
        Seq::empty()
    } else {
        " ["@ + rarity_label(r) + "]"@
    }
}

pub open spec fn display_text(it: Item) -> Seq<char> {
    if it.is_artifact {
        "* "@ + base_text(it) + " *"@ + rarity_tag(it.rarity)
    } else {
        base_text(it) + rarity_tag(it.rarity)
    }
}

impl Item {
    /// A field-by-field copy.
    pub fn duplicate(&self) -> (r: Item)
        ensures
            same_item(r, *self),
    {
        Item {
            name: self.name.clone(),
            item_type: self.item_type,
            symbol: self.symbol,
            damage_bonus: self.damage_bonus,
            defense_bonus: self.defense_bonus,
            stat_bonus_type: self.stat_bonus_type.clone(),
            stat_bonus_value: self.stat_bonus_value,
            heal_amount: self.heal_amount,
            floor_level: self.floor_level,
            rarity: self.rarity,
            is_artifact: self.is_artifact,
            artifact_effect: self.artifact_effect,
            prefix: self.prefix,
            suffix: self.suffix,
            exotic_type: self.exotic_type,
            lifesteal: self.lifesteal,
            cooldown_reduction: self.cooldown_reduction,
            freeze_chance: self.freeze_chance,
            burn_chance: self.burn_chance,
            hp_bonus: self.hp_bonus,
        }
    }

    /// The name shown in the inventory, e.g. "Dagger (+1 dmg) [RARE]".
    pub fn display_name(&self) -> (s: String)
        ensures
            s@ == display_text(*self),
    {
        let mut base = self.name.clone();
        match self.item_type {
            ItemType::Weapon => {
                base.append(" (+");
                base.append(int_to_string(self.damage_bonus).as_str());
                base.append(" dmg)");
            },
            ItemType::Armor => {
                base.append(" (+");
                base.append(int_to_string(self.defense_bonus).as_str());
                base.append(" def)");
            },
            ItemType::Ring => {
                if self.stat_bonus_type.as_str().unicode_len() > 0 {
                    base.append(" (+");
                    base.append(int_to_string(self.stat_bonus_value).as_str());
                    base.append(" ");
                    base.append(self.stat_bonus_type.as_str());
                    base.append(")");
                }
            },
            ItemType::Potion => {
                base.append(" (heals ");
                base.append(int_to_string(self.heal_amount).as_str());
                base.append(")");
            },
        }
        let mut out = String::new();
        if self.is_artifact {
            out.append("* ");
            out.append(base.as_str());
            out.append(" *");
        } else {
            out.append(base.as_str());
        }
        if self.rarity != Rarity::Common {
            out.append(" [");
            out.append(self.rarity.label());
            out.append("]");
        }
        proof {
            assert(Seq::<char>::empty() + base_text(*self) == base_text(*self));
        }
        out
    }

    pub fn artifact_description(&self) -> (s: &'static str)
        ensures
            s@ == artifact_text(self.artifact_effect),
    {
        self.artifact_effect.description()
    }
}


// --- Item construction ---

fn make_item(
    name: &str,
    item_type: ItemType,
    symbol: char,
    damage: i32,
    defense: i32,
    stat_type: &str,
    stat_value: i32,
    heal: i32,
    floor_level: i32,
    rarity: Rarity,
    is_artifact: bool,
    effect: ArtifactEffect,
) -> (r: Item)
    ensures
        plain_item(r, name@, item_type, symbol, damage as int, defense as int, stat_type@,
            stat_value as int, heal as int, floor_level as int, rarity, is_artifact, effect),
{
    Item {
        name: String::from_str(name),
        item_type,
        symbol,
        damage_bonus: damage,
        defense_bonus: defense,
        stat_bonus_type: String::from_str(stat_type),
        stat_bonus_value: stat_value,
        heal_amount: heal,
        floor_level,
        rarity,
        is_artifact,
        artifact_effect: effect,
        prefix: None,
        suffix: None,
        exotic_type: None,
        lifesteal: 0,
        cooldown_reduction: 0,
        freeze_chance: 0,
        burn_chance: 0,
        hp_bonus: 0,
    }
}

pub open spec fn is_random_potion(it: Item) -> bool {
    plain_item(it, "Health Potion"@, ItemType::Potion, '!', 0, 0, Seq::empty(), 0, 7, 1, Rarity::Common, false, ArtifactEffect::NoEffect)
}

pub fn random_potion() -> (r: Item)
    ensures
        is_random_potion(r),
{
    proof { reveal_strlit(""); assert(""@ =~= Seq::<char>::empty()); }
    make_item("Health Potion", ItemType::Potion, '!', 0, 0, "", 0, 7, 1, Rarity::Common, false, ArtifactEffect::NoEffect)
}

pub open spec fn is_artifact_ragefang(it: Item) -> bool {
    plain_item(it, "Ragefang"@, ItemType::Weapon, '/', 3, 0, Seq::empty(), 0, 0, 6, Rarity::Legendary, true, ArtifactEffect::Ragefang)
}

pub fn artifact_ragefang() -> (r: Item)
    ensures
        is_artifact_ragefang(r),
{
    proof { reveal_strlit(""); assert(""@ =~= Seq::<char>::empty()); }
    make_item("Ragefang", ItemType::Weapon, '/', 3, 0, "", 0, 0, 6, Rarity::Legendary, true, ArtifactEffect::Ragefang)
}

pub open spec fn is_artifact_stonehide(it: Item) -> bool {
    plain_item(it, "Stonehide Plate"@, ItemType::Armor, '[', 0, 4, Seq::empty(), 0, 0, 6, Rarity::Legendary, true, ArtifactEffect::StonehidePlate)
}

pub fn artifact_stonehide() -> (r: Item)
    ensures
        is_artifact_stonehide(r),
{
    proof { reveal_strlit(""); assert(""@ =~= Seq::<char>::empty()); }
    make_item("Stonehide Plate", ItemType::Armor, '[', 0, 4, "", 0, 0, 6, Rarity::Legendary, true, ArtifactEffect::StonehidePlate)
}

pub open spec fn is_artifact_warlord_signet(it: Item) -> bool {
    plain_item(it, "Warlord's Signet"@, ItemType::Ring, '=', 0, 0, "STR"@, 2, 0, 6, Rarity::Legendary, true, ArtifactEffect::WarlordSignet)
}

pub fn artifact_warlord_signet() -> (r: Item)
    ensures
        is_artifact_warlord_signet(r),
{
    make_item("Warlord's Signet", ItemType::Ring, '=', 0, 0, "STR", 2, 0, 6, Rarity::Legendary, true, ArtifactEffect::WarlordSignet)
}

pub open spec fn is_artifact_shadowfang(it: Item) -> bool {
    plain_item(it, "Shadowfang"@, ItemType::Weapon, '/', 2, 0, Seq::empty(), 0, 0, 6, Rarity::Legendary, true, ArtifactEffect::Shadowfang)
}

pub fn artifact_shadowfang() -> (r: Item)
    ensures
        is_artifact_shadowfang(r),
{
    proof { reveal_strlit(""); assert(""@ =~= Seq::<char>::empty()); }
    make_item("Shadowfang", ItemType::Weapon, '/', 2, 0, "", 0, 0, 6, Rarity::Legendary, true, ArtifactEffect::Shadowfang)
}

pub open spec fn is_artifact_wraithwalkers(it: Item) -> bool {
    plain_item(it, "Wraithwalkers"@, ItemType::Armor, '[', 0, 1, "DEX"@, 3, 0, 6, Rarity::Legendary, true, ArtifactEffect::Wraithwalkers)
}

pub fn artifact_wraithwalkers() -> (r: Item)
    ensures
        is_artifact_wraithwalkers(r),
{
    make_item("Wraithwalkers", ItemType::Armor, '[', 0, 1, "DEX", 3, 0, 6, Rarity::Legendary, true, ArtifactEffect::Wraithwalkers)
}

pub open spec fn is_artifact_venomcoil(it: Item) -> bool {
    plain_item(it, "Venomcoil Ring"@, ItemType::Ring, '=', 0, 0, "DEX"@, 2, 0, 6, Rarity::Legendary, true, ArtifactEffect::Venomcoil)
}

pub fn artifact_venomcoil() -> (r: Item)
    ensures
        is_artifact_venomcoil(r),
{
    make_item("Venomcoil Ring", ItemType::Ring, '=', 0, 0, "DEX", 2, 0, 6, Rarity::Legendary, true, ArtifactEffect::Venomcoil)
}

pub open spec fn is_artifact_stormcaller(it: Item) -> bool {
    plain_item(it, "Stormcaller Staff"@, ItemType::Weapon, '/', 2, 0, "INT"@, 3, 0, 6, Rarity::Legendary, true, ArtifactEffect::StormcallerStaff)
}

pub fn artifact_stormcaller() -> (r: Item)
    ensures
        is_artifact_stormcaller(r),
{
    make_item("Stormcaller Staff", ItemType::Weapon, '/', 2, 0, "INT", 3, 0, 6, Rarity::Legendary, true, ArtifactEffect::StormcallerStaff)
}

pub open spec fn is_artifact_frostweavrobe(it: Item) -> bool {
    plain_item(it, "Frostweave Robe"@, ItemType::Armor, '[', 0, 2, "INT"@, 2, 0, 6, Rarity::Legendary, true, ArtifactEffect::FrostweavRobe)
}

pub fn artifact_frostweavrobe() -> (r: Item)
    ensures
        is_artifact_frostweavrobe(r),
{
    make_item("Frostweave Robe", ItemType::Armor, '[', 0, 2, "INT", 2, 0, 6, Rarity::Legendary, true, ArtifactEffect::FrostweavRobe)
}

pub open spec fn is_artifact_mindfire(it: Item) -> bool {
    plain_item(it, "Mindfire Crown"@, ItemType::Ring, '=', 0, 0, "INT"@, 4, 0, 6, Rarity::Legendary, true, ArtifactEffect::MindFireCrown)
}

pub fn artifact_mindfire() -> (r: Item)
    ensures
        is_artifact_mindfire(r),
{
    make_item("Mindfire Crown", ItemType::Ring, '=', 0, 0, "INT", 4, 0, 6, Rarity::Legendary, true, ArtifactEffect::MindFireCrown)
}

pub open spec fn is_named_shadow_slicer(it: Item) -> bool {
    plain_item(it, "Shadow Slicer"@, ItemType::Weapon, '/', 4, 0, "DEX"@, 1, 0, 4, Rarity::Rare, false, ArtifactEffect::NoEffect)
}

pub fn named_shadow_slicer() -> (r: Item)
    ensures
        is_named_shadow_slicer(r),
{
    make_item("Shadow Slicer", ItemType::Weapon, '/', 4, 0, "DEX", 1, 0, 4, Rarity::Rare, false, ArtifactEffect::NoEffect)
}

pub open spec fn is_named_bone_crusher(it: Item) -> bool {
    plain_item(it, "Bone Crusher"@, ItemType::Weapon, '/', 6, 0, "STR"@, 2, 0, 5, Rarity::Rare, false, ArtifactEffect::NoEffect)
}

pub fn named_bone_crusher() -> (r: Item)
    ensures
        is_named_bone_crusher(r),
{
    make_item("Bone Crusher", ItemType::Weapon, '/', 6, 0, "STR", 2, 0, 5, Rarity::Rare, false, ArtifactEffect::NoEffect)
}

pub open spec fn is_named_spellbound_staff(it: Item) -> bool {
    plain_item(it, "Spellbound Staff"@, ItemType::Weapon, '/', 3, 0, "INT"@, 4, 0, 5, Rarity::Rare, false, ArtifactEffect::NoEffect)
}

pub fn named_spellbound_staff() -> (r: Item)
    ensures
        is_named_spellbound_staff(r),
{
    make_item("Spellbound Staff", ItemType::Weapon, '/', 3, 0, "INT", 4, 0, 5, Rarity::Rare, false, ArtifactEffect::NoEffect)
}

pub open spec fn is_named_veterans_plate(it: Item) -> bool {
    plain_item(it, "Veteran's Plate"@, ItemType::Armor, '[', 0, 5, "CON"@, 2, 0, 5, Rarity::Rare, false, ArtifactEffect::NoEffect)
}

pub fn named_veterans_plate() -> (r: Item)
    ensures
        is_named_veterans_plate(r),
{
    make_item("Veteran's Plate", ItemType::Armor, '[', 0, 5, "CON", 2, 0, 5, Rarity::Rare, false, ArtifactEffect::NoEffect)
}

pub open spec fn is_named_swiftboots(it: Item) -> bool {
    plain_item(it, "Swiftboots"@, ItemType::Armor, '[', 0, 1, "DEX"@, 4, 0, 4, Rarity::Rare, false, ArtifactEffect::NoEffect)
}

pub fn named_swiftboots() -> (r: Item)
    ensures
        is_named_swiftboots(r),
{
    make_item("Swiftboots", ItemType::Armor, '[', 0, 1, "DEX", 4, 0, 4, Rarity::Rare, false, ArtifactEffect::NoEffect)
}

pub open spec fn is_named_sages_robe(it: Item) -> bool {
    plain_item(it, "Sage's Robe"@, ItemType::Armor, '[', 0, 2, "INT"@, 3, 0, 4, Rarity::Rare, false, ArtifactEffect::NoEffect)
}

pub fn named_sages_robe() -> (r: Item)
    ensures
        is_named_sages_robe(r),
{
    make_item("Sage's Robe", ItemType::Armor, '[', 0, 2, "INT", 3, 0, 4, Rarity::Rare, false, ArtifactEffect::NoEffect)
}

pub open spec fn is_named_lions_amulet(it: Item) -> bool {
    plain_item(it, "Lion's Amulet"@, ItemType::Ring, '=', 0, 0, "STR"@, 4, 0, 5, Rarity::Rare, false, ArtifactEffect::NoEffect)
}

pub fn named_lions_amulet() -> (r: Item)
    ensures
        is_named_lions_amulet(r),
{
    make_item("Lion's Amulet", ItemType::Ring, '=', 0, 0, "STR", 4, 0, 5, Rarity::Rare, false, ArtifactEffect::NoEffect)
}

pub open spec fn is_named_eagles_eye(it: Item) -> bool {
    plain_item(it, "Eagle's Eye"@, ItemType::Ring, '=', 0, 0, "DEX"@, 4, 0, 5, Rarity::Rare, false, ArtifactEffect::NoEffect)
}

pub fn named_eagles_eye() -> (r: Item)
    ensures
        is_named_eagles_eye(r),
{
    make_item("Eagle's Eye", ItemType::Ring, '=', 0, 0, "DEX", 4, 0, 5, Rarity::Rare, false, ArtifactEffect::NoEffect)
}

pub open spec fn is_named_dragon_heart(it: Item) -> bool {
    plain_item(it, "Dragon Heart"@, ItemType::Ring, '=', 0, 0, "CON"@, 4, 0, 5, Rarity::Rare, false, ArtifactEffect::NoEffect)
}

pub fn named_dragon_heart() -> (r: Item)
    ensures
        is_named_dragon_heart(r),
{
    make_item("Dragon Heart", ItemType::Ring, '=', 0, 0, "CON", 4, 0, 5, Rarity::Rare, false, ArtifactEffect::NoEffect)
}

pub open spec fn is_warrior_starting_weapon(it: Item) -> bool {
    plain_item(it, "Iron Shortsword"@, ItemType::Weapon, '/', 2, 0, Seq::empty(), 0, 0, 1, Rarity::Uncommon, false, ArtifactEffect::NoEffect)
}

pub fn warrior_starting_weapon() -> (r: Item)
    ensures
        is_warrior_starting_weapon(r),
{
    proof { reveal_strlit(""); assert(""@ =~= Seq::<char>::empty()); }
    make_item("Iron Shortsword", ItemType::Weapon, '/', 2, 0, "", 0, 0, 1, Rarity::Uncommon, false, ArtifactEffect::NoEffect)
}

pub open spec fn is_warrior_starting_armor(it: Item) -> bool {
    plain_item(it, "Leather Armor"@, ItemType::Armor, '[', 0, 1, Seq::empty(), 0, 0, 1, Rarity::Uncommon, false, ArtifactEffect::NoEffect)
}

pub fn warrior_starting_armor() -> (r: Item)
    ensures
        is_warrior_starting_armor(r),
{
    proof { reveal_strlit(""); assert(""@ =~= Seq::<char>::empty()); }
    make_item("Leather Armor", ItemType::Armor, '[', 0, 1, "", 0, 0, 1, Rarity::Uncommon, false, ArtifactEffect::NoEffect)
}

pub open spec fn is_rogue_starting_weapon(it: Item) -> bool {
    plain_item(it, "Twin Daggers"@, ItemType::Weapon, '/', 1, 0, Seq::empty(), 0, 0, 1, Rarity::Uncommon, false, ArtifactEffect::NoEffect)
}

pub fn rogue_starting_weapon() -> (r: Item)
    ensures
        is_rogue_starting_weapon(r),
{
    proof { reveal_strlit(""); assert(""@ =~= Seq::<char>::empty()); }
    make_item("Twin Daggers", ItemType::Weapon, '/', 1, 0, "", 0, 0, 1, Rarity::Uncommon, false, ArtifactEffect::NoEffect)
}

pub open spec fn is_mage_starting_weapon(it: Item) -> bool {
    plain_item(it, "Wooden Staff"@, ItemType::Weapon, '/', 1, 0, Seq::empty(), 0, 0, 1, Rarity::Uncommon, false, ArtifactEffect::NoEffect)
}

pub fn mage_starting_weapon() -> (r: Item)
    ensures
        is_mage_starting_weapon(r),
{
    proof { reveal_strlit(""); assert(""@ =~= Seq::<char>::empty()); }
    make_item("Wooden Staff", ItemType::Weapon, '/', 1, 0, "", 0, 0, 1, Rarity::Uncommon, false, ArtifactEffect::NoEffect)
}

pub open spec fn is_mage_starting_ring(it: Item) -> bool {
    plain_item(it, "Ring of Intellect"@, ItemType::Ring, '=', 0, 0, "INT"@, 2, 0, 1, Rarity::Uncommon, false, ArtifactEffect::NoEffect)
}

pub fn mage_starting_ring() -> (r: Item)
    ensures
        is_mage_starting_ring(r),
{
    make_item("Ring of Intellect", ItemType::Ring, '=', 0, 0, "INT", 2, 0, 1, Rarity::Uncommon, false, ArtifactEffect::NoEffect)
}

// --- Random items ---

/// Equipment tier of a floor: 1 on floors up to 3, 2 on floors 4-6, 3 deeper.
pub open spec fn tier_of(floor: int) -> int {
    if floor <= 3 { 1 } else if floor <= 6 { 2 } else { 3 }
}

pub fn floor_tier(floor: i32) -> (t: i32)
    ensures
        t == tier_of(floor as int),
{
    if floor <= 3 {
        1
    } else if floor <= 6 {
        2
    } else {
        3
    }
}

pub open spec fn is_potion(it: Item, rarity: Rarity) -> bool {
    plain_item(it, "Health Potion"@, ItemType::Potion, '!', 0, 0, Seq::empty(), 0, 7, 1, rarity,
        false, ArtifactEffect::NoEffect)
}

/// The weapon found on `floor`; on deep floors `longsword` picks a Longsword
/// over a Greataxe.
pub open spec fn is_weapon_for(it: Item, floor: int, longsword: bool, rarity: Rarity) -> bool {
    let t = tier_of(floor);
    if t == 1 {
        plain_item(it, "Dagger"@, ItemType::Weapon, '/', 1, 0, Seq::empty(), 0, 0, floor, rarity,
            false, ArtifactEffect::NoEffect)
    } else if t == 2 {
        plain_item(it, "Shortsword"@, ItemType::Weapon, '/', 2, 0, Seq::empty(), 0, 0, floor,
            rarity, false, ArtifactEffect::NoEffect)
    } else if longsword {
        plain_item(it, "Longsword"@, ItemType::Weapon, '/', 3, 0, Seq::empty(), 0, 0, floor,
            rarity, false, ArtifactEffect::NoEffect)
    } else {
        plain_item(it, "Greataxe"@, ItemType::Weapon, '/', 5, 0, Seq::empty(), 0, 0, floor,
            rarity, false, ArtifactEffect::NoEffect)
    }
}

pub open spec fn is_armor_for(it: Item, floor: int, rarity: Rarity) -> bool {
    let t = tier_of(floor);
    if t == 1 {
        plain_item(it, "Leather Armor"@, ItemType::Armor, '[', 0, 1, Seq::empty(), 0, 0, floor,
            rarity, false, ArtifactEffect::NoEffect)
    } else if t == 2 {
        plain_item(it, "Chainmail"@, ItemType::Armor, '[', 0, 2, Seq::empty(), 0, 0, floor, rarity,
            false, ArtifactEffect::NoEffect)
    } else {
        plain_item(it, "Plate Armor"@, ItemType::Armor, '[', 0, 4, Seq::empty(), 0, 0, floor,
            rarity, false, ArtifactEffect::NoEffect)
    }
}

/// The ring found on `floor` for stat roll `k` (0 STR, 1 DEX, 2 INT, else CON);
/// its bonus is the floor's tier.
pub open spec fn is_ring_for(it: Item, floor: int, k: int, rarity: Rarity) -> bool {
    let t = tier_of(floor);
    if k == 0 {
        plain_item(it, "Ring of Strength"@, ItemType::Ring, '=', 0, 0, "STR"@, t, 0, floor, rarity,
            false, ArtifactEffect::NoEffect)
    } else if k == 1 {
        plain_item(it, "Ring of Agility"@, ItemType::Ring, '=', 0, 0, "DEX"@, t, 0, floor, rarity,
            false, ArtifactEffect::NoEffect)
    } else if k == 2 {
        plain_item(it, "Ring of Intellect"@, ItemType::Ring, '=', 0, 0, "INT"@, t, 0, floor, rarity,
            false, ArtifactEffect::NoEffect)
    } else {
        plain_item(it, "Ring of Vitality"@, ItemType::Ring, '=', 0, 0, "CON"@, t, 0, floor, rarity,
            false, ArtifactEffect::NoEffect)
    }
}

/// Loot for a kind roll in `0..100`: a potion below `c1`, a weapon below `c2`,
/// armor below `c3` and a ring otherwise, carrying `rarity`.
pub open spec fn is_loot_for(
    it: Item,
    floor: int,
    rarity: Rarity,
    roll: int,
    c1: int,
    c2: int,
    c3: int,
    longsword: bool,
    k: int,
) -> bool {
    if roll < c1 {
        is_potion(it, rarity)
    } else if roll < c2 {
        is_weapon_for(it, floor, longsword, rarity)
    } else if roll < c3 {
        is_armor_for(it, floor, rarity)
    } else {
        is_ring_for(it, floor, k, rarity)
    }
}

/// Loot by roll: a roll below `c1` gives a potion, below `c2` a weapon,
/// below `c3` armor, else a ring; the item carries the rarity rolled, and
/// a weapon or armor found deeper is never weaker than one found higher up
/// (same rarity and pick).
pub proof fn lemma_loot_kinds(it: Item, floor: int, rarity: Rarity, roll: int, c1: int, c2: int, c3: int, b: bool, k: int)
    requires
        is_loot_for(it, floor, rarity, roll, c1, c2, c3, b, k),
    ensures
        it.rarity == rarity,
        it.item_type == (if roll < c1 { ItemType::Potion } else if roll < c2 { ItemType::Weapon }
            else if roll < c3 { ItemType::Armor } else { ItemType::Ring }),
        it.item_type == ItemType::Potion ==> it.heal_amount == 7,
        it.item_type == ItemType::Weapon ==> it.damage_bonus >= 1,
        it.item_type == ItemType::Armor ==> it.defense_bonus >= 1,
        it.item_type == ItemType::Ring ==> it.stat_bonus_value >= 1,
{
}

/// Deeper floors give weapons, armor and rings at least as strong as
/// shallower floors do (same rarity and pick).
pub proof fn lemma_deeper_loot_stronger(a: Item, b: Item, f1: int, f2: int, rarity: Rarity, longsword: bool, k: int)
    requires
        f1 <= f2,
    ensures
        is_weapon_for(a, f1, longsword, rarity) && is_weapon_for(b, f2, longsword, rarity) ==> a.damage_bonus <= b.damage_bonus,
        is_armor_for(a, f1, rarity) && is_armor_for(b, f2, rarity) ==> a.defense_bonus <= b.defense_bonus,
        is_ring_for(a, f1, k, rarity) && is_ring_for(b, f2, k, rarity) ==> a.stat_bonus_value <= b.stat_bonus_value,
{
}

fn potion_of(rarity: Rarity) -> (r: Item)
    ensures
        is_potion(r, rarity),
{
    proof { reveal_strlit(""); assert(""@ =~= Seq::<char>::empty()); }
    make_item("Health Potion", ItemType::Potion, '!', 0, 0, "", 0, 7, 1, rarity, false,
        ArtifactEffect::NoEffect)
}

pub fn weapon_for(floor: i32, longsword: bool, rarity: Rarity) -> (r: Item)
    ensures
        is_weapon_for(r, floor as int, longsword, rarity),
{
    proof { reveal_strlit(""); assert(""@ =~= Seq::<char>::empty()); }
    let t = floor_tier(floor);
    if t == 1 {
        make_item("Dagger", ItemType::Weapon, '/', 1, 0, "", 0, 0, floor, rarity, false,
            ArtifactEffect::NoEffect)
    } else if t == 2 {
        make_item("Shortsword", ItemType::Weapon, '/', 2, 0, "", 0, 0, floor, rarity, false,
            ArtifactEffect::NoEffect)
    } else if longsword {
        make_item("Longsword", ItemType::Weapon, '/', 3, 0, "", 0, 0, floor, rarity, false,
            ArtifactEffect::NoEffect)
    } else {
        make_item("Greataxe", ItemType::Weapon, '/', 5, 0, "", 0, 0, floor, rarity, false,
            ArtifactEffect::NoEffect)
    }
}

pub fn armor_for(floor: i32, rarity: Rarity) -> (r: Item)
    ensures
        is_armor_for(r, floor as int, rarity),
{
    proof { reveal_strlit(""); assert(""@ =~= Seq::<char>::empty()); }
    let t = floor_tier(floor);
    if t == 1 {
        make_item("Leather Armor", ItemType::Armor, '[', 0, 1, "", 0, 0, floor, rarity, false,
            ArtifactEffect::NoEffect)
    } else if t == 2 {
        make_item("Chainmail", ItemType::Armor, '[', 0, 2, "", 0, 0, floor, rarity, false,
            ArtifactEffect::NoEffect)
    } else {
        make_item("Plate Armor", ItemType::Armor, '[', 0, 4, "", 0, 0, floor, rarity, false,
            ArtifactEffect::NoEffect)
    }
}

pub fn ring_for(floor: i32, k: usize, rarity: Rarity) -> (r: Item)
    ensures
        is_ring_for(r, floor as int, k as int, rarity),
{
    let t = floor_tier(floor);
    if k == 0 {
        make_item("Ring of Strength", ItemType::Ring, '=', 0, 0, "STR", t, 0, floor, rarity, false,
            ArtifactEffect::NoEffect)
    } else if k == 1 {
        make_item("Ring of Agility", ItemType::Ring, '=', 0, 0, "DEX", t, 0, floor, rarity, false,
            ArtifactEffect::NoEffect)
    } else if k == 2 {
        make_item("Ring of Intellect", ItemType::Ring, '=', 0, 0, "INT", t, 0, floor, rarity, false,
            ArtifactEffect::NoEffect)
    } else {
        make_item("Ring of Vitality", ItemType::Ring, '=', 0, 0, "CON", t, 0, floor, rarity, false,
            ArtifactEffect::NoEffect)
    }
}

/// The loot that a kind roll selects (see `is_loot_for`).
pub fn loot_for(
    floor: i32,
    rarity: Rarity,
    roll: usize,
    c1: usize,
    c2: usize,
    c3: usize,
    longsword: bool,
    k: usize,
) -> (r: Item)
    ensures
        is_loot_for(r, floor as int, rarity, roll as int, c1 as int, c2 as int, c3 as int,
            longsword, k as int),
{
    if roll < c1 {
        potion_of(rarity)
    } else if roll < c2 {
        weapon_for(floor, longsword, rarity)
    } else if roll < c3 {
        armor_for(floor, rarity)
    } else {
        ring_for(floor, k, rarity)
    }
}

pub fn random_weapon(floor: i32) -> (r: Item)
    ensures
        exists|b: bool| is_weapon_for(r, floor as int, b, Rarity::Common),
{
    let longsword = if floor_tier(floor) == 3 { random_ratio(1, 2) } else { false };
    let r = weapon_for(floor, longsword, Rarity::Common);
    assert(is_weapon_for(r, floor as int, longsword, Rarity::Common));
    r
}

pub fn random_armor(floor: i32) -> (r: Item)
    ensures
        is_armor_for(r, floor as int, Rarity::Common),
{
    armor_for(floor, Rarity::Common)
}

pub fn random_ring(floor: i32) -> (r: Item)
    ensures
        exists|k: int| 0 <= k < 4 && is_ring_for(r, floor as int, k, Rarity::Common),
{
    let k = random_below(4);
    let r = ring_for(floor, k, Rarity::Common);
    assert(is_ring_for(r, floor as int, k as int, Rarity::Common));
    r
}

/// An item lying on the floor: 40% potions, 30% weapons, 20% armor, 10% rings,
/// with a rarity rolled for the floor.
pub fn random_item(floor: i32) -> (r: Item)
    ensures
        exists|roll: int, b: bool, k: int, u: int|
            #![trigger is_loot_for(r, floor as int, rarity_for(floor as int, u), roll, 40, 70, 90, b, k)]
            0 <= roll < 100 && 0 <= k < 4 && 0 <= u < 20000
            && is_loot_for(r, floor as int, rarity_for(floor as int, u), roll, 40, 70, 90, b, k),
{
    let u = random_below(20000);
    let rarity = rarity_for_roll(floor, u as u32);
    let roll = random_below(100);
    let b = random_ratio(1, 2);
    let k = random_below(4);
    let r = loot_for(floor, rarity, roll, 40, 70, 90, b, k);
    assert(is_loot_for(r, floor as int, rarity_for(floor as int, u as int), roll as int, 40, 70, 90, b, k as int));
    r
}

/// A monster's drop: 50% potions, 25% weapons, 15% armor, 10% rings, with a
/// rarity rolled for the floor.
pub fn random_drop(floor: i32) -> (r: Item)
    ensures
        exists|roll: int, b: bool, k: int, u: int|
            #![trigger is_loot_for(r, floor as int, rarity_for(floor as int, u), roll, 50, 75, 90, b, k)]
            0 <= roll < 100 && 0 <= k < 4 && 0 <= u < 20000
            && is_loot_for(r, floor as int, rarity_for(floor as int, u), roll, 50, 75, 90, b, k),
{
    let u = random_below(20000);
    let rarity = rarity_for_roll(floor, u as u32);
    let roll = random_below(100);
    let b = random_ratio(1, 2);
    let k = random_below(4);
    let r = loot_for(floor, rarity, roll, 50, 75, 90, b, k);
    assert(is_loot_for(r, floor as int, rarity_for(floor as int, u as int), roll as int, 50, 75, 90, b, k as int));
    r
}

pub open spec fn is_class_artifact(it: Item, class_name: Seq<char>, k: int) -> bool {
    if class_name == "Warrior"@ {
        if k == 0 { is_artifact_ragefang(it) } else if k == 1 { is_artifact_stonehide(it) } else { is_artifact_warlord_signet(it) }
    } else if class_name == "Rogue"@ {
        if k == 0 { is_artifact_shadowfang(it) } else if k == 1 { is_artifact_wraithwalkers(it) } else { is_artifact_venomcoil(it) }
    } else if class_name == "Mage"@ {
        if k == 0 { is_artifact_stormcaller(it) } else if k == 1 { is_artifact_frostweavrobe(it) } else { is_artifact_mindfire(it) }
    } else {
        is_artifact_ragefang(it)
    }
}

/// The artifact that roll `k` in `0..3` gives to a character of `class_name`;
/// an unknown class gets Ragefang.
pub fn artifact_for(class_name: &str, k: usize) -> (r: Item)
    ensures
        is_class_artifact(r, class_name@, k as int),
{
    if str_equal(class_name, "Warrior") {
        if k == 0 { artifact_ragefang() } else if k == 1 { artifact_stonehide() } else { artifact_warlord_signet() }
    } else if str_equal(class_name, "Rogue") {
        if k == 0 { artifact_shadowfang() } else if k == 1 { artifact_wraithwalkers() } else { artifact_venomcoil() }
    } else if str_equal(class_name, "Mage") {
        if k == 0 { artifact_stormcaller() } else if k == 1 { artifact_frostweavrobe() } else { artifact_mindfire() }
    } else {
        artifact_ragefang()
    }
}

pub fn random_artifact(class_name: &str) -> (r: Item)
    ensures
        exists|k: int| 0 <= k < 3 && is_class_artifact(r, class_name@, k),
{
    let k = random_below(3);
    let r = artifact_for(class_name, k);
    assert(is_class_artifact(r, class_name@, k as int));
    r
}

/// The named item that roll `k` gives on `floor`: none above floor 4; on
/// floors 4-5 a roll in `0..4` picks Shadow Slicer, Swiftboots, Sage's Robe or
/// nothing; deeper a roll in `0..10` picks one of eight or nothing.
pub open spec fn is_named_for(r: Option<Item>, floor: int, k: int) -> bool {
    if floor < 4 {
        r is None
    } else if floor < 6 {
        if k == 0 { r is Some && is_named_shadow_slicer(r->0) }
        else if k == 1 { r is Some && is_named_swiftboots(r->0) }
        else if k == 2 { r is Some && is_named_sages_robe(r->0) }
        else { r is None }
    } else {
        if k == 0 { r is Some && is_named_bone_crusher(r->0) }
        else if k == 1 { r is Some && is_named_spellbound_staff(r->0) }
        else if k == 2 { r is Some && is_named_veterans_plate(r->0) }
        else if k == 3 { r is Some && is_named_swiftboots(r->0) }
        else if k == 4 { r is Some && is_named_sages_robe(r->0) }
        else if k == 5 { r is Some && is_named_lions_amulet(r->0) }
        else if k == 6 { r is Some && is_named_eagles_eye(r->0) }
        else if k == 7 { r is Some && is_named_dragon_heart(r->0) }
        else { r is None }
    }
}

pub fn named_item_for(floor: i32, k: usize) -> (r: Option<Item>)
    ensures
        is_named_for(r, floor as int, k as int),
{
    if floor < 4 {
        None
    } else if floor < 6 {
        if k == 0 { Some(named_shadow_slicer()) }
        else if k == 1 { Some(named_swiftboots()) }
        else if k == 2 { Some(named_sages_robe()) }
        else { None }
    } else {
        if k == 0 { Some(named_bone_crusher()) }
        else if k == 1 { Some(named_spellbound_staff()) }
        else if k == 2 { Some(named_veterans_plate()) }
        else if k == 3 { Some(named_swiftboots()) }
        else if k == 4 { Some(named_sages_robe()) }
        else if k == 5 { Some(named_lions_amulet()) }
        else if k == 6 { Some(named_eagles_eye()) }
        else if k == 7 { Some(named_dragon_heart()) }
        else { None }
    }
}

pub fn random_named_item(floor: i32) -> (r: Option<Item>)
    ensures
        floor < 4 ==> r is None,
        4 <= floor < 6 ==> exists|k: int| 0 <= k < 4 && is_named_for(r, floor as int, k),
        6 <= floor ==> exists|k: int| 0 <= k < 10 && is_named_for(r, floor as int, k),
{
    if floor < 4 {
        None
    } else {
        let n: usize = if floor < 6 { 4 } else { 10 };
        let k = random_below(n);
        let r = named_item_for(floor, k);
        assert(is_named_for(r, floor as int, k as int));
        r
    }
}

} // verus!
