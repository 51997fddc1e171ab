//! A run of the game: the state kept between frames, and what a step, an
//! ability or a monster tick does to it. Before each rule is applied its
//! numbers are tested (see `guards`); where they have left the range the
//! rules are made for, the run stops there and says so.
use vstd::prelude::*;
use crate::combat::{boss_alive, chain_lightning, descend, frost_nova, monster_on, pick_up, player_attack, shadow_step, war_cry};
use crate::events::{blessed, burned, enter_web, kill_loot, player_hurt};
use crate::guards::{arena_room, deco_rooms_in_shape, loot_rooms_in_shape, monsters_hp_in_range, monsters_in_range,
    monsters_near, player_has_room, player_in_range, rooms_reach_one, shots_in_range, webs_in_place, xp_gain_in_range};
use crate::events::start_of;
use crate::items::{is_mage_starting_ring, is_mage_starting_weapon, is_rogue_starting_weapon, is_warrior_starting_armor,
    is_warrior_starting_weapon, mage_starting_ring, mage_starting_weapon, rogue_starting_weapon, warrior_starting_armor,
    warrior_starting_weapon};
use crate::mapgen::{arena_fits, boss_floor, center_of};
use crate::paths::joined;
use crate::items::Item;
use crate::map::{DungeonMap, RoomType, Tile, TrapType, MAX_SIDE, lemma_first_floor_same, map_wf, walkable};
use crate::mapgen::cell;
use crate::combat::{blow_damage, bolt, chain_hits, first_living_at, frosted, in_blast, spell_bonus, struck};
use crate::guards::{monsters_hp_ok, monsters_near_ok, xp_room};
use crate::monster::is_new_monster;
use crate::populate::{boss_kind, boss_spot, ground_loot, items_placed, loot_rooms_ok, middle_rooms, waits_somewhere};
use crate::monster::{Monster, MonsterType};
use crate::player::{AbilityType, Class, Player};
use crate::projectile::Projectile;
use crate::text::int_to_string;
use crate::turn::{dead_from, death_on_map, hit_change, in_flight, living_except, player_fit, process_monsters, process_projectiles, round_done, shots_ok, text3, webs_ok};
use crate::player::{cooldown_ok, effective_of, item_bounded, player_bounded, tick_slot};
use crate::monster::monster_ok;

verus! {

/// Everything a run keeps between frames.
pub struct Game {
    pub player: Player,
    pub map: DungeonMap,
    pub monsters: Vec<Monster>,
    pub projectiles: Vec<Projectile>,
    pub items: Vec<(usize, usize, Item)>,
    pub webs: Vec<(usize, usize)>,
    pub web_stuck: i32,
    pub floor: i32,
    pub log: Vec<String>,
}

/// How a step ended.
#[derive(Clone, Copy, Debug, PartialEq, Eq, Structural)]
pub enum StepEnd {
    /// The player is still on this floor.
    Stayed,
    /// The player went down the stairs: a new floor is due.
    Descended,
    /// A number left the range the rules are made for; the step stopped
    /// there.
    OutOfRange,
}

/// A living boss among the monsters: the stairs are sealed.
pub open spec fn boss_lives(ms: Seq<Monster>) -> bool {
    exists|j: int| 0 <= j < ms.len() && (#[trigger] ms[j]).is_boss && ms[j].hp > 0
}

/// A living monster stands on (x, y).
pub open spec fn monster_there(ms: Seq<Monster>, x: int, y: int) -> bool {
    exists|j: int| 0 <= j < ms.len() && (#[trigger] ms[j]).hp > 0 && ms[j].x == x && ms[j].y == y
}

/// The player at the start of a monster tick: cooldowns and buffs ticked
/// (see `tick_abilities`), then a tick of poison costs 1 HP (not below 0),
/// counted as taken.
pub open spec fn tick_start(p: Player) -> Player {
    let a = Player {
        ability_1: tick_slot(p.ability_1),
        ability_2: tick_slot(p.ability_2),
        ragefang_ticks: if p.ragefang_ticks > 0 { (p.ragefang_ticks - 1) as i32 } else { p.ragefang_ticks },
        ragefang_stacks: if p.ragefang_ticks == 1 { 0 } else { p.ragefang_stacks },
        wraithwalkers_buff: false,
        ..p
    };
    if a.poison_ticks > 0 {
        Player {
            poison_ticks: (a.poison_ticks - 1) as i32,
            hp: (if a.hp - 1 > 0 { a.hp - 1 } else { 0 }) as i32,
            damage_taken: (a.damage_taken + 1) as i64,
            ..a
        }
    } else {
        a
    }
}

/// The numbers of a tick's start fit the rules: the poison tick can be
/// counted, at most 400 projectiles, each small, and the player's numbers
/// with room for every projectile to hit.
pub open spec fn tick_fits(g: Game) -> bool {
    let q = tick_start(g.player);
    let shots = g.projectiles@.len();
    &&& !(g.player.poison_ticks > 0 && (g.player.hp == i32::MIN || g.player.damage_taken == i64::MAX))
    &&& shots <= 400 && player_bounded(q) && q.damage_taken >= 0 && q.damage_taken <= i64::MAX - 5_000_000 * shots
    &&& shots_ok(g.projectiles@)
}

/// What the monsters' turns need of the state after the projectiles flew
/// (player `p`, projectiles `ps`): at most 1000 monsters, the player's
/// numbers with room for their turns and standing on the map, every
/// monster in shape, small projectiles and webs on walkable cells.
pub open spec fn round_fits(g: Game, p: Player, ps: Seq<Projectile>) -> bool {
    let n = g.monsters@.len();
    &&& n <= 1000 && player_fit(p, n as int)
    &&& forall|j: int| 0 <= j < n ==> monster_ok(#[trigger] g.monsters@[j], g.map) && death_on_map(g.monsters@[j], g.map)
    &&& p.x < g.map.width && p.y < g.map.height
    &&& shots_ok(ps) && webs_ok(g.webs@, g.map)
}

/// The numbers a blow of `damage` at monster `m` needs: the player with
/// room for one kill, the damage and the monster's HP up to 1,000,000, the
/// damage dealt within 1,000,000,000 either way, the Mind Fire count up to
/// 1,000,000, each ability's charges above the least `i32`, and the floor
/// (for the loot of a kill) up to 1,000,000.
pub open spec fn blow_room(p: Player, m: Monster, damage: int, floor: int) -> bool {
    &&& player_fit(p, 1)
    &&& 1 <= damage <= 1_000_000
    &&& 0 <= m.hp <= 1_000_000
    &&& -1_000_000_000 <= p.damage_dealt <= 1_000_000_000
    &&& 0 <= p.mindfire_kill_count <= 1_000_000
    &&& (p.ability_1 is Some ==> p.ability_1->0.charges > i32::MIN)
    &&& (p.ability_2 is Some ==> p.ability_2->0.charges > i32::MIN)
    &&& floor <= 1_000_000
}

/// The numbers a step onto a cell needs, with room for what may follow on
/// it: a trap (up to 4 damage counted as taken), an altar (50 XP, and the
/// levels it may bring) and the stairs (the next floor's XP): the player in
/// range (see `xp_room`), the damage taken from 0 up to 10 below the
/// largest `i64`, XP up to 999,950, the threshold from 0 up to 984,000,
/// each attribute up to 999,960, HP and max HP up to 9,998,900, the floor's
/// STR and dodge bonuses up to 1,000,000,000 and the floor from -1 up to
/// 199,998.
pub open spec fn step_room(p: Player, floor: int) -> bool {
    &&& xp_room(p, 0)
    &&& 0 <= p.damage_taken <= i64::MAX - 10
    &&& p.xp <= 999_950
    &&& 0 <= p.xp_to_next_level <= 984_000
    &&& p.base_stats.str_ <= 999_960 && p.base_stats.dex <= 999_960
    &&& p.base_stats.int <= 999_960 && p.base_stats.con <= 999_960
    &&& p.hp <= 9_998_900 && p.max_hp <= 9_998_900
    &&& p.bonus_str <= 1_000_000_000 && p.bonus_dodge <= 1_000_000_000
    &&& -1 <= floor < 199_999
}

/// A player in `step_room` keeps room for a gain of 50 XP (and the floor's
/// bonuses for an altar) through a trap's harm.
proof fn lemma_room_after_trap(a: Player, b: Player, floor: int)
    requires
        step_room(a, floor),
        b == a || (exists|d: int| 1 <= d <= 4 && #[trigger] player_hurt(a, b, d))
            || (exists|d: int| 2 <= d <= 3 && #[trigger] burned(a, b, d))
            || b == (Player { x: b.x, y: b.y, ..a }),
    ensures
        xp_room(b, 50),
        b.xp == a.xp && b.xp_to_next_level == a.xp_to_next_level && b.base_stats == a.base_stats,
        b.hp <= 9_998_900 && b.max_hp == a.max_hp && b.level == a.level,
        b.bonus_str == a.bonus_str && b.bonus_dodge == a.bonus_dodge,
{
    if exists|d: int| 1 <= d <= 4 && #[trigger] player_hurt(a, b, d) {
        let d = choose|d: int| 1 <= d <= 4 && #[trigger] player_hurt(a, b, d);
        assert(player_hurt(a, b, d));
    } else if exists|d: int| 2 <= d <= 3 && #[trigger] burned(a, b, d) {
        let d = choose|d: int| 2 <= d <= 3 && #[trigger] burned(a, b, d);
        assert(burned(a, b, d));
    }
}

/// A player with room for 50 XP, XP up to 999,950, the threshold from 0 up
/// to 984,000, attributes up to 999,960 and HP and max HP up to 9,998,900
/// is still in range (see `xp_room`) after an altar's blessing.
proof fn lemma_room_after_altar(a: Player, ma: DungeonMap, b: Player, mb: DungeonMap)
    requires
        xp_room(a, 50), a.xp <= 999_950, 0 <= a.xp_to_next_level <= 984_000,
        a.base_stats.str_ <= 999_960 && a.base_stats.dex <= 999_960,
        a.base_stats.int <= 999_960 && a.base_stats.con <= 999_960,
        a.hp <= 9_998_900 && a.max_hp <= 9_998_900,
        blessed(a, ma, b, mb),
    ensures
        xp_room(b, 0),
{
}

impl Game {
    /// Whether a living monster stands on (x, y): a step there is a blow.
    pub fn monster_at(&self, x: usize, y: usize) -> (b: bool)
        ensures
            b == monster_there(self.monsters@, x as int, y as int),
    {
        let r = monster_on(&self.monsters, x, y);
        proof {
            if monster_there(self.monsters@, x as int, y as int) {
                let j = choose|j: int| 0 <= j < self.monsters@.len() && (#[trigger] self.monsters@[j]).hp > 0
                    && self.monsters@[j].x == x && self.monsters@[j].y == y;
                crate::combat::lemma_first_living_found(self.monsters@, x as int, y as int, 0, j);
            }
        }
        r.is_some()
    }

    /// A step or a blow toward (nx, ny); `damage` is the blow's rolled
    /// damage. A living monster there takes the blow (see `player_attack`)
    /// and, killed, leaves its loot (see `kill_loot`). Otherwise, onto a
    /// walkable cell: a player stuck in a web only struggles; else the
    /// player steps there and looks around, is caught by a web there, sets
    /// off a trap there, prays at an altar there; on the stairs goes down
    /// (see `descend`) unless a boss lives; and picks up an item there.
    /// A blow whose numbers are out of range (see `blow_room`), or a step
    /// onto a cell whose numbers are (see `step_room`), changes nothing and
    /// ends `OutOfRange`.
    #[verifier::rlimit(100)]
    #[verifier::spinoff_prover]
    pub fn step(&mut self, nx: usize, ny: usize, damage: i32) -> (r: StepEnd)
        requires
            map_wf(old(self).map),
        ensures
            map_wf(final(self).map),
            r == StepEnd::Descended ==> final(self).floor == old(self).floor + 1,
            r != StepEnd::Descended ==> final(self).floor == old(self).floor,
            boss_lives(old(self).monsters@) ==> r != StepEnd::Descended,
            monster_there(old(self).monsters@, nx as int, ny as int) ==> r != StepEnd::Descended
                && final(self).player.x == old(self).player.x && final(self).player.y == old(self).player.y,
            !monster_there(old(self).monsters@, nx as int, ny as int) && !walkable(old(self).map, nx as int, ny as int)
                ==> *final(self) == *old(self) && r == StepEnd::Stayed,
            !monster_there(old(self).monsters@, nx as int, ny as int) && walkable(old(self).map, nx as int, ny as int)
                && old(self).web_stuck > 0 ==> r == StepEnd::Stayed
                    && final(self).player == old(self).player && final(self).log@.len() == old(self).log@.len() + 1,
            r == StepEnd::Descended ==> tile_under(old(self).map, final(self).player) == Tile::Stairs,
            !monster_there(old(self).monsters@, nx as int, ny as int) && walkable(old(self).map, nx as int, ny as int)
                && old(self).web_stuck <= 0 && r != StepEnd::OutOfRange ==>
                (final(self).player.x == nx && final(self).player.y == ny)
                || (cell(old(self).map.trap_tiles@, nx as int, ny as int) == Some(TrapType::Teleport)
                    && final(self).player.x == start_of(old(self).map).0 && final(self).player.y == start_of(old(self).map).1),
            r == StepEnd::OutOfRange ==> *final(self) == *old(self),
            monster_there(old(self).monsters@, nx as int, ny as int) ==> (r == StepEnd::OutOfRange <==> !blow_room(old(self).player,
                old(self).monsters@[first_living_at(old(self).monsters@, nx as int, ny as int, 0)->0], damage as int, old(self).floor as int)),
            !monster_there(old(self).monsters@, nx as int, ny as int) && walkable(old(self).map, nx as int, ny as int)
                && old(self).web_stuck <= 0 ==> (r == StepEnd::OutOfRange <==> !step_room(old(self).player, old(self).floor as int)),
            monster_there(old(self).monsters@, nx as int, ny as int) && r != StepEnd::OutOfRange ==> ({
                let i = first_living_at(old(self).monsters@, nx as int, ny as int, 0)->0;
                let m = old(self).monsters@[i];
                &&& final(self).monsters@.len() == old(self).monsters@.len()
                &&& !m.is_phasing && !(m.monster_type == MonsterType::BatSwarm && m.floor_tier >= 2) ==>
                    final(self).monsters@[i] == struck(m, old(self).player, blow_damage(old(self).player, damage as int))
                &&& forall|j: int| 0 <= j < old(self).monsters@.len() && j != i ==> #[trigger] final(self).monsters@[j] == old(self).monsters@[j]
            }),
    {
        let ghost m0 = self.monsters@;
        let ghost map0 = self.map;
        match monster_on(&self.monsters, nx, ny) {
            Some(i) => {
                let m = &self.monsters[i];
                if !(player_has_room(&self.player, 1) && 1 <= damage && damage <= 1_000_000 && 0 <= m.hp && m.hp <= 1_000_000
                    && -1_000_000_000 <= self.player.damage_dealt && self.player.damage_dealt <= 1_000_000_000
                    && 0 <= self.player.mindfire_kill_count && self.player.mindfire_kill_count <= 1_000_000
                    && charges_ok(&self.player) && self.floor <= 1_000_000) {
                    return StepEnd::OutOfRange;
                }
                let was_alive = self.monsters[i].is_alive();
                let mut msgs = player_attack(&mut self.player, &mut self.monsters[i], damage);
                self.log.append(&mut msgs);
                let m = &self.monsters[i];
                if was_alive && !m.is_alive() && m.x < self.map.width {
                    let name = m.name.clone();
                    let dpos = (m.x, m.y);
                    let boss = m.is_boss;
                    let mut loot = kill_loot(&mut self.items, dpos, boss, name.as_str(), self.floor,
                        self.player.class.name(), self.map.width);
                    self.log.append(&mut loot);
                }
                return StepEnd::Stayed;
            },
            None => {},
        }
        proof {
            assert(!monster_there(m0, nx as int, ny as int)) by {
                if monster_there(m0, nx as int, ny as int) {
                    let j = choose|j: int| 0 <= j < m0.len() && (#[trigger] m0[j]).hp > 0 && m0[j].x == nx && m0[j].y == ny;
                    crate::combat::lemma_first_living_found(m0, nx as int, ny as int, 0, j);
                }
            }
        }
        if !self.map.is_walkable(nx, ny) {
            return StepEnd::Stayed;
        }
        if self.web_stuck > 0 {
            let mut line = String::from_str("You struggle against the web! (");
            line.append(int_to_string(self.web_stuck).as_str());
            line.append(" ticks)");
            self.log.push(line);
            return StepEnd::Stayed;
        }
        if !step_fits(&self.player, self.floor) {
            return StepEnd::OutOfRange;
        }
        let ghost p0 = self.player;
        self.player.x = nx;
        self.player.y = ny;
        self.map.update_visibility(nx, ny, 8);
        if enter_web(&mut self.webs, nx, ny) {
            self.web_stuck = 2;
            self.log.push(String::from_str("You walk into a web! You're stuck!"));
        }
        let ghost m1 = self.monsters@;
        let ghost map1 = self.map;
        let ghost p1 = self.player;
        let mut trap_msgs = self.map.trigger_trap(&mut self.player, &mut self.monsters);
        self.log.append(&mut trap_msgs);
        proof {
            lemma_first_floor_same(map0, map1, 0);
            assert(start_of(map0) == start_of(map1));
            assert(cell(map1.trap_tiles@, nx as int, ny as int) == cell(map0.trap_tiles@, nx as int, ny as int));
            let t = cell(map1.trap_tiles@, nx as int, ny as int);
            assert(step_room(p1, self.floor as int)) by {
                assert(p1 == (Player { x: p1.x, y: p1.y, ..p0 }));
            }
            if t == Some(TrapType::Spike) {
                let d = choose|d: int| 1 <= d <= 4 && #[trigger] player_hurt(p1, self.player, d);
                assert(player_hurt(p1, self.player, d));
                lemma_room_after_trap(p1, self.player, self.floor as int);
            } else if t == Some(TrapType::Fire) {
                let d = choose|d: int| 2 <= d <= 3 && #[trigger] burned(p1, self.player, d);
                assert(burned(p1, self.player, d));
                lemma_room_after_trap(p1, self.player, self.floor as int);
            } else if t == Some(TrapType::Teleport) {
                assert(self.player == (Player { x: self.player.x, y: self.player.y, ..p1 }));
                lemma_room_after_trap(p1, self.player, self.floor as int);
            } else {
                assert(t is None || t == Some(TrapType::Alarm));
                assert(self.player == p1);
                lemma_room_after_trap(p1, self.player, self.floor as int);
            }
            assert((self.player.x == nx && self.player.y == ny)
                || (t == Some(TrapType::Teleport) && self.player.x == start_of(map0).0 && self.player.y == start_of(map0).1));
        }
        proof {
            assert(boss_lives(self.monsters@) == boss_lives(m1)) by {
                if boss_lives(m1) {
                    let j = choose|j: int| 0 <= j < m1.len() && (#[trigger] m1[j]).is_boss && m1[j].hp > 0;
                    assert(self.monsters@[j].is_boss && self.monsters@[j].hp > 0);
                }
                if boss_lives(self.monsters@) {
                    let j = choose|j: int| 0 <= j < self.monsters@.len() && (#[trigger] self.monsters@[j]).is_boss && self.monsters@[j].hp > 0;
                    assert(m1[j].is_boss && m1[j].hp > 0);
                }
            }
        }
        let px = self.player.x;
        let py = self.player.y;
        if px >= self.map.width || py >= self.map.height {
            return StepEnd::Stayed;
        }
        let ghost p2 = self.player;
        let ghost map2 = self.map;
        let mut shrine_msgs = self.map.use_shrine(&mut self.player);
        self.log.append(&mut shrine_msgs);
        proof {
            if self.player != p2 {
                lemma_room_after_altar(p2, DungeonMap { shrine_used: self.map.shrine_used, ..map2 }, self.player, self.map);
            }
        }
        assert(self.player.x == p2.x && self.player.y == p2.y);
        if self.map.tiles[px][py] == Tile::Stairs {
            if boss_alive(&self.monsters) {
                self.log.push(String::from_str("The stairs are sealed by a dark power! Defeat the boss first!"));
            } else {
                let (next, mut msgs) = descend(&mut self.player, self.floor);
                self.floor = next;
                self.log.append(&mut msgs);
                return StepEnd::Descended;
            }
        }
        match pick_up(&mut self.player, &mut self.items, px, py) {
            Some(msg) => self.log.push(msg),
            None => {},
        }
        StepEnd::Stayed
    }
}

/// The ability in slot 1 or 2.
pub open spec fn slot_ability(p: Player, slot: u8) -> Option<crate::player::Ability> {
    if slot == 1 { p.ability_1 } else { p.ability_2 }
}

/// Activates the ability in slot 1 or 2 (it holds one); an ability that
/// acts at once does not stay active.
fn activate_slot(p: &mut Player, slot: u8, stays: bool)
    requires
        slot == 1 || slot == 2,
        slot_ability(*old(p), slot) is Some,
    ensures
        *final(p) == (if slot == 1 { Player { ability_1: final(p).ability_1, ..*old(p) } }
            else { Player { ability_2: final(p).ability_2, ..*old(p) } }),
        slot_ability(*final(p), slot) is Some,
        slot_ability(*final(p), slot)->0.cooldown_remaining == slot_ability(*old(p), slot)->0.cooldown_max,
        slot_ability(*final(p), slot)->0.cooldown_max == slot_ability(*old(p), slot)->0.cooldown_max,
        slot_ability(*final(p), slot)->0.is_active == stays,
        slot_ability(*final(p), slot)->0.ability_type == slot_ability(*old(p), slot)->0.ability_type,
{
    if slot == 1 {
        match &mut p.ability_1 {
            Some(a) => {
                a.activate();
                if !stays {
                    a.is_active = false;
                }
            },
            None => {},
        }
    } else {
        match &mut p.ability_2 {
            Some(a) => {
                a.activate();
                if !stays {
                    a.is_active = false;
                }
            },
            None => {},
        }
    }
}

impl Game {
    /// Uses the ability in slot 1 or 2. An empty slot, or an ability on
    /// cooldown or already active, does nothing but tell so (a cooldown
    /// with its ticks). Power Attack and Poison Blade start their buffs;
    /// War Cry and Frost Nova act at once (see `war_cry` and `frost_nova`);
    /// Shadow Step and Chain Lightning wait for a direction. Returns false
    /// when a number left the range the rules are made for.
    pub fn use_ability(&mut self, slot: u8) -> (ok: bool)
        requires
            slot == 1 || slot == 2,
        ensures
            final(self).map == old(self).map && final(self).floor == old(self).floor,
            final(self).items == old(self).items && final(self).webs == old(self).webs,
            final(self).projectiles == old(self).projectiles && final(self).web_stuck == old(self).web_stuck,
            slot_ability(old(self).player, slot) is None ==> ok && final(self).player == old(self).player
                && final(self).monsters == old(self).monsters && final(self).log@.len() == old(self).log@.len() + 1,
            ({
                let a = slot_ability(old(self).player, slot);
                a is Some && (a->0.cooldown_remaining > 0 || a->0.is_active)
                    ==> ok && final(self).player == old(self).player && final(self).monsters == old(self).monsters
            }),
            ({
                let a = slot_ability(old(self).player, slot);
                a is Some && a->0.cooldown_remaining <= 0 && !a->0.is_active
                    && (a->0.ability_type == AbilityType::ShadowStep || a->0.ability_type == AbilityType::ChainLightning)
                    ==> ok && final(self).player == (Player { pending_ability_direction: Some(slot), ..old(self).player })
                        && final(self).monsters == old(self).monsters
            }),
            ({
                let a = slot_ability(old(self).player, slot);
                let b = slot_ability(final(self).player, slot);
                a is Some && a->0.cooldown_remaining <= 0 && !a->0.is_active
                    && (a->0.ability_type == AbilityType::PowerAttack || a->0.ability_type == AbilityType::PoisonBlade
                        || a->0.ability_type == AbilityType::WarCry)
                    ==> b is Some && b->0.cooldown_remaining == a->0.cooldown_max
            }),
            ({
                let a = slot_ability(old(self).player, slot);
                a is Some && a->0.cooldown_remaining <= 0 && !a->0.is_active
                    && (a->0.ability_type == AbilityType::PowerAttack || a->0.ability_type == AbilityType::PoisonBlade)
                    ==> ok && final(self).monsters == old(self).monsters
                        && slot_ability(final(self).player, slot)->0.is_active
            }),
            ({
                let a = slot_ability(old(self).player, slot);
                let (px, py) = (old(self).player.x as int, old(self).player.y as int);
                a is Some && a->0.cooldown_remaining <= 0 && !a->0.is_active && a->0.ability_type == AbilityType::WarCry
                    ==> (ok <==> px <= 0x1fff_ffff && py <= 0x1fff_ffff && old(self).monsters@.len() <= 1000
                        && monsters_near_ok(old(self).monsters@))
            }),
            ({
                let a = slot_ability(old(self).player, slot);
                let (px, py) = (old(self).player.x as int, old(self).player.y as int);
                let n = old(self).monsters@.len();
                a is Some && a->0.cooldown_remaining <= 0 && !a->0.is_active && a->0.ability_type == AbilityType::FrostNova
                    ==> (ok <==> n <= 1000 && player_fit(old(self).player, n as int) && px <= 0x1fff_ffff && py <= 0x1fff_ffff
                        && monsters_near_ok(old(self).monsters@) && monsters_hp_ok(old(self).monsters@))
            }),
            ({
                let a = slot_ability(old(self).player, slot);
                let (px, py) = (old(self).player.x as int, old(self).player.y as int);
                a is Some && a->0.cooldown_remaining <= 0 && !a->0.is_active && a->0.ability_type == AbilityType::WarCry && ok
                    ==> final(self).monsters@.len() == old(self).monsters@.len()
                        && forall|j: int| 0 <= j < old(self).monsters@.len() ==> #[trigger] final(self).monsters@[j]
                            == (if in_blast(old(self).monsters@[j], px, py, 4) { Monster { stun_ticks: 2, ..old(self).monsters@[j] } }
                                else { old(self).monsters@[j] })
            }),
            ({
                let a = slot_ability(old(self).player, slot);
                let (px, py) = (old(self).player.x as int, old(self).player.y as int);
                a is Some && a->0.cooldown_remaining <= 0 && !a->0.is_active && a->0.ability_type == AbilityType::FrostNova && ok
                    ==> final(self).monsters@.len() == old(self).monsters@.len()
                        && forall|j: int| 0 <= j < old(self).monsters@.len() ==> #[trigger] final(self).monsters@[j]
                            == (if in_blast(old(self).monsters@[j], px, py, 3) {
                                frosted(old(self).monsters@[j], 2 + spell_bonus(old(self).player))
                            } else { old(self).monsters@[j] })
            }),
    {
        let info = if slot == 1 { &self.player.ability_1 } else { &self.player.ability_2 };
        let (ready, active, remaining, kind, name) = match info {
            Some(a) => (a.is_ready(), a.is_active, a.cooldown_remaining, a.ability_type, a.name.clone()),
            None => {
                self.log.push(String::from_str("No second ability yet (unlocks at level 5)."));
                return true;
            },
        };
        if !ready || active {
            if remaining > 0 {
                let mut line = name.clone();
                line.append(" on cooldown (");
                line.append(int_to_string(remaining).as_str());
                line.append(" ticks).");
                self.log.push(line);
            }
            return true;
        }
        match kind {
            AbilityType::PowerAttack => {
                activate_slot(&mut self.player, slot, true);
                self.log.push(String::from_str("Power Attack ready! Next melee does 2x damage."));
            },
            AbilityType::PoisonBlade => {
                activate_slot(&mut self.player, slot, true);
                self.log.push(String::from_str("Poison Blade active! Next 3 melee hits apply poison."));
            },
            AbilityType::WarCry => {
                activate_slot(&mut self.player, slot, false);
                let (px, py) = (self.player.x, self.player.y);
                if px > 0x1fff_ffff || py > 0x1fff_ffff || self.monsters.len() > 1000 || !monsters_near(&self.monsters) {
                    return false;
                }
                let n = war_cry(px, py, &mut self.monsters);
                self.log.push(text3("WAR CRY! ", int_to_string(n as i32).as_str(), " monsters stunned!"));
            },
            AbilityType::FrostNova => {
                let ghost p0 = self.player;
                activate_slot(&mut self.player, slot, false);
                let n = self.monsters.len();
                assert(cooldown_ok(self.player.ability_1) == cooldown_ok(p0.ability_1)
                    && cooldown_ok(self.player.ability_2) == cooldown_ok(p0.ability_2));
                proof {
                    if slot == 1 {
                        assert(self.player == (Player { ability_1: self.player.ability_1, ..p0 }));
                    } else {
                        assert(self.player == (Player { ability_2: self.player.ability_2, ..p0 }));
                    }
                    assert(self.player.inventory == p0.inventory);
                    assert(player_bounded(self.player) == player_bounded(p0)) by {
                        if player_bounded(p0) {
                            assert forall|i: int| 0 <= i < self.player.inventory@.len() implies
                                item_bounded(#[trigger] self.player.inventory@[i]) by {
                                assert(item_bounded(p0.inventory@[i]));
                            }
                        }
                        if player_bounded(self.player) {
                            assert forall|i: int| 0 <= i < p0.inventory@.len() implies
                                item_bounded(#[trigger] p0.inventory@[i]) by {
                                assert(item_bounded(self.player.inventory@[i]));
                            }
                        }
                    }
                    assert(effective_of(self.player) == effective_of(p0));
                    assert(player_fit(self.player, n as int) == player_fit(p0, n as int));
                }
                if n > 1000 || !player_has_room(&self.player, n as u32)
                    || self.player.x > 0x1fff_ffff || self.player.y > 0x1fff_ffff
                    || !monsters_near(&self.monsters) || !monsters_hp_in_range(&self.monsters) {
                    return false;
                }
                let mut msgs = frost_nova(&mut self.player, &mut self.monsters);
                self.log.append(&mut msgs);
            },
            AbilityType::ShadowStep | AbilityType::ChainLightning => {
                self.player.pending_ability_direction = Some(slot);
                let mut line = name.clone();
                line.append(" \u{2014} choose direction (arrow key).");
                self.log.push(line);
            },
        }
        true
    }
}

/// The numbers a Chain Lightning needs: the player on the map with room
/// for three kills, the Mind Fire count up to 999,000, every monster at
/// coordinates up to 0x1fff_ffff with HP up to 1,000,000.
pub open spec fn aim_fits(g: Game) -> bool {
    &&& g.player.x < g.map.width && g.player.y < g.map.height
    &&& player_fit(g.player, 3)
    &&& 0 <= g.player.mindfire_kill_count <= 999_000
    &&& monsters_near_ok(g.monsters@) && monsters_hp_ok(g.monsters@)
}

impl Game {
    /// The aimed ability of slot 1 or 2 fired in direction (dx, dy):
    /// Shadow Step (see `shadow_step`) or Chain Lightning (see
    /// `chain_lightning`, after which the ability goes on cooldown); any
    /// other slot does nothing. Returns false when a number left the range
    /// the rules are made for.
    pub fn aimed_ability(&mut self, slot: u8, dx: i32, dy: i32) -> (ok: bool)
        requires
            slot == 1 || slot == 2,
            -1 <= dx <= 1 && -1 <= dy <= 1,
            map_wf(old(self).map),
        ensures
            final(self).map == old(self).map && final(self).floor == old(self).floor,
            final(self).items == old(self).items && final(self).webs == old(self).webs,
            final(self).projectiles == old(self).projectiles && final(self).web_stuck == old(self).web_stuck,
            ({
                let a = slot_ability(old(self).player, slot);
                &&& a is Some && a->0.ability_type == AbilityType::ShadowStep && ok ==>
                    (final(self).player.x as int, final(self).player.y as int) == crate::combat::shadow_land(old(self).map,
                        old(self).player.x as int, old(self).player.y as int, dx as int, dy as int, 4)
                        && final(self).monsters == old(self).monsters
                &&& a is Some && a->0.ability_type == AbilityType::ChainLightning && ok ==>
                    slot_ability(final(self).player, slot) is Some
                        && slot_ability(final(self).player, slot)->0.cooldown_remaining
                            == slot_ability(final(self).player, slot)->0.cooldown_max
                        && !slot_ability(final(self).player, slot)->0.is_active
                &&& !(a is Some && (a->0.ability_type == AbilityType::ShadowStep || a->0.ability_type == AbilityType::ChainLightning))
                    ==> ok && *final(self) == *old(self)
                &&& a is Some && a->0.ability_type == AbilityType::ShadowStep ==>
                    (ok <==> old(self).player.x < old(self).map.width && old(self).player.y < old(self).map.height
                        && monsters_near_ok(old(self).monsters@))
                &&& a is Some && a->0.ability_type == AbilityType::ChainLightning ==>
                    (ok <==> aim_fits(*old(self)))
                &&& a is Some && a->0.ability_type == AbilityType::ChainLightning && ok ==> ({
                    let hs = chain_hits(old(self).map, old(self).monsters@, old(self).player.x as int, old(self).player.y as int,
                        dx as int, dy as int);
                    &&& final(self).monsters@.len() == old(self).monsters@.len()
                    &&& forall|b: int| 0 <= b < hs.len() ==> #[trigger] hs[b] < old(self).monsters@.len()
                        && final(self).monsters@[hs[b] as int] == bolt(old(self).monsters@[hs[b] as int], b, spell_bonus(old(self).player))
                    &&& forall|j: int| 0 <= j < old(self).monsters@.len() && !hs.contains(j as usize) ==>
                        #[trigger] final(self).monsters@[j] == old(self).monsters@[j]
                })
                &&& !ok ==> *final(self) == *old(self)
            }),
    {
        let kind = match if slot == 1 { &self.player.ability_1 } else { &self.player.ability_2 } {
            Some(a) => Some(a.ability_type),
            None => None,
        };
        match kind {
            Some(AbilityType::ShadowStep) => {
                if self.player.x >= self.map.width || self.player.y >= self.map.height || !monsters_near(&self.monsters) {
                    return false;
                }
                let msg = shadow_step(&mut self.player, &self.map, &self.monsters, dx, dy, slot);
                self.log.push(msg);
            },
            Some(AbilityType::ChainLightning) => {
                if !(self.player.x < self.map.width && self.player.y < self.map.height && player_has_room(&self.player, 3)
                    && 0 <= self.player.mindfire_kill_count && self.player.mindfire_kill_count <= 999_000
                    && monsters_near(&self.monsters) && monsters_hp_in_range(&self.monsters)) {
                    return false;
                }
                let mut msgs = chain_lightning(&mut self.player, &self.map, &mut self.monsters, dx, dy);
                self.log.append(&mut msgs);
                activate_slot(&mut self.player, slot, false);
            },
            _ => {},
        }
        true
    }

    /// One monster tick: the player's cooldowns and buffs tick (see
    /// `tick_abilities`), a web's hold loosens, poison costs 1 HP, then the
    /// projectiles fly (see `process_projectiles`) and the monsters act (see
    /// `process_monsters`). Returns false when a number left the range the
    /// rules are made for.
    pub fn monster_tick(&mut self) -> (ok: bool)
        requires
            map_wf(old(self).map),
        ensures
            final(self).map == old(self).map && final(self).floor == old(self).floor,
            final(self).items == old(self).items,
            final(self).web_stuck == (if old(self).web_stuck > 0 { old(self).web_stuck - 1 } else { old(self).web_stuck as int }),
            final(self).player.x == old(self).player.x && final(self).player.y == old(self).player.y,
            ({
                let ps1 = in_flight(old(self).projectiles@, old(self).map, (old(self).player.x, old(self).player.y), old(self).monsters@);
                &&& !tick_fits(*old(self)) ==> !ok
                &&& tick_fits(*old(self)) ==> {
                    &&& hit_change(tick_start(old(self).player), final(self).player, 4_000_004 * (old(self).projectiles@.len() as int))
                        || ok
                    &&& !ok ==> final(self).projectiles@ == ps1 && final(self).monsters@ == old(self).monsters@
                        && !round_fits(*old(self), final(self).player, ps1)
                    &&& ok ==> exists|p2: Player, mss: Seq<Seq<Monster>>, pls: Seq<Player>, pss: Seq<Seq<Projectile>>,
                        wss: Seq<Seq<(usize, usize)>>|
                        #[trigger] round_done(old(self).monsters@, p2, ps1, old(self).webs@,
                            final(self).monsters@, final(self).player, final(self).projectiles@, final(self).webs@, old(self).map,
                            old(self).monsters@.len() as int, living_except(old(self).monsters@, -1, 0), dead_from(old(self).monsters@, 0),
                            mss, pls, pss, wss)
                        && round_fits(*old(self), p2, ps1)
                        && hit_change(tick_start(old(self).player), p2, 4_000_004 * (old(self).projectiles@.len() as int))
                }
            }),
    {
        let ghost g0 = *self;
        self.player.tick_abilities();
        if self.web_stuck > 0 {
            self.web_stuck = self.web_stuck - 1;
            if self.web_stuck == 0 {
                self.log.push(String::from_str("You break free from the web!"));
            }
        }
        if self.player.poison_ticks > 0 {
            if self.player.hp == i32::MIN || self.player.damage_taken == i64::MAX {
                return false;
            }
            self.player.poison_ticks = self.player.poison_ticks - 1;
            self.player.take_damage(1);
            self.player.damage_taken = self.player.damage_taken + 1;
            self.log.push(String::from_str("Poison burns in your veins! (-1 HP)"));
        }
        assert(self.player == tick_start(g0.player));
        let shots = self.projectiles.len();
        if shots > 400 || !player_in_range(&self.player) || self.player.damage_taken < 0
            || self.player.damage_taken > i64::MAX - 5_000_000 * (shots as i64)
            || !shots_in_range(&self.projectiles) {
            return false;
        }
        assert(tick_fits(g0));
        process_projectiles(&mut self.projectiles, &self.monsters, &mut self.player, &self.map, &mut self.log);
        let ghost p2 = self.player;
        let ghost ps1 = self.projectiles@;
        let n = self.monsters.len();
        if n > 1000 || !player_has_room(&self.player, n as u32) || !monsters_in_range(&self.monsters, &self.map)
            || self.player.x >= self.map.width || self.player.y >= self.map.height
            || !shots_in_range(&self.projectiles) || !webs_in_place(&self.webs, &self.map) {
            return false;
        }
        assert(round_fits(g0, p2, ps1));
        assert(self.monsters@ == g0.monsters@ && self.webs@ == g0.webs@ && self.map == g0.map);
        process_monsters(&mut self.monsters, &mut self.player, &mut self.projectiles, &self.map, &mut self.log, &mut self.webs);
        proof {
            let (mss, pls, pss, wss) = choose|mss: Seq<Seq<Monster>>, pls: Seq<Player>, pss: Seq<Seq<Projectile>>,
                wss: Seq<Seq<(usize, usize)>>| #[trigger] round_done(g0.monsters@, p2, ps1, g0.webs@,
                    self.monsters@, self.player, self.projectiles@, self.webs@, g0.map,
                    g0.monsters@.len() as int, living_except(g0.monsters@, -1, 0), dead_from(g0.monsters@, 0), mss, pls, pss, wss);
            assert(round_done(g0.monsters@, p2, ps1, g0.webs@,
                self.monsters@, self.player, self.projectiles@, self.webs@, g0.map,
                g0.monsters@.len() as int, living_except(g0.monsters@, -1, 0), dead_from(g0.monsters@, 0), mss, pls, pss, wss));
        }
        true
    }
}

/// A new floor of `width` by `height` cells for floor `floor`: its layout
/// (see `DungeonMap::new`), the rooms' purposes (see `assign_room_types`)
/// and decorations (see `generate_decorations`). `None` when the size does
/// not allow the floor's layout or its rooms cannot be decorated. On a
/// floor of rooms every room's center can be walked to from the first's.
pub fn new_floor(width: usize, height: usize, floor: i32) -> (r: Option<DungeonMap>)
    ensures
        r is Some ==> map_wf(r->0) && r->0.width == width && r->0.height == height,
        r is Some && !(4 <= floor <= 6) ==> forall|k: int| 0 <= k < r->0.rooms@.len() ==>
            joined(r->0.tiles@, width as int, height as int, center_of(r->0.rooms@[0]), center_of(#[trigger] r->0.rooms@[k])),
        !(1 <= width <= MAX_SIDE && 1 <= height <= MAX_SIDE && (!(4 <= floor <= 6) ==> width >= 4 && height >= 4)
            && (floor > 6 && boss_floor(floor as int) ==> arena_fits(width as int, height as int))) ==> r is None,
        1 <= width <= MAX_SIDE && 1 <= height <= MAX_SIDE && !(4 <= floor <= 6) && width >= 4 && height >= 4
            && (boss_floor(floor as int) ==> arena_fits(width as int, height as int)) ==> r is Some,
        r is Some && r->0.rooms@.len() > 0 ==> r->0.room_types@[0] == RoomType::Spawn,
        r is Some && r->0.rooms@.len() > 1 ==> r->0.room_types@.last() == RoomType::Boss,
{
    if !(1 <= width && width <= MAX_SIDE && 1 <= height && height <= MAX_SIDE) {
        return None;
    }
    let cave = 4 <= floor && floor <= 6;
    if !cave && (width < 4 || height < 4) {
        return None;
    }
    let boss = floor == 5 || floor == 10 || (floor >= 15 && floor % 5 == 0);
    if floor > 6 && boss && !arena_room(width, height) {
        return None;
    }
    let mut map = DungeonMap::new(width, height, floor);
    map.assign_room_types(floor);
    if !deco_rooms_in_shape(&map) {
        return None;
    }
    map.generate_decorations();
    Some(map)
}

/// The gear a class starts with: a shortsword and armor for a warrior, a
/// weapon for a rogue, a weapon and a ring for a mage (see `items`).
pub fn starting_gear(class: Class) -> (g: (Option<Item>, Option<Item>, Option<Item>))
    ensures
        class == Class::Warrior ==> g.0 is Some && is_warrior_starting_weapon(g.0->0)
            && g.1 is Some && is_warrior_starting_armor(g.1->0) && g.2 is None,
        class == Class::Rogue ==> g.0 is Some && is_rogue_starting_weapon(g.0->0) && g.1 is None && g.2 is None,
        class == Class::Mage ==> g.0 is Some && is_mage_starting_weapon(g.0->0)
            && g.1 is None && g.2 is Some && is_mage_starting_ring(g.2->0),
{
    match class {
        Class::Warrior => (Some(warrior_starting_weapon()), Some(warrior_starting_armor()), None),
        Class::Rogue => (Some(rogue_starting_weapon()), None, None),
        Class::Mage => (Some(mage_starting_weapon()), None, Some(mage_starting_ring())),
    }
}

/// A new run on `map`, its first floor: a player of the class at the
/// floor's start (see `get_starting_position`) in its starting gear (see
/// `starting_gear`), nothing else placed yet and an empty log.
pub fn new_game(class: Class, map: DungeonMap) -> (g: Game)
    requires
        map_wf(map),
    ensures
        g.map == map && g.floor == 1 && g.web_stuck == 0,
        g.player.class == class && g.player.level == 1,
        (g.player.x, g.player.y) == start_of(map),
        g.monsters@.len() == 0 && g.items@.len() == 0 && g.projectiles@.len() == 0 && g.webs@.len() == 0,
        g.log@.len() == 0,
{
    let (sx, sy) = map.get_starting_position();
    let mut player = Player::new(sx, sy, class);
    let (w, a, r) = starting_gear(class);
    player.equip_starting_gear(w, a, r);
    Game {
        player,
        map,
        monsters: Vec::new(),
        projectiles: Vec::new(),
        items: Vec::new(),
        webs: Vec::new(),
        web_stuck: 0,
        floor: 1,
        log: Vec::new(),
    }
}

/// The boss a floor's arrival announces: floors 5, 10 and 15.
pub open spec fn boss_line(floor: int) -> Option<Seq<char>> {
    if floor == 5 {
        Some("The Goblin King awaits!"@)
    } else if floor == 10 {
        Some("The Bone Dragon stirs!"@)
    } else if floor == 15 {
        Some("The Shadow Lord has come!"@)
    } else {
        None
    }
}

impl Game {
    /// Arriving on the floor in `self.map`: the player stands at its start
    /// (see `get_starting_position`), its monsters and ground items are
    /// placed (see `spawn_monsters_for_floor` and `spawn_ground_items`), no
    /// projectile flies, no web is left and the player is free; the log
    /// greets the floor, and on floors 5, 10 and 15 its boss. Returns false
    /// when the rooms cannot hold the monsters or the loot.
    pub fn enter_floor(&mut self) -> (ok: bool)
        requires
            map_wf(old(self).map),
        ensures
            final(self).map == old(self).map && final(self).floor == old(self).floor,
            ok ==> final(self).player == (Player { x: start_of(old(self).map).0, y: start_of(old(self).map).1, ..old(self).player }),
            ok ==> final(self).projectiles@.len() == 0 && final(self).webs@.len() == 0 && final(self).web_stuck == 0,
            ok ==> final(self).log@.len() == old(self).log@.len() + (if boss_line(old(self).floor as int) is Some { 2int } else { 1int }),
            !ok ==> *final(self) == *old(self),
            ok == ((forall|i: int| 0 <= i < old(self).map.rooms@.len() ==>
                (#[trigger] old(self).map.rooms@[i]).x2 >= 1 && old(self).map.rooms@[i].y2 >= 1) && loot_rooms_ok(old(self).map)),
            ok ==> items_placed(old(self).map, final(self).items@)
                && forall|k: int| 0 <= k < final(self).items@.len() ==> ground_loot((#[trigger] final(self).items@[k]).2, old(self).floor as int),
            ok ==> ({
                let rooms = old(self).map.rooms@;
                let floor = old(self).floor as int;
                let ms = final(self).monsters@;
                let boss = if boss_kind(floor) is Some && rooms.len() > 0 { 1int } else { 0 };
                &&& middle_rooms(rooms.len() as int) + boss <= ms.len() <= 3 * middle_rooms(rooms.len() as int) + boss
                &&& forall|k: int| 0 <= k < ms.len() - boss ==> waits_somewhere(#[trigger] ms[k], rooms, floor)
                &&& boss == 1 ==> is_new_monster(ms.last(), boss_spot(rooms.last()).0, boss_spot(rooms.last()).1,
                    boss_kind(floor)->0, floor)
            }),
            ok ==> final(self).log@.subrange(0, old(self).log@.len() as int) == old(self).log@,
            ok && boss_line(old(self).floor as int) is Some ==> final(self).log@.last()@ == boss_line(old(self).floor as int)->0,
    {
        if !rooms_reach_one(&self.map) || !loot_rooms_in_shape(&self.map) {
            return false;
        }
        let (sx, sy) = self.map.get_starting_position();
        self.player.x = sx;
        self.player.y = sy;
        self.monsters = self.map.spawn_monsters_for_floor(self.floor);
        self.items = self.map.spawn_ground_items(self.floor);
        self.projectiles = Vec::new();
        self.webs = Vec::new();
        self.web_stuck = 0;
        self.log.push(text3("Welcome to floor ", int_to_string(self.floor).as_str(), "!"));
        if self.floor == 5 {
            self.log.push(String::from_str("The Goblin King awaits!"));
        } else if self.floor == 10 {
            self.log.push(String::from_str("The Bone Dragon stirs!"));
        } else if self.floor == 15 {
            self.log.push(String::from_str("The Shadow Lord has come!"));
        }
        true
    }
}

/// The tile under the player.
pub open spec fn tile_under(m: DungeonMap, p: Player) -> Tile {
    crate::map::tile_at(m, p.x as int, p.y as int)
}

/// Neither ability slot has its charges at the lowest `i32`.
/// Whether a step onto a cell fits the rules (see `step_room`).
fn step_fits(p: &Player, floor: i32) -> (b: bool)
    ensures
        b == step_room(*p, floor as int),
{
    let s = &p.base_stats;
    xp_gain_in_range(p, 0) && 0 <= p.damage_taken && p.damage_taken <= i64::MAX - 10
        && p.xp <= 999_950 && 0 <= p.xp_to_next_level && p.xp_to_next_level <= 984_000
        && s.str_ <= 999_960 && s.dex <= 999_960 && s.int <= 999_960 && s.con <= 999_960
        && p.hp <= 9_998_900 && p.max_hp <= 9_998_900
        && p.bonus_str <= 1_000_000_000 && p.bonus_dodge <= 1_000_000_000
        && -1 <= floor && floor < 199_999
}

fn charges_ok(p: &Player) -> (b: bool)
    ensures
        b == ((p.ability_1 is Some ==> p.ability_1->0.charges > i32::MIN)
            && (p.ability_2 is Some ==> p.ability_2->0.charges > i32::MIN)),
{
    let a = match &p.ability_1 {
        Some(x) => x.charges > i32::MIN,
        None => true,
    };
    let b = match &p.ability_2 {
        Some(x) => x.charges > i32::MIN,
        None => true,
    };
    a && b
}

} // verus!
