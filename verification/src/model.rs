//! The engine's world model: plain-value mirrors of the per-tick snapshot
//! the environment supplies, and the commands the engine emits.
//!
//! Entity references are opaque `u64` identifiers issued by the
//! environment and never reused within a match.  Positions are fixed-point
//! integer coordinates (see `geom`).  The environment-facing layer builds
//! a `Snapshot` each tick and performs the emitted `Command`s.
use vstd::prelude::*;

use crate::geom::{Pos, COORD_LIMIT, SCALE};
use crate::tally::count_where;

verus! {

/// The unit and structure types the engine's rules distinguish.  Any
/// observed entity of a type outside the rule set maps to `Other`.
#[derive(Clone, Copy, PartialEq, Eq, Structural, Debug, Hash)]
pub enum UnitKind {
    Drone,
    Overlord,
    OverlordTransport,
    Overseer,
    Larva,
    Queen,
    Zergling,
    Roach,
    Hydralisk,
    Hatchery,
    Lair,
    SpawningPool,
    RoachWarren,
    HydraliskDen,
    Extractor,
    MineralField,
    VespeneGeyser,
    Other,
}

/// The upgrades the production planner researches.
#[derive(Clone, Copy, PartialEq, Eq, Structural, Debug, Hash)]
pub enum UpgradeKind {
    GlialReconstitution,
    GroovedSpines,
    MuscularAugments,
}

/// The abilities orders and commands refer to.
#[derive(Clone, Copy, PartialEq, Eq, Structural, Debug, Hash)]
pub enum Ability {
    InjectLarva,
    HarvestGather,
    HarvestReturn,
    MoveTo,
    AttackAt,
    UpgradeToLair,
    ResearchGlialReconstitution,
    ResearchGroovedSpines,
    ResearchMuscularAugments,
}

/// What an order or command is aimed at.
#[derive(Clone, Copy, PartialEq, Eq, Structural, Debug)]
pub enum Target {
    Nothing,
    Entity(u64),
    Ground(Pos),
}

/// One order currently active on a unit, as the snapshot reports it.
#[derive(Clone, Copy, PartialEq, Eq, Structural, Debug)]
pub struct UnitOrder {
    pub ability: Ability,
    pub target: Target,
}

/// Who owns an expansion location.
#[derive(Clone, Copy, PartialEq, Eq, Structural, Debug)]
pub enum Alliance {
    Neutral,
    Mine,
    Enemy,
}

/// One visible unit, structure or resource node in the snapshot.
#[derive(Clone, Copy, PartialEq, Eq, Structural, Debug)]
pub struct SnapUnit {
    pub tag: u64,
    pub kind: UnitKind,
    pub pos: Pos,
    /// Collision radius, in fixed-point coordinate steps.
    pub radius: i64,
    /// Construction finished.
    pub is_ready: bool,
    pub is_idle: bool,
    pub is_flying: bool,
    pub is_carrying_resource: bool,
    /// The worker is on its way back to a depot with cargo.
    pub is_returning: bool,
    /// Some order with a constructing ability is active.
    pub is_constructing: bool,
    /// Number of queued orders.
    pub orders_len: u64,
    /// The first queued order, if any.
    pub order: Option<UnitOrder>,
    pub energy: u64,
    /// A production-boost buff is active on this structure.
    pub has_inject_buff: bool,
    /// Remaining mineral content (mineral nodes only).
    pub mineral_contents: u64,
    /// Remaining gas content (gas nodes and extractors only).
    pub vespene_contents: u64,
}

/// A static map expansion: a base location with its resource node
/// identifiers.
#[derive(Clone, Debug)]
pub struct Expansion {
    pub loc: Pos,
    /// Identifiers of the mineral nodes of this expansion.
    pub minerals: Vec<u64>,
    /// Identifiers of the gas nodes of this expansion.
    pub geysers: Vec<u64>,
    pub alliance: Alliance,
    /// A finished base stands at this expansion.
    pub has_base: bool,
}

/// Cost of one unit, structure or upgrade.
#[derive(Clone, Copy, PartialEq, Eq, Structural, Debug)]
pub struct Cost {
    pub minerals: u64,
    pub vespene: u64,
    pub supply: u64,
}

/// The per-tick world snapshot handed to the engine.
#[derive(Clone, Debug)]
pub struct Snapshot {
    pub tick: u64,
    pub minerals: u64,
    pub vespene: u64,
    pub supply_used: u64,
    pub supply_cap: u64,
    pub supply_workers: u64,
    /// Supply one completed supply unit provides.
    pub supply_per_provider: u64,
    pub start_location: Pos,
    pub enemy_start: Pos,
    pub map_center: Pos,
    /// All potential start locations of the map, ours included.
    pub start_locations: Vec<Pos>,
    /// Every friendly unit and structure.
    pub my_units: Vec<SnapUnit>,
    /// Every visible enemy unit and structure.
    pub enemy_units: Vec<SnapUnit>,
    /// Every visible neutral resource node.
    pub resources: Vec<SnapUnit>,
    pub expansions: Vec<Expansion>,
    /// Per kind, how many units are ordered but not yet completed.
    pub pending: Vec<(UnitKind, u64)>,
    pub completed_upgrades: Vec<UpgradeKind>,
    pub ordered_upgrades: Vec<UpgradeKind>,
    /// Cost table for everything the planner may buy.
    pub costs: Vec<(UnitKind, Cost)>,
    /// For each stored enemy base location, whether the spot is currently
    /// hidden from friendly vision (parallel to the engine's stored list).
    pub expansion_hidden: Vec<bool>,
}

/// A command addressed to one entity, emitted fire-and-forget.
#[derive(Clone, Copy, PartialEq, Eq, Structural, Debug)]
pub enum Command {
    /// Send `worker` to build `structure` near `near` (exactly there if
    /// `exact`).
    Build { worker: u64, structure: UnitKind, near: Pos, exact: bool },
    /// Send `worker` to build a gas extractor on the node `geyser`.
    BuildGas { worker: u64, geyser: u64 },
    Train { source: u64, unit: UnitKind, queue: bool },
    UseAbility { unit: u64, ability: Ability, target: Target, queue: bool },
    MoveTo { unit: u64, to: Pos, queue: bool },
    Attack { unit: u64, target: Target, queue: bool },
    Gather { unit: u64, resource: u64, queue: bool },
    ReturnCargo { unit: u64, queue: bool },
    Stop { unit: u64, queue: bool },
}

/// Build-order options fixed at launch.
#[derive(Clone, Copy, PartialEq, Eq, Structural, Debug, Default)]
pub struct RuntimeOptions {
    pub use_tryhard_mining: bool,
}

pub open spec fn is_townhall_kind(k: UnitKind) -> bool {
    k == UnitKind::Hatchery || k == UnitKind::Lair
}

/// Non-combat aerial scouts, ignored by threat detection.
pub open spec fn is_scout_air_kind(k: UnitKind) -> bool {
    k == UnitKind::Overlord || k == UnitKind::OverlordTransport || k == UnitKind::Overseer
}

pub open spec fn is_worker_kind(k: UnitKind) -> bool {
    k == UnitKind::Drone
}

/// Combat-class units the army trigger moves.
pub open spec fn is_army_kind(k: UnitKind) -> bool {
    k == UnitKind::Zergling || k == UnitKind::Roach || k == UnitKind::Hydralisk
}

impl SnapUnit {
    /// Geometric sanity of one snapshot entry.
    pub open spec fn wf(self) -> bool {
        &&& self.pos.in_bounds()
        &&& 0 <= self.radius <= 8 * SCALE
        &&& self.orders_len <= 1000
        &&& self.energy <= 1000
        &&& match self.order {
            Some(o) => match o.target {
                Target::Ground(p) => p.in_bounds(),
                _ => true,
            },
            None => true,
        }
    }
}

impl Expansion {
    pub open spec fn wf(self) -> bool {
        &&& self.loc.in_bounds()
        &&& self.minerals@.len() <= 32
        &&& self.geysers@.len() <= 32
    }
}

impl Snapshot {
    /// Sanity bounds the environment-facing layer guarantees; every
    /// engine entry point requires them.
    pub open spec fn wf(self) -> bool {
        &&& self.start_location.in_bounds()
        &&& self.enemy_start.in_bounds()
        &&& self.map_center.in_bounds()
        &&& self.my_units@.len() <= 100000
        &&& self.enemy_units@.len() <= 100000
        &&& self.resources@.len() <= 100000
        &&& self.expansions@.len() <= 1000
        &&& self.start_locations@.len() <= 100
        &&& forall|i: int|
            0 <= i < self.my_units@.len() ==> (#[trigger] self.my_units@[i]).wf()
        &&& forall|i: int, j: int|
            0 <= i < j < self.my_units@.len() ==> (#[trigger] self.my_units@[i]).tag != (
            #[trigger] self.my_units@[j]).tag
        &&& forall|i: int|
            0 <= i < self.enemy_units@.len() ==> (#[trigger] self.enemy_units@[i]).wf()
        &&& forall|i: int|
            0 <= i < self.resources@.len() ==> (#[trigger] self.resources@[i]).wf()
        &&& forall|i: int|
            0 <= i < self.expansions@.len() ==> (#[trigger] self.expansions@[i]).wf()
        &&& forall|i: int|
            0 <= i < self.start_locations@.len() ==> (#[trigger] self.start_locations@[i]).in_bounds()
        &&& self.supply_used <= 10000
        &&& self.supply_cap <= 10000
        &&& self.supply_workers <= 10000
        &&& self.supply_per_provider <= 100
        &&& forall|i: int|
            0 <= i < self.pending@.len() ==> (#[trigger] self.pending@[i]).1 <= 100000
        &&& self.pending@.len() <= 100
        &&& self.costs@.len() <= 100
        &&& forall|i: int|
            0 <= i < self.costs@.len() ==> {
                let c = (#[trigger] self.costs@[i]).1;
                c.minerals <= 1000000000 && c.vespene <= 1000000000 && c.supply <= 10000
            }
    }
}

/// Structures the friendly-structure tracker records.
pub open spec fn is_structure_kind(k: UnitKind) -> bool {
    ||| k == UnitKind::Hatchery
    ||| k == UnitKind::Lair
    ||| k == UnitKind::SpawningPool
    ||| k == UnitKind::RoachWarren
    ||| k == UnitKind::HydraliskDen
    ||| k == UnitKind::Extractor
}

/// The predicate "is of kind `k`", as a single shared term.
pub open spec fn kind_pred(k: UnitKind) -> spec_fn(SnapUnit) -> bool {
    |u: SnapUnit| u.kind == k
}

/// How many friendly units of kind `k` the snapshot holds.
pub open spec fn spec_count_kind(units: Seq<SnapUnit>, k: UnitKind) -> int {
    count_where(units, kind_pred(k))
}

pub proof fn lemma_spec_count_kind_bounds(units: Seq<SnapUnit>, k: UnitKind)
    ensures
        0 <= spec_count_kind(units, k) <= units.len(),
{
    crate::tally::lemma_count_where_bounds(units, kind_pred(k));
}

/// Count the units of kind `k` in a list.
#[verifier::loop_isolation(false)]
pub fn count_kind(units: &Vec<SnapUnit>, k: UnitKind) -> (r: usize)
    ensures
        r == spec_count_kind(units@, k),
{
    let ghost f = kind_pred(k);
    proof {
        crate::tally::lemma_count_where_bounds(units@, f);
    }
    let n = units.len();
    let mut count: usize = 0;
    let mut i: usize = 0;
    while i < n
        invariant
            n == units@.len() <= usize::MAX,
            i <= n,
            count == count_where(units@.take(i as int), f),
            count <= i,
        decreases n - i,
    {
        proof {
            crate::tally::lemma_count_where_take_step(units@, f, i as int);
            assert(f(units@[i as int]) == (units@[i as int].kind == k));
        }
        if units[i].kind == k {
            count += 1;
        }
        i += 1;
    }
    proof {
        assert(units@.take(n as int) =~= units@);
    }
    count
}

/// The pending-count entry for kind `k`, zero when absent.
pub open spec fn spec_pending_count(pending: Seq<(UnitKind, u64)>, k: UnitKind) -> int
    decreases pending.len(),
{
    if pending.len() == 0 {
        0
    } else if pending.last().0 == k {
        pending.last().1 as int
    } else {
        spec_pending_count(pending.drop_last(), k)
    }
}

/// Look up how many units of kind `k` are ordered but not completed.
pub fn pending_count(pending: &Vec<(UnitKind, u64)>, k: UnitKind) -> (r: u64)
    ensures
        r == spec_pending_count(pending@, k),
{
    let n = pending.len();
    let mut i: usize = n;
    proof {
        assert(pending@.take(n as int) =~= pending@);
    }
    while i > 0
        invariant
            n == pending@.len(),
            i <= n,
            spec_pending_count(pending@, k) == spec_pending_count(pending@.take(i as int), k),
        decreases i,
    {
        proof {
            assert(pending@.take(i as int).drop_last() =~= pending@.take(i as int - 1));
            assert(pending@.take(i as int).last() == pending@[i as int - 1]);
        }
        i -= 1;
        let e = pending[i];
        if e.0 == k {
            return e.1;
        }
    }
    proof {
        assert(pending@.take(0) =~= Seq::<(UnitKind, u64)>::empty());
    }
    0
}

/// The cost-table entry for kind `k`, if any.
pub open spec fn spec_cost_of(costs: Seq<(UnitKind, Cost)>, k: UnitKind) -> Option<Cost>
    decreases costs.len(),
{
    if costs.len() == 0 {
        None
    } else if costs.last().0 == k {
        Some(costs.last().1)
    } else {
        spec_cost_of(costs.drop_last(), k)
    }
}

/// Look up the cost of kind `k` in the snapshot's cost table.
pub fn cost_of(costs: &Vec<(UnitKind, Cost)>, k: UnitKind) -> (r: Option<Cost>)
    ensures
        r == spec_cost_of(costs@, k),
{
    let n = costs.len();
    let mut i: usize = n;
    proof {
        assert(costs@.take(n as int) =~= costs@);
    }
    while i > 0
        invariant
            n == costs@.len(),
            i <= n,
            spec_cost_of(costs@, k) == spec_cost_of(costs@.take(i as int), k),
        decreases i,
    {
        proof {
            assert(costs@.take(i as int).drop_last() =~= costs@.take(i as int - 1));
            assert(costs@.take(i as int).last() == costs@[i as int - 1]);
        }
        i -= 1;
        let e = costs[i];
        if e.0 == k {
            return Some(e.1);
        }
    }
    proof {
        assert(costs@.take(0) =~= Seq::<(UnitKind, Cost)>::empty());
    }
    None
}

/// Whether the bank covers the cost of `k`; with `check_supply`, the free
/// supply must cover its supply cost too.  An unknown kind is never
/// affordable.
pub open spec fn spec_can_afford(snap: Snapshot, k: UnitKind, check_supply: bool) -> bool {
    match spec_cost_of(snap.costs@, k) {
        None => false,
        Some(c) => {
            &&& snap.minerals >= c.minerals
            &&& snap.vespene >= c.vespene
            &&& (!check_supply || snap.supply_used + c.supply <= snap.supply_cap)
        },
    }
}

/// Affordability of one purchase against the snapshot's bank.
pub fn can_afford(snap: &Snapshot, k: UnitKind, check_supply: bool) -> (r: bool)
    requires
        snap.wf(),
    ensures
        r == spec_can_afford(*snap, k, check_supply),
{
    match cost_of(&snap.costs, k) {
        None => false,
        Some(c) => {
            snap.minerals >= c.minerals && snap.vespene >= c.vespene && (!check_supply || (
            c.supply <= snap.supply_cap && snap.supply_used <= snap.supply_cap - c.supply))
        },
    }
}

/// Whether `upgrades` lists `u`.
pub open spec fn spec_has_upgrade(upgrades: Seq<UpgradeKind>, u: UpgradeKind) -> bool {
    upgrades.contains(u)
}

pub fn has_upgrade(upgrades: &Vec<UpgradeKind>, u: UpgradeKind) -> (r: bool)
    ensures
        r == spec_has_upgrade(upgrades@, u),
{
    let n = upgrades.len();
    let mut i: usize = 0;
    while i < n
        invariant
            n == upgrades@.len(),
            i <= n,
            forall|j: int| 0 <= j < i ==> upgrades@[j] != u,
        decreases n - i,
    {
        if upgrades[i] == u {
            return true;
        }
        i += 1;
    }
    false
}

} // verus!
