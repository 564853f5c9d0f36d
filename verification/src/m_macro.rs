//! The production planner: the ordered structure/tech rule cascade and
//! the per-larva training rules.
use vstd::prelude::*;

use crate::bot::{spec_count_unit, FaxBot};
use crate::geom::{dist_sq, Pos, SCALE};
use crate::micro::{spec_townhalls, DroneTask, ResourceType};
use crate::model::{
    spec_can_afford, spec_count_kind, spec_has_upgrade, spec_pending_count, Ability, Command,
    SnapUnit, Snapshot, UnitKind, UpgradeKind,
};

verus! {

/// An in-flight expansion reservation lapses after this many ticks.
pub const RESERVATION_WINDOW: u64 = 1600;

/// Projected supply capacity: the current cap plus what the pending
/// supply units will provide on completion.
pub open spec fn spec_pending_supply(snap: Snapshot) -> int {
    snap.supply_cap + snap.supply_per_provider * spec_pending_count(
        snap.pending@,
        UnitKind::Overlord,
    )
}

/// The first ready depot with the fewest queued orders, among those
/// under the queue limit.
pub open spec fn spec_least_busy_hatch(units: Seq<SnapUnit>) -> Option<SnapUnit>
    decreases units.len(),
{
    if units.len() == 0 {
        None
    } else {
        let rest = spec_least_busy_hatch(units.drop_last());
        let u = units.last();
        let eligible = crate::model::is_townhall_kind(u.kind) && u.is_ready && u.orders_len < 5;
        if eligible && (match rest {
            Some(b) => u.orders_len < b.orders_len,
            None => true,
        }) {
            Some(u)
        } else {
            rest
        }
    }
}

/// The first eligible researcher with the fewest queued orders.
pub open spec fn spec_least_busy_researcher(units: Seq<SnapUnit>, kind: UnitKind) -> Option<
    SnapUnit,
>
    decreases units.len(),
{
    if units.len() == 0 {
        None
    } else {
        let rest = spec_least_busy_researcher(units.drop_last(), kind);
        let u = units.last();
        let eligible = u.kind == kind && u.is_ready && u.orders_len < 5;
        if eligible && (match rest {
            Some(b) => u.orders_len < b.orders_len,
            None => true,
        }) {
            Some(u)
        } else {
            rest
        }
    }
}

/// What the research rule does: when an eligible researcher exists and
/// the upgrade is neither done nor queued, the least busy researcher
/// spends the research ability.
pub open spec fn spec_research_upgrade(
    snap: Snapshot,
    researcher: UnitKind,
    upgrade: UpgradeKind,
    ability: Ability,
) -> Option<Command> {
    match spec_least_busy_researcher(snap.my_units@, researcher) {
        Some(u) => if !spec_has_upgrade(snap.completed_upgrades@, upgrade) && !spec_has_upgrade(
            snap.ordered_upgrades@,
            upgrade,
        ) {
            Some(
                Command::UseAbility {
                    unit: u.tag,
                    ability,
                    target: crate::model::Target::Nothing,
                    queue: true,
                },
            )
        } else {
            None
        },
        None => None,
    }
}

/// The expansion rule's guard: enough supply, below the base target,
/// and not under attack.
pub open spec fn spec_should_expand(bot: FaxBot, snap: Snapshot) -> bool {
    let num_hatcheries = spec_townhalls(snap.my_units@).len() + spec_pending_count(
        snap.pending@,
        UnitKind::Hatchery,
    );
    let desired_bases = if bot.runtime_options.use_tryhard_mining && snap.supply_used > 34 {
        if bot.state.desired_bases >= 3 {
            bot.state.desired_bases as int
        } else {
            3
        }
    } else {
        bot.state.desired_bases as int
    };
    &&& snap.supply_used >= bot.state.build_order.first_hatch_supply
    &&& num_hatcheries < desired_bases
    &&& !bot.state.is_under_attack
}

/// The depot nearest the enemy start, if any.
pub open spec fn spec_closest_base(bases: Seq<Pos>, p: Pos) -> Option<Pos>
    decreases bases.len(),
{
    if bases.len() == 0 {
        None
    } else {
        let rest = spec_closest_base(bases.drop_last(), p);
        if match rest {
            Some(b) => dist_sq(bases.last(), p) < dist_sq(b, p),
            None => true,
        } {
            Some(bases.last())
        } else {
            rest
        }
    }
}

/// The idle larvae of the snapshot, in order.
pub open spec fn spec_idle_larvae(units: Seq<SnapUnit>) -> Seq<SnapUnit>
    decreases units.len(),
{
    if units.len() == 0 {
        Seq::empty()
    } else {
        let rest = spec_idle_larvae(units.drop_last());
        if units.last().kind == UnitKind::Larva && units.last().is_idle {
            rest.push(units.last())
        } else {
            rest
        }
    }
}

/// The training rule set, evaluated per idle production source: supply
/// ahead of demand first, then workers, then the tech-appropriate or
/// affordable combat unit.
pub open spec fn spec_train_decision(bot: FaxBot, snap: Snapshot) -> Option<UnitKind> {
    let num_hatcheries = spec_count_unit(snap, UnitKind::Hatchery);
    let has_roachwarren = spec_count_kind(snap.my_units@, UnitKind::RoachWarren) > 0;
    let has_hydraden = spec_count_kind(snap.my_units@, UnitKind::HydraliskDen) > 0;
    let is_mineral_starved = snap.minerals < 200 && snap.vespene > 800;
    let is_gas_starved = snap.vespene < 100 && snap.minerals > 600;
    let num_workers = snap.supply_workers + spec_pending_count(snap.pending@, UnitKind::Drone);
    let supply_target = if snap.supply_used + 6 * num_hatcheries <= 200 {
        snap.supply_used + 6 * num_hatcheries
    } else {
        200
    };
    if spec_pending_supply(snap) < supply_target {
        if spec_can_afford(snap, UnitKind::Overlord, false) {
            Some(UnitKind::Overlord)
        } else {
            None
        }
    } else if !bot.state.is_under_attack && num_workers < bot.state.desired_workers
        && spec_can_afford(snap, UnitKind::Drone, true) {
        Some(UnitKind::Drone)
    } else if has_hydraden && (spec_count_unit(snap, UnitKind::Roach) > spec_count_unit(
        snap,
        UnitKind::Hydralisk,
    ) || is_mineral_starved) {
        Some(UnitKind::Hydralisk)
    } else if has_roachwarren && spec_can_afford(snap, UnitKind::Roach, true) {
        Some(UnitKind::Roach)
    } else if ((bot.state.is_under_attack && !has_hydraden && !has_roachwarren) || is_gas_starved)
        && spec_can_afford(snap, UnitKind::Zergling, true) {
        Some(UnitKind::Zergling)
    } else {
        None
    }
}

/// Training commands for every idle larva under one decision.
pub open spec fn spec_larva_train_cmds(larvae: Seq<SnapUnit>, decision: Option<UnitKind>) -> Seq<
    Command,
>
    decreases larvae.len(),
{
    if larvae.len() == 0 {
        Seq::empty()
    } else {
        let rest = spec_larva_train_cmds(larvae.drop_last(), decision);
        match decision {
            Some(k) => rest.push(
                Command::Train { source: larvae.last().tag, unit: k, queue: false },
            ),
            None => rest,
        }
    }
}

/// The training stage's commands: one train order per idle larva under
/// the tick's single decision, plus a caster from the least busy depot
/// while the caster count trails the base count.
pub open spec fn spec_training_cmds(bot: FaxBot, snap: Snapshot) -> Seq<Command> {
    spec_larva_train_cmds(spec_idle_larvae(snap.my_units@), spec_train_decision(bot, snap)) + (
    if spec_count_unit(snap, UnitKind::SpawningPool) > 0 && spec_count_unit(snap, UnitKind::Queen)
        < spec_townhalls(snap.my_units@).len() {
        match spec_least_busy_hatch(snap.my_units@) {
            Some(h) => seq![
                (Command::Train { source: h.tag, unit: UnitKind::Queen, queue: true }),
            ],
            None => Seq::<Command>::empty(),
        }
    } else {
        Seq::<Command>::empty()
    })
}

impl FaxBot {
    /// Projected supply capacity including pending supply units.
    pub fn calculate_pending_supply(&self, snap: &Snapshot) -> (r: u64)
        requires
            snap.wf(),
        ensures
            r == spec_pending_supply(*snap),
    {
        proof {
            crate::bot::lemma_pending_count_bound(snap.pending@, UnitKind::Overlord);
        }
        let pending = crate::model::pending_count(&snap.pending, UnitKind::Overlord);
        proof {
            assert(0 <= (snap.supply_per_provider as int) * (pending as int) <= 10000000)
                by (nonlinear_arith)
                requires
                    0 <= snap.supply_per_provider <= 100,
                    0 <= pending <= 100000,
            ;
        }
        snap.supply_cap + snap.supply_per_provider * pending
    }

    /// The ready depot with the fewest queued orders, under the queue
    /// limit.
    #[verifier::loop_isolation(false)]
    pub fn least_busy_hatch(&self, snap: &Snapshot) -> (r: Option<SnapUnit>)
        ensures
            r == spec_least_busy_hatch(snap.my_units@),
    {
        let n = snap.my_units.len();
        let mut best: Option<SnapUnit> = None;
        let mut i: usize = 0;
        proof {
            assert(snap.my_units@.take(0) =~= Seq::<SnapUnit>::empty());
        }
        while i < n
            invariant
                i <= n,
                best == spec_least_busy_hatch(snap.my_units@.take(i as int)),
            decreases n - i,
        {
            proof {
                assert(snap.my_units@.take(i + 1).drop_last() =~= snap.my_units@.take(i as int));
                assert(snap.my_units@.take(i + 1).last() == snap.my_units@[i as int]);
            }
            let u = &snap.my_units[i];
            let eligible = (u.kind == UnitKind::Hatchery || u.kind == UnitKind::Lair) && u.is_ready
                && u.orders_len < 5;
            let better = match best {
                Some(b) => u.orders_len < b.orders_len,
                None => true,
            };
            if eligible && better {
                best = Some(*u);
            }
            i += 1;
        }
        proof {
            assert(snap.my_units@.take(n as int) =~= snap.my_units@);
        }
        best
    }

    /// Research an upgrade through its prerequisite structure, if it is
    /// neither completed nor already queued.
    #[verifier::loop_isolation(false)]
    pub fn research_upgrade(
        &self,
        snap: &Snapshot,
        researcher: UnitKind,
        upgrade: UpgradeKind,
        ability: Ability,
    ) -> (r: Option<Command>)
        ensures
            r == spec_research_upgrade(*snap, researcher, upgrade, ability),
    {
        let n = snap.my_units.len();
        let mut best: Option<SnapUnit> = None;
        let mut i: usize = 0;
        proof {
            assert(snap.my_units@.take(0) =~= Seq::<SnapUnit>::empty());
        }
        while i < n
            invariant
                i <= n,
                best == spec_least_busy_researcher(snap.my_units@.take(i as int), researcher),
            decreases n - i,
        {
            proof {
                assert(snap.my_units@.take(i + 1).drop_last() =~= snap.my_units@.take(i as int));
                assert(snap.my_units@.take(i + 1).last() == snap.my_units@[i as int]);
            }
            let u = &snap.my_units[i];
            let eligible = u.kind == researcher && u.is_ready && u.orders_len < 5;
            let better = match best {
                Some(b) => u.orders_len < b.orders_len,
                None => true,
            };
            if eligible && better {
                best = Some(*u);
            }
            i += 1;
        }
        proof {
            assert(snap.my_units@.take(n as int) =~= snap.my_units@);
        }
        match best {
            Some(u) => {
                let done = crate::model::has_upgrade(&snap.completed_upgrades, upgrade);
                let queued = crate::model::has_upgrade(&snap.ordered_upgrades, upgrade);
                if !done && !queued {
                    Some(
                        Command::UseAbility {
                            unit: u.tag,
                            ability,
                            target: crate::model::Target::Nothing,
                            queue: true,
                        },
                    )
                } else {
                    None
                }
            },
            None => None,
        }
    }

    /// Whether the expand rule fires this tick.
    pub fn should_expand(&self, snap: &Snapshot) -> (r: bool)
        requires
            snap.wf(),
        ensures
            r == spec_should_expand(*self, *snap),
    {
        proof {
            crate::bot::lemma_pending_count_bound(snap.pending@, UnitKind::Hatchery);
            lemma_townhalls_len(snap.my_units@);
        }
        let townhalls = count_townhalls(&snap.my_units);
        let pending = crate::model::pending_count(&snap.pending, UnitKind::Hatchery);
        let num_hatcheries: u64 = (townhalls as u64) + pending;
        let desired_bases: u64 = if self.runtime_options.use_tryhard_mining && snap.supply_used
            > 34 {
            if self.state.desired_bases >= 3 {
                self.state.desired_bases as u64
            } else {
                3
            }
        } else {
            self.state.desired_bases as u64
        };
        snap.supply_used >= self.state.build_order.first_hatch_supply && num_hatcheries
            < desired_bases && !self.state.is_under_attack
    }

    /// Rally point for fresh combat units: the depot nearest the enemy
    /// start, advanced a short way toward it; the start location when no
    /// depot stands.
    pub fn get_rally_point(&self, snap: &Snapshot) -> (r: Pos)
        requires
            self.state.wf(),
            snap.wf(),
        ensures
            match spec_closest_base(self.state.bases@, snap.enemy_start) {
                Some(b) => r == crate::geom::towards_spec(b, snap.enemy_start, 7 * SCALE as int),
                None => r == snap.start_location,
            },
    {
        let n = self.state.bases.len();
        let mut best: Option<Pos> = None;
        let mut i: usize = 0;
        proof {
            assert(self.state.bases@.take(0) =~= Seq::<Pos>::empty());
        }
        #[verifier::loop_isolation(false)]
        while i < n
            invariant
                i <= n,
                best == spec_closest_base(self.state.bases@.take(i as int), snap.enemy_start),
                match best {
                    Some(b) => b.in_bounds(),
                    None => true,
                },
            decreases n - i,
        {
            proof {
                assert(self.state.bases@.take(i + 1).drop_last() =~= self.state.bases@.take(
                    i as int,
                ));
                assert(self.state.bases@.take(i + 1).last() == self.state.bases@[i as int]);
            }
            let b = self.state.bases[i];
            let better = match best {
                Some(c) => crate::geom::distance_sq(b, snap.enemy_start)
                    < crate::geom::distance_sq(c, snap.enemy_start),
                None => true,
            };
            if better {
                best = Some(b);
            }
            i += 1;
        }
        proof {
            assert(self.state.bases@.take(n as int) =~= self.state.bases@);
        }
        match best {
            Some(b) => crate::geom::towards(b, snap.enemy_start, 7 * SCALE),
            None => snap.start_location,
        }
    }

    /// The training sub-planner: evaluate the training rules once and
    /// train that unit from every idle larva; separately, keep the
    /// caster count up with the base count through the least busy depot.
    #[verifier::loop_isolation(false)]
    #[verifier::rlimit(60)]
    pub fn perform_training(&self, snap: &Snapshot) -> (cmds: Vec<Command>)
        requires
            self.state.wf(),
            snap.wf(),
        ensures
            cmds@ == spec_training_cmds(*self, *snap),
    {
        let decision = self.train_decision(snap);
        let larvae = filter_idle_larvae(&snap.my_units);
        let mut cmds: Vec<Command> = Vec::new();
        let n = larvae.len();
        let mut i: usize = 0;
        proof {
            assert(larvae@.take(0) =~= Seq::<SnapUnit>::empty());
        }
        while i < n
            invariant
                i <= n,
                cmds@ == spec_larva_train_cmds(larvae@.take(i as int), decision),
            decreases n - i,
        {
            proof {
                assert(larvae@.take(i + 1).drop_last() =~= larvae@.take(i as int));
                assert(larvae@.take(i + 1).last() == larvae@[i as int]);
            }
            match decision {
                Some(k) => {
                    cmds.push(Command::Train { source: larvae[i].tag, unit: k, queue: false });
                },
                None => {},
            }
            i += 1;
        }
        proof {
            assert(larvae@.take(n as int) =~= larvae@);
            lemma_townhalls_len(snap.my_units@);
        }
        let pool_count = self.count_unit(snap, UnitKind::SpawningPool);
        let queen_count = self.count_unit(snap, UnitKind::Queen);
        let townhall_count = count_townhalls(&snap.my_units);
        let ghost before_queen = cmds@;
        if pool_count > 0 && queen_count < townhall_count {
            match self.least_busy_hatch(snap) {
                Some(h) => {
                    cmds.push(Command::Train { source: h.tag, unit: UnitKind::Queen, queue: true });
                    proof {
                        assert(cmds@ =~= before_queen + seq![
                            Command::Train { source: h.tag, unit: UnitKind::Queen, queue: true },
                        ]);
                    }
                },
                None => {
                    proof {
                        assert(cmds@ =~= before_queen + Seq::<Command>::empty());
                    }
                },
            }
        } else {
            proof {
                assert(cmds@ =~= before_queen + Seq::<Command>::empty());
            }
        }
        cmds
    }

    /// Evaluate the per-larva training rules once for this tick.
    pub fn train_decision(&self, snap: &Snapshot) -> (r: Option<UnitKind>)
        requires
            self.state.wf(),
            snap.wf(),
        ensures
            r == spec_train_decision(*self, *snap),
    {
        proof {
            crate::bot::lemma_pending_count_bound(snap.pending@, UnitKind::Drone);
            crate::bot::lemma_pending_count_bound(snap.pending@, UnitKind::Hatchery);
            crate::model::lemma_spec_count_kind_bounds(snap.my_units@, UnitKind::Hatchery);
        }
        let num_hatcheries = self.count_unit(snap, UnitKind::Hatchery);
        let has_roachwarren = crate::model::count_kind(&snap.my_units, UnitKind::RoachWarren) > 0;
        let has_hydraden = crate::model::count_kind(&snap.my_units, UnitKind::HydraliskDen) > 0;
        let is_mineral_starved = snap.minerals < 200 && snap.vespene > 800;
        let is_gas_starved = snap.vespene < 100 && snap.minerals > 600;
        let num_workers = snap.supply_workers + crate::model::pending_count(
            &snap.pending,
            UnitKind::Drone,
        );
        proof {
            crate::model::lemma_spec_count_kind_bounds(snap.my_units@, UnitKind::Hatchery);
            crate::bot::lemma_pending_count_bound(snap.pending@, UnitKind::Overlord);
        }
        let cap6: u64 = snap.supply_used + 6 * (num_hatcheries as u64);
        let supply_target: u64 = if cap6 <= 200 {
            cap6
        } else {
            200
        };
        let pending_supply = self.calculate_pending_supply(snap);
        if pending_supply < supply_target {
            if crate::model::can_afford(snap, UnitKind::Overlord, false) {
                Some(UnitKind::Overlord)
            } else {
                None
            }
        } else if !self.state.is_under_attack && (num_workers as usize) < self.state.desired_workers
            && crate::model::can_afford(snap, UnitKind::Drone, true) {
            Some(UnitKind::Drone)
        } else if has_hydraden && (self.count_unit(snap, UnitKind::Roach) > self.count_unit(
            snap,
            UnitKind::Hydralisk,
        ) || is_mineral_starved) {
            Some(UnitKind::Hydralisk)
        } else if has_roachwarren && crate::model::can_afford(snap, UnitKind::Roach, true) {
            Some(UnitKind::Roach)
        } else if ((self.state.is_under_attack && !has_hydraden && !has_roachwarren)
            || is_gas_starved) && crate::model::can_afford(snap, UnitKind::Zergling, true) {
            Some(UnitKind::Zergling)
        } else {
            None
        }
    }
}

/// The first worker not already on a construction errand.
pub open spec fn spec_first_free_worker(units: Seq<SnapUnit>) -> Option<SnapUnit>
    decreases units.len(),
{
    if units.len() == 0 {
        None
    } else if units[0].kind == UnitKind::Drone && !units[0].is_constructing {
        Some(units[0])
    } else {
        spec_first_free_worker(units.drop_first())
    }
}

/// What the build action does: when the cost is covered and a free
/// worker exists, that worker is sent to build and marked constructing.
pub open spec fn spec_create_building_cmd(
    snap: Snapshot,
    unit_type: UnitKind,
    location: Pos,
    exact: bool,
) -> Option<Command> {
    if spec_can_afford(snap, unit_type, false) {
        match spec_first_free_worker(snap.my_units@) {
            Some(w) => Some(
                Command::Build { worker: w.tag, structure: unit_type, near: location, exact },
            ),
            None => None,
        }
    } else {
        None
    }
}

/// The last listed idle worker, if any; otherwise the last worker.
pub open spec fn spec_last_idle(ws: Seq<SnapUnit>) -> Option<SnapUnit>
    decreases ws.len(),
{
    if ws.len() == 0 {
        None
    } else if ws.last().is_idle {
        Some(ws.last())
    } else {
        spec_last_idle(ws.drop_last())
    }
}

/// The worker spent on a gas build: an idle one when available.
pub open spec fn spec_pick_gas_worker(ws: Seq<SnapUnit>) -> Option<SnapUnit> {
    match spec_last_idle(ws) {
        Some(w) => Some(w),
        None => if ws.len() > 0 {
            Some(ws.last())
        } else {
            None
        },
    }
}

/// No extractor stands on the node.
pub open spec fn spec_gas_free(my_units: Seq<SnapUnit>, g: SnapUnit) -> bool {
    forall|i: int|
        0 <= i < my_units.len() ==> !((#[trigger] my_units[i]).kind == UnitKind::Extractor
            && dist_sq(my_units[i].pos, g.pos) < (SCALE as int) * (SCALE as int))
}

/// The nearest free gas node within mining range of `base`, earliest on
/// ties.
pub open spec fn spec_nearest_free_gas(
    resources: Seq<SnapUnit>,
    my_units: Seq<SnapUnit>,
    base: Pos,
) -> Option<SnapUnit>
    decreases resources.len(),
{
    if resources.len() == 0 {
        None
    } else {
        let rest = spec_nearest_free_gas(resources.drop_last(), my_units, base);
        let g = resources.last();
        let eligible = g.kind == UnitKind::VespeneGeyser && dist_sq(g.pos, base) < (12 * SCALE as int)
            * (12 * SCALE as int) && spec_gas_free(my_units, g);
        if eligible && (match rest {
            Some(b) => dist_sq(g.pos, base) < dist_sq(b.pos, base),
            None => true,
        }) {
            Some(g)
        } else {
            rest
        }
    }
}

/// The first base with a free gas node, walking the known bases in
/// order.
pub open spec fn spec_find_free_gas(
    bases: Seq<Pos>,
    resources: Seq<SnapUnit>,
    my_units: Seq<SnapUnit>,
) -> Option<SnapUnit>
    decreases bases.len(),
{
    if bases.len() == 0 {
        None
    } else {
        match spec_nearest_free_gas(resources, my_units, bases[0]) {
            Some(g) => Some(g),
            None => spec_find_free_gas(bases.drop_first(), resources, my_units),
        }
    }
}

/// An expansion location holds an active in-flight reservation.
pub open spec fn spec_reserved(reserved: Seq<(Pos, u64)>, loc: Pos, tick: u64) -> bool {
    exists|i: int|
        0 <= i < reserved.len() && (#[trigger] reserved[i]).0 == loc && reserved[i].1
            + RESERVATION_WINDOW >= tick
}

/// A distance-keyed candidate: the location of an eligible expansion
/// paired with its squared distance from our start.
pub open spec fn spec_keyed_candidate(e: (u64, Pos), bot: FaxBot, snap: Snapshot) -> bool {
    exists|k: int|
        0 <= k < snap.expansions@.len() && (#[trigger] snap.expansions@[k]).loc == e.1 && e.0
            == dist_sq(snap.expansions@[k].loc, snap.start_location) as u64
            && spec_expansion_eligible(snap.expansions@[k], bot, snap.tick)
}

/// The location of some expansion the expand rule may attempt.
pub open spec fn spec_eligible_loc(p: Pos, bot: FaxBot, snap: Snapshot) -> bool {
    exists|i: int|
        0 <= i < snap.expansions@.len() && (#[trigger] snap.expansions@[i]).loc == p
            && spec_expansion_eligible(snap.expansions@[i], bot, snap.tick)
}

/// An expansion the expand rule may attempt: no finished base, enough
/// gas nodes for the stage of the game, and no in-flight reservation.
pub open spec fn spec_expansion_eligible(
    e: crate::model::Expansion,
    bot: FaxBot,
    tick: u64,
) -> bool {
    &&& !e.has_base
    &&& (bot.state.desired_bases > 2 || e.geysers@.len() >= 2)
    &&& !spec_reserved(bot.state.reserved_expansions@, e.loc, tick)
}

impl FaxBot {
    /// Send the first free worker to build, marking it constructing and
    /// pinning the build location.
    #[verifier::loop_isolation(false)]
    #[verifier::rlimit(60)]
    pub fn create_building(
        &mut self,
        snap: &Snapshot,
        unit_type: UnitKind,
        location: Pos,
        exact: bool,
    ) -> (r: Option<Command>)
        requires
            old(self).state.wf(),
            snap.wf(),
        ensures
            final(self).state.wf(),
            r == spec_create_building_cmd(*snap, unit_type, location, exact),
            match r {
                Some(c) => match c {
                    Command::Build { worker, .. } => final(self).state.micro.drones.lookup(worker)
                        == Some(DroneTask::Construct { queued_at: snap.tick }) && (forall|w: u64|
                        w != worker ==> final(self).state.micro.drones.lookup(w) == old(
                            self,
                        ).state.micro.drones.lookup(w)),
                    _ => false,
                },
                None => final(self).state.micro.drones@ == old(self).state.micro.drones@,
            },
            forall|rt: ResourceType, t: u64|
                crate::micro::spec_gather_count(final(self).state.micro.drones@, rt, t)
                    <= crate::micro::spec_gather_count(old(self).state.micro.drones@, rt, t),
            crate::micro::spec_same_except_drones(*old(self), *final(self)),
    {
        proof {
            crate::tally::lemma_count_where_bounds(
                self.state.micro.drones@,
                crate::micro::gather_pred(ResourceType::Mineral, 0),
            );
        }
        if !crate::model::can_afford(snap, unit_type, false) {
            return None;
        }
        let n = snap.my_units.len();
        let mut i: usize = 0;
        proof {
            assert(snap.my_units@.skip(0) =~= snap.my_units@);
        }
        while i < n
            invariant
                i <= n,
                *self == *old(self),
                spec_first_free_worker(snap.my_units@) == spec_first_free_worker(
                    snap.my_units@.skip(i as int),
                ),
            decreases n - i,
        {
            proof {
                assert(snap.my_units@.skip(i as int)[0] == snap.my_units@[i as int]);
                assert(snap.my_units@.skip(i as int).drop_first() =~= snap.my_units@.skip(i + 1));
            }
            let u = &snap.my_units[i];
            if u.kind == UnitKind::Drone && !u.is_constructing {
                let ghost before = self.state.micro.drones@;
                self.state.micro.drones.insert(u.tag, DroneTask::Construct { queued_at: snap.tick });
                proof {
                    let after = self.state.micro.drones@;
                    let removed = crate::tagmap::remove_key(before, u.tag);
                    assert(after == removed.push(
                        (u.tag, DroneTask::Construct { queued_at: snap.tick }),
                    ));
                    assert(after.drop_last() =~= removed);
                    assert forall|rt: ResourceType, t: u64|
                        crate::micro::spec_gather_count(after, rt, t)
                            <= crate::micro::spec_gather_count(before, rt, t) by {
                        crate::tagmap::lemma_count_remove_key(
                            before,
                            u.tag,
                            crate::micro::gather_pred(rt, t),
                        );
                        crate::tally::lemma_count_where_bounds(
                            removed,
                            crate::micro::gather_pred(rt, t),
                        );
                    }
                }
                return Some(
                    Command::Build { worker: u.tag, structure: unit_type, near: location, exact },
                );
            }
            i += 1;
        }
        proof {
            assert(snap.my_units@.skip(n as int) =~= Seq::<SnapUnit>::empty());
        }
        None
    }

    /// Attempt one expansion: affordability plus worker availability.
    pub fn take_expansion(&mut self, snap: &Snapshot, position: Pos) -> (r: Option<Command>)
        requires
            old(self).state.wf(),
            snap.wf(),
        ensures
            final(self).state.wf(),
            r == (if spec_can_afford(*snap, UnitKind::Hatchery, false) {
                spec_create_building_cmd(*snap, UnitKind::Hatchery, position, true)
            } else {
                None
            }),
            r is None ==> final(self).state.micro.drones@ == old(self).state.micro.drones@,
            forall|rt: ResourceType, t: u64|
                crate::micro::spec_gather_count(final(self).state.micro.drones@, rt, t)
                    <= crate::micro::spec_gather_count(old(self).state.micro.drones@, rt, t),
            forall|w: u64|
                final(self).state.micro.drones.lookup(w) == old(self).state.micro.drones.lookup(w)
                    || final(self).state.micro.drones.lookup(w) == Some(
                    DroneTask::Construct { queued_at: snap.tick },
                ),
            crate::micro::spec_same_except_drones(*old(self), *final(self)),
    {
        if crate::model::can_afford(snap, UnitKind::Hatchery, false) {
            self.create_building(snap, UnitKind::Hatchery, position, true)
        } else {
            None
        }
    }
}

impl FaxBot {
    /// The gas rule: when below the gas target and an extractor is
    /// affordable, spend one worker on the nearest free gas node across
    /// the known bases.
    #[verifier::loop_isolation(false)]
    #[verifier::rlimit(100)]
    pub fn ensure_taken_gasses(&mut self, snap: &Snapshot, num_gasses: usize) -> (r: Option<
        Command,
    >)
        requires
            old(self).state.wf(),
            snap.wf(),
        ensures
            final(self).state.wf(),
            r == spec_ensure_taken_gasses(*old(self), *snap, num_gasses as int),
            r is None ==> final(self).state.micro.drones@ == old(self).state.micro.drones@,
            forall|rt: ResourceType, t: u64|
                crate::micro::spec_gather_count(final(self).state.micro.drones@, rt, t)
                    <= crate::micro::spec_gather_count(old(self).state.micro.drones@, rt, t),
            forall|w: u64|
                final(self).state.micro.drones.lookup(w) == old(self).state.micro.drones.lookup(w)
                    || final(self).state.micro.drones.lookup(w) == Some(
                    DroneTask::Construct { queued_at: snap.tick },
                ),
            crate::micro::spec_same_except_drones(*old(self), *final(self)),
    {
        let extractor_count = self.count_unit(snap, UnitKind::Extractor);
        if extractor_count >= self.state.desired_gasses {
            return None;
        }
        let workers = all_workers(&snap.my_units);
        let picked = pick_gas_worker(&workers);
        proof {
            crate::bot::lemma_pending_count_bound(snap.pending@, UnitKind::Extractor);
        }
        let live = count_live_extractors(&snap.my_units);
        proof {
            lemma_live_extractors_bound(snap.my_units@);
        }
        let current_gasses = live + (crate::model::pending_count(
            &snap.pending,
            UnitKind::Extractor,
        ) as usize);
        if crate::model::can_afford(snap, UnitKind::Extractor, false) && current_gasses
            < num_gasses {
            match picked {
                Some(w) => {
                    match find_free_gas(&self.state.bases, &snap.resources, &snap.my_units) {
                        Some(g) => {
                            let ghost before = self.state.micro.drones@;
                            self.state.micro.drones.insert(
                                w.tag,
                                DroneTask::Construct { queued_at: snap.tick },
                            );
                            proof {
                                let after = self.state.micro.drones@;
                                let removed = crate::tagmap::remove_key(before, w.tag);
                                assert(after.drop_last() =~= removed);
                                assert forall|rt: ResourceType, t: u64|
                                    crate::micro::spec_gather_count(after, rt, t)
                                        <= crate::micro::spec_gather_count(before, rt, t) by {
                                    crate::tagmap::lemma_count_remove_key(
                                        before,
                                        w.tag,
                                        crate::micro::gather_pred(rt, t),
                                    );
                                    crate::tally::lemma_count_where_bounds(
                                        removed,
                                        crate::micro::gather_pred(rt, t),
                                    );
                                }
                            }
                            Some(Command::BuildGas { worker: w.tag, geyser: g.tag })
                        },
                        None => None,
                    }
                },
                None => None,
            }
        } else {
            None
        }
    }

    /// The uncontested expansions the expand rule may try, nearest
    /// first.
    #[verifier::loop_isolation(false)]
    #[verifier::rlimit(100)]
    pub fn determine_best_expansion_order(&self, snap: &Snapshot) -> (r: Vec<Pos>)
        requires
            self.state.wf(),
            snap.wf(),
        ensures
            forall|i: int, j: int|
                0 <= i < j < r@.len() ==> dist_sq(#[trigger] r@[i], snap.start_location) <= dist_sq(
                    #[trigger] r@[j],
                    snap.start_location,
                ),
            forall|j: int| 0 <= j < r@.len() ==> spec_eligible_loc(#[trigger] r@[j], *self, *snap),
            forall|i: int|
                0 <= i < snap.expansions@.len() && spec_expansion_eligible(
                    #[trigger] snap.expansions@[i],
                    *self,
                    snap.tick,
                ) ==> r@.contains(snap.expansions@[i].loc),
    {
        let n = snap.expansions.len();
        let mut keyed: Vec<(u64, Pos)> = Vec::new();
        let mut i: usize = 0;
        while i < n
            invariant
                i <= n,
                forall|j: int|
                    0 <= j < keyed@.len() ==> spec_keyed_candidate(
                        #[trigger] keyed@[j],
                        *self,
                        *snap,
                    ),
                forall|k: int|
                    0 <= k < i && spec_expansion_eligible(
                        #[trigger] snap.expansions@[k],
                        *self,
                        snap.tick,
                    ) ==> keyed@.contains(
                        (
                            dist_sq(snap.expansions@[k].loc, snap.start_location) as u64,
                            snap.expansions@[k].loc,
                        ),
                    ),
            decreases n - i,
        {
            let e = &snap.expansions[i];
            let stage_ok = self.state.desired_bases > 2 || e.geysers.len() >= 2;
            let reserved = is_reserved(&self.state.reserved_expansions, e.loc, snap.tick);
            if !e.has_base && stage_ok && !reserved {
                proof {
                    crate::geom::lemma_dist_sq_bounds(
                        snap.expansions@[i as int].loc,
                        snap.start_location,
                    );
                }
                let ghost k0 = keyed@;
                keyed.push((crate::geom::distance_sq(e.loc, snap.start_location), e.loc));
                proof {
                    assert(forall|j: int| 0 <= j < k0.len() ==> keyed@[j] == #[trigger] k0[j]);
                    let tail = (
                        dist_sq(snap.expansions@[i as int].loc, snap.start_location) as u64,
                        snap.expansions@[i as int].loc,
                    );
                    assert(keyed@[keyed@.len() - 1] == tail);
                    assert(spec_keyed_candidate(tail, *self, *snap)) by {
                        assert(0 <= (i as int) < snap.expansions@.len() && snap.expansions@[
                            i as int].loc == tail.1 && tail.0 == dist_sq(
                            snap.expansions@[i as int].loc,
                            snap.start_location,
                        ) as u64 && spec_expansion_eligible(
                            snap.expansions@[i as int],
                            *self,
                            snap.tick,
                        ));
                    }
                    assert forall|k: int|
                        0 <= k < i + 1 && spec_expansion_eligible(
                            #[trigger] snap.expansions@[k],
                            *self,
                            snap.tick,
                        ) implies keyed@.contains(
                        (
                            dist_sq(snap.expansions@[k].loc, snap.start_location) as u64,
                            snap.expansions@[k].loc,
                        ),
                    ) by {
                        let target = (
                            dist_sq(snap.expansions@[k].loc, snap.start_location) as u64,
                            snap.expansions@[k].loc,
                        );
                        if k < i {
                            let a = choose|a: int| 0 <= a < k0.len() && k0[a] == target;
                            assert(keyed@[a] == target);
                        } else {
                            assert(keyed@[keyed@.len() - 1] == target);
                        }
                    }
                }
            } else {
                proof {
                    assert(!spec_expansion_eligible(snap.expansions@[i as int], *self, snap.tick));
                }
            }
            i += 1;
        }
        let ghost inp = keyed@;
        let sorted = crate::sort::sort_by_key(keyed);
        proof {
            crate::sort::lemma_multiset_elements(sorted@, inp);
        }
        let ns = sorted.len();
        let mut out: Vec<Pos> = Vec::new();
        let mut j: usize = 0;
        while j < ns
            invariant
                j <= ns,
                out@.len() == j,
                forall|k: int| 0 <= k < j ==> #[trigger] out@[k] == sorted@[k].1,
            decreases ns - j,
        {
            out.push(sorted[j].1);
            j += 1;
        }
        proof {
            assert forall|a: int| 0 <= a < sorted@.len() implies spec_keyed_candidate(
                #[trigger] sorted@[a],
                *self,
                *snap,
            ) by {
                assert(inp.contains(sorted@[a]));
                let b = choose|b: int| 0 <= b < inp.len() && inp[b] == sorted@[a];
            }
            assert forall|i2: int, j2: int| 0 <= i2 < j2 < out@.len() implies dist_sq(
                #[trigger] out@[i2],
                snap.start_location,
            ) <= dist_sq(#[trigger] out@[j2], snap.start_location) by {
                let ka = choose|k: int|
                    0 <= k < snap.expansions@.len() && (#[trigger] snap.expansions@[k]).loc
                        == sorted@[i2].1 && sorted@[i2].0 == dist_sq(
                        snap.expansions@[k].loc,
                        snap.start_location,
                    ) as u64 && spec_expansion_eligible(snap.expansions@[k], *self, snap.tick);
                let kb = choose|k: int|
                    0 <= k < snap.expansions@.len() && (#[trigger] snap.expansions@[k]).loc
                        == sorted@[j2].1 && sorted@[j2].0 == dist_sq(
                        snap.expansions@[k].loc,
                        snap.start_location,
                    ) as u64 && spec_expansion_eligible(snap.expansions@[k], *self, snap.tick);
                crate::geom::lemma_dist_sq_bounds(snap.expansions@[ka].loc, snap.start_location);
                crate::geom::lemma_dist_sq_bounds(snap.expansions@[kb].loc, snap.start_location);
                assert(sorted@[i2].0 <= sorted@[j2].0);
            }
            assert forall|j2: int| 0 <= j2 < out@.len() implies spec_eligible_loc(
                #[trigger] out@[j2],
                *self,
                *snap,
            ) by {
                let ka = choose|k: int|
                    0 <= k < snap.expansions@.len() && (#[trigger] snap.expansions@[k]).loc
                        == sorted@[j2].1 && sorted@[j2].0 == dist_sq(
                        snap.expansions@[k].loc,
                        snap.start_location,
                    ) as u64 && spec_expansion_eligible(snap.expansions@[k], *self, snap.tick);
                assert(out@[j2] == sorted@[j2].1);
                assert(0 <= ka < snap.expansions@.len() && snap.expansions@[ka].loc == out@[j2]
                    && spec_expansion_eligible(snap.expansions@[ka], *self, snap.tick));
            }
            assert forall|i2: int|
                0 <= i2 < snap.expansions@.len() && spec_expansion_eligible(
                    #[trigger] snap.expansions@[i2],
                    *self,
                    snap.tick,
                ) implies out@.contains(snap.expansions@[i2].loc) by {
                let e = (
                    dist_sq(snap.expansions@[i2].loc, snap.start_location) as u64,
                    snap.expansions@[i2].loc,
                );
                assert(inp.contains(e));
                assert(sorted@.contains(e));
                let a = choose|a: int| 0 <= a < sorted@.len() && sorted@[a] == e;
                assert(out@[a] == snap.expansions@[i2].loc);
            }
        }
        out
    }
}

/// Zero or one commands.
pub open spec fn spec_opt_cmds(c: Option<Command>) -> Seq<Command> {
    match c {
        Some(c) => seq![c],
        None => Seq::empty(),
    }
}

/// The tail of the structure cascade, once the tier-1 and expand rules
/// have declined: gas, the mid-tier structure, the main-structure
/// upgrade, the third tech structure, then the research priority chain.
/// The boolean is the did-attempt flag handed to the training planner.
pub open spec fn spec_cascade_tail(bot: FaxBot, snap: Snapshot) -> (bool, Seq<Command>) {
    let main_loc = crate::geom::towards_spec(
        snap.start_location,
        snap.map_center,
        7 * SCALE as int,
    );
    let gas = if snap.supply_used >= 17 {
        spec_ensure_taken_gasses(bot, snap, bot.state.desired_gasses as int)
    } else {
        None
    };
    match gas {
        Some(c) => (true, seq![c]),
        None => if snap.supply_used >= 32 && spec_count_unit(snap, UnitKind::RoachWarren) < 1 {
            (
                true,
                spec_opt_cmds(
                    spec_create_building_cmd(snap, UnitKind::RoachWarren, main_loc, false),
                ),
            )
        } else if spec_townhalls(snap.my_units@).len() > 2 && bot.state.desired_bases > 2
            && spec_count_unit(snap, UnitKind::Lair) < 1 {
            match spec_first_idle_townhall(snap.my_units@) {
                Some(h) => (
                    true,
                    seq![
                        Command::UseAbility {
                            unit: h.tag,
                            ability: Ability::UpgradeToLair,
                            target: crate::model::Target::Nothing,
                            queue: false,
                        },
                    ],
                ),
                None => (false, Seq::empty()),
            }
        } else if spec_count_kind(snap.my_units@, UnitKind::Lair) > 0 && spec_count_unit(
            snap,
            UnitKind::HydraliskDen,
        ) < 1 {
            (
                true,
                spec_opt_cmds(
                    spec_create_building_cmd(snap, UnitKind::HydraliskDen, main_loc, false),
                ),
            )
        } else {
            let glial = if spec_count_kind(snap.my_units@, UnitKind::Lair) > 0 {
                spec_research_upgrade(
                    snap,
                    UnitKind::RoachWarren,
                    UpgradeKind::GlialReconstitution,
                    Ability::ResearchGlialReconstitution,
                )
            } else {
                None
            };
            match glial {
                Some(c) => (true, seq![c]),
                None => match spec_research_upgrade(
                    snap,
                    UnitKind::HydraliskDen,
                    UpgradeKind::GroovedSpines,
                    Ability::ResearchGroovedSpines,
                ) {
                    Some(c) => (true, seq![c]),
                    None => match spec_research_upgrade(
                        snap,
                        UnitKind::HydraliskDen,
                        UpgradeKind::MuscularAugments,
                        Ability::ResearchMuscularAugments,
                    ) {
                        Some(c) => (true, seq![c]),
                        None => (false, Seq::empty()),
                    },
                },
            }
        },
    }
}

/// What the structure cascade guarantees of its did-attempt flag,
/// its commands, and the engine state.
/// What the expand rule does when it is reached: the nearest
/// uncontested expansion is attempted when affordable and a worker is
/// free, and its spot is reserved; otherwise nothing changes.
pub open spec fn spec_expand_outcome(
    pre: FaxBot,
    post: FaxBot,
    snap: Snapshot,
    bcmds: Seq<Command>,
) -> bool {
    if spec_can_afford(snap, UnitKind::Hatchery, false) && spec_first_free_worker(
        snap.my_units@,
    ) is Some && (exists|i: int|
        0 <= i < snap.expansions@.len() && spec_expansion_eligible(
            #[trigger] snap.expansions@[i],
            pre,
            snap.tick,
        )) {
        exists|loc: Pos|
            #![trigger spec_eligible_loc(loc, pre, snap)]
            {
                &&& spec_eligible_loc(loc, pre, snap)
                &&& (forall|m: Pos|
                    spec_eligible_loc(m, pre, snap) ==> dist_sq(loc, snap.start_location)
                        <= dist_sq(m, snap.start_location))
                &&& bcmds == seq![
                    (Command::Build {
                        worker: spec_first_free_worker(snap.my_units@)->Some_0.tag,
                        structure: UnitKind::Hatchery,
                        near: loc,
                        exact: true,
                    }),
                ]
                &&& (pre.state.reserved_expansions@.len() < 1000
                    ==> post.state.reserved_expansions@ == pre.state.reserved_expansions@.push(
                    (loc, snap.tick),
                ))
            }
    } else {
        &&& bcmds == Seq::<Command>::empty()
        &&& post.state.micro.drones@ == pre.state.micro.drones@
        &&& post.state.reserved_expansions@ == pre.state.reserved_expansions@
    }
}

pub open spec fn spec_building_outcome(
    pre: FaxBot,
    post: FaxBot,
    snap: Snapshot,
    did: bool,
    bcmds: Seq<Command>,
) -> bool {
    &&& ({
            // at most one structure action per tick
            bcmds.len() <= 1
    })
    &&& ({
            // build-order escalation at its fixed milestones
            post.state.desired_gasses == (if pre.state.desired_bases > 2 {
                8int
            } else if pre.state.desired_gasses == 2 && snap.minerals >= 400 && snap.vespene
                < 100 {
                4int
            } else {
                pre.state.desired_gasses as int
            })
    })
    &&& ({
            post.state.desired_workers == (if pre.state.desired_bases > 2 {
                72int
            } else if pre.state.desired_gasses == 2 && snap.minerals >= 400 && snap.vespene
                < 100 {
                44int
            } else {
                pre.state.desired_workers as int
            })
    })
    &&& ({
            // the tier-1 tech rule, stated exactly
            ((snap.supply_used >= pre.state.build_order.spawning_pool_supply || pre.state.is_under_attack) && spec_count_unit(snap, UnitKind::SpawningPool) < 1) ==> (
            did == true && bcmds == (match spec_create_building_cmd(
                snap,
                UnitKind::SpawningPool,
                crate::geom::towards_spec(snap.start_location, snap.map_center, 7 * SCALE as int),
                false,
            ) {
                Some(c) => seq![c],
                None => Seq::<Command>::empty(),
            }))
    })
    &&& ({
            // the task map gains at most construction markers
            forall|w: u64|
                post.state.micro.drones.lookup(w) == pre.state.micro.drones.lookup(w)
                    || post.state.micro.drones.lookup(w) == Some(
                    DroneTask::Construct { queued_at: snap.tick },
                )
    })
    &&& ({
            forall|rt: ResourceType, t: u64|
                crate::micro::spec_gather_count(post.state.micro.drones@, rt, t)
                    <= crate::micro::spec_gather_count(pre.state.micro.drones@, rt, t)
    })
    &&& ({
            // at most one reservation is added, stamped with this tick
            post.state.reserved_expansions@ == pre.state.reserved_expansions@ || (
            post.state.reserved_expansions@.len() == pre.state.reserved_expansions@.len() + 1
                && post.state.reserved_expansions@.drop_last() == pre.state.reserved_expansions@ && post.state.reserved_expansions@.last().1
                == snap.tick)
    })
    &&& ({
            // the expand rule, stated exactly up to equal-distance ties
            (!((snap.supply_used >= pre.state.build_order.spawning_pool_supply
                || pre.state.is_under_attack) && spec_count_unit(snap, UnitKind::SpawningPool) < 1)
                && spec_should_expand(pre, snap)) ==> (did == true && spec_expand_outcome(
                pre,
                post,
                snap,
                bcmds,
            ))
    })
    &&& ({
            // the rest of the cascade, stated exactly
            (!((snap.supply_used >= pre.state.build_order.spawning_pool_supply || pre.state.is_under_attack) && spec_count_unit(snap, UnitKind::SpawningPool) < 1)
                && !spec_should_expand(pre, snap)) ==> (did == spec_cascade_tail(
                post,
                snap,
            ).0 && bcmds == spec_cascade_tail(post, snap).1)
    })
    &&& (spec_building_frame(pre, post))
}

/// Everything the structure rule cascade leaves untouched.
pub open spec fn spec_building_frame(a: FaxBot, b: FaxBot) -> bool {
    &&& a.runtime_options == b.runtime_options
    &&& a.state.bases == b.state.bases
    &&& a.state.build_order == b.state.build_order
    &&& a.state.peak_army == b.state.peak_army
    &&& a.state.desired_bases == b.state.desired_bases
    &&& a.state.is_under_attack == b.state.is_under_attack
    &&& a.state.my_structures == b.state.my_structures
    &&& a.state.enemy_units == b.state.enemy_units
    &&& a.state.map_info == b.state.map_info
    &&& a.state.micro.drone_last_seen == b.state.micro.drone_last_seen
    &&& a.state.micro.enemy_base_locations_by_expansion_order
        == b.state.micro.enemy_base_locations_by_expansion_order
}

/// The first ready depot with an empty order queue.
pub open spec fn spec_first_idle_townhall(units: Seq<SnapUnit>) -> Option<SnapUnit>
    decreases units.len(),
{
    if units.len() == 0 {
        None
    } else if crate::model::is_townhall_kind(units[0].kind) && units[0].is_ready
        && units[0].orders_len == 0 {
        Some(units[0])
    } else {
        spec_first_idle_townhall(units.drop_first())
    }
}

impl FaxBot {
    /// The structure/tech rule cascade: raise the economic targets at
    /// their milestones, then attempt at most one structure or research
    /// action, first satisfied rule wins.  Returns whether a build was
    /// attempted, so training can be skipped that tick.
    #[verifier::loop_isolation(false)]
    #[verifier::rlimit(100)]
    pub fn perform_building(&mut self, snap: &Snapshot) -> (r: (bool, Vec<Command>))
        requires
            old(self).state.wf(),
            snap.wf(),
        ensures
            final(self).state.wf(),
            spec_building_outcome(*old(self), *final(self), *snap, r.0, r.1@),
    {
        // build-order escalation
        if self.state.desired_bases > 2 {
            self.state.desired_gasses = 8;
            self.state.desired_workers = 72;
        } else if self.state.desired_gasses == 2 && snap.minerals >= 400 && snap.vespene < 100 {
            self.state.desired_gasses = 4;
            self.state.desired_workers = 44;
        }
        let ghost dg = self.state.desired_gasses;
        let ghost dw = self.state.desired_workers;
        let main_build_location = crate::geom::towards(
            snap.start_location,
            snap.map_center,
            7 * SCALE,
        );
        let pool_count = self.count_unit(snap, UnitKind::SpawningPool);
        let mut did: bool = true;
        let mut cmds: Vec<Command> = Vec::new();
        if (snap.supply_used >= self.state.build_order.spawning_pool_supply
            || self.state.is_under_attack) && pool_count < 1 {
            match self.create_building(snap, UnitKind::SpawningPool, main_build_location, false) {
                Some(c) => {
                    cmds.push(c);
                },
                None => {},
            }
        } else if self.should_expand(snap) {
            let ghost at_call = *self;
            let order = self.determine_best_expansion_order(snap);
            proof {
                assert forall|p: Pos|
                    spec_eligible_loc(p, at_call, *snap) == spec_eligible_loc(
                        p,
                        *old(self),
                        *snap,
                    ) by {
                    if spec_eligible_loc(p, at_call, *snap) {
                        let k = choose|k: int|
                            0 <= k < snap.expansions@.len() && (#[trigger] snap.expansions@[k]).loc
                                == p && spec_expansion_eligible(
                                snap.expansions@[k],
                                at_call,
                                snap.tick,
                            );
                        assert(spec_expansion_eligible(snap.expansions@[k], *old(self), snap.tick));
                    }
                    if spec_eligible_loc(p, *old(self), *snap) {
                        let k = choose|k: int|
                            0 <= k < snap.expansions@.len() && (#[trigger] snap.expansions@[k]).loc
                                == p && spec_expansion_eligible(
                                snap.expansions@[k],
                                *old(self),
                                snap.tick,
                            );
                        assert(spec_expansion_eligible(snap.expansions@[k], at_call, snap.tick));
                    }
                }
                assert forall|k: int|
                    0 <= k < snap.expansions@.len() implies spec_expansion_eligible(
                    #[trigger] snap.expansions@[k],
                    at_call,
                    snap.tick,
                ) == spec_expansion_eligible(snap.expansions@[k], *old(self), snap.tick) by {}
            }
            if order.len() > 0 {
                let pos = order[0];
                match self.take_expansion(snap, pos) {
                    Some(c) => {
                        cmds.push(c);
                        if self.state.reserved_expansions.len() < 1000 {
                            self.state.reserved_expansions.push((pos, snap.tick));
                            proof {
                                assert(self.state.reserved_expansions@.drop_last() =~= old(
                                    self,
                                ).state.reserved_expansions@);
                            }
                        }
                    },
                    None => {},
                }
            }
            proof {
                if spec_can_afford(*snap, UnitKind::Hatchery, false) && spec_first_free_worker(
                    snap.my_units@,
                ) is Some && (exists|i: int|
                    0 <= i < snap.expansions@.len() && spec_expansion_eligible(
                        #[trigger] snap.expansions@[i],
                        *old(self),
                        snap.tick,
                    )) {
                    // some expansion is eligible, so the candidate list is
                    // not empty and its head is a nearest eligible spot
                    let i = choose|i: int|
                        0 <= i < snap.expansions@.len() && spec_expansion_eligible(
                            #[trigger] snap.expansions@[i],
                            at_call,
                            snap.tick,
                        );
                    assert(order@.contains(snap.expansions@[i].loc));
                    assert(order@.len() > 0);
                    let loc = order@[0];
                    assert(spec_eligible_loc(loc, *old(self), *snap));
                    assert forall|m: Pos| spec_eligible_loc(m, *old(self), *snap) implies dist_sq(
                        loc,
                        snap.start_location,
                    ) <= dist_sq(m, snap.start_location) by {
                        assert(spec_eligible_loc(m, at_call, *snap));
                        let k = choose|k: int|
                            0 <= k < snap.expansions@.len() && (#[trigger] snap.expansions@[k]).loc
                                == m && spec_expansion_eligible(
                                snap.expansions@[k],
                                at_call,
                                snap.tick,
                            );
                        assert(order@.contains(snap.expansions@[k].loc));
                        let j = choose|j: int| 0 <= j < order@.len() && order@[j] == m;
                        assert(dist_sq(order@[0], snap.start_location) <= dist_sq(
                            order@[j],
                            snap.start_location,
                        ));
                    }
                }
            }
        } else {
            let gas_cmd = if snap.supply_used >= 17 {
                let target = self.state.desired_gasses;
                self.ensure_taken_gasses(snap, target)
            } else {
                None
            };
            match gas_cmd {
                Some(c) => {
                    cmds.push(c);
                },
                None => {
                    let warren_count = self.count_unit(snap, UnitKind::RoachWarren);
                    let lair_present = crate::model::count_kind(&snap.my_units, UnitKind::Lair);
                    let lair_count = self.count_unit(snap, UnitKind::Lair);
                    let den_count = self.count_unit(snap, UnitKind::HydraliskDen);
                    let townhall_count = count_townhalls(&snap.my_units);
                    if snap.supply_used >= 32 && warren_count < 1 {
                        match self.create_building(
                            snap,
                            UnitKind::RoachWarren,
                            main_build_location,
                            false,
                        ) {
                            Some(c) => {
                                cmds.push(c);
                            },
                            None => {},
                        }
                    } else if townhall_count > 2 && self.state.desired_bases > 2 && lair_count
                        < 1 {
                        match first_idle_townhall(&snap.my_units) {
                            Some(h) => {
                                cmds.push(
                                    Command::UseAbility {
                                        unit: h.tag,
                                        ability: Ability::UpgradeToLair,
                                        target: crate::model::Target::Nothing,
                                        queue: false,
                                    },
                                );
                            },
                            None => {
                                did = false;
                            },
                        }
                    } else if lair_present > 0 && den_count < 1 {
                        match self.create_building(
                            snap,
                            UnitKind::HydraliskDen,
                            main_build_location,
                            false,
                        ) {
                            Some(c) => {
                                cmds.push(c);
                            },
                            None => {},
                        }
                    } else {
                        let glial = if lair_present > 0 {
                            self.research_upgrade(
                                snap,
                                UnitKind::RoachWarren,
                                UpgradeKind::GlialReconstitution,
                                Ability::ResearchGlialReconstitution,
                            )
                        } else {
                            None
                        };
                        match glial {
                            Some(c) => {
                                cmds.push(c);
                            },
                            None => {
                                match self.research_upgrade(
                                    snap,
                                    UnitKind::HydraliskDen,
                                    UpgradeKind::GroovedSpines,
                                    Ability::ResearchGroovedSpines,
                                ) {
                                    Some(c) => {
                                        cmds.push(c);
                                    },
                                    None => {
                                        match self.research_upgrade(
                                            snap,
                                            UnitKind::HydraliskDen,
                                            UpgradeKind::MuscularAugments,
                                            Ability::ResearchMuscularAugments,
                                        ) {
                                            Some(c) => {
                                                cmds.push(c);
                                            },
                                            None => {
                                                did = false;
                                            },
                                        }
                                    },
                                }
                            },
                        }
                    }
                },
            }
        }
        (did, cmds)
    }
}

/// The first ready depot with an empty order queue.
#[verifier::loop_isolation(false)]
fn first_idle_townhall(units: &Vec<SnapUnit>) -> (r: Option<SnapUnit>)
    ensures
        r == spec_first_idle_townhall(units@),
{
    let n = units.len();
    let mut i: usize = 0;
    proof {
        assert(units@.skip(0) =~= units@);
    }
    while i < n
        invariant
            i <= n,
            spec_first_idle_townhall(units@) == spec_first_idle_townhall(units@.skip(i as int)),
        decreases n - i,
    {
        proof {
            assert(units@.skip(i as int)[0] == units@[i as int]);
            assert(units@.skip(i as int).drop_first() =~= units@.skip(i + 1));
        }
        let u = &units[i];
        if (u.kind == UnitKind::Hatchery || u.kind == UnitKind::Lair) && u.is_ready && u.orders_len
            == 0 {
            return Some(*u);
        }
        i += 1;
    }
    proof {
        assert(units@.skip(n as int) =~= Seq::<SnapUnit>::empty());
    }
    None
}

/// What the gas rule returns, over the pre-call state.
pub open spec fn spec_ensure_taken_gasses(bot: FaxBot, snap: Snapshot, num_gasses: int) -> Option<
    Command,
> {
    if spec_count_unit(snap, UnitKind::Extractor) >= bot.state.desired_gasses {
        None
    } else {
        let current = spec_live_extractor_count(snap.my_units@) + spec_pending_count(
            snap.pending@,
            UnitKind::Extractor,
        );
        if spec_can_afford(snap, UnitKind::Extractor, false) && current < num_gasses {
            match spec_pick_gas_worker(crate::micro::spec_workers(snap.my_units@)) {
                Some(w) => match spec_find_free_gas(
                    bot.state.bases@,
                    snap.resources@,
                    snap.my_units@,
                ) {
                    Some(g) => Some(Command::BuildGas { worker: w.tag, geyser: g.tag }),
                    None => None,
                },
                None => None,
            }
        } else {
            None
        }
    }
}

/// How many owned extractors still hold gas.
pub open spec fn spec_live_extractor_count(units: Seq<SnapUnit>) -> int
    decreases units.len(),
{
    if units.len() == 0 {
        0
    } else {
        spec_live_extractor_count(units.drop_last()) + if units.last().kind == UnitKind::Extractor
            && units.last().vespene_contents > 0 {
            1int
        } else {
            0int
        }
    }
}

proof fn lemma_live_extractors_bound(units: Seq<SnapUnit>)
    ensures
        0 <= spec_live_extractor_count(units) <= units.len(),
    decreases units.len(),
{
    if units.len() > 0 {
        lemma_live_extractors_bound(units.drop_last());
    }
}

#[verifier::loop_isolation(false)]
fn count_live_extractors(units: &Vec<SnapUnit>) -> (r: usize)
    ensures
        r == spec_live_extractor_count(units@),
{
    let n = units.len();
    let mut count: usize = 0;
    let mut i: usize = 0;
    proof {
        assert(units@.take(0) =~= Seq::<SnapUnit>::empty());
        lemma_live_extractors_bound(units@);
    }
    while i < n
        invariant
            i <= n,
            count == spec_live_extractor_count(units@.take(i as int)),
            count <= i,
        decreases n - i,
    {
        proof {
            assert(units@.take(i + 1).drop_last() =~= units@.take(i as int));
            assert(units@.take(i + 1).last() == units@[i as int]);
            lemma_live_extractors_bound(units@.take(i as int));
        }
        if units[i].kind == UnitKind::Extractor && units[i].vespene_contents > 0 {
            count += 1;
        }
        i += 1;
    }
    proof {
        assert(units@.take(n as int) =~= units@);
    }
    count
}

/// The snapshot's workers.
#[verifier::loop_isolation(false)]
fn all_workers(units: &Vec<SnapUnit>) -> (r: Vec<SnapUnit>)
    ensures
        r@ == crate::micro::spec_workers(units@),
{
    let n = units.len();
    let mut out: Vec<SnapUnit> = Vec::new();
    let mut i: usize = 0;
    proof {
        assert(units@.take(0) =~= Seq::<SnapUnit>::empty());
    }
    while i < n
        invariant
            i <= n,
            out@ == crate::micro::spec_workers(units@.take(i as int)),
        decreases n - i,
    {
        proof {
            assert(units@.take(i + 1).drop_last() =~= units@.take(i as int));
            assert(units@.take(i + 1).last() == units@[i as int]);
        }
        if units[i].kind == UnitKind::Drone {
            out.push(units[i]);
        }
        i += 1;
    }
    proof {
        assert(units@.take(n as int) =~= units@);
    }
    out
}

/// Prefer an idle worker for a build errand.
#[verifier::loop_isolation(false)]
fn pick_gas_worker(ws: &Vec<SnapUnit>) -> (r: Option<SnapUnit>)
    ensures
        r == spec_pick_gas_worker(ws@),
{
    let n = ws.len();
    let mut i: usize = n;
    proof {
        assert(ws@.take(n as int) =~= ws@);
    }
    while i > 0
        invariant
            i <= n,
            spec_last_idle(ws@) == spec_last_idle(ws@.take(i as int)),
        decreases i,
    {
        proof {
            assert(ws@.take(i as int).drop_last() =~= ws@.take(i as int - 1));
            assert(ws@.take(i as int).last() == ws@[i as int - 1]);
        }
        i -= 1;
        if ws[i].is_idle {
            return Some(ws[i]);
        }
    }
    proof {
        assert(ws@.take(0) =~= Seq::<SnapUnit>::empty());
    }
    if ws.len() > 0 {
        Some(ws[ws.len() - 1])
    } else {
        None
    }
}

/// The nearest free gas node across the known bases, first base first.
#[verifier::loop_isolation(false)]
fn find_free_gas(bases: &Vec<Pos>, resources: &Vec<SnapUnit>, my_units: &Vec<SnapUnit>) -> (r:
    Option<SnapUnit>)
    requires
        forall|i: int| 0 <= i < bases@.len() ==> (#[trigger] bases@[i]).in_bounds(),
        forall|i: int| 0 <= i < resources@.len() ==> (#[trigger] resources@[i]).wf(),
        forall|i: int| 0 <= i < my_units@.len() ==> (#[trigger] my_units@[i]).wf(),
    ensures
        r == spec_find_free_gas(bases@, resources@, my_units@),
{
    let nb = bases.len();
    let mut i: usize = 0;
    proof {
        assert(bases@.skip(0) =~= bases@);
    }
    while i < nb
        invariant
            i <= nb,
            spec_find_free_gas(bases@, resources@, my_units@) == spec_find_free_gas(
                bases@.skip(i as int),
                resources@,
                my_units@,
            ),
        decreases nb - i,
    {
        proof {
            assert(bases@.skip(i as int)[0] == bases@[i as int]);
            assert(bases@.skip(i as int).drop_first() =~= bases@.skip(i + 1));
        }
        match nearest_free_gas(resources, my_units, bases[i]) {
            Some(g) => {
                return Some(g);
            },
            None => {},
        }
        i += 1;
    }
    proof {
        assert(bases@.skip(nb as int) =~= Seq::<Pos>::empty());
    }
    None
}

/// The nearest free gas node within mining range of one base.
#[verifier::loop_isolation(false)]
#[verifier::rlimit(60)]
fn nearest_free_gas(resources: &Vec<SnapUnit>, my_units: &Vec<SnapUnit>, base: Pos) -> (r: Option<
    SnapUnit,
>)
    requires
        base.in_bounds(),
        forall|i: int| 0 <= i < resources@.len() ==> (#[trigger] resources@[i]).wf(),
        forall|i: int| 0 <= i < my_units@.len() ==> (#[trigger] my_units@[i]).wf(),
    ensures
        r == spec_nearest_free_gas(resources@, my_units@, base),
{
    let n = resources.len();
    let mut best: Option<SnapUnit> = None;
    let mut i: usize = 0;
    proof {
        assert(resources@.take(0) =~= Seq::<SnapUnit>::empty());
    }
    while i < n
        invariant
            i <= n,
            best == spec_nearest_free_gas(resources@.take(i as int), my_units@, base),
            match best {
                Some(b) => b.pos.in_bounds(),
                None => true,
            },
        decreases n - i,
    {
        proof {
            assert(resources@.take(i + 1).drop_last() =~= resources@.take(i as int));
            assert(resources@.take(i + 1).last() == resources@[i as int]);
        }
        let g = &resources[i];
        let in_range = g.kind == UnitKind::VespeneGeyser && crate::geom::distance_sq(g.pos, base)
            < ((crate::strategy::RESOURCE_NEAR_DISTANCE * crate::strategy::RESOURCE_NEAR_DISTANCE)
            as u64);
        let eligible = in_range && gas_free(my_units, g);
        let better = match best {
            Some(b) => crate::geom::distance_sq(g.pos, base) < crate::geom::distance_sq(
                b.pos,
                base,
            ),
            None => true,
        };
        if eligible && better {
            best = Some(*g);
        }
        i += 1;
    }
    proof {
        assert(resources@.take(n as int) =~= resources@);
    }
    best
}

/// Whether no extractor stands on the node.
#[verifier::loop_isolation(false)]
fn gas_free(my_units: &Vec<SnapUnit>, g: &SnapUnit) -> (r: bool)
    requires
        g.pos.in_bounds(),
        forall|i: int| 0 <= i < my_units@.len() ==> (#[trigger] my_units@[i]).wf(),
    ensures
        r == spec_gas_free(my_units@, *g),
{
    let n = my_units.len();
    let mut i: usize = 0;
    while i < n
        invariant
            i <= n,
            forall|j: int|
                0 <= j < i ==> !((#[trigger] my_units@[j]).kind == UnitKind::Extractor && dist_sq(
                    my_units@[j].pos,
                    g.pos,
                ) < (SCALE as int) * (SCALE as int)),
        decreases n - i,
    {
        if my_units[i].kind == UnitKind::Extractor && crate::geom::distance_sq(
            my_units[i].pos,
            g.pos,
        ) < ((SCALE * SCALE) as u64) {
            return false;
        }
        i += 1;
    }
    true
}

/// Whether an active reservation pins this location.
#[verifier::loop_isolation(false)]
fn is_reserved(reserved: &Vec<(Pos, u64)>, loc: Pos, tick: u64) -> (r: bool)
    ensures
        r == spec_reserved(reserved@, loc, tick),
{
    let n = reserved.len();
    let mut i: usize = 0;
    while i < n
        invariant
            i <= n,
            forall|j: int|
                0 <= j < i ==> !((#[trigger] reserved@[j]).0 == loc && reserved@[j].1
                    + RESERVATION_WINDOW >= tick),
        decreases n - i,
    {
        let e = reserved[i];
        let active = if tick <= RESERVATION_WINDOW {
            true
        } else {
            e.1 >= tick - RESERVATION_WINDOW
        };
        if e.0.x == loc.x && e.0.y == loc.y && active {
            return true;
        }
        i += 1;
    }
    false
}

/// How many depots the snapshot holds.
#[verifier::loop_isolation(false)]
fn count_townhalls(units: &Vec<SnapUnit>) -> (r: usize)
    ensures
        r == spec_townhalls(units@).len(),
{
    let n = units.len();
    let mut count: usize = 0;
    let mut i: usize = 0;
    proof {
        assert(units@.take(0) =~= Seq::<SnapUnit>::empty());
        lemma_townhalls_len(units@);
    }
    while i < n
        invariant
            i <= n,
            count == spec_townhalls(units@.take(i as int)).len(),
            count <= i,
        decreases n - i,
    {
        proof {
            assert(units@.take(i + 1).drop_last() =~= units@.take(i as int));
            assert(units@.take(i + 1).last() == units@[i as int]);
            lemma_townhalls_len(units@.take(i as int));
        }
        if units[i].kind == UnitKind::Hatchery || units[i].kind == UnitKind::Lair {
            count += 1;
        }
        i += 1;
    }
    proof {
        assert(units@.take(n as int) =~= units@);
    }
    count
}

proof fn lemma_townhalls_len(units: Seq<SnapUnit>)
    ensures
        spec_townhalls(units).len() <= units.len(),
    decreases units.len(),
{
    if units.len() > 0 {
        lemma_townhalls_len(units.drop_last());
    }
}

/// The idle larvae of the snapshot.
#[verifier::loop_isolation(false)]
fn filter_idle_larvae(units: &Vec<SnapUnit>) -> (r: Vec<SnapUnit>)
    ensures
        r@ == spec_idle_larvae(units@),
{
    let n = units.len();
    let mut out: Vec<SnapUnit> = Vec::new();
    let mut i: usize = 0;
    proof {
        assert(units@.take(0) =~= Seq::<SnapUnit>::empty());
    }
    while i < n
        invariant
            i <= n,
            out@ == spec_idle_larvae(units@.take(i as int)),
        decreases n - i,
    {
        proof {
            assert(units@.take(i + 1).drop_last() =~= units@.take(i as int));
            assert(units@.take(i + 1).last() == units@[i as int]);
        }
        if units[i].kind == UnitKind::Larva && units[i].is_idle {
            out.push(units[i]);
        }
        i += 1;
    }
    proof {
        assert(units@.take(n as int) =~= units@);
    }
    out
}

} // verus!
