//! The worker scheduler: a per-worker task state machine with
//! resource-contention resolution and idempotent order reissue.
use vstd::prelude::*;

use crate::geom::{Pos, SCALE};
use crate::model::{Ability, Command, SnapUnit, Snapshot, Target, UnitKind, UnitOrder};
use crate::tagmap::{filter_pairs, seq_lookup, TagMap};
use crate::tally::count_where;

verus! {

/// A gas-gathering worker absent from the snapshot survives in the task
/// map this many ticks past its last sighting.
pub const GAS_GRACE_TICKS: u64 = 33;

/// A construction task expires back to Idle once this many ticks have
/// passed and no construction order remains active.
pub const CONSTRUCT_GRACE_TICKS: u64 = 5;

/// At most this many workers per mineral patch.
pub const MINERAL_QUOTA: usize = 2;

/// At most this many workers per gas extractor.
pub const GAS_QUOTA: usize = 3;

/// The kind of resource a gathering task is bound to.
#[derive(Clone, Copy, PartialEq, Eq, Structural, Debug, Hash)]
pub enum ResourceType {
    Gas,
    Mineral,
}

/// The task a worker is currently committed to.
#[derive(Clone, Copy, PartialEq, Eq, Structural, Debug)]
pub enum DroneTask {
    Idle,
    /// Sent to build; expires back to Idle once no construction order
    /// remains active after a grace period.
    Construct { queued_at: u64 },
    /// Shuttling between the resource node `resource_tag` and the depot
    /// `hatch`.
    Gather { resource_type: ResourceType, resource_tag: u64, hatch: u64 },
}

/// Cross-tick memory of the worker scheduler and combat controller.
pub struct MicroState {
    /// Enemy base candidates, sorted at start by expansion order.
    pub enemy_base_locations_by_expansion_order: Vec<Pos>,
    /// The task map, keyed by worker identifier.
    pub drones: TagMap<DroneTask>,
    /// Last tick each worker was seen in a snapshot.
    pub drone_last_seen: TagMap<u64>,
}

/// Per-patch worker quota.
pub open spec fn spec_quota(rt: ResourceType) -> int {
    match rt {
        ResourceType::Mineral => MINERAL_QUOTA as int,
        ResourceType::Gas => GAS_QUOTA as int,
    }
}

/// The predicate "is a gathering task bound to this resource", as a
/// single shared term.
pub open spec fn gather_pred(rt: ResourceType, tag: u64) -> spec_fn((u64, DroneTask)) -> bool {
    |e: (u64, DroneTask)|
        match e.1 {
            DroneTask::Gather { resource_type, resource_tag, hatch: _ } => resource_type == rt
                && resource_tag == tag,
            _ => false,
        }
}

/// How many workers of the task map are assigned to one resource.
pub open spec fn spec_gather_count(s: Seq<(u64, DroneTask)>, rt: ResourceType, tag: u64) -> int {
    count_where(s, gather_pred(rt, tag))
}

/// The assigned-worker invariant: no resource is over quota.
pub open spec fn spec_quota_ok(s: Seq<(u64, DroneTask)>) -> bool {
    forall|rt: ResourceType, tag: u64| spec_gather_count(s, rt, tag) <= spec_quota(rt)
}

/// The per-patch quota invariant holds of every tick: it holds of the
/// empty task map a fresh engine starts with, and every tick stage
/// preserves it (see the quota clauses of the worker stage and of the
/// engine tick).
pub proof fn lemma_quota_ok_initially()
    ensures
        spec_quota_ok(Seq::<(u64, DroneTask)>::empty()),
{
    assert forall|rt: ResourceType, tag: u64|
        spec_gather_count(Seq::<(u64, DroneTask)>::empty(), rt, tag) <= spec_quota(rt) by {
        crate::tally::lemma_count_where_bounds(
            Seq::<(u64, DroneTask)>::empty(),
            gather_pred(rt, tag),
        );
    }
}

/// A ready worker with this tag stands in the snapshot.
pub open spec fn spec_worker_visible(workers: Seq<SnapUnit>, tag: u64) -> bool {
    exists|i: int| 0 <= i < workers.len() && (#[trigger] workers[i]).tag == tag
}

/// The liveness rule for one task-map entry: the worker is visible, or
/// it is gathering gas and its last sighting is within the grace window.
pub open spec fn spec_keeps(
    e: (u64, DroneTask),
    workers: Seq<SnapUnit>,
    last_seen: Seq<(u64, u64)>,
    iteration: u64,
) -> bool {
    spec_worker_visible(workers, e.0) || (match e.1 {
        DroneTask::Gather { resource_type: ResourceType::Gas, .. } => match seq_lookup(
            last_seen,
            e.0,
        ) {
            Some(t) => t + GAS_GRACE_TICKS >= iteration,
            None => false,
        },
        _ => false,
    })
}

/// The liveness rule, as a single shared closure term.
pub open spec fn keep_pred(
    workers: Seq<SnapUnit>,
    last_seen: Seq<(u64, u64)>,
    iteration: u64,
) -> spec_fn((u64, DroneTask)) -> bool {
    |e: (u64, DroneTask)| spec_keeps(e, workers, last_seen, iteration)
}

/// The identifiers of gas-gathering workers whose last sighting is
/// within the grace window, in task-map order.
pub open spec fn spec_possibly_alive(
    drones: Seq<(u64, DroneTask)>,
    last_seen: Seq<(u64, u64)>,
    iteration: u64,
) -> Seq<u64>
    decreases drones.len(),
{
    if drones.len() == 0 {
        Seq::empty()
    } else {
        let rest = spec_possibly_alive(drones.drop_last(), last_seen, iteration);
        let e = drones.last();
        let alive = match e.1 {
            DroneTask::Gather { resource_type: ResourceType::Gas, .. } => match seq_lookup(
                last_seen,
                e.0,
            ) {
                Some(t) => t + GAS_GRACE_TICKS >= iteration,
                None => false,
            },
            _ => false,
        };
        if alive {
            rest.push(e.0)
        } else {
            rest
        }
    }
}

impl MicroState {
    pub open spec fn wf(self) -> bool {
        &&& self.drones.wf()
        &&& self.drone_last_seen.wf()
        &&& forall|i: int|
            0 <= i < self.enemy_base_locations_by_expansion_order@.len() ==> (
            #[trigger] self.enemy_base_locations_by_expansion_order@[i]).in_bounds()
    }

    pub fn new() -> (r: MicroState)
        ensures
            r.wf(),
            r.drones@ =~= Seq::<(u64, DroneTask)>::empty(),
            r.drone_last_seen@ =~= Seq::<(u64, u64)>::empty(),
            r.enemy_base_locations_by_expansion_order@ =~= Seq::<Pos>::empty(),
    {
        MicroState {
            enemy_base_locations_by_expansion_order: Vec::new(),
            drones: TagMap::new(),
            drone_last_seen: TagMap::new(),
        }
    }

    /// The gas-gathering workers that may still exist though absent from
    /// the snapshot: their last sighting is within the grace window.
    #[verifier::loop_isolation(false)]
    pub fn possibly_alive_drones(&self, iteration: u64) -> (r: Vec<u64>)
        requires
            self.wf(),
        ensures
            r@ == spec_possibly_alive(self.drones@, self.drone_last_seen@, iteration),
    {
        let n = self.drones.len();
        let mut out: Vec<u64> = Vec::new();
        let mut i: usize = 0;
        proof {
            assert(self.drones@.take(0) =~= Seq::<(u64, DroneTask)>::empty());
        }
        while i < n
            invariant
                i <= n,
                out@ == spec_possibly_alive(
                    self.drones@.take(i as int),
                    self.drone_last_seen@,
                    iteration,
                ),
            decreases n - i,
        {
            proof {
                assert(self.drones@.take(i + 1).drop_last() =~= self.drones@.take(i as int));
                assert(self.drones@.take(i + 1).last() == self.drones@[i as int]);
            }
            let (tag, task) = self.drones.entry_at(i);
            let is_gas = match task {
                DroneTask::Gather { resource_type: ResourceType::Gas, .. } => true,
                _ => false,
            };
            if is_gas {
                match self.drone_last_seen.get(tag) {
                    Some(t) => {
                        if iteration <= GAS_GRACE_TICKS || t >= iteration - GAS_GRACE_TICKS {
                            out.push(tag);
                        }
                    },
                    None => {},
                }
            }
            i += 1;
        }
        proof {
            assert(self.drones@.take(n as int) =~= self.drones@);
        }
        out
    }

    /// Liveness pruning: drop every task whose worker is neither visible
    /// nor within the gas grace window.
    #[verifier::loop_isolation(false)]
    pub fn prune_drones(&mut self, workers: &Vec<SnapUnit>, iteration: u64)
        requires
            old(self).wf(),
        ensures
            final(self).wf(),
            final(self).drones@ == filter_pairs(
                old(self).drones@,
                keep_pred(workers@, old(self).drone_last_seen@, iteration),
            ),
            // pointwise: an entry survives exactly when the liveness rule
            // holds of it
            forall|w: u64|
                final(self).drones.lookup(w) == match old(self).drones.lookup(w) {
                    Some(t) => if spec_keeps(
                        (w, t),
                        workers@,
                        old(self).drone_last_seen@,
                        iteration,
                    ) {
                        Some(t)
                    } else {
                        None::<DroneTask>
                    },
                    None => None::<DroneTask>,
                },
            // pruning never raises an assigned-worker count
            forall|rt: ResourceType, tag: u64|
                spec_gather_count(final(self).drones@, rt, tag) <= spec_gather_count(
                    old(self).drones@,
                    rt,
                    tag,
                ),
            final(self).drone_last_seen == old(self).drone_last_seen,
            final(self).enemy_base_locations_by_expansion_order == old(
                self,
            ).enemy_base_locations_by_expansion_order,
    {
        let ghost s = self.drones@;
        let ghost f = keep_pred(workers@, self.drone_last_seen@, iteration);
        let n = self.drones.len();
        let mut out: Vec<(u64, DroneTask)> = Vec::new();
        let mut i: usize = 0;
        proof {
            assert(s.take(0) =~= Seq::<(u64, DroneTask)>::empty());
        }
        while i < n
            invariant
                i <= n,
                out@ == filter_pairs(s.take(i as int), f),
            decreases n - i,
        {
            proof {
                crate::tagmap::lemma_filter_pairs_take_step(s, f, i as int);
            }
            let (tag, task) = self.drones.entry_at(i);
            let visible = worker_visible(workers, tag);
            let is_gas = match task {
                DroneTask::Gather { resource_type: ResourceType::Gas, .. } => true,
                _ => false,
            };
            let gas_alive = if is_gas {
                match self.drone_last_seen.get(tag) {
                    Some(t) => iteration <= GAS_GRACE_TICKS || t >= iteration - GAS_GRACE_TICKS,
                    None => false,
                }
            } else {
                false
            };
            if visible || gas_alive {
                out.push((tag, task));
            }
            i += 1;
        }
        proof {
            assert(s.take(n as int) =~= s);
            crate::tagmap::lemma_filter_pairs_distinct(s, f);
            assert forall|w: u64|
                seq_lookup(filter_pairs(s, f), w) == (match seq_lookup(s, w) {
                    Some(t) => if spec_keeps((w, t), workers@, self.drone_last_seen@, iteration) {
                        Some(t)
                    } else {
                        None::<DroneTask>
                    },
                    None => None::<DroneTask>,
                }) by {
                crate::tagmap::lemma_filter_pairs_lookup(s, f, w);
            }
            assert forall|rt: ResourceType, tag: u64|
                count_where(filter_pairs(s, f), gather_pred(rt, tag)) <= count_where(
                    s,
                    gather_pred(rt, tag),
                ) by {
                crate::tagmap::lemma_count_where_filter_pairs_le(s, f, gather_pred(rt, tag));
            }
        }
        self.drones.replace_entries(out);
    }
}

/// Positional targets within one map distance unit count as the same;
/// entity targets must match exactly.
pub open spec fn spec_target_close(a: Target, b: Target) -> bool {
    match (a, b) {
        (Target::Nothing, Target::Nothing) => true,
        (Target::Entity(x), Target::Entity(y)) => x == y,
        (Target::Ground(p), Target::Ground(q)) => crate::geom::dist_sq(p, q) <= (SCALE as int) * (
        SCALE as int),
        _ => false,
    }
}

/// Whether the unit's current first order is equivalent to the intended
/// one, so that reissuing it would be redundant.
pub open spec fn spec_order_matches(cur: Option<UnitOrder>, ability: Ability, target: Target) -> bool {
    match cur {
        Some(o) => o.ability == ability && spec_target_close(o.target, target),
        None => false,
    }
}

/// The intended order is suppressed exactly when an equivalent order is
/// already active.
fn order_matches(cur: &Option<UnitOrder>, ability: Ability, target: Target) -> (r: bool)
    requires
        match cur {
            Some(o) => match o.target {
                Target::Ground(p) => p.in_bounds(),
                _ => true,
            },
            None => true,
        },
        match target {
            Target::Ground(p) => p.in_bounds(),
            _ => true,
        },
    ensures
        r == spec_order_matches(*cur, ability, target),
{
    match cur {
        None => false,
        Some(o) => {
            if !(o.ability == ability) {
                return false;
            }
            match (o.target, target) {
                (Target::Nothing, Target::Nothing) => true,
                (Target::Entity(x), Target::Entity(y)) => x == y,
                (Target::Ground(p), Target::Ground(q)) => crate::geom::distance_sq(p, q) <= ((
                SCALE * SCALE) as u64),
                _ => false,
            }
        },
    }
}

/// The live resource node a gathering task points at, if it still
/// exists: a visible mineral node, or an owned extractor with gas left.
pub open spec fn spec_gather_resource(
    rt: ResourceType,
    tag: u64,
    my_units: Seq<SnapUnit>,
    resources: Seq<SnapUnit>,
) -> Option<SnapUnit> {
    match rt {
        ResourceType::Mineral => match crate::strategy::spec_find_first(resources, tag) {
            Some(u) => if u.kind == UnitKind::MineralField {
                Some(u)
            } else {
                None
            },
            None => None,
        },
        ResourceType::Gas => match crate::strategy::spec_find_first(my_units, tag) {
            Some(u) => if u.kind == UnitKind::Extractor && u.vespene_contents > 0 {
                Some(u)
            } else {
                None
            },
            None => None,
        },
    }
}

fn gather_resource(
    rt: ResourceType,
    tag: u64,
    my_units: &Vec<SnapUnit>,
    resources: &Vec<SnapUnit>,
) -> (r: Option<SnapUnit>)
    ensures
        r == spec_gather_resource(rt, tag, my_units@, resources@),
{
    match rt {
        ResourceType::Mineral => match crate::strategy::find_first(resources, tag) {
            Some(u) => if u.kind == UnitKind::MineralField {
                Some(u)
            } else {
                None
            },
            None => None,
        },
        ResourceType::Gas => match crate::strategy::find_first(my_units, tag) {
            Some(u) => if u.kind == UnitKind::Extractor && u.vespene_contents > 0 {
                Some(u)
            } else {
                None
            },
            None => None,
        },
    }
}

/// What the per-tick order resolution does for one worker: the command
/// to issue, if any, and the worker's next task.
pub open spec fn spec_resolve_drone(
    task: DroneTask,
    drone: SnapUnit,
    my_units: Seq<SnapUnit>,
    resources: Seq<SnapUnit>,
    tryhard: bool,
    iteration: u64,
) -> (Option<Command>, DroneTask) {
    match task {
        DroneTask::Idle => (
            if drone.order is Some {
                Some(Command::Stop { unit: drone.tag, queue: false })
            } else {
                None
            },
            task,
        ),
        DroneTask::Construct { queued_at } => if queued_at + CONSTRUCT_GRACE_TICKS < iteration
            && !drone.is_constructing {
            (None, DroneTask::Idle)
        } else {
            (None, task)
        },
        DroneTask::Gather { resource_type, resource_tag, hatch } => {
            let hatch_u = crate::strategy::spec_find_first(my_units, hatch);
            let res_u = spec_gather_resource(resource_type, resource_tag, my_units, resources);
            // a vanished depot or resource degrades the task to Idle
            // immediately, in either mining mode
            match (hatch_u, res_u) {
                (Some(h), Some(r)) => if tryhard {
                    spec_resolve_gather_tryhard(task, drone, h, r, resource_tag, hatch)
                } else {
                    let cur_target = match drone.order {
                        Some(o) => o.target,
                        None => Target::Nothing,
                    };
                    match cur_target {
                        Target::Entity(targ) => if drone.is_returning {
                            (None, task)
                        } else if targ != resource_tag {
                            (
                                Some(
                                    Command::Gather {
                                        unit: drone.tag,
                                        resource: resource_tag,
                                        queue: false,
                                    },
                                ),
                                task,
                            )
                        } else {
                            (None, task)
                        },
                        _ => (
                            if drone.is_carrying_resource {
                                Some(Command::ReturnCargo { unit: drone.tag, queue: false })
                            } else {
                                Some(
                                    Command::Gather {
                                        unit: drone.tag,
                                        resource: resource_tag,
                                        queue: false,
                                    },
                                )
                            },
                            task,
                        ),
                    }
                },
                _ => (Some(Command::Stop { unit: drone.tag, queue: false }), DroneTask::Idle),
            }
        },
    }
}

/// The shuttling rules of a live gathering task: return or gather once
/// within half the depot-resource path, else move toward the boundary
/// point nearest the goal, each order suppressed while an equivalent one
/// is active.
pub open spec fn spec_resolve_gather_tryhard(
    task: DroneTask,
    drone: SnapUnit,
    h: SnapUnit,
    r: SnapUnit,
    resource_tag: u64,
    hatch: u64,
) -> (Option<Command>, DroneTask) {
    let path_sq = crate::geom::dist_sq(h.pos, r.pos);
    let line = crate::geom::calc_line_spec(h.pos, h.radius as int, r.pos, r.radius as int);
    let hatch_near = line.0;
    let resource_near = line.1;
    if drone.is_carrying_resource {
        let is_ret = spec_order_matches(drone.order, Ability::HarvestReturn, Target::Entity(hatch));
        let dsq = crate::geom::dist_sq(drone.pos, h.pos);
        if 4 * dsq >= path_sq && !is_ret {
            (Some(Command::ReturnCargo { unit: drone.tag, queue: false }), task)
        } else if dsq > (h.radius + SCALE) * (h.radius + SCALE) {
            if !spec_order_matches(drone.order, Ability::MoveTo, Target::Ground(hatch_near)) {
                (Some(Command::MoveTo { unit: drone.tag, to: hatch_near, queue: false }), task)
            } else {
                (None, task)
            }
        } else if !is_ret {
            (Some(Command::ReturnCargo { unit: drone.tag, queue: false }), task)
        } else {
            (None, task)
        }
    } else {
        let is_gath = spec_order_matches(
            drone.order,
            Ability::HarvestGather,
            Target::Entity(resource_tag),
        );
        let dsq = crate::geom::dist_sq(drone.pos, r.pos);
        if 4 * dsq >= path_sq {
            if !is_gath {
                (
                    Some(Command::Gather { unit: drone.tag, resource: resource_tag, queue: false }),
                    task,
                )
            } else {
                (None, task)
            }
        } else if dsq > (r.radius + SCALE) * (r.radius + SCALE) {
            if !spec_order_matches(drone.order, Ability::MoveTo, Target::Ground(resource_near)) {
                (Some(Command::MoveTo { unit: drone.tag, to: resource_near, queue: false }), task)
            } else {
                (None, task)
            }
        } else if !is_gath {
            (
                Some(Command::Gather { unit: drone.tag, resource: resource_tag, queue: false }),
                task,
            )
        } else {
            (None, task)
        }
    }
}

/// Resolve one worker's orders for this tick.
#[verifier::rlimit(80)]
fn resolve_drone(
    task: DroneTask,
    drone: &SnapUnit,
    my_units: &Vec<SnapUnit>,
    resources: &Vec<SnapUnit>,
    tryhard: bool,
    iteration: u64,
) -> (r: (Option<Command>, DroneTask))
    requires
        drone.wf(),
        forall|i: int| 0 <= i < my_units@.len() ==> (#[trigger] my_units@[i]).wf(),
        forall|i: int| 0 <= i < resources@.len() ==> (#[trigger] resources@[i]).wf(),
    ensures
        r == spec_resolve_drone(task, *drone, my_units@, resources@, tryhard, iteration),
{
    match task {
        DroneTask::Idle => {
            let cmd = if drone.order.is_some() {
                Some(Command::Stop { unit: drone.tag, queue: false })
            } else {
                None
            };
            (cmd, task)
        },
        DroneTask::Construct { queued_at } => {
            let expired = iteration > CONSTRUCT_GRACE_TICKS && queued_at < iteration
                - CONSTRUCT_GRACE_TICKS;
            if expired && !drone.is_constructing {
                (None, DroneTask::Idle)
            } else {
                (None, task)
            }
        },
        DroneTask::Gather { resource_type, resource_tag, hatch } => {
            let hatch_u = crate::strategy::find_first(my_units, hatch);
            let res_u = gather_resource(resource_type, resource_tag, my_units, resources);
            match (hatch_u, res_u) {
                (Some(h), Some(r)) => {
                    if tryhard {
                        proof {
                            crate::strategy::lemma_find_first_is_element(my_units@, hatch);
                            crate::strategy::lemma_find_first_is_element(my_units@, resource_tag);
                            crate::strategy::lemma_find_first_is_element(resources@, resource_tag);
                            crate::geom::lemma_dist_sq_bounds(h.pos, r.pos);
                            crate::geom::lemma_dist_sq_bounds(drone.pos, h.pos);
                            crate::geom::lemma_dist_sq_bounds(drone.pos, r.pos);
                        }
                        let path_sq = crate::geom::distance_sq(h.pos, r.pos);
                        let line = crate::geom::calc_line_points(h.pos, h.radius, r.pos, r.radius);
                        let hatch_near = line.0;
                        let resource_near = line.1;
                        if drone.is_carrying_resource {
                            let is_ret = order_matches(
                                &drone.order,
                                Ability::HarvestReturn,
                                Target::Entity(hatch),
                            );
                            let dsq = crate::geom::distance_sq(drone.pos, h.pos);
                            proof {
                                assert(0 <= (h.radius + SCALE) * (h.radius + SCALE) <= 600 * 600)
                                    by (nonlinear_arith)
                                    requires
                                        0 <= h.radius <= 8 * SCALE,
                                        SCALE == 64,
                                ;
                            }
                            if 4 * dsq >= path_sq && !is_ret {
                                (Some(Command::ReturnCargo { unit: drone.tag, queue: false }), task)
                            } else if dsq > (((h.radius + SCALE) * (h.radius + SCALE)) as u64) {
                                if !order_matches(
                                    &drone.order,
                                    Ability::MoveTo,
                                    Target::Ground(hatch_near),
                                ) {
                                    (
                                        Some(
                                            Command::MoveTo {
                                                unit: drone.tag,
                                                to: hatch_near,
                                                queue: false,
                                            },
                                        ),
                                        task,
                                    )
                                } else {
                                    (None, task)
                                }
                            } else if !is_ret {
                                (Some(Command::ReturnCargo { unit: drone.tag, queue: false }), task)
                            } else {
                                (None, task)
                            }
                        } else {
                            let is_gath = order_matches(
                                &drone.order,
                                Ability::HarvestGather,
                                Target::Entity(resource_tag),
                            );
                            let dsq = crate::geom::distance_sq(drone.pos, r.pos);
                            proof {
                                assert(0 <= (r.radius + SCALE) * (r.radius + SCALE) <= 600 * 600)
                                    by (nonlinear_arith)
                                    requires
                                        0 <= r.radius <= 8 * SCALE,
                                        SCALE == 64,
                                ;
                            }
                            if 4 * dsq >= path_sq {
                                if !is_gath {
                                    (
                                        Some(
                                            Command::Gather {
                                                unit: drone.tag,
                                                resource: resource_tag,
                                                queue: false,
                                            },
                                        ),
                                        task,
                                    )
                                } else {
                                    (None, task)
                                }
                            } else if dsq > (((r.radius + SCALE) * (r.radius + SCALE)) as u64) {
                                if !order_matches(
                                    &drone.order,
                                    Ability::MoveTo,
                                    Target::Ground(resource_near),
                                ) {
                                    (
                                        Some(
                                            Command::MoveTo {
                                                unit: drone.tag,
                                                to: resource_near,
                                                queue: false,
                                            },
                                        ),
                                        task,
                                    )
                                } else {
                                    (None, task)
                                }
                            } else if !is_gath {
                                (
                                    Some(
                                        Command::Gather {
                                            unit: drone.tag,
                                            resource: resource_tag,
                                            queue: false,
                                        },
                                    ),
                                    task,
                                )
                            } else {
                                (None, task)
                            }
                        }
                    } else {
                        let cur_target = match drone.order {
                            Some(o) => o.target,
                            None => Target::Nothing,
                        };
                        match cur_target {
                            Target::Entity(targ) => {
                                if drone.is_returning {
                                    (None, task)
                                } else if targ != resource_tag {
                                    (
                                        Some(
                                            Command::Gather {
                                                unit: drone.tag,
                                                resource: resource_tag,
                                                queue: false,
                                            },
                                        ),
                                        task,
                                    )
                                } else {
                                    (None, task)
                                }
                            },
                            _ => {
                                let cmd = if drone.is_carrying_resource {
                                    Some(Command::ReturnCargo { unit: drone.tag, queue: false })
                                } else {
                                    Some(
                                        Command::Gather {
                                            unit: drone.tag,
                                            resource: resource_tag,
                                            queue: false,
                                        },
                                    )
                                };
                                (cmd, task)
                            },
                        }
                    }
                },
                _ => (Some(Command::Stop { unit: drone.tag, queue: false }), DroneTask::Idle),
            }
        },
    }
}

/// The workers of a unit list, in order.
pub open spec fn spec_workers(units: Seq<SnapUnit>) -> Seq<SnapUnit>
    decreases units.len(),
{
    if units.len() == 0 {
        Seq::empty()
    } else {
        let rest = spec_workers(units.drop_last());
        if units.last().kind == UnitKind::Drone {
            rest.push(units.last())
        } else {
            rest
        }
    }
}

/// The ready workers of a unit list, in order.
pub open spec fn spec_ready_workers(units: Seq<SnapUnit>) -> Seq<SnapUnit>
    decreases units.len(),
{
    if units.len() == 0 {
        Seq::empty()
    } else {
        let rest = spec_ready_workers(units.drop_last());
        if units.last().kind == UnitKind::Drone && units.last().is_ready {
            rest.push(units.last())
        } else {
            rest
        }
    }
}

/// Workers selected out of a well-formed, distinct-tag unit list are
/// well-formed and carry distinct tags themselves.
pub proof fn lemma_workers_wf(units: Seq<SnapUnit>)
    requires
        forall|i: int| 0 <= i < units.len() ==> (#[trigger] units[i]).wf(),
        forall|i: int, j: int|
            0 <= i < j < units.len() ==> (#[trigger] units[i]).tag != (#[trigger] units[j]).tag,
    ensures
        forall|i: int| 0 <= i < spec_workers(units).len() ==> (#[trigger] spec_workers(units)[i]).wf(),
        forall|i: int, j: int|
            0 <= i < j < spec_workers(units).len() ==> (#[trigger] spec_workers(units)[i]).tag != (
            #[trigger] spec_workers(units)[j]).tag,
        forall|i: int|
            0 <= i < spec_workers(units).len() ==> exists|k: int|
                0 <= k < units.len() && #[trigger] spec_workers(units)[i] == units[k],
    decreases units.len(),
{
    if units.len() > 0 {
        assert(forall|i: int|
            0 <= i < units.len() - 1 ==> units.drop_last()[i] == #[trigger] units[i]);
        lemma_workers_wf(units.drop_last());
        let rest = spec_workers(units.drop_last());
        assert forall|i: int| 0 <= i < rest.len() implies exists|k: int|
            0 <= k < units.len() && #[trigger] rest[i] == units[k] by {
            let k = choose|k: int|
                0 <= k < units.drop_last().len() && #[trigger] rest[i] == units.drop_last()[k];
            assert(units.drop_last()[k] == units[k]);
            assert(0 <= k < units.len() && rest[i] == units[k]);
        }
        if units.last().kind == UnitKind::Drone {
            let r = rest.push(units.last());
            assert(units.last() == units[units.len() - 1]);
            assert forall|i: int| 0 <= i < r.len() implies exists|k: int|
                0 <= k < units.len() && #[trigger] r[i] == units[k] by {
                if i < rest.len() {
                    assert(r[i] == rest[i]);
                    let k = choose|k: int| 0 <= k < units.len() && #[trigger] rest[i] == units[k];
                    assert(0 <= k < units.len() && r[i] == units[k]);
                } else {
                    assert(r[i] == units[units.len() - 1]);
                }
            }
            assert forall|i: int, j: int| 0 <= i < j < r.len() implies (#[trigger] r[i]).tag != (
            #[trigger] r[j]).tag by {
                if j == r.len() - 1 {
                    assert(r[i] == rest[i]);
                    let k = choose|k: int| 0 <= k < units.len() && #[trigger] rest[i] == units[k];
                    if k == units.len() - 1 {
                        // the last unit cannot already stand in the strict
                        // prefix selection
                        lemma_workers_prefix_member(units.drop_last(), rest, i);
                    }
                }
            }
        }
    }
}

/// Every selected worker of a list equals one of its elements.
proof fn lemma_workers_prefix_member(units: Seq<SnapUnit>, ws: Seq<SnapUnit>, i: int)
    requires
        ws == spec_workers(units),
        0 <= i < ws.len(),
    ensures
        exists|k: int| 0 <= k < units.len() && #[trigger] ws[i] == units[k],
    decreases units.len(),
{
    let rest = spec_workers(units.drop_last());
    if units.len() > 0 {
        if units.last().kind == UnitKind::Drone && i == ws.len() - 1 && ws.len() == rest.len()
            + 1 {
            assert(ws[i] == units.last());
            assert(units.last() == units[units.len() - 1]);
        } else {
            lemma_workers_prefix_member(units.drop_last(), rest, i);
            let k = choose|k: int|
                0 <= k < units.drop_last().len() && #[trigger] rest[i] == units.drop_last()[k];
            assert(units.drop_last()[k] == units[k]);
            assert(ws[i] == rest[i]);
            assert(0 <= k < units.len() && ws[i] == units[k]);
        }
    }
}

/// The workers of the snapshot's unit list.
#[verifier::loop_isolation(false)]
fn filter_workers(units: &Vec<SnapUnit>, only_ready: bool) -> (r: Vec<SnapUnit>)
    ensures
        !only_ready ==> r@ == spec_workers(units@),
        only_ready ==> r@ == spec_ready_workers(units@),
{
    let n = units.len();
    let mut out: Vec<SnapUnit> = Vec::new();
    let mut i: usize = 0;
    proof {
        assert(units@.take(0) =~= Seq::<SnapUnit>::empty());
    }
    while i < n
        invariant
            i <= n,
            !only_ready ==> out@ == spec_workers(units@.take(i as int)),
            only_ready ==> out@ == spec_ready_workers(units@.take(i as int)),
        decreases n - i,
    {
        proof {
            assert(units@.take(i + 1).drop_last() =~= units@.take(i as int));
            assert(units@.take(i + 1).last() == units@[i as int]);
        }
        let u = &units[i];
        if u.kind == UnitKind::Drone && (!only_ready || u.is_ready) {
            out.push(*u);
        }
        i += 1;
    }
    proof {
        assert(units@.take(n as int) =~= units@);
    }
    out
}

/// The commands the per-worker order resolution emits, in worker order.
pub open spec fn spec_move_commands(
    ws: Seq<SnapUnit>,
    m: Seq<(u64, DroneTask)>,
    my_units: Seq<SnapUnit>,
    resources: Seq<SnapUnit>,
    tryhard: bool,
    iteration: u64,
) -> Seq<Command>
    decreases ws.len(),
{
    if ws.len() == 0 {
        Seq::empty()
    } else {
        let rest = spec_move_commands(ws.drop_last(), m, my_units, resources, tryhard, iteration);
        match seq_lookup(m, ws.last().tag) {
            Some(t) => match spec_resolve_drone(
                t,
                ws.last(),
                my_units,
                resources,
                tryhard,
                iteration,
            ).0 {
                Some(c) => rest.push(c),
                None => rest,
            },
            None => rest,
        }
    }
}

/// Everything of the engine except the worker task map.
pub open spec fn spec_same_except_drones(a: crate::bot::FaxBot, b: crate::bot::FaxBot) -> bool {
    &&& a.runtime_options == b.runtime_options
    &&& a.state.bases == b.state.bases
    &&& a.state.build_order == b.state.build_order
    &&& a.state.peak_army == b.state.peak_army
    &&& a.state.desired_workers == b.state.desired_workers
    &&& a.state.desired_gasses == b.state.desired_gasses
    &&& a.state.desired_bases == b.state.desired_bases
    &&& a.state.is_under_attack == b.state.is_under_attack
    &&& a.state.my_structures == b.state.my_structures
    &&& a.state.enemy_units == b.state.enemy_units
    &&& a.state.reserved_expansions == b.state.reserved_expansions
    &&& a.state.micro.drone_last_seen == b.state.micro.drone_last_seen
    &&& a.state.micro.enemy_base_locations_by_expansion_order
        == b.state.micro.enemy_base_locations_by_expansion_order
    &&& a.state.map_info == b.state.map_info
}

impl crate::bot::FaxBot {
    /// Per-worker order resolution for every worker of the snapshot:
    /// gather, return, move, or stop, each suppressed while an
    /// equivalent order is active; stale tasks degrade to Idle.
    #[verifier::loop_isolation(false)]
    #[verifier::rlimit(100)]
    pub fn move_drones(&mut self, snap: &Snapshot) -> (cmds: Vec<Command>)
        requires
            old(self).state.wf(),
            snap.wf(),
        ensures
            final(self).state.wf(),
            cmds@ == spec_move_commands(
                spec_workers(snap.my_units@),
                old(self).state.micro.drones@,
                snap.my_units@,
                snap.resources@,
                old(self).runtime_options.use_tryhard_mining,
                snap.tick,
            ),
            // each visible worker's task becomes what the resolution says
            forall|j: int|
                0 <= j < spec_workers(snap.my_units@).len()
                    ==> final(self).state.micro.drones.lookup(
                    (#[trigger] spec_workers(snap.my_units@)[j]).tag,
                ) == (match old(self).state.micro.drones.lookup(spec_workers(snap.my_units@)[j].tag) {
                    Some(t) => Some(
                        spec_resolve_drone(
                            t,
                            spec_workers(snap.my_units@)[j],
                            snap.my_units@,
                            snap.resources@,
                            old(self).runtime_options.use_tryhard_mining,
                            snap.tick,
                        ).1,
                    ),
                    None => None::<DroneTask>,
                }),
            // tasks of absent workers are untouched
            forall|t: u64|
                !spec_worker_visible(spec_workers(snap.my_units@), t)
                    ==> final(self).state.micro.drones.lookup(t) == old(
                    self,
                ).state.micro.drones.lookup(t),
            // resolution never raises an assigned-worker count
            forall|rt: ResourceType, tag: u64|
                spec_gather_count(final(self).state.micro.drones@, rt, tag) <= spec_gather_count(
                    old(self).state.micro.drones@,
                    rt,
                    tag,
                ),
            spec_same_except_drones(*old(self), *final(self)),
    {
        let tryhard = self.runtime_options.use_tryhard_mining;
        let workers = filter_workers(&snap.my_units, false);
        proof {
            lemma_workers_wf(snap.my_units@);
        }
        let ghost ws = workers@;
        let ghost m0 = self.state.micro.drones@;
        let n = workers.len();
        let mut cmds: Vec<Command> = Vec::new();
        let mut i: usize = 0;
        proof {
            assert(ws.take(0) =~= Seq::<SnapUnit>::empty());
        }
        while i < n
            invariant
                i <= n,
                self.state.wf(),
                cmds@ == spec_move_commands(
                    ws.take(i as int),
                    m0,
                    snap.my_units@,
                    snap.resources@,
                    tryhard,
                    snap.tick,
                ),
                forall|j: int|
                    0 <= j < i ==> self.state.micro.drones.lookup((#[trigger] ws[j]).tag) == (
                    match seq_lookup(m0, ws[j].tag) {
                        Some(t) => Some(
                            spec_resolve_drone(
                                t,
                                ws[j],
                                snap.my_units@,
                                snap.resources@,
                                tryhard,
                                snap.tick,
                            ).1,
                        ),
                        None => None::<DroneTask>,
                    }),
                forall|t: u64|
                    (forall|j: int| 0 <= j < i ==> (#[trigger] ws[j]).tag != t)
                        ==> self.state.micro.drones.lookup(t) == seq_lookup(m0, t),
                forall|rt: ResourceType, tag: u64|
                    spec_gather_count(self.state.micro.drones@, rt, tag) <= spec_gather_count(
                        m0,
                        rt,
                        tag,
                    ),
                spec_same_except_drones(*old(self), *self),
            decreases n - i,
        {
            proof {
                assert(ws.take(i + 1).drop_last() =~= ws.take(i as int));
                assert(ws.take(i + 1).last() == ws[i as int]);
            }
            let w = &workers[i];
            proof {
                assert forall|j: int| 0 <= j < i implies (#[trigger] ws[j]).tag != ws[i as int].tag
                    by {}
            }
            let cur = self.state.micro.drones.get(w.tag);
            match cur {
                None => {},
                Some(t) => {
                    let resolved = resolve_drone(
                        t,
                        w,
                        &snap.my_units,
                        &snap.resources,
                        tryhard,
                        snap.tick,
                    );
                    let nt = resolved.1;
                    match resolved.0 {
                        Some(c) => {
                            cmds.push(c);
                        },
                        None => {},
                    }
                    if !(nt == t) {
                        proof {
                            assert(nt == DroneTask::Idle);
                        }
                        let ghost before = self.state.micro.drones@;
                        self.state.micro.drones.insert(w.tag, nt);
                        proof {
                            assert forall|rt: ResourceType, tag: u64|
                                spec_gather_count(self.state.micro.drones@, rt, tag)
                                    <= spec_gather_count(before, rt, tag) by {
                                crate::tagmap::lemma_count_remove_key(
                                    before,
                                    w.tag,
                                    gather_pred(rt, tag),
                                );
                                let removed = crate::tagmap::remove_key(before, w.tag);
                                assert(self.state.micro.drones@ == removed.push((w.tag, nt)));
                                assert(removed.push((w.tag, nt)).drop_last() =~= removed);
                                crate::tally::lemma_count_where_bounds(
                                    removed,
                                    gather_pred(rt, tag),
                                );
                            }
                        }
                    }
                },
            }
            i += 1;
        }
        proof {
            assert(ws.take(n as int) =~= ws);
        }
        cmds
    }
}

/// Idempotent reissue: the order resolution never emits a command whose
/// equivalent order is already active on the worker.  Issuing a
/// gather, return-cargo or move command therefore changes the worker's
/// active order exactly once: the tick after the environment applies
/// it, the same resolution emits nothing new for it.  A stop is only
/// emitted for an idle worker that still has an order to cancel.
pub proof fn lemma_no_redundant_reissue(
    task: DroneTask,
    drone: SnapUnit,
    my_units: Seq<SnapUnit>,
    resources: Seq<SnapUnit>,
    tryhard: bool,
    iteration: u64,
)
    ensures
        match spec_resolve_drone(task, drone, my_units, resources, tryhard, iteration).0 {
            Some(c) => match c {
                Command::Gather { resource, .. } => !spec_order_matches(
                    drone.order,
                    Ability::HarvestGather,
                    Target::Entity(resource),
                ),
                Command::MoveTo { to, .. } => !spec_order_matches(
                    drone.order,
                    Ability::MoveTo,
                    Target::Ground(to),
                ),
                Command::ReturnCargo { .. } => match task {
                    DroneTask::Gather { hatch, .. } => !spec_order_matches(
                        drone.order,
                        Ability::HarvestReturn,
                        Target::Entity(hatch),
                    ),
                    _ => true,
                },
                Command::Stop { .. } => task == DroneTask::Idle ==> drone.order is Some,
                _ => true,
            },
            None => true,
        },
{
    match task {
        DroneTask::Gather { resource_type, resource_tag, hatch } => {
            if !tryhard {
                let cur_target = match drone.order {
                    Some(o) => o.target,
                    None => Target::Nothing,
                };
                match cur_target {
                    Target::Entity(_) => {},
                    _ => {
                        assert(!spec_order_matches(
                            drone.order,
                            Ability::HarvestGather,
                            Target::Entity(resource_tag),
                        ));
                        assert(!spec_order_matches(
                            drone.order,
                            Ability::HarvestReturn,
                            Target::Entity(hatch),
                        ));
                    },
                }
            }
        },
        _ => {},
    }
}

/// The keys of the entries assigned to one resource, in entry order.
pub open spec fn spec_gather_keys(s: Seq<(u64, DroneTask)>, rt: ResourceType, tag: u64) -> Seq<u64>
    decreases s.len(),
{
    if s.len() == 0 {
        Seq::empty()
    } else {
        let rest = spec_gather_keys(s.drop_last(), rt, tag);
        if gather_pred(rt, tag)(s.last()) {
            rest.push(s.last().0)
        } else {
            rest
        }
    }
}

/// With distinct keys, the assigned keys are distinct, as many as the
/// count, and each looks up to a task assigned to the resource.
pub proof fn lemma_gather_keys_facts(s: Seq<(u64, DroneTask)>, rt: ResourceType, tag: u64)
    requires
        crate::tagmap::distinct_keys(s),
    ensures
        spec_gather_keys(s, rt, tag).len() == spec_gather_count(s, rt, tag),
        forall|j: int|
            0 <= j < spec_gather_keys(s, rt, tag).len() ==> (match seq_lookup(
                s,
                #[trigger] spec_gather_keys(s, rt, tag)[j],
            ) {
                Some(t) => gather_pred(rt, tag)((spec_gather_keys(s, rt, tag)[j], t)),
                None => false,
            }),
        forall|j1: int, j2: int|
            0 <= j1 < j2 < spec_gather_keys(s, rt, tag).len() ==> #[trigger] spec_gather_keys(
                s,
                rt,
                tag,
            )[j1] != #[trigger] spec_gather_keys(s, rt, tag)[j2],
    decreases s.len(),
{
    if s.len() > 0 {
        crate::tagmap::lemma_distinct_drop_last(s);
        lemma_gather_keys_facts(s.drop_last(), rt, tag);
        let rest = spec_gather_keys(s.drop_last(), rt, tag);
        let r = spec_gather_keys(s, rt, tag);
        assert(s.last() == s[s.len() - 1]);
        if gather_pred(rt, tag)(s.last()) {
            assert(r == rest.push(s.last().0));
            assert(seq_lookup(s.drop_last(), s.last().0) is None) by {
                crate::tagmap::lemma_seq_lookup_none_iff(s.drop_last(), s.last().0);
            }
            assert forall|j: int| 0 <= j < r.len() implies (match seq_lookup(s, #[trigger] r[j]) {
                Some(t) => gather_pred(rt, tag)((r[j], t)),
                None => false,
            }) by {
                if j < rest.len() {
                    assert(r[j] == rest[j]);
                    assert(r[j] != s.last().0);
                    assert(seq_lookup(s, r[j]) == seq_lookup(s.drop_last(), r[j]));
                } else {
                    assert(r[j] == s.last().0);
                    assert(seq_lookup(s, r[j]) == Some(s.last().1));
                }
            }
            assert forall|j1: int, j2: int| 0 <= j1 < j2 < r.len() implies #[trigger] r[j1]
                != #[trigger] r[j2] by {
                if j2 == r.len() - 1 {
                    assert(r[j1] == rest[j1]);
                    assert(match seq_lookup(s.drop_last(), rest[j1]) {
                        Some(t) => gather_pred(rt, tag)((rest[j1], t)),
                        None => false,
                    });
                    assert(rest[j1] != s.last().0) by {
                        crate::tagmap::lemma_seq_lookup_none_iff(s.drop_last(), s.last().0);
                    }
                }
            }
        } else {
            assert(r == rest);
            assert forall|j: int| 0 <= j < r.len() implies (match seq_lookup(s, #[trigger] r[j]) {
                Some(t) => gather_pred(rt, tag)((r[j], t)),
                None => false,
            }) by {
                assert(r[j] == rest[j]);
                if s.last().0 == r[j] {
                    // the last entry fails the predicate, yet the key
                    // looks up to a matching task in the prefix: with
                    // distinct keys the prefix holds no such entry
                    crate::tagmap::lemma_seq_lookup_none_iff(s.drop_last(), s.last().0);
                }
                assert(seq_lookup(s, r[j]) == seq_lookup(s.drop_last(), r[j]));
            }
        }
    }
}

/// How many listed workers currently hold an Idle task.
pub open spec fn spec_idle_count(workers: Seq<SnapUnit>, m: Seq<(u64, DroneTask)>) -> int
    decreases workers.len(),
{
    if workers.len() == 0 {
        0
    } else {
        spec_idle_count(workers.drop_last(), m) + if seq_lookup(m, workers.last().tag) == Some(
            DroneTask::Idle,
        ) {
            1int
        } else {
            0int
        }
    }
}

/// The listed workers currently holding an Idle task, in order.
pub open spec fn spec_idle_pool(workers: Seq<SnapUnit>, m: Seq<(u64, DroneTask)>) -> Seq<SnapUnit>
    decreases workers.len(),
{
    if workers.len() == 0 {
        Seq::empty()
    } else {
        let rest = spec_idle_pool(workers.drop_last(), m);
        if seq_lookup(m, workers.last().tag) == Some(DroneTask::Idle) {
            rest.push(workers.last())
        } else {
            rest
        }
    }
}

/// Index of the pool member nearest to `p`, earliest on ties.
pub open spec fn spec_nearest_index(pool: Seq<SnapUnit>, p: Pos) -> int
    decreases pool.len(),
{
    if pool.len() <= 1 {
        0
    } else {
        let rest = spec_nearest_index(pool.drop_last(), p);
        if crate::geom::dist_sq(pool.last().pos, p) < crate::geom::dist_sq(pool[rest].pos, p) {
            pool.len() - 1
        } else {
            rest
        }
    }
}

/// The nearest index stays in range.
pub proof fn lemma_nearest_index_range(pool: Seq<SnapUnit>, p: Pos)
    requires
        pool.len() > 0,
    ensures
        0 <= spec_nearest_index(pool, p) < pool.len(),
    decreases pool.len(),
{
    if pool.len() > 1 {
        lemma_nearest_index_range(pool.drop_last(), p);
    }
}

/// The `k` nearest pool members, taken greedily nearest-first.
pub open spec fn spec_take_nearest(pool: Seq<SnapUnit>, p: Pos, k: nat) -> Seq<SnapUnit>
    decreases k,
{
    if k == 0 || pool.len() == 0 {
        Seq::empty()
    } else {
        let i = spec_nearest_index(pool, p);
        seq![pool[i]] + spec_take_nearest(pool.remove(i), p, (k - 1) as nat)
    }
}

/// The pool left after `k` greedy nearest-first picks.
pub open spec fn spec_pool_after(pool: Seq<SnapUnit>, p: Pos, k: nat) -> Seq<SnapUnit>
    decreases k,
{
    if k == 0 {
        pool
    } else {
        let q = spec_pool_after(pool, p, (k - 1) as nat);
        if q.len() == 0 {
            q
        } else {
            q.remove(spec_nearest_index(q, p))
        }
    }
}

/// Greedy picking can only shrink the pool.
pub proof fn lemma_pool_after_le(pool: Seq<SnapUnit>, p: Pos, k: nat)
    ensures
        spec_pool_after(pool, p, k).len() <= pool.len(),
    decreases k,
{
    if k > 0 {
        lemma_pool_after_le(pool, p, (k - 1) as nat);
        let q = spec_pool_after(pool, p, (k - 1) as nat);
        if q.len() > 0 {
            lemma_nearest_index_range(q, p);
        }
    }
}

/// After at least one pick, the remaining pool equals the remaining
/// pool of the one-pick-shorter run started from the once-reduced pool.
pub proof fn lemma_pool_after_shift(pool: Seq<SnapUnit>, p: Pos, k: nat)
    requires
        k >= 1,
        pool.len() > 0,
    ensures
        spec_pool_after(pool, p, k) == spec_pool_after(
            pool.remove(spec_nearest_index(pool, p)),
            p,
            (k - 1) as nat,
        ),
    decreases k,
{
    let pool1 = pool.remove(spec_nearest_index(pool, p));
    if k == 1 {
        assert(spec_pool_after(pool, p, 0) == pool);
        assert(spec_pool_after(pool1, p, 0) == pool1);
    } else {
        lemma_pool_after_shift(pool, p, (k - 1) as nat);
        assert(spec_pool_after(pool, p, (k - 1) as nat) == spec_pool_after(
            pool1,
            p,
            (k - 2) as nat,
        ));
    }
}

/// One more greedy pick appends the nearest member of the remaining
/// pool.
pub proof fn lemma_take_nearest_unroll(pool: Seq<SnapUnit>, p: Pos, k: nat)
    requires
        spec_pool_after(pool, p, k).len() > 0,
    ensures
        spec_take_nearest(pool, p, k + 1) == spec_take_nearest(pool, p, k).push(
            spec_pool_after(pool, p, k)[spec_nearest_index(spec_pool_after(pool, p, k), p)],
        ),
        spec_pool_after(pool, p, k + 1) == spec_pool_after(pool, p, k).remove(
            spec_nearest_index(spec_pool_after(pool, p, k), p),
        ),
    decreases k,
{
    lemma_pool_after_le(pool, p, k);
    assert(pool.len() > 0);
    let i0 = spec_nearest_index(pool, p);
    lemma_nearest_index_range(pool, p);
    let pool1 = pool.remove(i0);
    if k == 0 {
        assert(spec_pool_after(pool, p, 0) == pool);
        assert(spec_take_nearest(pool, p, 1) == seq![pool[i0]] + spec_take_nearest(pool1, p, 0));
        assert(spec_take_nearest(pool1, p, 0) =~= Seq::<SnapUnit>::empty());
        assert(spec_take_nearest(pool, p, 0) =~= Seq::<SnapUnit>::empty());
        assert(seq![pool[i0]] + Seq::<SnapUnit>::empty() =~= Seq::<SnapUnit>::empty().push(
            pool[i0],
        ));
    } else {
        lemma_pool_after_shift(pool, p, k);
        let q = spec_pool_after(pool, p, k);
        let e = q[spec_nearest_index(q, p)];
        assert(spec_pool_after(pool1, p, (k - 1) as nat) == q);
        lemma_take_nearest_unroll(pool1, p, (k - 1) as nat);
        assert(spec_take_nearest(pool1, p, k) == spec_take_nearest(pool1, p, (k - 1) as nat).push(
            e,
        ));
        assert(spec_take_nearest(pool, p, k + 1) == seq![pool[i0]] + spec_take_nearest(
            pool1,
            p,
            k,
        ));
        assert(spec_take_nearest(pool, p, k) == seq![pool[i0]] + spec_take_nearest(
            pool1,
            p,
            (k - 1) as nat,
        ));
        assert(seq![pool[i0]] + spec_take_nearest(pool1, p, (k - 1) as nat).push(e) =~= (seq![
            pool[i0],
        ] + spec_take_nearest(pool1, p, (k - 1) as nat)).push(e));
    }
}

/// The possible moves of one assignment call: untouched, Idle promoted
/// onto this resource, or released from this resource back to Idle.
pub open spec fn spec_assignment_transition(
    before: Option<DroneTask>,
    after: Option<DroneTask>,
    rt: ResourceType,
    rtag: u64,
    hatch: u64,
) -> bool {
    ||| after == before
    ||| (before == Some(DroneTask::Idle) && after == Some(
        DroneTask::Gather { resource_type: rt, resource_tag: rtag, hatch },
    ))
    ||| (match before {
        Some(DroneTask::Gather { resource_type, resource_tag, hatch: _ }) => resource_type == rt
            && resource_tag == rtag && after == Some(DroneTask::Idle),
        _ => false,
    })
}

/// Whether some listed worker carries this tag.
pub open spec fn spec_contains_tag(s: Seq<SnapUnit>, w: u64) -> bool {
    exists|i: int| 0 <= i < s.len() && (#[trigger] s[i]).tag == w
}

/// Index of the worker nearest to `p`.
#[verifier::loop_isolation(false)]
fn nearest_worker_index(v: &Vec<SnapUnit>, p: Pos) -> (r: usize)
    requires
        v@.len() > 0,
        p.in_bounds(),
        forall|i: int| 0 <= i < v@.len() ==> (#[trigger] v@[i]).pos.in_bounds(),
    ensures
        r < v@.len(),
        r == spec_nearest_index(v@, p),
{
    let n = v.len();
    let mut best: usize = 0;
    let mut i: usize = 1;
    proof {
        assert(v@.take(1).len() == 1);
        assert(v@.take(1)[0] == v@[0]);
    }
    while i < n
        invariant
            best < i <= n,
            best == spec_nearest_index(v@.take(i as int), p),
        decreases n - i,
    {
        proof {
            assert(v@.take(i + 1).drop_last() =~= v@.take(i as int));
            assert(v@.take(i + 1).last() == v@[i as int]);
            assert(forall|j: int| 0 <= j < i ==> v@.take(i + 1)[j] == #[trigger] v@.take(i as int)[j]);
            crate::micro::lemma_nearest_index_range(v@.take(i as int), p);
        }
        if crate::geom::distance_sq(v[i].pos, p) < crate::geom::distance_sq(v[best].pos, p) {
            best = i;
        }
        i += 1;
    }
    proof {
        assert(v@.take(n as int) =~= v@);
    }
    best
}

impl crate::bot::FaxBot {
    /// Fill one resource up to its quota with the nearest idle workers,
    /// or release the excess back to Idle.
    #[verifier::loop_isolation(false)]
    #[verifier::rlimit(100)]
    pub fn place_drones_on_resource(
        &mut self,
        workers: &Vec<SnapUnit>,
        hatch_tag: u64,
        resource: &SnapUnit,
        resource_type: ResourceType,
        currently_assigned: usize,
        max_assignable: usize,
    )
        requires
            old(self).state.wf(),
            resource.pos.in_bounds(),
            forall|i: int| 0 <= i < workers@.len() ==> (#[trigger] workers@[i]).pos.in_bounds(),
            forall|i: int, j: int|
                0 <= i < j < workers@.len() ==> (#[trigger] workers@[i]).tag != (
                #[trigger] workers@[j]).tag,
            currently_assigned == spec_gather_count(
                old(self).state.micro.drones@,
                resource_type,
                resource.tag,
            ),
        ensures
            final(self).state.wf(),
            // the touched resource never ends over quota
            spec_gather_count(final(self).state.micro.drones@, resource_type, resource.tag)
                <= spec_quota(resource_type),
            // under quota the patch fills by exactly the smallest of the
            // free quota, the caller's budget and the idle pool
            currently_assigned < spec_quota(resource_type) ==> spec_gather_count(
                final(self).state.micro.drones@,
                resource_type,
                resource.tag,
            ) == currently_assigned + min_int(
                min_int(spec_quota(resource_type) - currently_assigned, max_assignable as int),
                spec_idle_count(workers@, old(self).state.micro.drones@),
            ),
            // over quota exactly the excess is released
            currently_assigned >= spec_quota(resource_type) ==> spec_gather_count(
                final(self).state.micro.drones@,
                resource_type,
                resource.tag,
            ) == spec_quota(resource_type),
            // under quota the promoted workers are exactly the nearest
            // idle workers, taken greedily nearest-to-patch first
            currently_assigned < spec_quota(resource_type) ==> (forall|w: u64|
                (old(self).state.micro.drones.lookup(w) == Some(DroneTask::Idle)
                    && final(self).state.micro.drones.lookup(w) == Some(
                    DroneTask::Gather {
                        resource_type,
                        resource_tag: resource.tag,
                        hatch: hatch_tag,
                    },
                )) <==> spec_contains_tag(
                    spec_take_nearest(
                        spec_idle_pool(workers@, old(self).state.micro.drones@),
                        resource.pos,
                        (min_int(
                            min_int(
                                spec_quota(resource_type) - currently_assigned,
                                max_assignable as int,
                            ),
                            spec_idle_count(workers@, old(self).state.micro.drones@),
                        )) as nat,
                    ),
                    w,
                )),
            // under quota nobody is released; over quota nobody is
            // promoted
            currently_assigned < spec_quota(resource_type) ==> (forall|w: u64|
                final(self).state.micro.drones.lookup(w) == old(self).state.micro.drones.lookup(w)
                    || (old(self).state.micro.drones.lookup(w) == Some(DroneTask::Idle)
                    && final(self).state.micro.drones.lookup(w) == Some(
                    DroneTask::Gather {
                        resource_type,
                        resource_tag: resource.tag,
                        hatch: hatch_tag,
                    },
                ))),
            currently_assigned >= spec_quota(resource_type) ==> (forall|w: u64|
                final(self).state.micro.drones.lookup(w) == old(self).state.micro.drones.lookup(w)
                    || ((match old(self).state.micro.drones.lookup(w) {
                    Some(t) => gather_pred(resource_type, resource.tag)((w, t)),
                    None => false,
                }) && final(self).state.micro.drones.lookup(w) == Some(DroneTask::Idle))),
            // every other resource's count is untouched
            forall|rt2: ResourceType, t2: u64|
                !(rt2 == resource_type && t2 == resource.tag) ==> spec_gather_count(
                    final(self).state.micro.drones@,
                    rt2,
                    t2,
                ) == spec_gather_count(old(self).state.micro.drones@, rt2, t2),
            // tasks only move between Idle and this resource
            forall|w: u64|
                spec_assignment_transition(
                    old(self).state.micro.drones.lookup(w),
                    final(self).state.micro.drones.lookup(w),
                    resource_type,
                    resource.tag,
                    hatch_tag,
                ),
            spec_same_except_drones(*old(self), *final(self)),
    {
        let quota: usize = match resource_type {
            ResourceType::Mineral => MINERAL_QUOTA,
            ResourceType::Gas => GAS_QUOTA,
        };
        let rtag = resource.tag;
        let ghost m0 = self.state.micro.drones@;
        proof {
            crate::tally::lemma_count_where_bounds(m0, gather_pred(resource_type, rtag));
        }
        if currently_assigned < quota {
            // collect the visible idle workers
            let nw = workers.len();
            let mut surplus: Vec<SnapUnit> = Vec::new();
            let mut i: usize = 0;
            proof {
                assert(workers@.take(0) =~= Seq::<SnapUnit>::empty());
            }
            while i < nw
                invariant
                    i <= nw,
                    forall|j: int|
                        0 <= j < surplus@.len() ==> self.state.micro.drones.lookup(
                            (#[trigger] surplus@[j]).tag,
                        ) == Some(DroneTask::Idle),
                    forall|j: int|
                        0 <= j < surplus@.len() ==> (#[trigger] surplus@[j]).pos.in_bounds(),
                    forall|j: int|
                        0 <= j < surplus@.len() ==> exists|k: int|
                            0 <= k < i && #[trigger] surplus@[j] == workers@[k],
                    forall|j1: int, j2: int|
                        0 <= j1 < j2 < surplus@.len() ==> (#[trigger] surplus@[j1]).tag != (
                        #[trigger] surplus@[j2]).tag,
                    surplus@.len() == spec_idle_count(workers@.take(i as int), m0),
                    surplus@ == spec_idle_pool(workers@.take(i as int), m0),
                    self.state.micro.drones@ == m0,
                decreases nw - i,
            {
                proof {
                    assert(workers@.take(i + 1).drop_last() =~= workers@.take(i as int));
                    assert(workers@.take(i + 1).last() == workers@[i as int]);
                }
                let w = &workers[i];
                let is_idle = match self.state.micro.drones.get(w.tag) {
                    Some(DroneTask::Idle) => true,
                    _ => false,
                };
                if is_idle {
                    proof {
                        assert forall|j: int| 0 <= j < surplus@.len() implies (
                        #[trigger] surplus@[j]).tag != workers@[i as int].tag by {
                            let k = choose|k: int| 0 <= k < i && #[trigger] surplus@[j] == workers@[k];
                        }
                    }
                    surplus.push(*w);
                }
                i += 1;
            }
            proof {
                assert(workers@.take(nw as int) =~= workers@);
            }
            let ghost pool0 = surplus@;
            let ghost idle0 = surplus@.len() as int;
            let mut remaining: usize = quota - currently_assigned;
            if remaining > max_assignable {
                remaining = max_assignable;
            }
            let mut added: usize = 0;
            while added < remaining && surplus.len() > 0
                invariant
                    added <= remaining,
                    surplus@.len() + added == idle0,
                    idle0 == spec_idle_count(workers@, m0),
                    pool0 == spec_idle_pool(workers@, m0),
                    surplus@ == spec_pool_after(pool0, resource.pos, added as nat),
                    forall|w: u64|
                        (seq_lookup(m0, w) == Some(DroneTask::Idle)
                            && self.state.micro.drones.lookup(w) == Some(
                            DroneTask::Gather {
                                resource_type,
                                resource_tag: rtag,
                                hatch: hatch_tag,
                            },
                        )) <==> spec_contains_tag(
                            spec_take_nearest(pool0, resource.pos, added as nat),
                            w,
                        ),
                    remaining + currently_assigned <= quota || remaining <= max_assignable,
                    currently_assigned + remaining <= quota,
                    self.state.wf(),
                    spec_gather_count(self.state.micro.drones@, resource_type, rtag)
                        == currently_assigned + added,
                    forall|rt2: ResourceType, t2: u64|
                        !(rt2 == resource_type && t2 == rtag) ==> spec_gather_count(
                            self.state.micro.drones@,
                            rt2,
                            t2,
                        ) == spec_gather_count(m0, rt2, t2),
                    forall|w: u64|
                        self.state.micro.drones.lookup(w) == seq_lookup(m0, w) || (seq_lookup(
                            m0,
                            w,
                        ) == Some(DroneTask::Idle) && self.state.micro.drones.lookup(w) == Some(
                            DroneTask::Gather {
                                resource_type,
                                resource_tag: rtag,
                                hatch: hatch_tag,
                            },
                        )),
                    forall|j: int|
                        0 <= j < surplus@.len() ==> self.state.micro.drones.lookup(
                            (#[trigger] surplus@[j]).tag,
                        ) == Some(DroneTask::Idle),
                    forall|j: int|
                        0 <= j < surplus@.len() ==> (#[trigger] surplus@[j]).pos.in_bounds(),
                    forall|j1: int, j2: int|
                        0 <= j1 < j2 < surplus@.len() ==> (#[trigger] surplus@[j1]).tag != (
                        #[trigger] surplus@[j2]).tag,
                    spec_same_except_drones(*old(self), *self),
                decreases remaining - added,
            {
                let bi = nearest_worker_index(&surplus, resource.pos);
                let ghost surplus0 = surplus@;
                let w = surplus.remove(bi);
                proof {
                    lemma_take_nearest_unroll(pool0, resource.pos, added as nat);
                    assert(spec_take_nearest(pool0, resource.pos, (added + 1) as nat)
                        == spec_take_nearest(pool0, resource.pos, added as nat).push(w));
                    assert(surplus@ == spec_pool_after(pool0, resource.pos, (added + 1) as nat));
                    assert forall|j: int| 0 <= j < surplus@.len() implies (#[trigger] surplus@[j])
                        == surplus0[if j < bi {
                        j
                    } else {
                        j + 1
                    }] by {}
                    assert forall|j: int| 0 <= j < surplus@.len() implies (
                    #[trigger] surplus@[j]).tag != w.tag by {}
                }
                let ghost before = self.state.micro.drones@;
                let task = DroneTask::Gather {
                    resource_type,
                    resource_tag: rtag,
                    hatch: hatch_tag,
                };
                self.state.micro.drones.insert(w.tag, task);
                proof {
                    let after = self.state.micro.drones@;
                    let removed = crate::tagmap::remove_key(before, w.tag);
                    assert(after == removed.push((w.tag, task)));
                    assert(removed.push((w.tag, task)).drop_last() =~= removed);
                    assert forall|rt2: ResourceType, t2: u64|
                        spec_gather_count(after, rt2, t2) == spec_gather_count(before, rt2, t2)
                            + (if rt2 == resource_type && t2 == rtag {
                            1int
                        } else {
                            0int
                        }) by {
                        crate::tagmap::lemma_count_remove_key(before, w.tag, gather_pred(rt2, t2));
                    }
                    // the picked worker extends the greedy selection
                    assert forall|w2: u64|
                        ((seq_lookup(m0, w2) == Some(DroneTask::Idle)
                            && self.state.micro.drones.lookup(w2) == Some(task)) <==> spec_contains_tag(
                            spec_take_nearest(pool0, resource.pos, (added + 1) as nat),
                            w2,
                        )) by {
                        let picked = spec_take_nearest(pool0, resource.pos, added as nat);
                        let picked2 = spec_take_nearest(pool0, resource.pos, (added + 1) as nat);
                        assert(forall|j: int|
                            0 <= j < picked.len() ==> picked2[j] == #[trigger] picked[j]);
                        assert(picked2[picked2.len() - 1] == w);
                        if w2 == w.tag {
                            assert(spec_contains_tag(picked2, w2));
                        } else {
                            if spec_contains_tag(picked2, w2) {
                                let j = choose|j: int|
                                    0 <= j < picked2.len() && (#[trigger] picked2[j]).tag == w2;
                                assert(j < picked.len());
                                assert(picked[j].tag == w2);
                                assert(spec_contains_tag(picked, w2));
                            }
                            if spec_contains_tag(picked, w2) {
                                let j = choose|j: int|
                                    0 <= j < picked.len() && (#[trigger] picked[j]).tag == w2;
                                assert(picked2[j].tag == w2);
                                assert(spec_contains_tag(picked2, w2));
                            }
                        }
                    }
                }
                added += 1;
            }
            proof {
                // the loop filled the patch by the smallest of the free
                // quota, the budget and the idle pool
                assert(remaining == min_int(quota - currently_assigned, max_assignable as int));
                assert(added == min_int(remaining as int, idle0));
                assert(added as int == min_int(
                    min_int(quota - currently_assigned, max_assignable as int),
                    spec_idle_count(workers@, m0),
                ));
            }
        } else {
            let target_remove: usize = currently_assigned - quota;
            let n = self.state.micro.drones.len();
            let mut picks: Vec<u64> = Vec::new();
            let mut i: usize = 0;
            proof {
                assert(m0.take(0) =~= Seq::<(u64, DroneTask)>::empty());
            }
            while i < n
                invariant
                    i <= n,
                    self.state.micro.drones@ == m0,
                    picks@ == spec_gather_keys(m0.take(i as int), resource_type, rtag),
                decreases n - i,
            {
                proof {
                    assert(m0.take(i + 1).drop_last() =~= m0.take(i as int));
                    assert(m0.take(i + 1).last() == m0[i as int]);
                }
                let (tag, task) = self.state.micro.drones.entry_at(i);
                let matches_resource = match task {
                    DroneTask::Gather { resource_type: rt2, resource_tag: t2, hatch: _ } => rt2
                        == resource_type && t2 == rtag,
                    _ => false,
                };
                if matches_resource {
                    picks.push(tag);
                }
                i += 1;
            }
            proof {
                assert(m0.take(n as int) =~= m0);
                lemma_gather_keys_facts(m0, resource_type, rtag);
            }
            let mut k: usize = 0;
            while k < target_remove
                invariant
                    k <= target_remove,
                    target_remove <= picks@.len(),
                    self.state.wf(),
                    spec_gather_count(self.state.micro.drones@, resource_type, rtag)
                        == currently_assigned - k,
                    forall|rt2: ResourceType, t2: u64|
                        !(rt2 == resource_type && t2 == rtag) ==> spec_gather_count(
                            self.state.micro.drones@,
                            rt2,
                            t2,
                        ) == spec_gather_count(m0, rt2, t2),
                    forall|w: u64|
                        self.state.micro.drones.lookup(w) == seq_lookup(m0, w) || ((match
                            seq_lookup(m0, w) {
                            Some(t) => gather_pred(resource_type, rtag)((w, t)),
                            None => false,
                        }) && self.state.micro.drones.lookup(w) == Some(DroneTask::Idle)),
                    forall|j: int|
                        k <= j < picks@.len() ==> self.state.micro.drones.lookup(
                            #[trigger] picks@[j],
                        ) == seq_lookup(m0, picks@[j]),
                    spec_same_except_drones(*old(self), *self),
                decreases target_remove - k,
            {
                let tag = picks[k];
                let ghost before = self.state.micro.drones@;
                proof {
                    assert(seq_lookup(before, tag) == seq_lookup(m0, tag));
                    assert(match seq_lookup(m0, tag) {
                        Some(t) => gather_pred(resource_type, rtag)((tag, t)),
                        None => false,
                    });
                }
                self.state.micro.drones.insert(tag, DroneTask::Idle);
                proof {
                    let after = self.state.micro.drones@;
                    let removed = crate::tagmap::remove_key(before, tag);
                    assert(after == removed.push((tag, DroneTask::Idle)));
                    assert(removed.push((tag, DroneTask::Idle)).drop_last() =~= removed);
                    assert forall|rt2: ResourceType, t2: u64|
                        spec_gather_count(after, rt2, t2) == spec_gather_count(before, rt2, t2) - (
                        if rt2 == resource_type && t2 == rtag {
                            1int
                        } else {
                            0int
                        }) by {
                        crate::tagmap::lemma_count_remove_key(before, tag, gather_pred(rt2, t2));
                    }
                    assert forall|j: int| k + 1 <= j < picks@.len() implies
                        self.state.micro.drones.lookup(#[trigger] picks@[j]) == seq_lookup(
                        m0,
                        picks@[j],
                    ) by {
                        assert(picks@[j] != tag);
                    }
                }
                k += 1;
            }
        }
    }
}

/// The depot count splits over the two depot kinds.
pub proof fn lemma_townhall_count_split(units: Seq<SnapUnit>)
    ensures
        spec_townhalls(units).len() == crate::model::spec_count_kind(units, UnitKind::Hatchery)
            + crate::model::spec_count_kind(units, UnitKind::Lair),
    decreases units.len(),
{
    if units.len() > 0 {
        lemma_townhall_count_split(units.drop_last());
    }
}

/// The reconciliation pass may retask a worker between Idle and
/// gathering, but never invents or drops entries and never touches a
/// construction task.
pub open spec fn spec_reconcile_frame(b: Option<DroneTask>, a: Option<DroneTask>) -> bool {
    match (b, a) {
        (None, None) => true,
        (Some(x), Some(y)) => x == y || ((x is Idle || x is Gather) && (y is Idle || y is Gather)),
        _ => false,
    }
}

/// Count the workers assigned to one resource.
#[verifier::loop_isolation(false)]
fn count_gather(m: &TagMap<DroneTask>, rt: ResourceType, tag: u64) -> (r: usize)
    ensures
        r == spec_gather_count(m@, rt, tag),
{
    let ghost f = gather_pred(rt, tag);
    proof {
        crate::tally::lemma_count_where_bounds(m@, f);
    }
    let n = m.len();
    let mut count: usize = 0;
    let mut i: usize = 0;
    proof {
        assert(m@.take(0) =~= Seq::<(u64, DroneTask)>::empty());
    }
    while i < n
        invariant
            i <= n,
            count == count_where(m@.take(i as int), f),
            count <= i,
        decreases n - i,
    {
        proof {
            crate::tally::lemma_count_where_take_step(m@, f, i as int);
        }
        let (_tag, task) = m.entry_at(i);
        let matches_resource = match task {
            DroneTask::Gather { resource_type: rt2, resource_tag: t2, hatch: _ } => rt2 == rt && t2
                == tag,
            _ => false,
        };
        if matches_resource {
            count += 1;
        }
        i += 1;
    }
    proof {
        assert(m@.take(n as int) =~= m@);
    }
    count
}

/// The first-listed ready depot nearest to `p`, earliest on ties.
pub open spec fn spec_closest_ready_townhall(units: Seq<SnapUnit>, p: Pos) -> Option<SnapUnit>
    decreases units.len(),
{
    if units.len() == 0 {
        None
    } else {
        let rest = spec_closest_ready_townhall(units.drop_last(), p);
        let u = units.last();
        let eligible = crate::model::is_townhall_kind(u.kind) && u.is_ready;
        if eligible && (match rest {
            Some(b) => crate::geom::dist_sq(u.pos, p) < crate::geom::dist_sq(b.pos, p),
            None => true,
        }) {
            Some(u)
        } else {
            rest
        }
    }
}

/// The listed nodes paired with their nearest ready depot, keeping only
/// nodes strictly within mining range of it, in list order.
pub open spec fn spec_relevant_pairs(list: Seq<SnapUnit>, units: Seq<SnapUnit>) -> Seq<
    (SnapUnit, SnapUnit),
>
    decreases list.len(),
{
    if list.len() == 0 {
        Seq::empty()
    } else {
        let rest = spec_relevant_pairs(list.drop_last(), units);
        match spec_closest_ready_townhall(units, list.last().pos) {
            Some(h) => if crate::geom::dist_sq(h.pos, list.last().pos) < (
            crate::strategy::RESOURCE_NEAR_DISTANCE as int) * (
            crate::strategy::RESOURCE_NEAR_DISTANCE as int) {
                rest.push((h, list.last()))
            } else {
                rest
            },
            None => rest,
        }
    }
}

impl crate::bot::FaxBot {
    /// Pair every listed resource node with its nearest ready depot,
    /// keeping only nodes within mining range of one.
    #[verifier::loop_isolation(false)]
    fn get_relevant_resources(&self, snap: &Snapshot, units: &Vec<SnapUnit>) -> (r: Vec<
        (SnapUnit, SnapUnit),
    >)
        requires
            snap.wf(),
            forall|i: int| 0 <= i < units@.len() ==> (#[trigger] units@[i]).wf(),
        ensures
            r@ == spec_relevant_pairs(units@, snap.my_units@),
            forall|j: int|
                0 <= j < r@.len() ==> ((#[trigger] r@[j]).1.wf() && r@[j].0.wf() && exists|k: int|
                    0 <= k < units@.len() && r@[j].1 == units@[k]),
    {
        let n = units.len();
        let mut out: Vec<(SnapUnit, SnapUnit)> = Vec::new();
        let mut i: usize = 0;
        proof {
            assert(units@.take(0) =~= Seq::<SnapUnit>::empty());
        }
        while i < n
            invariant
                i <= n,
                out@ == spec_relevant_pairs(units@.take(i as int), snap.my_units@),
                forall|j: int|
                    0 <= j < out@.len() ==> ((#[trigger] out@[j]).1.wf() && out@[j].0.wf()
                        && exists|k: int| 0 <= k < units@.len() && out@[j].1 == units@[k]),
            decreases n - i,
        {
            proof {
                assert(units@.take(i + 1).drop_last() =~= units@.take(i as int));
                assert(units@.take(i + 1).last() == units@[i as int]);
            }
            let u = &units[i];
            let mut best: Option<SnapUnit> = None;
            let nm = snap.my_units.len();
            let mut k: usize = 0;
            proof {
                assert(snap.my_units@.take(0) =~= Seq::<SnapUnit>::empty());
            }
            while k < nm
                invariant
                    k <= nm,
                    best == spec_closest_ready_townhall(snap.my_units@.take(k as int), u.pos),
                    match best {
                        Some(b) => b.wf(),
                        None => true,
                    },
                decreases nm - k,
            {
                proof {
                    assert(snap.my_units@.take(k + 1).drop_last() =~= snap.my_units@.take(
                        k as int,
                    ));
                    assert(snap.my_units@.take(k + 1).last() == snap.my_units@[k as int]);
                }
                let h = &snap.my_units[k];
                let is_ready_townhall = (h.kind == UnitKind::Hatchery || h.kind == UnitKind::Lair)
                    && h.is_ready;
                if is_ready_townhall {
                    let d = crate::geom::distance_sq(h.pos, u.pos);
                    let better = match best {
                        Some(b) => d < crate::geom::distance_sq(b.pos, u.pos),
                        None => true,
                    };
                    if better {
                        best = Some(*h);
                    }
                }
                k += 1;
            }
            proof {
                assert(snap.my_units@.take(nm as int) =~= snap.my_units@);
            }
            match best {
                Some(h) => {
                    let d = crate::geom::distance_sq(h.pos, u.pos);
                    if d < ((crate::strategy::RESOURCE_NEAR_DISTANCE
                        * crate::strategy::RESOURCE_NEAR_DISTANCE) as u64) {
                        out.push((h, *u));
                    }
                },
                None => {},
            }
            i += 1;
        }
        proof {
            assert(units@.take(n as int) =~= units@);
        }
        out
    }

    /// The assignment pass: walk each resource kind's eligible patches
    /// nearest-first and fill or trim each patch toward its quota,
    /// bounded by the remaining workforce targets.
    #[verifier::loop_isolation(false)]
    #[verifier::rlimit(100)]
    pub fn place_drones_on_resources(&mut self, snap: &Snapshot)
        requires
            old(self).state.wf(),
            snap.wf(),
        ensures
            final(self).state.wf(),
            // without a depot the pass is skipped entirely
            spec_townhalls(snap.my_units@).len() == 0 ==> *final(self) == *old(self),
            // no resource ends over quota unless it already was, and the
            // whole map stays within quota once it is within quota
            spec_quota_ok(old(self).state.micro.drones@) ==> spec_quota_ok(
                final(self).state.micro.drones@,
            ),
            forall|w: u64|
                spec_reconcile_frame(
                    old(self).state.micro.drones.lookup(w),
                    final(self).state.micro.drones.lookup(w),
                ),
            spec_same_except_drones(*old(self), *final(self)),
    {
        proof {
            crate::model::lemma_spec_count_kind_bounds(snap.my_units@, UnitKind::Hatchery);
            crate::model::lemma_spec_count_kind_bounds(snap.my_units@, UnitKind::Lair);
            lemma_townhall_count_split(snap.my_units@);
        }
        let townhall_count = crate::model::count_kind(&snap.my_units, UnitKind::Hatchery)
            + crate::model::count_kind(&snap.my_units, UnitKind::Lair);
        if townhall_count == 0 {
            return ;
        }
        let workers = filter_workers(&snap.my_units, false);
        proof {
            lemma_workers_wf(snap.my_units@);
        }
        // eligible patches, paired with their depots
        let mineral_fields = filter_mineral_fields(&snap.resources);
        let gas_buildings = filter_live_extractors(&snap.my_units);
        let available_minerals = self.get_relevant_resources(snap, &mineral_fields);
        let available_gasses = self.get_relevant_resources(snap, &gas_buildings);
        let num_workers = workers.len();
        let desired_mineral_workers = saturating_sub_usize(
            self.state.desired_workers,
            3 * self.state.desired_gasses,
        );
        let desired_gas_workers = saturating_sub_usize(num_workers, desired_mineral_workers);
        let mut budget: usize = 0;
        let ghost m0 = self.state.micro.drones@;
        let mut round: usize = 0;
        while round < 2
            invariant
                round <= 2,
                budget <= (round as int) * 1000000,
                self.state.wf(),
                snap.wf(),
                forall|rt2: ResourceType, t2: u64|
                    spec_gather_count(self.state.micro.drones@, rt2, t2) <= spec_gather_count(
                        m0,
                        rt2,
                        t2,
                    ) || spec_gather_count(self.state.micro.drones@, rt2, t2) <= spec_quota(rt2),
                forall|w: u64|
                    spec_reconcile_frame(
                        seq_lookup(m0, w),
                        self.state.micro.drones.lookup(w),
                    ),
                spec_same_except_drones(*old(self), *self),
            decreases 2 - round,
        {
            let (pairs, target, rt, quota) = if round == 0 {
                (&available_minerals, desired_mineral_workers, ResourceType::Mineral, MINERAL_QUOTA)
            } else {
                (&available_gasses, desired_gas_workers, ResourceType::Gas, GAS_QUOTA)
            };
            let capped_target = if target > 1000000 {
                1000000
            } else {
                target
            };
            budget = budget + capped_target;
            // nearest-first: sort the pairs by depot distance
            let sorted = sort_pairs_by_distance(pairs);
            let np = sorted.len();
            let mut j: usize = 0;
            while j < np
                invariant
                    j <= np,
                    budget <= (round as int) * 1000000 + 1000000,
                    self.state.wf(),
                    snap.wf(),
                    forall|jj: int|
                        0 <= jj < sorted@.len() ==> ((#[trigger] sorted@[jj]).1.wf()
                            && sorted@[jj].0.wf()),
                    forall|rt2: ResourceType, t2: u64|
                        spec_gather_count(self.state.micro.drones@, rt2, t2) <= spec_gather_count(
                            m0,
                            rt2,
                            t2,
                        ) || spec_gather_count(self.state.micro.drones@, rt2, t2) <= spec_quota(
                            rt2,
                        ),
                    forall|w: u64|
                        spec_reconcile_frame(
                            seq_lookup(m0, w),
                            self.state.micro.drones.lookup(w),
                        ),
                    spec_same_except_drones(*old(self), *self),
                decreases np - j,
            {
                if budget == 0 {
                    break ;
                }
                let hatch = sorted[j].0;
                let resource = sorted[j].1;
                let currently_assigned = count_gather(&self.state.micro.drones, rt, resource.tag);
                let max_assignable = min_usize(saturating_sub_usize(budget, currently_assigned), quota);
                let ghost pre = self.state.micro.drones@;
                self.place_drones_on_resource(
                    &workers,
                    hatch.tag,
                    &resource,
                    rt,
                    currently_assigned,
                    max_assignable,
                );
                proof {
                    assert forall|w: u64|
                        spec_reconcile_frame(
                            seq_lookup(m0, w),
                            self.state.micro.drones.lookup(w),
                        ) by {
                        assert(spec_reconcile_frame(seq_lookup(m0, w), seq_lookup(pre, w)));
                        assert(spec_assignment_transition(
                            seq_lookup(pre, w),
                            self.state.micro.drones.lookup(w),
                            rt,
                            resource.tag,
                            hatch.tag,
                        ));
                    }
                }
                budget = saturating_sub_usize(budget, quota);
                j += 1;
            }
            round += 1;
        }
        proof {
            if spec_quota_ok(m0) {
                assert forall|rt: ResourceType, t: u64|
                    spec_gather_count(self.state.micro.drones@, rt, t) <= spec_quota(rt) by {
                    assert(spec_gather_count(m0, rt, t) <= spec_quota(rt));
                }
            }
        }
    }
}

/// The stop orders for freshly visible ready workers without a
/// surviving task entry, in worker order.
pub open spec fn spec_fresh_stop_cmds(ready: Seq<SnapUnit>, m: Seq<(u64, DroneTask)>) -> Seq<
    Command,
>
    decreases ready.len(),
{
    if ready.len() == 0 {
        Seq::empty()
    } else {
        let rest = spec_fresh_stop_cmds(ready.drop_last(), m);
        if seq_lookup(m, ready.last().tag) is None {
            rest.push(Command::Stop { unit: ready.last().tag, queue: false })
        } else {
            rest
        }
    }
}

/// The task map after marking every freshly visible ready worker Idle.
pub open spec fn spec_register(m: Seq<(u64, DroneTask)>, ready: Seq<SnapUnit>) -> Seq<
    (u64, DroneTask),
>
    decreases ready.len(),
{
    if ready.len() == 0 {
        m
    } else {
        let rest = spec_register(m, ready.drop_last());
        if seq_lookup(m, ready.last().tag) is None {
            rest.push((ready.last().tag, DroneTask::Idle))
        } else {
            rest
        }
    }
}

/// What registration does to a lookup: workers absent from the map get
/// an Idle entry, everything else is untouched.
pub proof fn lemma_register_lookup(m: Seq<(u64, DroneTask)>, ready: Seq<SnapUnit>, t: u64)
    ensures
        seq_lookup(spec_register(m, ready), t) == (if (exists|j: int|
            0 <= j < ready.len() && (#[trigger] ready[j]).tag == t) && seq_lookup(m, t) is None {
            Some(DroneTask::Idle)
        } else {
            seq_lookup(m, t)
        }),
    decreases ready.len(),
{
    if ready.len() > 0 {
        lemma_register_lookup(m, ready.drop_last(), t);
        let rest = spec_register(m, ready.drop_last());
        assert(ready.last() == ready[ready.len() - 1]);
        assert(forall|j: int| 0 <= j < ready.len() - 1 ==> ready.drop_last()[j] == #[trigger] ready[j]);
        if seq_lookup(m, ready.last().tag) is None {
            let r = rest.push((ready.last().tag, DroneTask::Idle));
            if t == ready.last().tag {
                assert(seq_lookup(r, t) == Some(DroneTask::Idle));
            } else {
                assert(r.drop_last() =~= rest);
                assert(seq_lookup(r, t) == seq_lookup(rest, t));
                if exists|j: int| 0 <= j < ready.len() && (#[trigger] ready[j]).tag == t {
                    let j = choose|j: int| 0 <= j < ready.len() && (#[trigger] ready[j]).tag == t;
                    assert(j < ready.len() - 1);
                    assert(ready.drop_last()[j] == ready[j]);
                }
            }
        } else {
            if exists|j: int| 0 <= j < ready.len() && (#[trigger] ready[j]).tag == t {
                let j = choose|j: int| 0 <= j < ready.len() && (#[trigger] ready[j]).tag == t;
                if j < ready.len() - 1 {
                    assert(ready.drop_last()[j] == ready[j]);
                }
            }
        }
    }
}

/// Ready workers selected out of a well-formed, distinct-tag unit list
/// carry distinct tags.
pub proof fn lemma_ready_workers_distinct(units: Seq<SnapUnit>)
    requires
        forall|i: int, j: int|
            0 <= i < j < units.len() ==> (#[trigger] units[i]).tag != (#[trigger] units[j]).tag,
    ensures
        forall|i: int, j: int|
            0 <= i < j < spec_ready_workers(units).len() ==> (#[trigger] spec_ready_workers(
                units,
            )[i]).tag != (#[trigger] spec_ready_workers(units)[j]).tag,
        forall|i: int|
            0 <= i < spec_ready_workers(units).len() ==> exists|k: int|
                0 <= k < units.len() && #[trigger] spec_ready_workers(units)[i] == units[k],
    decreases units.len(),
{
    if units.len() > 0 {
        assert(forall|i: int|
            0 <= i < units.len() - 1 ==> units.drop_last()[i] == #[trigger] units[i]);
        lemma_ready_workers_distinct(units.drop_last());
        let rest = spec_ready_workers(units.drop_last());
        assert forall|i: int| 0 <= i < rest.len() implies exists|k: int|
            0 <= k < units.len() && #[trigger] rest[i] == units[k] by {
            let k = choose|k: int|
                0 <= k < units.drop_last().len() && #[trigger] rest[i] == units.drop_last()[k];
            assert(units.drop_last()[k] == units[k]);
            assert(0 <= k < units.len() && rest[i] == units[k]);
        }
        if units.last().kind == UnitKind::Drone && units.last().is_ready {
            let r = rest.push(units.last());
            assert(units.last() == units[units.len() - 1]);
            assert forall|i: int| 0 <= i < r.len() implies exists|k: int|
                0 <= k < units.len() && #[trigger] r[i] == units[k] by {
                if i < rest.len() {
                    assert(r[i] == rest[i]);
                    let k = choose|k: int| 0 <= k < units.len() && #[trigger] rest[i] == units[k];
                    assert(0 <= k < units.len() && r[i] == units[k]);
                } else {
                    assert(r[i] == units[units.len() - 1]);
                }
            }
            assert forall|i: int, j: int| 0 <= i < j < r.len() implies (#[trigger] r[i]).tag != (
            #[trigger] r[j]).tag by {
                if j == r.len() - 1 {
                    assert(r[i] == rest[i]);
                    let k = choose|k: int| 0 <= k < units.len() && #[trigger] rest[i] == units[k];
                    if k == units.len() - 1 {
                        lemma_ready_prefix_member(units.drop_last(), rest, i);
                    }
                }
            }
        }
    }
}

/// Every selected ready worker equals one element of the list selected
/// from.
proof fn lemma_ready_prefix_member(units: Seq<SnapUnit>, ws: Seq<SnapUnit>, i: int)
    requires
        ws == spec_ready_workers(units),
        0 <= i < ws.len(),
    ensures
        exists|k: int| 0 <= k < units.len() && #[trigger] ws[i] == units[k],
    decreases units.len(),
{
    let rest = spec_ready_workers(units.drop_last());
    if units.len() > 0 {
        if units.last().kind == UnitKind::Drone && units.last().is_ready && i == ws.len() - 1
            && ws.len() == rest.len() + 1 {
            assert(ws[i] == units.last());
            assert(units.last() == units[units.len() - 1]);
        } else {
            lemma_ready_prefix_member(units.drop_last(), rest, i);
            let k = choose|k: int|
                0 <= k < units.drop_last().len() && #[trigger] rest[i] == units.drop_last()[k];
            assert(units.drop_last()[k] == units[k]);
            assert(ws[i] == rest[i]);
            assert(0 <= k < units.len() && ws[i] == units[k]);
        }
    }
}

/// Everything of the engine except the worker task map and the
/// last-seen record.
pub open spec fn spec_same_except_micro(a: crate::bot::FaxBot, b: crate::bot::FaxBot) -> bool {
    &&& a.runtime_options == b.runtime_options
    &&& a.state.bases == b.state.bases
    &&& a.state.build_order == b.state.build_order
    &&& a.state.peak_army == b.state.peak_army
    &&& a.state.desired_workers == b.state.desired_workers
    &&& a.state.desired_gasses == b.state.desired_gasses
    &&& a.state.desired_bases == b.state.desired_bases
    &&& a.state.is_under_attack == b.state.is_under_attack
    &&& a.state.my_structures == b.state.my_structures
    &&& a.state.enemy_units == b.state.enemy_units
    &&& a.state.reserved_expansions == b.state.reserved_expansions
    &&& a.state.micro.enemy_base_locations_by_expansion_order
        == b.state.micro.enemy_base_locations_by_expansion_order
    &&& a.state.map_info == b.state.map_info
}

impl crate::bot::FaxBot {
    /// Assignment pass followed by per-worker order resolution.
    pub fn allocate_workers(&mut self, snap: &Snapshot) -> (cmds: Vec<Command>)
        requires
            old(self).state.wf(),
            snap.wf(),
        ensures
            final(self).state.wf(),
            spec_quota_ok(old(self).state.micro.drones@) ==> spec_quota_ok(
                final(self).state.micro.drones@,
            ),
            // reconciliation retasks workers but never adds or drops
            // entries
            forall|t: u64|
                final(self).state.micro.drones.lookup(t) is Some <==> old(
                    self,
                ).state.micro.drones.lookup(t) is Some,
            // the commands are exactly the order resolutions over the map
            // the assignment pass produced, and the final tasks are that
            // map's per-worker resolutions
            exists|placed: Seq<(u64, DroneTask)>|
                {
                    &&& cmds@ == spec_move_commands(
                        spec_workers(snap.my_units@),
                        placed,
                        snap.my_units@,
                        snap.resources@,
                        old(self).runtime_options.use_tryhard_mining,
                        snap.tick,
                    )
                    &&& (forall|w: u64|
                        #![trigger seq_lookup(placed, w)]
                        spec_reconcile_frame(
                            old(self).state.micro.drones.lookup(w),
                            seq_lookup(placed, w),
                        ))
                    &&& (forall|j: int|
                        0 <= j < spec_workers(snap.my_units@).len()
                            ==> final(self).state.micro.drones.lookup(
                            (#[trigger] spec_workers(snap.my_units@)[j]).tag,
                        ) == (match seq_lookup(placed, spec_workers(snap.my_units@)[j].tag) {
                            Some(t) => Some(
                                spec_resolve_drone(
                                    t,
                                    spec_workers(snap.my_units@)[j],
                                    snap.my_units@,
                                    snap.resources@,
                                    old(self).runtime_options.use_tryhard_mining,
                                    snap.tick,
                                ).1,
                            ),
                            None => None::<DroneTask>,
                        }))
                    &&& (forall|t: u64|
                        !spec_worker_visible(spec_workers(snap.my_units@), t)
                            ==> final(self).state.micro.drones.lookup(t) == seq_lookup(placed, t))
                },
            spec_same_except_drones(*old(self), *final(self)),
    {
        self.place_drones_on_resources(snap);
        let ghost mid = self.state.micro.drones@;
        let cmds = self.move_drones(snap);
        proof {
            if spec_quota_ok(old(self).state.micro.drones@) {
                assert forall|rt: ResourceType, t: u64|
                    spec_gather_count(self.state.micro.drones@, rt, t) <= spec_quota(rt) by {
                    assert(spec_gather_count(mid, rt, t) <= spec_quota(rt));
                }
            }
            let ghost ws = spec_workers(snap.my_units@);
            assert forall|t: u64|
                self.state.micro.drones.lookup(t) is Some <==> old(
                    self,
                ).state.micro.drones.lookup(t) is Some by {
                assert(spec_reconcile_frame(
                    old(self).state.micro.drones.lookup(t),
                    seq_lookup(mid, t),
                ));
                if spec_worker_visible(ws, t) {
                    let j = choose|j: int| 0 <= j < ws.len() && (#[trigger] ws[j]).tag == t;
                } else {
                }
            }
        }
        cmds
    }

    /// The whole worker stage of a tick: liveness pruning, stop orders
    /// for freshly visible workers, contention-resolving assignment, and
    /// idempotent order reissue.
    #[verifier::loop_isolation(false)]
    #[verifier::rlimit(100)]
    pub fn micro_drones(&mut self, snap: &Snapshot) -> (cmds: Vec<Command>)
        requires
            old(self).state.wf(),
            snap.wf(),
        ensures
            final(self).state.wf(),
            // the per-resource quota invariant survives the whole stage
            spec_quota_ok(old(self).state.micro.drones@) ==> spec_quota_ok(
                final(self).state.micro.drones@,
            ),
            // every ready visible worker holds a task entry afterwards
            forall|j: int|
                0 <= j < spec_ready_workers(snap.my_units@).len()
                    ==> final(self).state.micro.drones.lookup(
                    (#[trigger] spec_ready_workers(snap.my_units@)[j]).tag,
                ) is Some,
            // the stage's commands: a stop for every freshly visible
            // ready worker, then the order resolutions over the map the
            // assignment pass produced, whose per-worker resolutions are
            // the final tasks
            exists|placed: Seq<(u64, DroneTask)>|
                #![trigger spec_move_commands(
                    spec_workers(snap.my_units@),
                    placed,
                    snap.my_units@,
                    snap.resources@,
                    old(self).runtime_options.use_tryhard_mining,
                    snap.tick,
                )]
                {
                    let ready = spec_ready_workers(snap.my_units@);
                    let pruned = filter_pairs(
                        old(self).state.micro.drones@,
                        keep_pred(ready, old(self).state.micro.drone_last_seen@, snap.tick),
                    );
                    &&& cmds@ == spec_fresh_stop_cmds(ready, pruned) + spec_move_commands(
                        spec_workers(snap.my_units@),
                        placed,
                        snap.my_units@,
                        snap.resources@,
                        old(self).runtime_options.use_tryhard_mining,
                        snap.tick,
                    )
                    &&& (forall|w: u64|
                        #![trigger seq_lookup(placed, w)]
                        spec_reconcile_frame(
                            seq_lookup(spec_register(pruned, ready), w),
                            seq_lookup(placed, w),
                        ))
                    &&& (forall|j: int|
                        0 <= j < spec_workers(snap.my_units@).len()
                            ==> final(self).state.micro.drones.lookup(
                            (#[trigger] spec_workers(snap.my_units@)[j]).tag,
                        ) == (match seq_lookup(placed, spec_workers(snap.my_units@)[j].tag) {
                            Some(t) => Some(
                                spec_resolve_drone(
                                    t,
                                    spec_workers(snap.my_units@)[j],
                                    snap.my_units@,
                                    snap.resources@,
                                    old(self).runtime_options.use_tryhard_mining,
                                    snap.tick,
                                ).1,
                            ),
                            None => None::<DroneTask>,
                        }))
                    &&& (forall|t: u64|
                        !spec_worker_visible(spec_workers(snap.my_units@), t)
                            ==> final(self).state.micro.drones.lookup(t) == seq_lookup(placed, t))
                },
            // last-seen is refreshed to this tick for every ready
            // visible worker, and untouched for everyone else
            forall|j: int|
                0 <= j < spec_ready_workers(snap.my_units@).len()
                    ==> final(self).state.micro.drone_last_seen.lookup(
                    (#[trigger] spec_ready_workers(snap.my_units@)[j]).tag,
                ) == Some(snap.tick),
            forall|t: u64|
                !spec_worker_visible(spec_ready_workers(snap.my_units@), t)
                    ==> final(self).state.micro.drone_last_seen.lookup(t) == old(
                    self,
                ).state.micro.drone_last_seen.lookup(t),
            // the key set stays within the liveness rule: every surviving
            // entry's worker is ready-visible or within the gas grace
            forall|t: u64|
                final(self).state.micro.drones.lookup(t) is Some ==> (match old(
                    self,
                ).state.micro.drones.lookup(t) {
                    Some(t0) => spec_keeps(
                        (t, t0),
                        spec_ready_workers(snap.my_units@),
                        old(self).state.micro.drone_last_seen@,
                        snap.tick,
                    ),
                    None => spec_worker_visible(spec_ready_workers(snap.my_units@), t),
                }),
            spec_same_except_micro(*old(self), *final(self)),
    {
        let ready = filter_workers(&snap.my_units, true);
        proof {
            lemma_ready_workers_distinct(snap.my_units@);
        }
        self.state.micro.prune_drones(&ready, snap.tick);
        let ghost pruned = self.state.micro.drones@;
        let ghost ls0 = self.state.micro.drone_last_seen@;
        proof {
            // the pruning stage's pointwise guarantee, over the captured view
            assert forall|w: u64|
                seq_lookup(pruned, w) == (match seq_lookup(old(self).state.micro.drones@, w) {
                    Some(t0) => if spec_keeps((w, t0), ready@, ls0, snap.tick) {
                        Some(t0)
                    } else {
                        None::<DroneTask>
                    },
                    None => None::<DroneTask>,
                }) by {
                assert(self.state.micro.drones.lookup(w) == (match old(
                    self,
                ).state.micro.drones.lookup(w) {
                    Some(t0) => if spec_keeps((w, t0), ready@, ls0, snap.tick) {
                        Some(t0)
                    } else {
                        None::<DroneTask>
                    },
                    None => None::<DroneTask>,
                }));
            }
        }
        let mut cmds: Vec<Command> = Vec::new();
        let n = ready.len();
        let mut i: usize = 0;
        proof {
            assert(ready@.take(0) =~= Seq::<SnapUnit>::empty());
        }
        while i < n
            invariant
                i <= n,
                self.state.wf(),
                self.state.micro.drones@ == spec_register(pruned, ready@.take(i as int)),
                cmds@ == spec_fresh_stop_cmds(ready@.take(i as int), pruned),
                forall|rt: ResourceType, t: u64|
                    spec_gather_count(self.state.micro.drones@, rt, t) == spec_gather_count(
                        pruned,
                        rt,
                        t,
                    ),
                forall|j: int|
                    0 <= j < i ==> self.state.micro.drones.lookup(
                        (#[trigger] ready@[j]).tag,
                    ) is Some,
                forall|j: int|
                    0 <= j < i ==> self.state.micro.drone_last_seen.lookup(
                        (#[trigger] ready@[j]).tag,
                    ) == Some(snap.tick),
                forall|t: u64|
                    (forall|j: int| 0 <= j < i ==> (#[trigger] ready@[j]).tag != t)
                        ==> self.state.micro.drone_last_seen.lookup(t) == seq_lookup(ls0, t),
                spec_same_except_micro(*old(self), *self),
            decreases n - i,
        {
            proof {
                assert(ready@.take(i + 1).drop_last() =~= ready@.take(i as int));
                assert(ready@.take(i + 1).last() == ready@[i as int]);
                assert forall|j: int| 0 <= j < i implies (#[trigger] ready@[j]).tag != ready@[
                    i as int].tag by {}
                lemma_register_lookup(pruned, ready@.take(i as int), ready@[i as int].tag);
            }
            let w = &ready[i];
            let missing = match self.state.micro.drones.get(w.tag) {
                None => true,
                Some(_) => false,
            };
            if missing {
                cmds.push(Command::Stop { unit: w.tag, queue: false });
                let ghost before = self.state.micro.drones@;
                self.state.micro.drones.push_new(w.tag, DroneTask::Idle);
                proof {
                    let after = self.state.micro.drones@;
                    assert(after.drop_last() =~= before);
                    assert forall|rt: ResourceType, t: u64|
                        spec_gather_count(after, rt, t) == spec_gather_count(before, rt, t) by {}
                }
            }
            self.state.micro.drone_last_seen.insert(w.tag, snap.tick);
            i += 1;
        }
        proof {
            assert(ready@.take(n as int) =~= ready@);
        }
        let ghost registered = self.state.micro.drones@;
        let more = self.allocate_workers(snap);
        let nm = more.len();
        let mut k: usize = 0;
        let ghost cmds0 = cmds@;
        while k < nm
            invariant
                k <= nm,
                cmds@ == cmds0 + more@.take(k as int),
            decreases nm - k,
        {
            proof {
                assert(more@.take(k + 1) =~= more@.take(k as int).push(more@[k as int]));
            }
            cmds.push(more[k]);
            k += 1;
        }
        proof {
            if spec_quota_ok(old(self).state.micro.drones@) {
                assert forall|rt: ResourceType, t: u64|
                    spec_gather_count(registered, rt, t) <= spec_quota(rt) by {
                    assert(spec_gather_count(registered, rt, t) == spec_gather_count(
                        pruned,
                        rt,
                        t,
                    ));
                    assert(spec_gather_count(pruned, rt, t) <= spec_gather_count(
                        old(self).state.micro.drones@,
                        rt,
                        t,
                    ));
                    assert(spec_gather_count(old(self).state.micro.drones@, rt, t) <= spec_quota(
                        rt,
                    ));
                }
                assert(spec_quota_ok(registered));
            }
            let ready2 = spec_ready_workers(snap.my_units@);
            let pruned2 = filter_pairs(
                old(self).state.micro.drones@,
                keep_pred(ready2, old(self).state.micro.drone_last_seen@, snap.tick),
            );
            assert(ready@ == ready2);
            assert(pruned == pruned2);
            assert(registered == spec_register(pruned2, ready2));
            let ws = spec_workers(snap.my_units@);
            let tryhard = self.runtime_options.use_tryhard_mining;
            // the map the assignment pass produced, from the
            // reconciliation stage's own guarantee
            let placed = choose|placed: Seq<(u64, DroneTask)>|
                {
                    &&& more@ == spec_move_commands(
                        ws,
                        placed,
                        snap.my_units@,
                        snap.resources@,
                        tryhard,
                        snap.tick,
                    )
                    &&& (forall|w: u64|
                        #![trigger seq_lookup(placed, w)]
                        spec_reconcile_frame(seq_lookup(registered, w), seq_lookup(placed, w)))
                    &&& (forall|j: int|
                        0 <= j < ws.len() ==> self.state.micro.drones.lookup(
                            (#[trigger] ws[j]).tag,
                        ) == (match seq_lookup(placed, ws[j].tag) {
                            Some(t) => Some(
                                spec_resolve_drone(
                                    t,
                                    ws[j],
                                    snap.my_units@,
                                    snap.resources@,
                                    tryhard,
                                    snap.tick,
                                ).1,
                            ),
                            None => None::<DroneTask>,
                        }))
                    &&& (forall|t: u64|
                        !spec_worker_visible(ws, t) ==> self.state.micro.drones.lookup(t)
                            == seq_lookup(placed, t))
                };
            assert(cmds@ == spec_fresh_stop_cmds(ready2, pruned2) + spec_move_commands(
                ws,
                placed,
                snap.my_units@,
                snap.resources@,
                tryhard,
                snap.tick,
            ));
            // key set: every surviving entry passed the liveness rule
            assert forall|t: u64| self.state.micro.drones.lookup(t) is Some implies (match old(
                self,
            ).state.micro.drones.lookup(t) {
                Some(t0) => spec_keeps(
                    (t, t0),
                    ready2,
                    old(self).state.micro.drone_last_seen@,
                    snap.tick,
                ),
                None => spec_worker_visible(ready2, t),
            }) by {
                if spec_worker_visible(ws, t) {
                    let j = choose|j: int| 0 <= j < ws.len() && (#[trigger] ws[j]).tag == t;
                    assert(self.state.micro.drones.lookup(ws[j].tag) is Some);
                    assert(seq_lookup(placed, t) is Some);
                } else {
                    assert(seq_lookup(placed, t) is Some);
                }
                assert(spec_reconcile_frame(seq_lookup(registered, t), seq_lookup(placed, t)));
                assert(seq_lookup(registered, t) is Some);
                lemma_register_lookup(pruned2, ready2, t);
                if seq_lookup(pruned2, t) is Some {
                    assert(seq_lookup(pruned, t) is Some);
                    assert(match old(self).state.micro.drones.lookup(t) {
                        Some(t0) => spec_keeps((t, t0), ready@, ls0, snap.tick),
                        None => false,
                    });
                } else {
                    assert(exists|j: int| 0 <= j < ready2.len() && (#[trigger] ready2[j]).tag == t);
                    assert(spec_worker_visible(ready2, t));
                }
            }
        }
        cmds
    }
}

/// Attack-move commands for every listed unit toward one point.
pub open spec fn spec_a_move(units: Seq<SnapUnit>, position: Pos, queue: bool) -> Seq<Command>
    decreases units.len(),
{
    if units.len() == 0 {
        Seq::empty()
    } else {
        spec_a_move(units.drop_last(), position, queue).push(
            Command::Attack {
                unit: units.last().tag,
                target: Target::Ground(position),
                queue,
            },
        )
    }
}

/// The first visible non-flying enemy.
pub open spec fn spec_first_ground_enemy(enemies: Seq<SnapUnit>) -> Option<SnapUnit>
    decreases enemies.len(),
{
    if enemies.len() == 0 {
        None
    } else if !enemies[0].is_flying {
        Some(enemies[0])
    } else {
        spec_first_ground_enemy(enemies.drop_first())
    }
}

/// The first stored enemy base location currently hidden from vision.
pub open spec fn spec_first_hidden(locs: Seq<Pos>, hidden: Seq<bool>) -> Option<Pos>
    decreases locs.len(),
{
    if locs.len() == 0 || hidden.len() < locs.len() {
        None
    } else if hidden[0] {
        Some(locs[0])
    } else {
        spec_first_hidden(locs.drop_first(), hidden.drop_first())
    }
}

/// The idle combat units of a unit list, in order.
pub open spec fn spec_idle_army(units: Seq<SnapUnit>) -> Seq<SnapUnit>
    decreases units.len(),
{
    if units.len() == 0 {
        Seq::empty()
    } else {
        let rest = spec_idle_army(units.drop_last());
        if crate::model::is_army_kind(units.last().kind) && units.last().is_idle {
            rest.push(units.last())
        } else {
            rest
        }
    }
}

/// The army trigger: under attack, a new combat unit just completed, or
/// very-late-game supply.
pub open spec fn spec_army_trigger(
    under_attack: bool,
    army_count: int,
    peak_army: int,
    supply_used: int,
) -> bool {
    under_attack || army_count > peak_army || supply_used >= 150
}

/// Early-scouting orders: during the first second every overlord is
/// sent to the map centre.
pub open spec fn spec_overlord_cmds(units: Seq<SnapUnit>, tick: u64, map: crate::map::MapInfo) -> Seq<
    Command,
>
    decreases units.len(),
{
    if tick >= 22 {
        Seq::empty()
    } else if units.len() == 0 {
        Seq::empty()
    } else {
        let rest = spec_overlord_cmds(units.drop_last(), tick, map);
        if units.last().kind == UnitKind::Overlord {
            rest.push(
                Command::MoveTo {
                    unit: units.last().tag,
                    to: crate::map::spec_midpoint(map),
                    queue: false,
                },
            )
        } else {
            rest
        }
    }
}

impl crate::bot::FaxBot {
    /// Attack-move every listed unit to one point.
    #[verifier::loop_isolation(false)]
    pub fn a_move(&self, units: &Vec<SnapUnit>, position: Pos, queue: bool) -> (cmds: Vec<Command>)
        ensures
            cmds@ == spec_a_move(units@, position, queue),
    {
        crate::util::a_move(units, position, queue)
    }

    /// Target selection, in priority order: the nearest-listed visible
    /// ground enemy; else the first stored enemy base location hidden
    /// from vision; else a uniformly random map point.
    pub fn determine_most_important_target(&self, snap: &Snapshot) -> (r: Pos)
        requires
            self.state.wf(),
            snap.expansion_hidden@.len()
                >= self.state.micro.enemy_base_locations_by_expansion_order@.len(),
        ensures
            match spec_first_ground_enemy(snap.enemy_units@) {
                Some(u) => r == u.pos,
                None => match spec_first_hidden(
                    self.state.micro.enemy_base_locations_by_expansion_order@,
                    snap.expansion_hidden@,
                ) {
                    Some(p) => r == p,
                    None => r.in_bounds(),
                },
            },
    {
        let ne = snap.enemy_units.len();
        let mut i: usize = 0;
        proof {
            assert(snap.enemy_units@.skip(0) =~= snap.enemy_units@);
        }
        #[verifier::loop_isolation(false)]
        while i < ne
            invariant
                i <= ne,
                spec_first_ground_enemy(snap.enemy_units@) == spec_first_ground_enemy(
                    snap.enemy_units@.skip(i as int),
                ),
            decreases ne - i,
        {
            proof {
                assert(snap.enemy_units@.skip(i as int)[0] == snap.enemy_units@[i as int]);
                assert(snap.enemy_units@.skip(i as int).drop_first() =~= snap.enemy_units@.skip(
                    i + 1,
                ));
            }
            if !snap.enemy_units[i].is_flying {
                return snap.enemy_units[i].pos;
            }
            i += 1;
        }
        proof {
            assert(snap.enemy_units@.skip(ne as int) =~= Seq::<SnapUnit>::empty());
        }
        let locs = &self.state.micro.enemy_base_locations_by_expansion_order;
        let nl = locs.len();
        let mut j: usize = 0;
        proof {
            assert(locs@.skip(0) =~= locs@);
            assert(snap.expansion_hidden@.skip(0) =~= snap.expansion_hidden@);
        }
        #[verifier::loop_isolation(false)]
        while j < nl
            invariant
                j <= nl,
                spec_first_hidden(locs@, snap.expansion_hidden@) == spec_first_hidden(
                    locs@.skip(j as int),
                    snap.expansion_hidden@.skip(j as int),
                ),
            decreases nl - j,
        {
            proof {
                assert(locs@.skip(j as int)[0] == locs@[j as int]);
                assert(snap.expansion_hidden@.skip(j as int)[0] == snap.expansion_hidden@[j as int]);
                assert(locs@.skip(j as int).drop_first() =~= locs@.skip(j + 1));
                assert(snap.expansion_hidden@.skip(j as int).drop_first()
                    =~= snap.expansion_hidden@.skip(j + 1));
            }
            if snap.expansion_hidden[j] {
                return locs[j];
            }
            j += 1;
        }
        proof {
            assert(locs@.skip(nl as int) =~= Seq::<Pos>::empty());
        }
        self.state.map_info.get_random_point()
    }

    /// Early scouting: send every overlord to the map centre during the
    /// first second of the game.
    #[verifier::loop_isolation(false)]
    pub fn move_overlords(&self, snap: &Snapshot) -> (cmds: Vec<Command>)
        requires
            self.state.wf(),
        ensures
            cmds@ == spec_overlord_cmds(snap.my_units@, snap.tick, self.state.map_info),
    {
        let mut cmds: Vec<Command> = Vec::new();
        if snap.tick < 22 {
            let midpoint = self.state.map_info.midpoint();
            let n = snap.my_units.len();
            let mut i: usize = 0;
            proof {
                assert(snap.my_units@.take(0) =~= Seq::<SnapUnit>::empty());
            }
            while i < n
                invariant
                    i <= n,
                    cmds@ == spec_overlord_cmds(
                        snap.my_units@.take(i as int),
                        snap.tick,
                        self.state.map_info,
                    ),
                decreases n - i,
            {
                proof {
                    assert(snap.my_units@.take(i + 1).drop_last() =~= snap.my_units@.take(i as int));
                    assert(snap.my_units@.take(i + 1).last() == snap.my_units@[i as int]);
                }
                if snap.my_units[i].kind == UnitKind::Overlord {
                    cmds.push(
                        Command::MoveTo { unit: snap.my_units[i].tag, to: midpoint, queue: false },
                    );
                }
                i += 1;
            }
            proof {
                assert(snap.my_units@.take(n as int) =~= snap.my_units@);
            }
        }
        cmds
    }

    /// The army stage of the tick: when the trigger fires, attack-move
    /// every idle combat unit to the chosen target and update the peak
    /// watermark to the current combat-unit count.
    #[verifier::loop_isolation(false)]
    pub fn perform_army_micro(&mut self, snap: &Snapshot, target: Pos) -> (cmds: Vec<Command>)
        requires
            old(self).state.wf(),
            snap.wf(),
        ensures
            final(self).state.wf(),
            cmds@ == (if spec_army_trigger(
                old(self).state.is_under_attack,
                crate::model::spec_count_kind(snap.my_units@, UnitKind::Roach)
                    + crate::model::spec_count_kind(snap.my_units@, UnitKind::Hydralisk),
                old(self).state.peak_army as int,
                snap.supply_used as int,
            ) && spec_idle_army(snap.my_units@).len() > 0 {
                spec_a_move(spec_idle_army(snap.my_units@), target, false)
            } else {
                Seq::<Command>::empty()
            }),
            final(self).state.peak_army == (if spec_army_trigger(
                old(self).state.is_under_attack,
                crate::model::spec_count_kind(snap.my_units@, UnitKind::Roach)
                    + crate::model::spec_count_kind(snap.my_units@, UnitKind::Hydralisk),
                old(self).state.peak_army as int,
                snap.supply_used as int,
            ) {
                crate::model::spec_count_kind(snap.my_units@, UnitKind::Roach)
                    + crate::model::spec_count_kind(snap.my_units@, UnitKind::Hydralisk)
            } else {
                old(self).state.peak_army as int
            }),
            final(self).state.micro.drones == old(self).state.micro.drones,
            final(self).state.micro.drone_last_seen == old(self).state.micro.drone_last_seen,
            final(self).state.micro.enemy_base_locations_by_expansion_order == old(
                self,
            ).state.micro.enemy_base_locations_by_expansion_order,
            final(self).state.my_structures == old(self).state.my_structures,
            final(self).state.enemy_units == old(self).state.enemy_units,
            final(self).state.bases == old(self).state.bases,
            final(self).state.build_order == old(self).state.build_order,
            final(self).state.desired_workers == old(self).state.desired_workers,
            final(self).state.desired_gasses == old(self).state.desired_gasses,
            final(self).state.desired_bases == old(self).state.desired_bases,
            final(self).state.is_under_attack == old(self).state.is_under_attack,
            final(self).state.reserved_expansions == old(self).state.reserved_expansions,
            final(self).state.map_info == old(self).state.map_info,
            final(self).runtime_options == old(self).runtime_options,
    {
        proof {
            crate::model::lemma_spec_count_kind_bounds(snap.my_units@, UnitKind::Roach);
            crate::model::lemma_spec_count_kind_bounds(snap.my_units@, UnitKind::Hydralisk);
        }
        let army_count = crate::model::count_kind(&snap.my_units, UnitKind::Roach)
            + crate::model::count_kind(&snap.my_units, UnitKind::Hydralisk);
        let trigger = self.state.is_under_attack || army_count > self.state.peak_army
            || snap.supply_used >= 150;
        let mut cmds: Vec<Command> = Vec::new();
        if trigger {
            let idle_army = filter_idle_army(&snap.my_units);
            if idle_army.len() > 0 {
                let mut i: usize = 0;
                let n = idle_army.len();
                proof {
                    assert(idle_army@.take(0) =~= Seq::<SnapUnit>::empty());
                }
                while i < n
                    invariant
                        i <= n,
                        cmds@ == spec_a_move(idle_army@.take(i as int), target, false),
                    decreases n - i,
                {
                    proof {
                        assert(idle_army@.take(i + 1).drop_last() =~= idle_army@.take(i as int));
                        assert(idle_army@.take(i + 1).last() == idle_army@[i as int]);
                    }
                    cmds.push(
                        Command::Attack {
                            unit: idle_army[i].tag,
                            target: Target::Ground(target),
                            queue: false,
                        },
                    );
                    i += 1;
                }
                proof {
                    assert(idle_army@.take(n as int) =~= idle_army@);
                }
            }
            self.state.peak_army = army_count;
        }
        cmds
    }
}

/// The idle combat units of the snapshot.
#[verifier::loop_isolation(false)]
fn filter_idle_army(units: &Vec<SnapUnit>) -> (r: Vec<SnapUnit>)
    ensures
        r@ == spec_idle_army(units@),
{
    let n = units.len();
    let mut out: Vec<SnapUnit> = Vec::new();
    let mut i: usize = 0;
    proof {
        assert(units@.take(0) =~= Seq::<SnapUnit>::empty());
    }
    while i < n
        invariant
            i <= n,
            out@ == spec_idle_army(units@.take(i as int)),
        decreases n - i,
    {
        proof {
            assert(units@.take(i + 1).drop_last() =~= units@.take(i as int));
            assert(units@.take(i + 1).last() == units@[i as int]);
        }
        let u = &units[i];
        let is_army = u.kind == UnitKind::Zergling || u.kind == UnitKind::Roach || u.kind
            == UnitKind::Hydralisk;
        if is_army && u.is_idle {
            out.push(*u);
        }
        i += 1;
    }
    proof {
        assert(units@.take(n as int) =~= units@);
    }
    out
}

/// The depots of a unit list, in order.
pub open spec fn spec_townhalls(units: Seq<SnapUnit>) -> Seq<SnapUnit>
    decreases units.len(),
{
    if units.len() == 0 {
        Seq::empty()
    } else {
        let rest = spec_townhalls(units.drop_last());
        if crate::model::is_townhall_kind(units.last().kind) {
            rest.push(units.last())
        } else {
            rest
        }
    }
}

/// The idle caster units of a unit list, in order.
pub open spec fn spec_idle_queens(units: Seq<SnapUnit>) -> Seq<SnapUnit>
    decreases units.len(),
{
    if units.len() == 0 {
        Seq::empty()
    } else {
        let rest = spec_idle_queens(units.drop_last());
        if units.last().kind == UnitKind::Queen && units.last().is_idle {
            rest.push(units.last())
        } else {
            rest
        }
    }
}

/// Index of the nearest pool member strictly within `rsq`, earliest on
/// ties; `None` when no member is within range.
pub open spec fn spec_nearest_within(pool: Seq<SnapUnit>, p: Pos, rsq: int) -> Option<int>
    decreases pool.len(),
{
    if pool.len() == 0 {
        None
    } else {
        let rest = spec_nearest_within(pool.drop_last(), p, rsq);
        let last_d = crate::geom::dist_sq(pool.last().pos, p);
        if last_d < rsq && (match rest {
            Some(i) => last_d < crate::geom::dist_sq(pool[i].pos, p),
            None => true,
        }) {
            Some(pool.len() - 1)
        } else {
            rest
        }
    }
}

/// Greedy nearest-unassigned matching of idle casters to depots: each
/// depot claims its nearest idle caster within range; depots left
/// without one are returned with the unclaimed pool.
pub open spec fn spec_match_queens(townhalls: Seq<SnapUnit>, pool: Seq<SnapUnit>) -> (
    Seq<SnapUnit>,
    Seq<SnapUnit>,
)
    decreases townhalls.len(),
{
    if townhalls.len() == 0 {
        (Seq::empty(), pool)
    } else {
        match spec_nearest_within(
            pool,
            townhalls[0].pos,
            (8 * SCALE as int) * (8 * SCALE as int),
        ) {
            Some(i) => spec_match_queens(townhalls.drop_first(), pool.remove(i)),
            None => {
                let rest = spec_match_queens(townhalls.drop_first(), pool);
                (seq![townhalls[0]].add(rest.0), rest.1)
            },
        }
    }
}

/// Send the unclaimed casters to the depots left without one, one each,
/// taken from the back of the pool.
pub open spec fn spec_queen_reposition_cmds(unq: Seq<SnapUnit>, rem: Seq<SnapUnit>) -> Seq<Command>
    decreases unq.len(),
{
    if unq.len() == 0 || rem.len() == 0 {
        Seq::empty()
    } else {
        seq![
            Command::Attack {
                unit: rem.last().tag,
                target: Target::Ground(unq[0].pos),
                queue: false,
            },
        ].add(spec_queen_reposition_cmds(unq.drop_first(), rem.drop_last()))
    }
}

/// The first listed caster within claiming range of `p` (inclusive).
pub open spec fn spec_first_queen_near(queens: Seq<SnapUnit>, p: Pos) -> Option<SnapUnit>
    decreases queens.len(),
{
    if queens.len() == 0 {
        None
    } else if crate::geom::dist_sq(queens[0].pos, p) <= (8 * SCALE as int) * (8 * SCALE as int) {
        Some(queens[0])
    } else {
        spec_first_queen_near(queens.drop_first(), p)
    }
}

/// Ability commands of the caster stage: for each depot not under the
/// production buff, the first energetic idle caster in range spends the
/// ability on it.
pub open spec fn spec_inject_cmds(townhalls: Seq<SnapUnit>, queens: Seq<SnapUnit>) -> Seq<Command>
    decreases townhalls.len(),
{
    if townhalls.len() == 0 {
        Seq::empty()
    } else {
        let rest = spec_inject_cmds(townhalls.drop_last(), queens);
        let h = townhalls.last();
        if !h.has_inject_buff {
            match spec_first_queen_near(queens, h.pos) {
                Some(q) => rest.push(
                    Command::UseAbility {
                        unit: q.tag,
                        ability: Ability::InjectLarva,
                        target: Target::Entity(h.tag),
                        queue: true,
                    },
                ),
                None => rest,
            }
        } else {
            rest
        }
    }
}

/// Append `src` to `dst`.
#[verifier::loop_isolation(false)]
fn append_commands(dst: &mut Vec<Command>, src: &Vec<Command>)
    ensures
        final(dst)@ == old(dst)@ + src@,
{
    let n = src.len();
    let ghost d0 = dst@;
    let mut i: usize = 0;
    proof {
        assert(d0 + src@.take(0) =~= d0);
    }
    while i < n
        invariant
            i <= n,
            dst@ == d0 + src@.take(i as int),
        decreases n - i,
    {
        proof {
            assert(d0 + src@.take(i + 1) =~= (d0 + src@.take(i as int)).push(src@[i as int]));
        }
        dst.push(src[i]);
        i += 1;
    }
    proof {
        assert(src@.take(n as int) =~= src@);
    }
}

/// Index of the nearest pool member strictly within `rsq`, if any.
#[verifier::loop_isolation(false)]
fn nearest_within(pool: &Vec<SnapUnit>, p: Pos, rsq: u64) -> (r: Option<usize>)
    requires
        p.in_bounds(),
        forall|i: int| 0 <= i < pool@.len() ==> (#[trigger] pool@[i]).pos.in_bounds(),
    ensures
        match r {
            Some(i) => Some(i as int) == spec_nearest_within(pool@, p, rsq as int) && i
                < pool@.len(),
            None => spec_nearest_within(pool@, p, rsq as int) is None,
        },
{
    let n = pool.len();
    let mut best: Option<usize> = None;
    let mut i: usize = 0;
    proof {
        assert(pool@.take(0) =~= Seq::<SnapUnit>::empty());
    }
    while i < n
        invariant
            i <= n,
            match best {
                Some(b) => b < i && Some(b as int) == spec_nearest_within(
                    pool@.take(i as int),
                    p,
                    rsq as int,
                ),
                None => spec_nearest_within(pool@.take(i as int), p, rsq as int) is None,
            },
        decreases n - i,
    {
        proof {
            assert(pool@.take(i + 1).drop_last() =~= pool@.take(i as int));
            assert(pool@.take(i + 1).last() == pool@[i as int]);
            assert(forall|j: int|
                0 <= j < i ==> pool@.take(i + 1)[j] == #[trigger] pool@.take(i as int)[j]);
        }
        let d = crate::geom::distance_sq(pool[i].pos, p);
        if d < rsq {
            let better = match best {
                Some(b) => d < crate::geom::distance_sq(pool[b].pos, p),
                None => true,
            };
            if better {
                best = Some(i);
            }
        }
        i += 1;
    }
    proof {
        assert(pool@.take(n as int) =~= pool@);
    }
    best
}

impl crate::bot::FaxBot {
    /// Reposition idle casters: each depot claims its nearest idle
    /// caster in range; leftover casters are sent to the depots left
    /// without one.
    #[verifier::loop_isolation(false)]
    #[verifier::rlimit(100)]
    pub fn position_queens(&self, snap: &Snapshot) -> (cmds: Vec<Command>)
        requires
            self.state.wf(),
            snap.wf(),
        ensures
            ({
                let matched = spec_match_queens(
                    spec_townhalls(snap.my_units@),
                    spec_idle_queens(snap.my_units@),
                );
                cmds@ == spec_queen_reposition_cmds(matched.0, matched.1)
            }),
    {
        let townhalls = filter_townhalls(&snap.my_units);
        let mut pool = filter_idle_queens(&snap.my_units);
        proof {
            lemma_selected_units_wf(snap.my_units@);
        }
        let ghost ths = townhalls@;
        let ghost pool0 = pool@;
        let nt = townhalls.len();
        let mut unqueened: Vec<SnapUnit> = Vec::new();
        let mut i: usize = 0;
        proof {
            assert(ths.skip(0) =~= ths);
        }
        while i < nt
            invariant
                i <= nt,
                forall|j: int| 0 <= j < pool@.len() ==> (#[trigger] pool@[j]).pos.in_bounds(),
                spec_match_queens(ths, pool0) == ({
                    let rest = spec_match_queens(ths.skip(i as int), pool@);
                    (unqueened@ + rest.0, rest.1)
                }),
            decreases nt - i,
        {
            proof {
                assert(ths.skip(i as int)[0] == ths[i as int]);
                assert(ths.skip(i as int).drop_first() =~= ths.skip(i + 1));
            }
            let h = townhalls[i];
            proof {
                assert((8 * SCALE as int) * (8 * SCALE as int) == 262144) by (nonlinear_arith)
                    requires
                        SCALE == 64,
                ;
            }
            let found = nearest_within(&pool, h.pos, 262144u64);
            match found {
                Some(bi) => {
                    let ghost pool_pre = pool@;
                    pool.remove(bi);
                    proof {
                        assert forall|j: int| 0 <= j < pool@.len() implies (
                        #[trigger] pool@[j]).pos.in_bounds() by {
                            assert(pool@[j] == pool_pre.remove(bi as int)[j]);
                            assert(pool_pre.remove(bi as int)[j] == pool_pre[if j < bi {
                                j
                            } else {
                                j + 1
                            }]);
                        }
                    }
                },
                None => {
                    unqueened.push(h);
                    proof {
                        assert(unqueened@ + spec_match_queens(ths.skip(i + 1), pool@).0
                            =~= unqueened@.drop_last() + (seq![ths[i as int]].add(
                            spec_match_queens(ths.skip(i + 1), pool@).0,
                        )));
                    }
                },
            }
            i += 1;
        }
        proof {
            assert(ths.skip(nt as int) =~= Seq::<SnapUnit>::empty());
            assert(unqueened@ + Seq::<SnapUnit>::empty() =~= unqueened@);
        }
        // send leftover casters to the depots lacking one
        let ghost unq = unqueened@;
        let ghost rem = pool@;
        let nu = unqueened.len();
        let mut cmds: Vec<Command> = Vec::new();
        let mut k: usize = 0;
        proof {
            assert(unq.skip(0) =~= unq);
        }
        while k < nu
            invariant
                k <= nu,
                pool@ == rem.take(rem.len() - min_int(k as int, rem.len() as int)),
                spec_queen_reposition_cmds(unq, rem) == cmds@ + spec_queen_reposition_cmds(
                    unq.skip(k as int),
                    pool@,
                ),
            decreases nu - k,
        {
            proof {
                assert(unq.skip(k as int)[0] == unq[k as int]);
                assert(unq.skip(k as int).drop_first() =~= unq.skip(k + 1));
            }
            match pool.pop() {
                Some(q) => {
                    proof {
                        let rlen = rem.len() as int;
                        let cur = rem.take(rlen - min_int(k as int, rlen));
                        assert(cur.len() > 0);
                        assert(q == cur.last());
                        assert(cur.drop_last() =~= rem.take(rlen - min_int(k as int + 1, rlen)));
                        assert(cmds@.push(
                            Command::Attack {
                                unit: q.tag,
                                target: Target::Ground(unq[k as int].pos),
                                queue: false,
                            },
                        ) + spec_queen_reposition_cmds(unq.skip(k + 1), cur.drop_last()) =~= cmds@
                            + (seq![
                            Command::Attack {
                                unit: q.tag,
                                target: Target::Ground(unq[k as int].pos),
                                queue: false,
                            },
                        ].add(spec_queen_reposition_cmds(unq.skip(k + 1), cur.drop_last()))));
                    }
                    cmds.push(
                        Command::Attack { unit: q.tag, target: Target::Ground(h_pos(&unqueened, k)), queue: false },
                    );
                },
                None => {
                    proof {
                        assert(pool@.len() == 0);
                        assert(cmds@ + spec_queen_reposition_cmds(unq.skip(k as int), pool@) =~= cmds@);
                    }
                },
            }
            k += 1;
        }
        proof {
            if nu <= rem.len() {
            }
            assert(unq.skip(nu as int) =~= Seq::<SnapUnit>::empty());
            assert(cmds@ + spec_queen_reposition_cmds(unq.skip(nu as int), pool@) =~= cmds@);
        }
        cmds
    }
}

impl crate::bot::FaxBot {
    /// Caster ability scheduling: for each depot not under the
    /// production buff, the first idle caster in range whose energy
    /// covers the fixed ability cost spends it on the depot.
    #[verifier::loop_isolation(false)]
    pub fn inject_larva_commands(&self, snap: &Snapshot) -> (cmds: Vec<Command>)
        requires
            self.state.wf(),
            snap.wf(),
        ensures
            cmds@ == spec_inject_cmds(
                spec_townhalls(snap.my_units@),
                spec_energetic_idle_queens(snap.my_units@),
            ),
    {
        let townhalls = filter_townhalls(&snap.my_units);
        let ready_queens = filter_energetic_idle_queens(&snap.my_units, self);
        proof {
            lemma_selected_units_wf(snap.my_units@);
            lemma_energetic_queens_wf(snap.my_units@);
        }
        let ghost ths = townhalls@;
        let nt = townhalls.len();
        let mut cmds: Vec<Command> = Vec::new();
        let mut i: usize = 0;
        proof {
            assert(ths.take(0) =~= Seq::<SnapUnit>::empty());
        }
        while i < nt
            invariant
                i <= nt,
                cmds@ == spec_inject_cmds(ths.take(i as int), ready_queens@),
            decreases nt - i,
        {
            proof {
                assert(ths.take(i + 1).drop_last() =~= ths.take(i as int));
                assert(ths.take(i + 1).last() == ths[i as int]);
            }
            let h = townhalls[i];
            if !h.has_inject_buff {
                match first_queen_near(&ready_queens, h.pos) {
                    Some(q) => {
                        cmds.push(
                            Command::UseAbility {
                                unit: q.tag,
                                ability: Ability::InjectLarva,
                                target: Target::Entity(h.tag),
                                queue: true,
                            },
                        );
                    },
                    None => {},
                }
            }
            i += 1;
        }
        proof {
            assert(ths.take(nt as int) =~= ths);
        }
        cmds
    }
}

/// What the whole micro stage guarantees of its commands and the
/// engine state.
pub open spec fn spec_micro_outcome(
    pre: crate::bot::FaxBot,
    post: crate::bot::FaxBot,
    snap: Snapshot,
    cmds: Seq<Command>,
) -> bool {
    &&& ({
            // the per-resource quota invariant survives the whole tick
            spec_quota_ok(pre.state.micro.drones@) ==> spec_quota_ok(
                post.state.micro.drones@,
            )
    })
    &&& ({
            // the rolling watermark is updated exactly when the army
            // trigger fires
            post.state.peak_army == (if spec_army_trigger(
                pre.state.is_under_attack,
                crate::model::spec_count_kind(snap.my_units@, UnitKind::Roach)
                    + crate::model::spec_count_kind(snap.my_units@, UnitKind::Hydralisk),
                pre.state.peak_army as int,
                snap.supply_used as int,
            ) {
                crate::model::spec_count_kind(snap.my_units@, UnitKind::Roach)
                    + crate::model::spec_count_kind(snap.my_units@, UnitKind::Hydralisk)
            } else {
                pre.state.peak_army as int
            })
    })
    &&& ({
            // every ready visible worker holds a task entry afterwards
            forall|j: int|
                0 <= j < spec_ready_workers(snap.my_units@).len()
                    ==> post.state.micro.drones.lookup(
                    (#[trigger] spec_ready_workers(snap.my_units@)[j]).tag,
                ) is Some
    })
    &&& ({
            post.state.is_under_attack == pre.state.is_under_attack
    })
    &&& ({
            post.state.bases == pre.state.bases
    })
    &&& ({
            post.state.build_order == pre.state.build_order
    })
    &&& ({
            post.state.desired_workers == pre.state.desired_workers
    })
    &&& ({
            post.state.desired_gasses == pre.state.desired_gasses
    })
    &&& ({
            post.state.desired_bases == pre.state.desired_bases
    })
    &&& ({
            post.state.my_structures == pre.state.my_structures
    })
    &&& ({
            post.state.enemy_units == pre.state.enemy_units
    })
    &&& ({
            post.state.reserved_expansions == pre.state.reserved_expansions
    })
    &&& ({
            post.state.map_info == pre.state.map_info
    })
    &&& ({
            post.runtime_options == pre.runtime_options
    })
    &&& ({
            // the stage's commands, in order: overlord scouting, the
            // army attack-move when the trigger fires, caster
            // repositioning, caster abilities, and the worker stage
            exists|target: Pos, placed: Seq<(u64, DroneTask)>|
                #![trigger spec_a_move(spec_idle_army(snap.my_units@), target, false), spec_move_commands(
                    spec_workers(snap.my_units@),
                    placed,
                    snap.my_units@,
                    snap.resources@,
                    pre.runtime_options.use_tryhard_mining,
                    snap.tick,
                )]
                {
                    let ready = spec_ready_workers(snap.my_units@);
                    let pruned = filter_pairs(
                        pre.state.micro.drones@,
                        keep_pred(ready, pre.state.micro.drone_last_seen@, snap.tick),
                    );
                    let matched = spec_match_queens(
                        spec_townhalls(snap.my_units@),
                        spec_idle_queens(snap.my_units@),
                    );
                    &&& (match crate::micro::spec_first_ground_enemy(snap.enemy_units@) {
                        Some(u) => target == u.pos,
                        None => match spec_first_hidden(
                            pre.state.micro.enemy_base_locations_by_expansion_order@,
                            snap.expansion_hidden@,
                        ) {
                            Some(p) => target == p,
                            None => target.in_bounds(),
                        },
                    })
                    &&& cmds == spec_overlord_cmds(
                        snap.my_units@,
                        snap.tick,
                        pre.state.map_info,
                    ) + (if spec_army_trigger(
                        pre.state.is_under_attack,
                        crate::model::spec_count_kind(snap.my_units@, UnitKind::Roach)
                            + crate::model::spec_count_kind(snap.my_units@, UnitKind::Hydralisk),
                        pre.state.peak_army as int,
                        snap.supply_used as int,
                    ) && spec_idle_army(snap.my_units@).len() > 0 {
                        spec_a_move(spec_idle_army(snap.my_units@), target, false)
                    } else {
                        Seq::<Command>::empty()
                    }) + spec_queen_reposition_cmds(matched.0, matched.1) + spec_inject_cmds(
                        spec_townhalls(snap.my_units@),
                        spec_energetic_idle_queens(snap.my_units@),
                    ) + spec_fresh_stop_cmds(ready, pruned) + spec_move_commands(
                        spec_workers(snap.my_units@),
                        placed,
                        snap.my_units@,
                        snap.resources@,
                        pre.runtime_options.use_tryhard_mining,
                        snap.tick,
                    )
                    &&& (forall|w: u64|
                        #![trigger seq_lookup(placed, w)]
                        spec_reconcile_frame(
                            seq_lookup(spec_register(pruned, ready), w),
                            seq_lookup(placed, w),
                        ))
                }
    })
}

impl crate::bot::FaxBot {
    /// The whole micro stage of a tick: early overlord scouting, the
    /// army attack trigger with its rolling peak watermark, caster
    /// repositioning and ability scheduling, and the worker stage.
    #[verifier::rlimit(100)]
    pub fn perform_micro(&mut self, snap: &Snapshot) -> (cmds: Vec<Command>)
        requires
            old(self).state.wf(),
            snap.wf(),
            snap.expansion_hidden@.len() >= old(
                self,
            ).state.micro.enemy_base_locations_by_expansion_order@.len(),
        ensures
            final(self).state.wf(),
            spec_micro_outcome(*old(self), *final(self), *snap, cmds@),
            // the key set stays within the liveness rule
            forall|t: u64|
                final(self).state.micro.drones.lookup(t) is Some ==> (match old(
                    self,
                ).state.micro.drones.lookup(t) {
                    Some(t0) => spec_keeps(
                        (t, t0),
                        spec_ready_workers(snap.my_units@),
                        old(self).state.micro.drone_last_seen@,
                        snap.tick,
                    ),
                    None => spec_worker_visible(spec_ready_workers(snap.my_units@), t),
                }),
    {
        let mut cmds = self.move_overlords(snap);
        let target = self.determine_most_important_target(snap);
        let army = self.perform_army_micro(snap, target);
        append_commands(&mut cmds, &army);
        let queen_moves = self.position_queens(snap);
        append_commands(&mut cmds, &queen_moves);
        let injects = self.inject_larva_commands(snap);
        append_commands(&mut cmds, &injects);
        let ghost pre_worker = *self;
        let ghost cmds_pre = cmds@;
        let worker_cmds = self.micro_drones(snap);
        append_commands(&mut cmds, &worker_cmds);
        proof {
            let units = snap.my_units@;
            let ready = spec_ready_workers(units);
            let pruned = filter_pairs(
                pre_worker.state.micro.drones@,
                keep_pred(ready, pre_worker.state.micro.drone_last_seen@, snap.tick),
            );
            let tryhard = pre_worker.runtime_options.use_tryhard_mining;
            // the worker stage's command split, from its own guarantee
            let placed = choose|placed: Seq<(u64, DroneTask)>|
                #![trigger spec_move_commands(
                    spec_workers(units),
                    placed,
                    units,
                    snap.resources@,
                    tryhard,
                    snap.tick,
                )]
                {
                    &&& worker_cmds@ == spec_fresh_stop_cmds(ready, pruned) + spec_move_commands(
                        spec_workers(units),
                        placed,
                        units,
                        snap.resources@,
                        tryhard,
                        snap.tick,
                    )
                    &&& (forall|w: u64|
                        #![trigger seq_lookup(placed, w)]
                        spec_reconcile_frame(
                            seq_lookup(spec_register(pruned, ready), w),
                            seq_lookup(placed, w),
                        ))
                };
            assert(pre_worker.state.micro.drones@ == old(self).state.micro.drones@);
            assert(pre_worker.state.micro.drone_last_seen@ == old(
                self,
            ).state.micro.drone_last_seen@);
            assert(tryhard == old(self).runtime_options.use_tryhard_mining);
            assert(spec_move_commands(
                spec_workers(units),
                placed,
                units,
                snap.resources@,
                old(self).runtime_options.use_tryhard_mining,
                snap.tick,
            ) == spec_move_commands(
                spec_workers(units),
                placed,
                units,
                snap.resources@,
                tryhard,
                snap.tick,
            ));
            assert(spec_a_move(spec_idle_army(units), target, false) == spec_a_move(
                spec_idle_army(snap.my_units@),
                target,
                false,
            ));
            assert(cmds@ =~= spec_overlord_cmds(units, snap.tick, old(self).state.map_info) + (
            if spec_army_trigger(
                old(self).state.is_under_attack,
                crate::model::spec_count_kind(units, UnitKind::Roach)
                    + crate::model::spec_count_kind(units, UnitKind::Hydralisk),
                old(self).state.peak_army as int,
                snap.supply_used as int,
            ) && spec_idle_army(units).len() > 0 {
                spec_a_move(spec_idle_army(units), target, false)
            } else {
                Seq::<Command>::empty()
            }) + spec_queen_reposition_cmds(
                spec_match_queens(spec_townhalls(units), spec_idle_queens(units)).0,
                spec_match_queens(spec_townhalls(units), spec_idle_queens(units)).1,
            ) + spec_inject_cmds(spec_townhalls(units), spec_energetic_idle_queens(units))
                + spec_fresh_stop_cmds(ready, pruned) + spec_move_commands(
                spec_workers(units),
                placed,
                units,
                snap.resources@,
                tryhard,
                snap.tick,
            ));
        }
        cmds
    }
}

/// The idle casters whose energy covers the ability cost.
pub open spec fn spec_energetic_idle_queens(units: Seq<SnapUnit>) -> Seq<SnapUnit>
    decreases units.len(),
{
    if units.len() == 0 {
        Seq::empty()
    } else {
        let rest = spec_energetic_idle_queens(units.drop_last());
        if units.last().kind == UnitKind::Queen && units.last().is_idle && units.last().energy
            >= 25 {
            rest.push(units.last())
        } else {
            rest
        }
    }
}

#[verifier::loop_isolation(false)]
fn filter_energetic_idle_queens(units: &Vec<SnapUnit>, bot: &crate::bot::FaxBot) -> (r: Vec<
    SnapUnit,
>)
    ensures
        r@ == spec_energetic_idle_queens(units@),
{
    let cost = bot.energy_cost(Ability::InjectLarva).unwrap();
    let n = units.len();
    let mut out: Vec<SnapUnit> = Vec::new();
    let mut i: usize = 0;
    proof {
        assert(units@.take(0) =~= Seq::<SnapUnit>::empty());
    }
    while i < n
        invariant
            i <= n,
            cost == 25,
            out@ == spec_energetic_idle_queens(units@.take(i as int)),
        decreases n - i,
    {
        proof {
            assert(units@.take(i + 1).drop_last() =~= units@.take(i as int));
            assert(units@.take(i + 1).last() == units@[i as int]);
        }
        if units[i].kind == UnitKind::Queen && units[i].is_idle && units[i].energy >= (
        cost as u64) {
            out.push(units[i]);
        }
        i += 1;
    }
    proof {
        assert(units@.take(n as int) =~= units@);
    }
    out
}

proof fn lemma_energetic_queens_wf(units: Seq<SnapUnit>)
    requires
        forall|i: int| 0 <= i < units.len() ==> (#[trigger] units[i]).wf(),
    ensures
        forall|i: int|
            0 <= i < spec_energetic_idle_queens(units).len() ==> (
            #[trigger] spec_energetic_idle_queens(units)[i]).pos.in_bounds(),
    decreases units.len(),
{
    if units.len() > 0 {
        assert(forall|i: int|
            0 <= i < units.len() - 1 ==> units.drop_last()[i] == #[trigger] units[i]);
        lemma_energetic_queens_wf(units.drop_last());
        assert(units.last() == units[units.len() - 1]);
        let rq = spec_energetic_idle_queens(units.drop_last());
        if units.last().kind == UnitKind::Queen && units.last().is_idle && units.last().energy
            >= 25 {
            assert(forall|i: int|
                0 <= i < rq.len() ==> rq.push(units.last())[i] == #[trigger] rq[i]);
        }
    }
}

/// The first listed caster within claiming range of `p`.
#[verifier::loop_isolation(false)]
fn first_queen_near(queens: &Vec<SnapUnit>, p: Pos) -> (r: Option<SnapUnit>)
    requires
        p.in_bounds(),
        forall|i: int| 0 <= i < queens@.len() ==> (#[trigger] queens@[i]).pos.in_bounds(),
    ensures
        r == spec_first_queen_near(queens@, p),
{
    let n = queens.len();
    let mut i: usize = 0;
    proof {
        assert(queens@.skip(0) =~= queens@);
    }
    while i < n
        invariant
            i <= n,
            spec_first_queen_near(queens@, p) == spec_first_queen_near(queens@.skip(i as int), p),
        decreases n - i,
    {
        proof {
            assert(queens@.skip(i as int)[0] == queens@[i as int]);
            assert(queens@.skip(i as int).drop_first() =~= queens@.skip(i + 1));
        }
        if crate::geom::distance_sq(queens[i].pos, p) <= 262144u64 {
            return Some(queens[i]);
        }
        i += 1;
    }
    proof {
        assert(queens@.skip(n as int) =~= Seq::<SnapUnit>::empty());
    }
    None
}

/// The position of the `k`-th listed depot.
fn h_pos(v: &Vec<SnapUnit>, k: usize) -> (r: Pos)
    requires
        k < v@.len(),
    ensures
        r == v@[k as int].pos,
{
    v[k].pos
}

pub open spec fn min_int(a: int, b: int) -> int {
    if a <= b {
        a
    } else {
        b
    }
}

/// The depots of the snapshot.
#[verifier::loop_isolation(false)]
fn filter_townhalls(units: &Vec<SnapUnit>) -> (r: Vec<SnapUnit>)
    ensures
        r@ == spec_townhalls(units@),
{
    let n = units.len();
    let mut out: Vec<SnapUnit> = Vec::new();
    let mut i: usize = 0;
    proof {
        assert(units@.take(0) =~= Seq::<SnapUnit>::empty());
    }
    while i < n
        invariant
            i <= n,
            out@ == spec_townhalls(units@.take(i as int)),
        decreases n - i,
    {
        proof {
            assert(units@.take(i + 1).drop_last() =~= units@.take(i as int));
            assert(units@.take(i + 1).last() == units@[i as int]);
        }
        if units[i].kind == UnitKind::Hatchery || units[i].kind == UnitKind::Lair {
            out.push(units[i]);
        }
        i += 1;
    }
    proof {
        assert(units@.take(n as int) =~= units@);
    }
    out
}

/// The idle casters of the snapshot.
#[verifier::loop_isolation(false)]
fn filter_idle_queens(units: &Vec<SnapUnit>) -> (r: Vec<SnapUnit>)
    ensures
        r@ == spec_idle_queens(units@),
{
    let n = units.len();
    let mut out: Vec<SnapUnit> = Vec::new();
    let mut i: usize = 0;
    proof {
        assert(units@.take(0) =~= Seq::<SnapUnit>::empty());
    }
    while i < n
        invariant
            i <= n,
            out@ == spec_idle_queens(units@.take(i as int)),
        decreases n - i,
    {
        proof {
            assert(units@.take(i + 1).drop_last() =~= units@.take(i as int));
            assert(units@.take(i + 1).last() == units@[i as int]);
        }
        if units[i].kind == UnitKind::Queen && units[i].is_idle {
            out.push(units[i]);
        }
        i += 1;
    }
    proof {
        assert(units@.take(n as int) =~= units@);
    }
    out
}

/// Selected units of a well-formed list keep their bounds.
proof fn lemma_selected_units_wf(units: Seq<SnapUnit>)
    requires
        forall|i: int| 0 <= i < units.len() ==> (#[trigger] units[i]).wf(),
    ensures
        forall|i: int|
            0 <= i < spec_townhalls(units).len() ==> (#[trigger] spec_townhalls(
                units,
            )[i]).pos.in_bounds(),
        forall|i: int|
            0 <= i < spec_idle_queens(units).len() ==> (#[trigger] spec_idle_queens(
                units,
            )[i]).pos.in_bounds(),
    decreases units.len(),
{
    if units.len() > 0 {
        assert(forall|i: int|
            0 <= i < units.len() - 1 ==> units.drop_last()[i] == #[trigger] units[i]);
        lemma_selected_units_wf(units.drop_last());
        assert(units.last() == units[units.len() - 1]);
        let rt = spec_townhalls(units.drop_last());
        if crate::model::is_townhall_kind(units.last().kind) {
            assert(forall|i: int|
                0 <= i < rt.len() ==> rt.push(units.last())[i] == #[trigger] rt[i]);
        }
        let rq = spec_idle_queens(units.drop_last());
        if units.last().kind == UnitKind::Queen && units.last().is_idle {
            assert(forall|i: int|
                0 <= i < rq.len() ==> rq.push(units.last())[i] == #[trigger] rq[i]);
        }
    }
}

/// `a - b`, floored at zero.
fn saturating_sub_usize(a: usize, b: usize) -> (r: usize)
    ensures
        r == if a >= b {
            a - b
        } else {
            0
        },
{
    if a >= b {
        a - b
    } else {
        0
    }
}

fn min_usize(a: usize, b: usize) -> (r: usize)
    ensures
        r == if a <= b {
            a as int
        } else {
            b as int
        },
{
    if a <= b {
        a
    } else {
        b
    }
}

/// The visible mineral nodes.
#[verifier::loop_isolation(false)]
fn filter_mineral_fields(resources: &Vec<SnapUnit>) -> (r: Vec<SnapUnit>)
    requires
        forall|i: int| 0 <= i < resources@.len() ==> (#[trigger] resources@[i]).wf(),
    ensures
        forall|i: int| 0 <= i < r@.len() ==> (#[trigger] r@[i]).wf(),
{
    let n = resources.len();
    let mut out: Vec<SnapUnit> = Vec::new();
    let mut i: usize = 0;
    while i < n
        invariant
            i <= n,
            forall|j: int| 0 <= j < out@.len() ==> (#[trigger] out@[j]).wf(),
        decreases n - i,
    {
        if resources[i].kind == UnitKind::MineralField {
            out.push(resources[i]);
        }
        i += 1;
    }
    out
}

/// The owned extractors that still hold gas.
#[verifier::loop_isolation(false)]
fn filter_live_extractors(my_units: &Vec<SnapUnit>) -> (r: Vec<SnapUnit>)
    requires
        forall|i: int| 0 <= i < my_units@.len() ==> (#[trigger] my_units@[i]).wf(),
    ensures
        forall|i: int| 0 <= i < r@.len() ==> (#[trigger] r@[i]).wf(),
{
    let n = my_units.len();
    let mut out: Vec<SnapUnit> = Vec::new();
    let mut i: usize = 0;
    while i < n
        invariant
            i <= n,
            forall|j: int| 0 <= j < out@.len() ==> (#[trigger] out@[j]).wf(),
        decreases n - i,
    {
        if my_units[i].kind == UnitKind::Extractor && my_units[i].vespene_contents > 0 {
            out.push(my_units[i]);
        }
        i += 1;
    }
    out
}

/// Sort depot-resource pairs by depot distance ascending.
#[verifier::loop_isolation(false)]
fn sort_pairs_by_distance(pairs: &Vec<(SnapUnit, SnapUnit)>) -> (r: Vec<(SnapUnit, SnapUnit)>)
    requires
        forall|i: int|
            0 <= i < pairs@.len() ==> ((#[trigger] pairs@[i]).0.wf() && pairs@[i].1.wf()),
    ensures
        forall|i: int| 0 <= i < r@.len() ==> ((#[trigger] r@[i]).0.wf() && r@[i].1.wf()),
{
    let n = pairs.len();
    let mut keyed: Vec<(u64, (SnapUnit, SnapUnit))> = Vec::new();
    let mut i: usize = 0;
    while i < n
        invariant
            i <= n,
            forall|j: int|
                0 <= j < keyed@.len() ==> ((#[trigger] keyed@[j]).1.0.wf() && keyed@[j].1.1.wf()),
        decreases n - i,
    {
        let p = pairs[i];
        keyed.push((crate::geom::distance_sq(p.0.pos, p.1.pos), p));
        i += 1;
    }
    let ghost inp = keyed@;
    let sorted = crate::sort::sort_by_key(keyed);
    proof {
        crate::sort::lemma_multiset_elements(sorted@, inp);
        assert forall|j: int| 0 <= j < sorted@.len() implies ((#[trigger] sorted@[j]).1.0.wf()
            && sorted@[j].1.1.wf()) by {
            assert(inp.contains(sorted@[j]));
            let jj = choose|jj: int| 0 <= jj < inp.len() && inp[jj] == sorted@[j];
        }
    }
    let ns = sorted.len();
    let mut out: Vec<(SnapUnit, SnapUnit)> = Vec::new();
    let mut i2: usize = 0;
    while i2 < ns
        invariant
            i2 <= ns,
            forall|j: int| 0 <= j < out@.len() ==> ((#[trigger] out@[j]).0.wf() && out@[j].1.wf()),
        decreases ns - i2,
    {
        out.push(sorted[i2].1);
        i2 += 1;
    }
    out
}

/// Whether a worker with this tag stands in the list.
#[verifier::loop_isolation(false)]
pub fn worker_visible(workers: &Vec<SnapUnit>, tag: u64) -> (r: bool)
    ensures
        r == spec_worker_visible(workers@, tag),
{
    let n = workers.len();
    let mut i: usize = 0;
    while i < n
        invariant
            i <= n,
            forall|j: int| 0 <= j < i ==> (#[trigger] workers@[j]).tag != tag,
        decreases n - i,
    {
        if workers[i].tag == tag {
            return true;
        }
        i += 1;
    }
    false
}

} // verus!
