//! The decision engine itself: cross-tick state plus the per-tick entry
//! points a host calls with a fresh snapshot.
use vstd::prelude::*;

use crate::model::{spec_count_kind, spec_pending_count, Ability, Command, Snapshot, UnitKind};
use crate::state::{BotState, GetBotState};

verus! {

/// The engine.  A host owns one instance for the whole match and calls
/// its per-tick entry points with fresh snapshots.
pub struct FaxBot {
    pub state: BotState,
    pub runtime_options: crate::model::RuntimeOptions,
}

impl GetBotState for FaxBot {
    fn get_state(&self) -> &BotState {
        &self.state
    }

    fn get_state_mut(&mut self) -> &mut BotState {
        &mut self.state
    }
}

/// The energy each caster ability costs.  The environment exposes no
/// energy costs, so the table is fixed; abilities outside it are a
/// contract violation of the caller.
pub open spec fn spec_energy_cost(ability: Ability) -> Option<usize> {
    match ability {
        Ability::InjectLarva => Some(25usize),
        _ => None,
    }
}

/// Friendly units of a kind, present plus ordered-but-unfinished.
pub open spec fn spec_count_unit(snap: Snapshot, k: UnitKind) -> int {
    spec_count_kind(snap.my_units@, k) + spec_pending_count(snap.pending@, k)
}

impl FaxBot {
    pub fn new(runtime_options: crate::model::RuntimeOptions) -> (r: FaxBot)
        ensures
            r.state.wf(),
            r.state.micro.drones@ =~= Seq::<(u64, crate::micro::DroneTask)>::empty(),
            !r.state.is_under_attack,
            r.state.peak_army == 0,
            r.runtime_options == runtime_options,
    {
        FaxBot { state: BotState::new(), runtime_options }
    }

    /// Energy cost of a caster ability.  The table must hold the ability:
    /// a missing entry is a configuration defect, not a runtime
    /// condition.
    pub fn energy_cost(&self, ability: Ability) -> (r: Option<usize>)
        requires
            spec_energy_cost(ability) is Some,
        ensures
            r == spec_energy_cost(ability),
    {
        match ability {
            Ability::InjectLarva => Some(25),
            _ => None,
        }
    }

    /// How many units of `building_id` exist or are on order.
    pub fn count_unit(&self, snap: &Snapshot, building_id: UnitKind) -> (r: usize)
        requires
            snap.wf(),
        ensures
            r == spec_count_unit(*snap, building_id),
    {
        proof {
            crate::model::lemma_spec_count_kind_bounds(snap.my_units@, building_id);
        }
        let present = crate::model::count_kind(&snap.my_units, building_id);
        let pending = crate::model::pending_count(&snap.pending, building_id);
        proof {
            crate::bot::lemma_pending_count_bound(snap.pending@, building_id);
        }
        present + (pending as usize)
    }
}

/// An out-of-band event from the environment's feed.
#[derive(Clone, Copy, PartialEq, Eq, Structural, Debug)]
pub enum Event {
    UnitCreated(u64),
    UnitDestroyed(u64),
}

impl FaxBot {
    /// Match start: fix the opening economic targets, store the enemy
    /// base candidates ordered by distance to the enemy start
    /// candidates, and record the playable map rectangle.
    #[verifier::loop_isolation(false)]
    #[verifier::rlimit(100)]
    pub fn on_start(&mut self, snap: &Snapshot, map: crate::map::MapInfo)
        requires
            old(self).state.wf(),
            snap.wf(),
            map.wf(),
            crate::strategy::spec_other_starts(snap.start_locations@, snap.start_location).len()
                > 0,
        ensures
            final(self).state.wf(),
            final(self).state.desired_workers == 38,
            final(self).state.desired_gasses == 2,
            final(self).state.desired_bases == 2,
            final(self).state.map_info == map,
            // the stored candidates are expansion locations other than
            // our start, nearest-first to an enemy start candidate
            ({
                let locs = final(self).state.micro.enemy_base_locations_by_expansion_order@;
                let espawns = crate::strategy::spec_other_starts(
                    snap.start_locations@,
                    snap.start_location,
                );
                &&& forall|i: int, j: int|
                    0 <= i < j < locs.len()
                        ==> crate::strategy::spec_min_dist_sq(espawns, #[trigger] locs[i])
                        <= crate::strategy::spec_min_dist_sq(espawns, #[trigger] locs[j])
                &&& forall|j: int|
                    0 <= j < locs.len() ==> spec_candidate_loc(#[trigger] locs[j], *snap)
                &&& forall|i: int|
                    0 <= i < snap.expansions@.len() && (#[trigger] snap.expansions@[i]).loc
                        != snap.start_location ==> locs.contains(snap.expansions@[i].loc)
            }),
            final(self).state.micro.drones == old(self).state.micro.drones,
            final(self).state.micro.drone_last_seen == old(self).state.micro.drone_last_seen,
            final(self).state.my_structures == old(self).state.my_structures,
            final(self).state.enemy_units == old(self).state.enemy_units,
            final(self).state.is_under_attack == old(self).state.is_under_attack,
            final(self).state.peak_army == old(self).state.peak_army,
            final(self).runtime_options == old(self).runtime_options,
    {
        let enemy_spawns = crate::strategy::other_starts_of(
            &snap.start_locations,
            snap.start_location,
        );
        proof {
            crate::strategy::lemma_other_starts_in_bounds(
                snap.start_locations@,
                snap.start_location,
            );
        }
        let n = snap.expansions.len();
        let mut keyed: Vec<(u64, crate::geom::Pos)> = Vec::new();
        let mut i: usize = 0;
        while i < n
            invariant
                i <= n,
                forall|j: int|
                    0 <= j < keyed@.len() ==> (#[trigger] keyed@[j]).0
                        == crate::strategy::spec_min_dist_sq(
                        crate::strategy::spec_other_starts(
                            snap.start_locations@,
                            snap.start_location,
                        ),
                        keyed@[j].1,
                    ) && spec_candidate_loc(keyed@[j].1, *snap),
                forall|k: int|
                    0 <= k < i && (#[trigger] snap.expansions@[k]).loc != snap.start_location
                        ==> exists|j: int|
                        0 <= j < keyed@.len() && (#[trigger] keyed@[j]).1
                            == snap.expansions@[k].loc,
            decreases n - i,
        {
            let e = &snap.expansions[i];
            let loc = e.loc;
            if !(loc.x == snap.start_location.x && loc.y == snap.start_location.y) {
                proof {
                    assert(snap.expansions@[i as int].wf());
                    crate::strategy::lemma_min_dist_sq_bounds(
                        crate::strategy::spec_other_starts(
                            snap.start_locations@,
                            snap.start_location,
                        ),
                        loc,
                    );
                }
                let key = crate::strategy::min_dist_sq(&enemy_spawns, loc);
                let ghost k0 = keyed@;
                keyed.push((key, loc));
                proof {
                    assert(forall|j: int| 0 <= j < k0.len() ==> keyed@[j] == #[trigger] k0[j]);
                    assert(keyed@[keyed@.len() - 1] == (key, loc));
                    assert(spec_candidate_loc(loc, *snap)) by {
                        assert(0 <= (i as int) < snap.expansions@.len()
                            && snap.expansions@[i as int].loc == loc);
                    }
                    assert forall|k: int|
                        0 <= k < i + 1 && (#[trigger] snap.expansions@[k]).loc
                            != snap.start_location implies exists|j: int|
                        0 <= j < keyed@.len() && (#[trigger] keyed@[j]).1
                            == snap.expansions@[k].loc by {
                        if k < i {
                            let j = choose|j: int|
                                0 <= j < k0.len() && (#[trigger] k0[j]).1
                                    == snap.expansions@[k].loc;
                            assert(keyed@[j].1 == snap.expansions@[k].loc);
                        } else {
                            assert(keyed@[keyed@.len() - 1].1 == snap.expansions@[k].loc);
                        }
                    }
                }
            }
            i += 1;
        }
        let ghost inp = keyed@;
        let sorted = crate::sort::sort_by_key(keyed);
        proof {
            crate::sort::lemma_multiset_elements(sorted@, inp);
        }
        let ns = sorted.len();
        let mut points: Vec<crate::geom::Pos> = Vec::new();
        let mut j: usize = 0;
        while j < ns
            invariant
                j <= ns,
                points@.len() == j,
                forall|k: int| 0 <= k < j ==> #[trigger] points@[k] == sorted@[k].1,
            decreases ns - j,
        {
            points.push(sorted[j].1);
            j += 1;
        }
        proof {
            let espawns = crate::strategy::spec_other_starts(
                snap.start_locations@,
                snap.start_location,
            );
            assert forall|a: int, b: int| 0 <= a < b < points@.len() implies
                crate::strategy::spec_min_dist_sq(espawns, #[trigger] points@[a])
                    <= crate::strategy::spec_min_dist_sq(espawns, #[trigger] points@[b]) by {
                assert(inp.contains(sorted@[a]));
                assert(inp.contains(sorted@[b]));
                let ja = choose|x: int| 0 <= x < inp.len() && inp[x] == sorted@[a];
                let jb = choose|x: int| 0 <= x < inp.len() && inp[x] == sorted@[b];
                assert(sorted@[a].0 <= sorted@[b].0);
            }
            assert forall|k: int| 0 <= k < points@.len() implies spec_candidate_loc(
                #[trigger] points@[k],
                *snap,
            ) by {
                assert(inp.contains(sorted@[k]));
                let x = choose|x: int| 0 <= x < inp.len() && inp[x] == sorted@[k];
            }
            assert forall|k: int|
                0 <= k < snap.expansions@.len() && (#[trigger] snap.expansions@[k]).loc
                    != snap.start_location implies points@.contains(snap.expansions@[k].loc) by {
                let j2 = choose|j2: int|
                    0 <= j2 < inp.len() && (#[trigger] inp[j2]).1 == snap.expansions@[k].loc;
                assert(sorted@.contains(inp[j2]));
                let a = choose|a: int| 0 <= a < sorted@.len() && sorted@[a] == inp[j2];
                assert(points@[a] == snap.expansions@[k].loc);
            }
        }
        self.state.desired_workers = 38;
        self.state.desired_gasses = 2;
        self.state.desired_bases = 2;
        self.state.micro.enemy_base_locations_by_expansion_order = points;
        self.state.map_info = map;
        proof {
            lemma_candidate_locs_in_bounds(
                self.state.micro.enemy_base_locations_by_expansion_order@,
                *snap,
            );
        }
    }

    /// One engine tick: evaluate strategy, then build, then train when
    /// no build was attempted, then run the micro stage.
    #[verifier::rlimit(100)]
    pub fn on_step(&mut self, snap: &Snapshot) -> (cmds: Vec<Command>)
        requires
            old(self).state.wf(),
            snap.wf(),
            crate::strategy::spec_other_starts(snap.start_locations@, snap.start_location).len()
                > 0,
            snap.expansion_hidden@.len() >= old(
                self,
            ).state.micro.enemy_base_locations_by_expansion_order@.len(),
        ensures
            final(self).state.wf(),
            // the per-resource quota invariant survives a whole tick
            crate::micro::spec_quota_ok(old(self).state.micro.drones@)
                ==> crate::micro::spec_quota_ok(final(self).state.micro.drones@),
            // the under-attack flag is the disjunction of the two threat
            // signals over the refreshed sighting memories
            final(self).state.is_under_attack == (crate::strategy::spec_num_attacking(
                crate::state::spec_recent(
                    final(self).state.enemy_units.map@,
                    snap.tick,
                    crate::state::SHORT_SIGHTING_WINDOW,
                ),
                crate::state::spec_positions(
                    crate::state::spec_recent(
                        final(self).state.my_structures.map@,
                        snap.tick,
                        crate::state::SHORT_SIGHTING_WINDOW,
                    ),
                ),
            ) >= 2 || crate::strategy::spec_num_threatening(
                crate::state::spec_recent(
                    final(self).state.enemy_units.map@,
                    snap.tick,
                    crate::state::LONG_SIGHTING_WINDOW,
                ),
                snap.start_location,
                crate::strategy::spec_other_starts(snap.start_locations@, snap.start_location),
            ) >= 4),
            // every ready visible worker holds a task entry afterwards
            forall|j: int|
                0 <= j < crate::micro::spec_ready_workers(snap.my_units@).len()
                    ==> final(self).state.micro.drones.lookup(
                    (#[trigger] crate::micro::spec_ready_workers(snap.my_units@)[j]).tag,
                ) is Some,
            // the tick's key set stays within the liveness rule: every
            // surviving task entry's worker is ready-visible or within
            // the gas grace of its last sighting
            forall|t: u64|
                final(self).state.micro.drones.lookup(t) is Some ==> (
                crate::micro::spec_worker_visible(crate::micro::spec_ready_workers(snap.my_units@), t)
                    || (match old(self).state.micro.drones.lookup(t) {
                    Some(t0) => crate::micro::spec_keeps(
                        (t, t0),
                        crate::micro::spec_ready_workers(snap.my_units@),
                        old(self).state.micro.drone_last_seen@,
                        snap.tick,
                    ),
                    None => false,
                })),
            // the tick's commands are exactly the three stages'
            // commands in order: the structure cascade's, the training
            // planner's when no build was attempted, then the micro
            // stage's
            exists|s1: FaxBot, s2: FaxBot, did: bool, bcmds: Seq<Command>, mcmds: Seq<Command>|
                #![trigger crate::m_macro::spec_building_outcome(s1, s2, *snap, did, bcmds), crate::micro::spec_micro_outcome(
                    s2,
                    *final(self),
                    *snap,
                    mcmds,
                )]
                {
                    &&& crate::strategy::spec_strategy_outcome(*old(self), s1, *snap)
                    &&& crate::m_macro::spec_building_outcome(s1, s2, *snap, did, bcmds)
                    &&& crate::micro::spec_micro_outcome(s2, *final(self), *snap, mcmds)
                    &&& cmds@ == bcmds + (if did {
                        Seq::<Command>::empty()
                    } else {
                        crate::m_macro::spec_training_cmds(s2, *snap)
                    }) + mcmds
                },
    {
        self.determine_state_for_tick(snap);
        let ghost after_strategy = *self;
        let building = self.perform_building(snap);
        let ghost after_building = *self;
        let mut cmds = building.1;
        let ghost bcmds0 = cmds@;
        if !building.0 {
            let training = self.perform_training(snap);
            append_cmds(&mut cmds, &training);
        }
        let ghost with_training = cmds@;
        let micro_cmds = self.perform_micro(snap);
        append_cmds(&mut cmds, &micro_cmds);
        proof {
            // assemble the three stages' command concatenation
            assert(crate::strategy::spec_strategy_outcome(*old(self), after_strategy, *snap));
            assert(crate::m_macro::spec_building_outcome(
                after_strategy,
                after_building,
                *snap,
                building.0,
                bcmds0,
            ));
            assert(crate::micro::spec_micro_outcome(
                after_building,
                *final(self),
                *snap,
                micro_cmds@,
            ));
            assert(cmds@ =~= bcmds0 + (if building.0 {
                Seq::<Command>::empty()
            } else {
                crate::m_macro::spec_training_cmds(after_building, *snap)
            }) + micro_cmds@);
            // the tick-level liveness rule, from the micro stage's own
            // guarantee through the earlier stages' frames
            let ready = crate::micro::spec_ready_workers(snap.my_units@);
            assert forall|t: u64| final(self).state.micro.drones.lookup(t) is Some implies (
            crate::micro::spec_worker_visible(ready, t) || (match old(
                self,
            ).state.micro.drones.lookup(t) {
                Some(t0) => crate::micro::spec_keeps(
                    (t, t0),
                    ready,
                    old(self).state.micro.drone_last_seen@,
                    snap.tick,
                ),
                None => false,
            })) by {
                assert(after_building.state.micro.drone_last_seen@ == old(
                    self,
                ).state.micro.drone_last_seen@);
                match after_building.state.micro.drones.lookup(t) {
                    Some(t0p) => {
                        assert(crate::micro::spec_keeps(
                            (t, t0p),
                            ready,
                            after_building.state.micro.drone_last_seen@,
                            snap.tick,
                        ));
                        if after_building.state.micro.drones.lookup(t) == old(
                            self,
                        ).state.micro.drones.lookup(t) {
                        } else {
                            assert(t0p == (crate::micro::DroneTask::Construct { queued_at: snap.tick }));
                            assert(crate::micro::spec_worker_visible(ready, t));
                        }
                    },
                    None => {
                        assert(crate::micro::spec_worker_visible(ready, t));
                    },
                }
            }
        }
        proof {
            if crate::micro::spec_quota_ok(old(self).state.micro.drones@) {
                assert(crate::micro::spec_quota_ok(after_strategy.state.micro.drones@));
                assert forall|rt: crate::micro::ResourceType, t: u64|
                    crate::micro::spec_gather_count(after_building.state.micro.drones@, rt, t)
                        <= crate::micro::spec_quota(rt) by {
                    assert(crate::micro::spec_gather_count(after_building.state.micro.drones@, rt, t)
                        <= crate::micro::spec_gather_count(after_strategy.state.micro.drones@, rt, t));
                }
                assert(crate::micro::spec_quota_ok(after_building.state.micro.drones@));
            }
        }
        cmds
    }

    /// An environment event: a fresh combat unit rallies toward the
    /// enemy; a destruction report drops the sighting record.
    pub fn on_event(&mut self, snap: &Snapshot, event: Event) -> (cmds: Vec<Command>)
        requires
            old(self).state.wf(),
            snap.wf(),
        ensures
            final(self).state.wf(),
            match event {
                Event::UnitCreated(tag) => final(self).state == old(self).state && cmds@ == (
                match crate::strategy::spec_find_first(snap.my_units@, tag) {
                    Some(u) => if crate::model::is_army_kind(u.kind) {
                        seq![
                            Command::Attack {
                                unit: tag,
                                target: crate::model::Target::Ground(spec_rally_point(*old(self), *snap)),
                                queue: false,
                            },
                        ]
                    } else {
                        Seq::<Command>::empty()
                    },
                    None => Seq::<Command>::empty(),
                }),
                Event::UnitDestroyed(tag) => cmds@ == Seq::<Command>::empty()
                    && final(self).state.enemy_units.map.lookup(tag) is None && (forall|t: u64|
                    t != tag ==> final(self).state.enemy_units.map.lookup(t) == old(
                        self,
                    ).state.enemy_units.map.lookup(t)) && final(self).state.micro == old(
                    self,
                ).state.micro,
            },
    {
        let mut cmds: Vec<Command> = Vec::new();
        match event {
            Event::UnitCreated(tag) => {
                match crate::strategy::find_first(&snap.my_units, tag) {
                    Some(u) => {
                        let is_army = u.kind == UnitKind::Zergling || u.kind == UnitKind::Roach
                            || u.kind == UnitKind::Hydralisk;
                        if is_army {
                            let rally = self.get_rally_point(snap);
                            cmds.push(
                                Command::Attack {
                                    unit: tag,
                                    target: crate::model::Target::Ground(rally),
                                    queue: false,
                                },
                            );
                        }
                    },
                    None => {},
                }
            },
            Event::UnitDestroyed(tag) => {
                self.state.register_unit_destroyed(tag);
            },
        }
        cmds
    }
}

/// Where the rally point stands: the depot nearest the enemy start,
/// advanced toward it, or our start location without a depot.
pub open spec fn spec_rally_point(bot: FaxBot, snap: Snapshot) -> crate::geom::Pos {
    match crate::m_macro::spec_closest_base(bot.state.bases@, snap.enemy_start) {
        Some(b) => crate::geom::towards_spec(
            b,
            snap.enemy_start,
            7 * crate::geom::SCALE as int,
        ),
        None => snap.start_location,
    }
}

/// An expansion location other than our own start.
pub open spec fn spec_candidate_loc(p: crate::geom::Pos, snap: Snapshot) -> bool {
    exists|i: int|
        0 <= i < snap.expansions@.len() && (#[trigger] snap.expansions@[i]).loc == p && p
            != snap.start_location
}

proof fn lemma_candidate_locs_in_bounds(locs: Seq<crate::geom::Pos>, snap: Snapshot)
    requires
        snap.wf(),
        forall|j: int| 0 <= j < locs.len() ==> spec_candidate_loc(#[trigger] locs[j], snap),
    ensures
        forall|j: int| 0 <= j < locs.len() ==> (#[trigger] locs[j]).in_bounds(),
{
    assert forall|j: int| 0 <= j < locs.len() implies (#[trigger] locs[j]).in_bounds() by {
        let i = choose|i: int|
            0 <= i < snap.expansions@.len() && (#[trigger] snap.expansions@[i]).loc == locs[j]
                && locs[j] != snap.start_location;
        assert(snap.expansions@[i].wf());
    }
}

/// Append `src` to `dst`.
#[verifier::loop_isolation(false)]
fn append_cmds(dst: &mut Vec<Command>, src: &Vec<Command>)
    ensures
        final(dst)@ == old(dst)@ + src@,
{
    let n = src.len();
    let ghost d0 = dst@;
    let mut i: usize = 0;
    proof {
        assert(d0 + src@.take(0) =~= d0);
    }
    while i < n
        invariant
            i <= n,
            dst@ == d0 + src@.take(i as int),
        decreases n - i,
    {
        proof {
            assert(d0 + src@.take(i + 1) =~= (d0 + src@.take(i as int)).push(src@[i as int]));
        }
        dst.push(src[i]);
        i += 1;
    }
    proof {
        assert(src@.take(n as int) =~= src@);
    }
}

/// Pending counts respect the snapshot's bound.
pub proof fn lemma_pending_count_bound(pending: Seq<(UnitKind, u64)>, k: UnitKind)
    requires
        forall|i: int| 0 <= i < pending.len() ==> (#[trigger] pending[i]).1 <= 100000,
    ensures
        0 <= spec_pending_count(pending, k) <= 100000,
    decreases pending.len(),
{
    if pending.len() > 0 {
        assert(pending.last() == pending[pending.len() - 1]);
        assert(forall|i: int|
            0 <= i < pending.len() - 1 ==> pending.drop_last()[i] == #[trigger] pending[i]);
        lemma_pending_count_bound(pending.drop_last(), k);
    }
}

} // verus!
