//! Cross-tick engine state: time-stamped sighting memory and the
//! per-tick strategic record.
use vstd::prelude::*;

use crate::geom::Pos;
use crate::micro::MicroState;
use crate::model::{RuntimeOptions, SnapUnit, UnitKind};
use crate::tagmap::{remove_key, seq_lookup, TagMap};

verus! {

/// Sightings within this many ticks count as recent for the short-range
/// threat signal, and for the structure positions it compares against.
pub const SHORT_SIGHTING_WINDOW: u64 = 22;

/// Sightings within this many ticks count as recent for the long-range
/// threat signal.
pub const LONG_SIGHTING_WINDOW: u64 = 440;

/// A time-stamped last-known position of one observed entity.
#[derive(Clone, Copy, PartialEq, Eq, Structural, Debug)]
pub struct ObjectSpotted {
    pub position: Pos,
    pub timestamp: u64,
}

/// Last-known positions of observed entities, keyed by identifier.
/// Records survive sensor gaps; they are overwritten on every new
/// observation and hard-deleted on confirmed destruction.
pub struct ObjectPermanence {
    pub map: TagMap<(ObjectSpotted, UnitKind)>,
}

/// The record the last observation of `tag` in `units` would produce.
pub open spec fn spec_observed(units: Seq<SnapUnit>, ts: u64, tag: u64) -> Option<
    (ObjectSpotted, UnitKind),
>
    decreases units.len(),
{
    if units.len() == 0 {
        None
    } else if units.last().tag == tag {
        Some((ObjectSpotted { position: units.last().pos, timestamp: ts }, units.last().kind))
    } else {
        spec_observed(units.drop_last(), ts, tag)
    }
}

/// Whether a record with timestamp `ts` is recent at `tick` under a
/// recency window.
pub open spec fn spec_is_recent(ts: u64, tick: u64, window: u64) -> bool {
    ts + window >= tick
}

/// The recent records of a sighting map, as (position, kind) pairs in
/// entry order.
pub open spec fn spec_recent(
    s: Seq<(u64, (ObjectSpotted, UnitKind))>,
    tick: u64,
    window: u64,
) -> Seq<(Pos, UnitKind)>
    decreases s.len(),
{
    if s.len() == 0 {
        Seq::empty()
    } else {
        let rest = spec_recent(s.drop_last(), tick, window);
        if spec_is_recent(s.last().1.0.timestamp, tick, window) {
            rest.push((s.last().1.0.position, s.last().1.1))
        } else {
            rest
        }
    }
}

impl ObjectPermanence {
    pub open spec fn wf(self) -> bool {
        &&& self.map.wf()
        &&& forall|i: int|
            0 <= i < self.map@.len() ==> (#[trigger] self.map@[i]).1.0.position.in_bounds()
    }

    pub fn new() -> (r: ObjectPermanence)
        ensures
            r.wf(),
            r.map@ =~= Seq::<(u64, (ObjectSpotted, UnitKind))>::empty(),
    {
        ObjectPermanence { map: TagMap::new() }
    }

    /// Upsert a time-stamped record for every observed entity; entities
    /// not observed keep their old record.
    #[verifier::loop_isolation(false)]
pub fn update_all(&mut self, timestamp: u64, units: &Vec<SnapUnit>)
        requires
            old(self).wf(),
            forall|i: int| 0 <= i < units@.len() ==> (#[trigger] units@[i]).pos.in_bounds(),
        ensures
            final(self).wf(),
            forall|t: u64|
                final(self).map.lookup(t) == match spec_observed(units@, timestamp, t) {
                    Some(v) => Some(v),
                    None => old(self).map.lookup(t),
                },
    {
        let ghost m0 = self.map@;
        let n = units.len();
        let mut i: usize = 0;
        proof {
            assert(units@.take(0) =~= Seq::<SnapUnit>::empty());
        }
        while i < n
            invariant
                i <= n,
                self.wf(),
                forall|t: u64|
                    self.map.lookup(t) == match spec_observed(
                        units@.take(i as int),
                        timestamp,
                        t,
                    ) {
                        Some(v) => Some(v),
                        None => seq_lookup(m0, t),
                    },
            decreases n - i,
        {
            let u = &units[i];
            let spotted = ObjectSpotted { position: u.pos, timestamp };
            proof {
                assert(units@.take(i + 1).drop_last() =~= units@.take(i as int));
                assert(units@.take(i + 1).last() == units@[i as int]);
            }
            let ghost mv = self.map@;
            self.map.insert(u.tag, (spotted, u.kind));
            proof {
                crate::tagmap::lemma_remove_key_facts(mv, u.tag);
                let s2 = self.map@;
                assert forall|j: int| 0 <= j < s2.len() implies (
                #[trigger] s2[j]).1.0.position.in_bounds() by {
                    if j < s2.len() - 1 {
                        assert(s2[j] == crate::tagmap::remove_key(mv, u.tag)[j]);
                        let jj = choose|jj: int|
                            0 <= jj < mv.len() && #[trigger] crate::tagmap::remove_key(mv, u.tag)[j]
                                == mv[jj];
                        assert(mv[jj].1.0.position.in_bounds());
                    } else {
                        assert(s2[j] == (u.tag, (spotted, u.kind)));
                    }
                }
            }
            i += 1;
        }
        proof {
            assert(units@.take(n as int) =~= units@);
        }
    }

    /// All records recent at `tick` under `window`, as (position, kind)
    /// pairs.
    #[verifier::loop_isolation(false)]
pub fn query(&self, tick: u64, window: u64) -> (r: Vec<(Pos, UnitKind)>)
        requires
            self.wf(),
        ensures
            r@ == spec_recent(self.map@, tick, window),
            forall|j: int| 0 <= j < r@.len() ==> (#[trigger] r@[j]).0.in_bounds(),
    {
        let n = self.map.len();
        let mut out: Vec<(Pos, UnitKind)> = Vec::new();
        let mut i: usize = 0;
        proof {
            assert(self.map@.take(0) =~= Seq::<(u64, (ObjectSpotted, UnitKind))>::empty());
        }
        while i < n
            invariant
                i <= n,
                out@ == spec_recent(self.map@.take(i as int), tick, window),
                forall|j: int| 0 <= j < out@.len() ==> (#[trigger] out@[j]).0.in_bounds(),
            decreases n - i,
        {
            let e = self.map.entry_at(i);
            proof {
                assert(self.map@.take(i + 1).drop_last() =~= self.map@.take(i as int));
                assert(self.map@.take(i + 1).last() == self.map@[i as int]);
            }
            let ts = e.1.0.timestamp;
            let recent = if tick <= window {
                true
            } else {
                ts >= tick - window
            };
            if recent {
                out.push((e.1.0.position, e.1.1));
            }
            i += 1;
        }
        proof {
            assert(self.map@.take(n as int) =~= self.map@);
        }
        out
    }

    /// Hard-delete the record of a destroyed entity.
    pub fn remove(&mut self, tag: u64)
        requires
            old(self).wf(),
        ensures
            final(self).wf(),
            final(self).map@ == remove_key(old(self).map@, tag),
            final(self).map.lookup(tag) is None,
            forall|t: u64| t != tag ==> final(self).map.lookup(t) == old(self).map.lookup(t),
    {
        let ghost mv = self.map@;
        self.map.remove(tag);
        proof {
            crate::tagmap::lemma_remove_key_facts(mv, tag);
            let s2 = self.map@;
            assert forall|j: int| 0 <= j < s2.len() implies (
            #[trigger] s2[j]).1.0.position.in_bounds() by {
                let jj = choose|jj: int|
                    0 <= jj < mv.len() && #[trigger] remove_key(mv, tag)[j] == mv[jj];
                assert(mv[jj].1.0.position.in_bounds());
            }
        }
    }
}

/// Supply thresholds of the opening build order.
#[derive(Clone, Copy, PartialEq, Eq, Structural, Debug)]
pub struct BuildOrderInfo {
    pub spawning_pool_supply: u64,
    pub first_hatch_supply: u64,
}

/// All cross-tick engine state, plus the per-tick strategic record.
pub struct BotState {
    /// Positions of our finished depots, refreshed each tick.
    pub bases: Vec<Pos>,
    pub build_order: BuildOrderInfo,
    /// Rolling peak combat-unit count.
    pub peak_army: usize,
    pub desired_workers: usize,
    pub desired_gasses: usize,
    pub desired_bases: usize,
    pub is_under_attack: bool,
    pub micro: MicroState,
    /// Sighting memory of friendly structures.
    pub my_structures: ObjectPermanence,
    /// Sighting memory of enemy entities.
    pub enemy_units: ObjectPermanence,
    /// The playable map rectangle.
    pub map_info: crate::map::MapInfo,
    /// Expansion locations with an in-flight base, with the tick each was
    /// queued.
    pub reserved_expansions: Vec<(Pos, u64)>,
}

/// The strategic fields the sighting-memory updates leave untouched.
pub open spec fn same_strategic_fields(a: BotState, b: BotState) -> bool {
    &&& a.peak_army == b.peak_army
    &&& a.desired_workers == b.desired_workers
    &&& a.desired_gasses == b.desired_gasses
    &&& a.desired_bases == b.desired_bases
    &&& a.is_under_attack == b.is_under_attack
    &&& a.build_order == b.build_order
    &&& a.reserved_expansions == b.reserved_expansions
    &&& a.bases == b.bases
    &&& a.map_info == b.map_info
}

impl BotState {
    pub open spec fn wf(self) -> bool {
        &&& self.micro.wf()
        &&& self.my_structures.wf()
        &&& self.enemy_units.wf()
        &&& forall|i: int| 0 <= i < self.bases@.len() ==> (#[trigger] self.bases@[i]).in_bounds()
        &&& self.desired_workers <= 1000
        &&& self.desired_gasses <= 100
        &&& self.reserved_expansions@.len() <= 1000
        &&& self.map_info.wf()
    }

    pub fn new() -> (r: BotState)
        ensures
            r.wf(),
            r.micro.drones@ =~= Seq::<(u64, crate::micro::DroneTask)>::empty(),
            r.micro.drone_last_seen@ =~= Seq::<(u64, u64)>::empty(),
            r.micro.enemy_base_locations_by_expansion_order@ =~= Seq::<Pos>::empty(),
            r.my_structures.map@ =~= Seq::<(u64, (ObjectSpotted, UnitKind))>::empty(),
            r.enemy_units.map@ =~= Seq::<(u64, (ObjectSpotted, UnitKind))>::empty(),
            !r.is_under_attack,
            r.peak_army == 0,
            r.desired_workers == 0,
            r.desired_gasses == 0,
            r.desired_bases == 0,
            r.bases@ =~= Seq::<Pos>::empty(),
            r.reserved_expansions@ =~= Seq::<(Pos, u64)>::empty(),
            r.build_order == (BuildOrderInfo { spawning_pool_supply: 17u64, first_hatch_supply: 17u64 }),
    {
        BotState {
            bases: Vec::new(),
            build_order: BuildOrderInfo { spawning_pool_supply: 17, first_hatch_supply: 17 },
            peak_army: 0,
            desired_workers: 0,
            desired_gasses: 0,
            desired_bases: 0,
            is_under_attack: false,
            micro: MicroState::new(),
            my_structures: ObjectPermanence::new(),
            enemy_units: ObjectPermanence::new(),
            map_info: crate::map::MapInfo {
                width: 0,
                height: 0,
                zero_offset: Pos { x: 0, y: 0 },
            },
            reserved_expansions: Vec::new(),
        }
    }

    pub fn update_my_recent_structure_positions(&mut self, structures: &Vec<SnapUnit>, iteration: u64)
        requires
            old(self).wf(),
            forall|i: int| 0 <= i < structures@.len() ==> (#[trigger] structures@[i]).pos.in_bounds(),
        ensures
            final(self).wf(),
            forall|t: u64|
                final(self).my_structures.map.lookup(t) == match spec_observed(
                    structures@,
                    iteration,
                    t,
                ) {
                    Some(v) => Some(v),
                    None => old(self).my_structures.map.lookup(t),
                },
            final(self).enemy_units == old(self).enemy_units,
            final(self).micro == old(self).micro,
            same_strategic_fields(*old(self), *final(self)),
    {
        self.my_structures.update_all(iteration, structures);
    }

    pub fn update_recent_enemy_spotted_information(&mut self, units: &Vec<SnapUnit>, iteration: u64)
        requires
            old(self).wf(),
            forall|i: int| 0 <= i < units@.len() ==> (#[trigger] units@[i]).pos.in_bounds(),
        ensures
            final(self).wf(),
            forall|t: u64|
                final(self).enemy_units.map.lookup(t) == match spec_observed(units@, iteration, t) {
                    Some(v) => Some(v),
                    None => old(self).enemy_units.map.lookup(t),
                },
            final(self).my_structures == old(self).my_structures,
            final(self).micro == old(self).micro,
            same_strategic_fields(*old(self), *final(self)),
    {
        self.enemy_units.update_all(iteration, units);
    }

    /// Positions of friendly structures seen within the short window.
    pub fn get_my_recent_structure_positions(&self, iteration: u64) -> (r: Vec<Pos>)
        requires
            self.wf(),
        ensures
            r@ == spec_positions(
                spec_recent(self.my_structures.map@, iteration, SHORT_SIGHTING_WINDOW),
            ),
            forall|j: int| 0 <= j < r@.len() ==> (#[trigger] r@[j]).in_bounds(),
    {
        let pairs = self.my_structures.query(iteration, SHORT_SIGHTING_WINDOW);
        positions_of(&pairs)
    }

    /// Recent enemy sightings, as (position, kind) pairs, under the short
    /// window.
    pub fn get_recent_enemy_spotted_information(&self, iteration: u64) -> (r: Vec<
        (Pos, UnitKind),
    >)
        requires
            self.wf(),
        ensures
            r@ == spec_recent(self.enemy_units.map@, iteration, SHORT_SIGHTING_WINDOW),
            forall|j: int| 0 <= j < r@.len() ==> (#[trigger] r@[j]).0.in_bounds(),
    {
        self.enemy_units.query(iteration, SHORT_SIGHTING_WINDOW)
    }

    /// Record the tick a freshly created worker was first seen.
    pub fn register_unit_created(&mut self, unit: &SnapUnit, iteration: u64)
        requires
            old(self).wf(),
        ensures
            final(self).wf(),
            unit.kind == UnitKind::Drone ==> final(self).micro.drone_last_seen.lookup(unit.tag)
                == Some(iteration),
            unit.kind != UnitKind::Drone ==> final(self).micro.drone_last_seen@ == old(
                self,
            ).micro.drone_last_seen@,
            forall|t: u64|
                t != unit.tag ==> final(self).micro.drone_last_seen.lookup(t) == old(
                    self,
                ).micro.drone_last_seen.lookup(t),
            final(self).micro.drones == old(self).micro.drones,
            final(self).my_structures == old(self).my_structures,
            final(self).enemy_units == old(self).enemy_units,
            same_strategic_fields(*old(self), *final(self)),
    {
        if unit.kind == UnitKind::Drone {
            self.micro.drone_last_seen.insert(unit.tag, iteration);
        }
    }

    /// Drop the sighting record of a destroyed entity.
    pub fn register_unit_destroyed(&mut self, tag: u64)
        requires
            old(self).wf(),
        ensures
            final(self).wf(),
            final(self).enemy_units.map.lookup(tag) is None,
            forall|t: u64|
                t != tag ==> final(self).enemy_units.map.lookup(t) == old(
                    self,
                ).enemy_units.map.lookup(t),
            final(self).my_structures == old(self).my_structures,
            final(self).micro == old(self).micro,
            same_strategic_fields(*old(self), *final(self)),
    {
        self.enemy_units.remove(tag);
    }

    /// Fix the opening build order's supply thresholds.
    pub fn determine_build_order(&mut self, runtime_options: &RuntimeOptions)
        requires
            old(self).wf(),
        ensures
            final(self).wf(),
            runtime_options.use_tryhard_mining ==> final(self).build_order == (BuildOrderInfo {
                spawning_pool_supply: 16u64,
                first_hatch_supply: 16u64,
            }),
            !runtime_options.use_tryhard_mining ==> final(self).build_order == (BuildOrderInfo {
                spawning_pool_supply: 17u64,
                first_hatch_supply: 17u64,
            }),
            final(self).micro == old(self).micro,
            final(self).my_structures == old(self).my_structures,
            final(self).enemy_units == old(self).enemy_units,
            final(self).bases == old(self).bases,
            final(self).peak_army == old(self).peak_army,
            final(self).desired_workers == old(self).desired_workers,
            final(self).desired_gasses == old(self).desired_gasses,
            final(self).desired_bases == old(self).desired_bases,
            final(self).is_under_attack == old(self).is_under_attack,
            final(self).reserved_expansions == old(self).reserved_expansions,
            final(self).map_info == old(self).map_info,
    {
        if runtime_options.use_tryhard_mining {
            self.build_order = BuildOrderInfo { spawning_pool_supply: 16, first_hatch_supply: 16 };
        } else {
            self.build_order = BuildOrderInfo { spawning_pool_supply: 17, first_hatch_supply: 17 };
        }
    }
}

/// Access to the engine state, for hosts that embed it in a larger
/// controller.
pub trait GetBotState {
    fn get_state(&self) -> &BotState;

    fn get_state_mut(&mut self) -> &mut BotState;
}

/// The positions of a (position, kind) sequence, in order.
pub open spec fn spec_positions(s: Seq<(Pos, UnitKind)>) -> Seq<Pos>
    decreases s.len(),
{
    if s.len() == 0 {
        Seq::empty()
    } else {
        spec_positions(s.drop_last()).push(s.last().0)
    }
}

/// Extract the positions of a (position, kind) list.
#[verifier::loop_isolation(false)]
fn positions_of(pairs: &Vec<(Pos, UnitKind)>) -> (r: Vec<Pos>)
    ensures
        r@ == spec_positions(pairs@),
        (forall|j: int| 0 <= j < pairs@.len() ==> (#[trigger] pairs@[j]).0.in_bounds())
            ==> forall|j: int| 0 <= j < r@.len() ==> (#[trigger] r@[j]).in_bounds(),
{
    let n = pairs.len();
    let mut out: Vec<Pos> = Vec::new();
    let mut i: usize = 0;
    proof {
        assert(pairs@.take(0) =~= Seq::<(Pos, UnitKind)>::empty());
    }
    while i < n
        invariant
            i <= n,
            out@ == spec_positions(pairs@.take(i as int)),
            (forall|j: int| 0 <= j < pairs@.len() ==> (#[trigger] pairs@[j]).0.in_bounds())
                ==> forall|j: int| 0 <= j < out@.len() ==> (#[trigger] out@[j]).in_bounds(),
        decreases n - i,
    {
        proof {
            assert(pairs@.take(i + 1).drop_last() =~= pairs@.take(i as int));
            assert(pairs@.take(i + 1).last() == pairs@[i as int]);
        }
        out.push(pairs[i].0);
        i += 1;
    }
    proof {
        assert(pairs@.take(n as int) =~= pairs@);
    }
    out
}

} // verus!
