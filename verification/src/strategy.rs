//! The strategy evaluator: per-tick threat detection and the desired
//! base count.
use vstd::prelude::*;

use crate::bot::FaxBot;
use crate::geom::{dist_sq, distance_sq, isqrt, sqrt_floor, Pos, SCALE};
use crate::model::{
    is_scout_air_kind, is_structure_kind, is_townhall_kind, is_worker_kind, Alliance, Expansion,
    SnapUnit, Snapshot, UnitKind,
};
use crate::sort::{sort_by_key, sorted_by_key};
use crate::state::{
    spec_observed, spec_positions, spec_recent, LONG_SIGHTING_WINDOW, SHORT_SIGHTING_WINDOW,
};

verus! {

/// An enemy sighting within this range of a recent friendly structure
/// counts toward the short-range threat signal.
pub const ATTACK_NEAR_DISTANCE: i64 = 18 * SCALE;

/// Margin added to the spawn-to-spawn distance for the long-range threat
/// signal.
pub const THREAT_MARGIN: i64 = 9 * SCALE;

/// Resource nodes within this range of a depot belong to it.
pub const RESOURCE_NEAR_DISTANCE: i64 = 12 * SCALE;

/// A mineral patch with at most this much remaining content is treated
/// as depleted.
pub const PATCH_DEPLETED_CONTENT: u64 = 200;

/// Some point of `pts` lies strictly within squared distance `rsq` of
/// `p`.
pub open spec fn spec_within_any(pts: Seq<Pos>, p: Pos, rsq: int) -> bool {
    exists|i: int| 0 <= i < pts.len() && dist_sq(pts[i], p) < rsq
}

/// Whether some point of `pts` lies strictly within squared distance
/// `rsq` of `p`.
#[verifier::loop_isolation(false)]
pub fn within_any(pts: &Vec<Pos>, p: Pos, rsq: u64) -> (r: bool)
    requires
        p.in_bounds(),
        forall|i: int| 0 <= i < pts@.len() ==> (#[trigger] pts@[i]).in_bounds(),
    ensures
        r == spec_within_any(pts@, p, rsq as int),
{
    let n = pts.len();
    let mut i: usize = 0;
    while i < n
        invariant
            i <= n,
            forall|j: int| 0 <= j < i ==> dist_sq(pts@[j], p) >= rsq,
        decreases n - i,
    {
        if distance_sq(pts[i], p) < rsq {
            return true;
        }
        i += 1;
    }
    false
}

/// A sighting that counts toward the short-range threat signal: not a
/// worker, not a non-combat aerial scout, and close to a recently seen
/// friendly structure.
pub open spec fn spec_is_attacker(e: (Pos, UnitKind), structures: Seq<Pos>) -> bool {
    &&& !is_worker_kind(e.1)
    &&& !is_scout_air_kind(e.1)
    &&& spec_within_any(structures, e.0, ATTACK_NEAR_DISTANCE * ATTACK_NEAR_DISTANCE)
}

/// How many recent sightings count toward the short-range threat signal.
pub open spec fn spec_num_attacking(sightings: Seq<(Pos, UnitKind)>, structures: Seq<Pos>) -> int
    decreases sightings.len(),
{
    if sightings.len() == 0 {
        0
    } else {
        spec_num_attacking(sightings.drop_last(), structures) + if spec_is_attacker(
            sightings.last(),
            structures,
        ) {
            1int
        } else {
            0int
        }
    }
}

/// Minimum squared distance from `p` to a point of the non-empty `pts`.
pub open spec fn spec_min_dist_sq(pts: Seq<Pos>, p: Pos) -> int
    recommends
        pts.len() > 0,
    decreases pts.len(),
{
    if pts.len() <= 1 {
        dist_sq(pts[0], p)
    } else {
        let rest = spec_min_dist_sq(pts.drop_last(), p);
        if dist_sq(pts.last(), p) < rest {
            dist_sq(pts.last(), p)
        } else {
            rest
        }
    }
}

/// With in-bounds points, the minimum squared distance stays small.
pub proof fn lemma_min_dist_sq_bounds(pts: Seq<Pos>, p: Pos)
    requires
        pts.len() > 0,
        p.in_bounds(),
        forall|i: int| 0 <= i < pts.len() ==> (#[trigger] pts[i]).in_bounds(),
    ensures
        0 <= spec_min_dist_sq(pts, p) <= 2 * (crate::geom::COORD_LIMIT as int) * (
        crate::geom::COORD_LIMIT as int),
    decreases pts.len(),
{
    if pts.len() <= 1 {
        crate::geom::lemma_dist_sq_bounds(pts[0], p);
    } else {
        assert(forall|i: int|
            0 <= i < pts.len() - 1 ==> pts.drop_last()[i] == #[trigger] pts[i]);
        lemma_min_dist_sq_bounds(pts.drop_last(), p);
        crate::geom::lemma_dist_sq_bounds(pts.last(), p);
    }
}

/// Minimum squared distance from `p` to a point of `pts`.
#[verifier::loop_isolation(false)]
pub fn min_dist_sq(pts: &Vec<Pos>, p: Pos) -> (r: u64)
    requires
        pts@.len() > 0,
        p.in_bounds(),
        forall|i: int| 0 <= i < pts@.len() ==> (#[trigger] pts@[i]).in_bounds(),
    ensures
        r == spec_min_dist_sq(pts@, p),
{
    let n = pts.len();
    let mut best: u64 = distance_sq(pts[0], p);
    let mut i: usize = 1;
    proof {
        assert(pts@.take(1)[0] == pts@[0]);
    }
    while i < n
        invariant
            1 <= i <= n,
            best == spec_min_dist_sq(pts@.take(i as int), p),
        decreases n - i,
    {
        proof {
            assert(pts@.take(i + 1).drop_last() =~= pts@.take(i as int));
            assert(pts@.take(i + 1).last() == pts@[i as int]);
            assert(pts@.take(i + 1)[0] == pts@[0]);
        }
        let d = distance_sq(pts[i], p);
        if d < best {
            best = d;
        }
        i += 1;
    }
    proof {
        assert(pts@.take(n as int) =~= pts@);
    }
    best
}

/// The start locations other than our own, in map order.
pub open spec fn spec_other_starts(starts: Seq<Pos>, spawn: Pos) -> Seq<Pos>
    decreases starts.len(),
{
    if starts.len() == 0 {
        Seq::empty()
    } else {
        let rest = spec_other_starts(starts.drop_last(), spawn);
        if starts.last() != spawn {
            rest.push(starts.last())
        } else {
            rest
        }
    }
}

#[verifier::loop_isolation(false)]
pub fn other_starts_of(starts: &Vec<Pos>, spawn: Pos) -> (r: Vec<Pos>)
    ensures
        r@ == spec_other_starts(starts@, spawn),
{
    let n = starts.len();
    let mut out: Vec<Pos> = Vec::new();
    let mut i: usize = 0;
    proof {
        assert(starts@.take(0) =~= Seq::<Pos>::empty());
    }
    while i < n
        invariant
            i <= n,
            out@ == spec_other_starts(starts@.take(i as int), spawn),
        decreases n - i,
    {
        proof {
            assert(starts@.take(i + 1).drop_last() =~= starts@.take(i as int));
            assert(starts@.take(i + 1).last() == starts@[i as int]);
        }
        let s = starts[i];
        if !(s.x == spawn.x && s.y == spawn.y) {
            out.push(s);
        }
        i += 1;
    }
    proof {
        assert(starts@.take(n as int) =~= starts@);
    }
    out
}

/// A sighting that counts toward the long-range threat signal: at most
/// the enemy-spawn distance plus a margin from our spawn.
pub open spec fn spec_is_threat(e: (Pos, UnitKind), spawn: Pos, enemy_spawns: Seq<Pos>) -> bool {
    sqrt_floor(dist_sq(spawn, e.0) as nat) <= sqrt_floor(
        spec_min_dist_sq(enemy_spawns, e.0) as nat,
    ) + THREAT_MARGIN
}

/// How many recent sightings count toward the long-range threat signal.
pub open spec fn spec_num_threatening(
    sightings: Seq<(Pos, UnitKind)>,
    spawn: Pos,
    enemy_spawns: Seq<Pos>,
) -> int
    decreases sightings.len(),
{
    if sightings.len() == 0 {
        0
    } else {
        spec_num_threatening(sightings.drop_last(), spawn, enemy_spawns) + if spec_is_threat(
            sightings.last(),
            spawn,
            enemy_spawns,
        ) {
            1int
        } else {
            0int
        }
    }
}

/// The friendly structures of a snapshot, in order.
pub open spec fn spec_structures(units: Seq<SnapUnit>) -> Seq<SnapUnit>
    decreases units.len(),
{
    if units.len() == 0 {
        Seq::empty()
    } else {
        let rest = spec_structures(units.drop_last());
        if is_structure_kind(units.last().kind) {
            rest.push(units.last())
        } else {
            rest
        }
    }
}

/// The positions of the snapshot's depots, in order.
pub open spec fn spec_townhall_positions(units: Seq<SnapUnit>) -> Seq<Pos>
    decreases units.len(),
{
    if units.len() == 0 {
        Seq::empty()
    } else {
        let rest = spec_townhall_positions(units.drop_last());
        if is_townhall_kind(units.last().kind) {
            rest.push(units.last().pos)
        } else {
            rest
        }
    }
}

/// The first unit of `s` with tag `t`, if any.
pub open spec fn spec_find_first(s: Seq<SnapUnit>, t: u64) -> Option<SnapUnit>
    decreases s.len(),
{
    if s.len() == 0 {
        None
    } else if s[0].tag == t {
        Some(s[0])
    } else {
        spec_find_first(s.drop_first(), t)
    }
}

/// The first visible unit with tag `t`.
#[verifier::loop_isolation(false)]
pub fn find_first(s: &Vec<SnapUnit>, t: u64) -> (r: Option<SnapUnit>)
    ensures
        r == spec_find_first(s@, t),
{
    let n = s.len();
    let mut i: usize = 0;
    proof {
        assert(s@.skip(0) =~= s@);
    }
    while i < n
        invariant
            i <= n,
            spec_find_first(s@, t) == spec_find_first(s@.skip(i as int), t),
        decreases n - i,
    {
        proof {
            assert(s@.skip(i as int)[0] == s@[i as int]);
            assert(s@.skip(i as int).drop_first() =~= s@.skip(i + 1));
        }
        if s[i].tag == t {
            return Some(s[i]);
        }
        i += 1;
    }
    proof {
        assert(s@.skip(n as int) =~= Seq::<SnapUnit>::empty());
    }
    None
}

/// A found unit is an element of the list and carries the searched tag.
pub proof fn lemma_find_first_is_element(s: Seq<SnapUnit>, t: u64)
    ensures
        match spec_find_first(s, t) {
            Some(u) => u.tag == t && exists|i: int| 0 <= i < s.len() && #[trigger] s[i] == u,
            None => true,
        },
    decreases s.len(),
{
    if s.len() > 0 {
        if s[0].tag == t {
        } else {
            lemma_find_first_is_element(s.drop_first(), t);
            if spec_find_first(s.drop_first(), t) is Some {
                let u = spec_find_first(s.drop_first(), t)->Some_0;
                let i = choose|i: int| 0 <= i < s.drop_first().len() && #[trigger] s.drop_first()[i] == u;
                assert(s[i + 1] == u);
            }
        }
    }
}

/// Whether a patch identifier refers to a visible, nearly mined-out
/// mineral node.  Patches out of sight are assumed unmined.
pub open spec fn spec_patch_depleted(resources: Seq<SnapUnit>, tag: u64) -> bool {
    match spec_find_first(resources, tag) {
        Some(u) => u.kind == UnitKind::MineralField && u.mineral_contents <= PATCH_DEPLETED_CONTENT,
        None => false,
    }
}

/// How many of an expansion's patches are visibly depleted.
pub open spec fn spec_depleted_count(minerals: Seq<u64>, resources: Seq<SnapUnit>) -> int
    decreases minerals.len(),
{
    if minerals.len() == 0 {
        0
    } else {
        spec_depleted_count(minerals.drop_last(), resources) + if spec_patch_depleted(
            resources,
            minerals.last(),
        ) {
            1int
        } else {
            0int
        }
    }
}

pub proof fn lemma_depleted_count_bounds(minerals: Seq<u64>, resources: Seq<SnapUnit>)
    ensures
        0 <= spec_depleted_count(minerals, resources) <= minerals.len(),
    decreases minerals.len(),
{
    if minerals.len() > 0 {
        lemma_depleted_count_bounds(minerals.drop_last(), resources);
    }
}

#[verifier::loop_isolation(false)]
fn depleted_count(minerals: &Vec<u64>, resources: &Vec<SnapUnit>) -> (r: usize)
    requires
        minerals@.len() <= 32,
    ensures
        r == spec_depleted_count(minerals@, resources@),
{
    let n = minerals.len();
    let mut count: usize = 0;
    let mut i: usize = 0;
    proof {
        assert(minerals@.take(0) =~= Seq::<u64>::empty());
        lemma_depleted_count_bounds(minerals@, resources@);
    }
    while i < n
        invariant
            i <= n,
            count == spec_depleted_count(minerals@.take(i as int), resources@),
            count <= i,
        decreases n - i,
    {
        proof {
            assert(minerals@.take(i + 1).drop_last() =~= minerals@.take(i as int));
            assert(minerals@.take(i + 1).last() == minerals@[i as int]);
        }
        let found = find_first(resources, minerals[i]);
        match found {
            Some(u) => {
                if u.kind == UnitKind::MineralField && u.mineral_contents <= PATCH_DEPLETED_CONTENT
                {
                    count += 1;
                }
            },
            None => {},
        }
        i += 1;
    }
    proof {
        assert(minerals@.take(n as int) =~= minerals@);
    }
    count
}

/// `idxs` arranges the indices of `exps` nearest-first from `home`: it
/// pairs every index of `exps` with its squared distance from `home`,
/// in ascending distance order; equal distances may come in any order.
pub open spec fn spec_nearest_first_arrangement(
    idxs: Seq<(u64, usize)>,
    exps: Seq<Expansion>,
    home: Pos,
) -> bool {
    &&& idxs.len() == exps.len()
    &&& forall|j: int|
        0 <= j < idxs.len() ==> (#[trigger] idxs[j]).1 < exps.len() && idxs[j].0 == dist_sq(
            exps[idxs[j].1 as int].loc,
            home,
        )
    &&& crate::sort::sorted_by_key(idxs)
    &&& forall|i: int|
        0 <= i < exps.len() ==> idxs.contains(
            (dist_sq((#[trigger] exps[i]).loc, home) as u64, i as usize),
        )
}

/// The expansions of `exps`, in the order an index arrangement gives.
pub open spec fn spec_arranged(exps: Seq<Expansion>, idxs: Seq<(u64, usize)>) -> Seq<Expansion> {
    Seq::new(idxs.len(), |j: int| exps[idxs[j].1 as int])
}

/// The deficit-reduction walk of the desired-base computation: visit the
/// expansions nearest-first, skip enemy-owned ones, count each with a
/// non-depleted patch, reduce the worker deficit by the harvesting
/// capacity gained, and stop once the deficit is covered.
pub open spec fn spec_bases_walk(
    exps: Seq<Expansion>,
    resources: Seq<SnapUnit>,
    deficit: int,
    acc: int,
) -> int
    decreases exps.len(),
{
    if exps.len() == 0 {
        acc
    } else {
        let e = exps[0];
        if e.alliance == Alliance::Enemy {
            spec_bases_walk(exps.drop_first(), resources, deficit, acc)
        } else {
            let nonempty = e.minerals@.len() - spec_depleted_count(e.minerals@, resources);
            let deficit2 = if nonempty >= 1 {
                deficit - 2 * nonempty
            } else {
                deficit
            };
            let acc2 = if nonempty >= 1 {
                acc + 1
            } else {
                acc
            };
            if deficit2 <= 0 {
                acc2
            } else {
                spec_bases_walk(exps.drop_first(), resources, deficit2, acc2)
            }
        }
    }
}

impl FaxBot {
    /// Short-range threat signal: recent enemy sightings of combat
    /// entities near recently seen friendly structures.
    pub fn num_attacking_enemies(&self, iteration: u64) -> (r: usize)
        requires
            self.state.wf(),
        ensures
            r == spec_num_attacking(
                spec_recent(self.state.enemy_units.map@, iteration, SHORT_SIGHTING_WINDOW),
                spec_positions(
                    spec_recent(self.state.my_structures.map@, iteration, SHORT_SIGHTING_WINDOW),
                ),
            ),
    {
        let structures = self.state.get_my_recent_structure_positions(iteration);
        let sightings = self.state.get_recent_enemy_spotted_information(iteration);
        let ghost structs = structures@;
        let n = sightings.len();
        let mut count: usize = 0;
        let mut i: usize = 0;
        proof {
            assert(sightings@.take(0) =~= Seq::<(Pos, UnitKind)>::empty());
            lemma_num_attacking_bounds(sightings@, structs);
        }
        #[verifier::loop_isolation(false)]
        while i < n
            invariant
                i <= n,
                count == spec_num_attacking(sightings@.take(i as int), structs),
                count <= i,
            decreases n - i,
        {
            proof {
                assert(sightings@.take(i + 1).drop_last() =~= sightings@.take(i as int));
                assert(sightings@.take(i + 1).last() == sightings@[i as int]);
                lemma_num_attacking_bounds(sightings@.take(i as int), structs);
            }
            let (pos, kind) = sightings[i];
            let is_worker = kind == UnitKind::Drone;
            let is_scout = kind == UnitKind::Overlord || kind == UnitKind::OverlordTransport
                || kind == UnitKind::Overseer;
            if !is_worker && !is_scout && within_any(
                &structures,
                pos,
                (ATTACK_NEAR_DISTANCE * ATTACK_NEAR_DISTANCE) as u64,
            ) {
                count += 1;
            }
            i += 1;
        }
        proof {
            assert(sightings@.take(n as int) =~= sightings@);
        }
        count
    }

    /// Long-range threat signal: enemy sightings over the long window
    /// that are nearer our spawn than an enemy spawn, up to a margin.
    pub fn num_threatening_enemies(&self, snap: &Snapshot, iteration: u64) -> (r: usize)
        requires
            self.state.wf(),
            snap.wf(),
            spec_other_starts(snap.start_locations@, snap.start_location).len() > 0,
        ensures
            r == spec_num_threatening(
                spec_recent(self.state.enemy_units.map@, iteration, LONG_SIGHTING_WINDOW),
                snap.start_location,
                spec_other_starts(snap.start_locations@, snap.start_location),
            ),
    {
        let spawn = snap.start_location;
        let enemy_spawns = other_starts_of(&snap.start_locations, spawn);
        proof {
            lemma_other_starts_in_bounds(snap.start_locations@, spawn);
        }
        let sightings = self.state.enemy_units.query(iteration, LONG_SIGHTING_WINDOW);
        let ghost espawns = enemy_spawns@;
        let n = sightings.len();
        let mut count: usize = 0;
        let mut i: usize = 0;
        proof {
            assert(sightings@.take(0) =~= Seq::<(Pos, UnitKind)>::empty());
        }
        #[verifier::loop_isolation(false)]
        while i < n
            invariant
                i <= n,
                count == spec_num_threatening(sightings@.take(i as int), spawn, espawns),
                count <= i,
            decreases n - i,
        {
            proof {
                assert(sightings@.take(i + 1).drop_last() =~= sightings@.take(i as int));
                assert(sightings@.take(i + 1).last() == sightings@[i as int]);
                lemma_num_threatening_bounds(sightings@.take(i as int), spawn, espawns);
            }
            let (pos, _kind) = sightings[i];
            proof {
                crate::geom::lemma_dist_sq_bounds(spawn, pos);
                lemma_min_dist_sq_bounds(espawns, pos);
            }
            let own = isqrt(distance_sq(spawn, pos));
            let nearest_enemy = isqrt(min_dist_sq(&enemy_spawns, pos));
            if own <= nearest_enemy + (THREAT_MARGIN as u64) {
                count += 1;
            }
            i += 1;
        }
        proof {
            assert(sightings@.take(n as int) =~= sightings@);
        }
        count
    }
}

/// The friendly structures of the snapshot's unit list.
#[verifier::loop_isolation(false)]
fn filter_structures(units: &Vec<SnapUnit>) -> (r: Vec<SnapUnit>)
    ensures
        r@ == spec_structures(units@),
{
    let n = units.len();
    let mut out: Vec<SnapUnit> = Vec::new();
    let mut i: usize = 0;
    proof {
        assert(units@.take(0) =~= Seq::<SnapUnit>::empty());
    }
    while i < n
        invariant
            i <= n,
            out@ == spec_structures(units@.take(i as int)),
        decreases n - i,
    {
        proof {
            assert(units@.take(i + 1).drop_last() =~= units@.take(i as int));
            assert(units@.take(i + 1).last() == units@[i as int]);
        }
        let k = units[i].kind;
        if k == UnitKind::Hatchery || k == UnitKind::Lair || k == UnitKind::SpawningPool || k
            == UnitKind::RoachWarren || k == UnitKind::HydraliskDen || k == UnitKind::Extractor {
            out.push(units[i]);
        }
        i += 1;
    }
    proof {
        assert(units@.take(n as int) =~= units@);
    }
    out
}

/// The positions of the snapshot's depots.
#[verifier::loop_isolation(false)]
fn townhall_positions(units: &Vec<SnapUnit>) -> (r: Vec<Pos>)
    ensures
        r@ == spec_townhall_positions(units@),
{
    let n = units.len();
    let mut out: Vec<Pos> = Vec::new();
    let mut i: usize = 0;
    proof {
        assert(units@.take(0) =~= Seq::<SnapUnit>::empty());
    }
    while i < n
        invariant
            i <= n,
            out@ == spec_townhall_positions(units@.take(i as int)),
        decreases n - i,
    {
        proof {
            assert(units@.take(i + 1).drop_last() =~= units@.take(i as int));
            assert(units@.take(i + 1).last() == units@[i as int]);
        }
        let k = units[i].kind;
        if k == UnitKind::Hatchery || k == UnitKind::Lair {
            out.push(units[i].pos);
        }
        i += 1;
    }
    proof {
        assert(units@.take(n as int) =~= units@);
    }
    out
}

/// The expansion indices ordered nearest-first from home, with their
/// squared distances as keys.
#[verifier::loop_isolation(false)]
#[verifier::rlimit(50)]
fn sorted_expansion_indices(snap: &Snapshot) -> (r: Vec<(u64, usize)>)
    requires
        snap.wf(),
    ensures
        r@.len() == snap.expansions@.len(),
        forall|j: int|
            0 <= j < r@.len() ==> (#[trigger] r@[j]).1 < snap.expansions@.len() && r@[j].0
                == dist_sq(snap.expansions@[r@[j].1 as int].loc, snap.start_location),
        sorted_by_key(r@),
        forall|i: int|
            0 <= i < snap.expansions@.len() ==> r@.contains(
                (
                    dist_sq((#[trigger] snap.expansions@[i]).loc, snap.start_location) as u64,
                    i as usize,
                ),
            ),
{
    let home = snap.start_location;
    let n = snap.expansions.len();
    let mut pairs: Vec<(u64, usize)> = Vec::new();
    let mut i: usize = 0;
    while i < n
        invariant
            i <= n,
            pairs@.len() == i,
            forall|j: int|
                0 <= j < i ==> #[trigger] pairs@[j] == (
                    dist_sq(snap.expansions@[j].loc, home) as u64,
                    j as usize,
                ),
        decreases n - i,
    {
        pairs.push((distance_sq(snap.expansions[i].loc, home), i));
        i += 1;
    }
    let ghost inp = pairs@;
    proof {
        assert(forall|j: int|
            0 <= j < n ==> #[trigger] inp[j] == (
                dist_sq(snap.expansions@[j].loc, home) as u64,
                j as usize,
            ));
    }
    let sorted = sort_by_key(pairs);
    proof {
        crate::sort::lemma_multiset_elements(sorted@, inp);
        assert forall|j: int| 0 <= j < sorted@.len() implies ((#[trigger] sorted@[j]).1 < n
            && sorted@[j].0 == dist_sq(snap.expansions@[sorted@[j].1 as int].loc, home)) by {
            assert(inp.contains(sorted@[j]));
            let jj = choose|jj: int| 0 <= jj < inp.len() && inp[jj] == sorted@[j];
            assert(inp[jj] == (dist_sq(snap.expansions@[jj].loc, home) as u64, jj as usize));
            assert(sorted@[j].1 == jj as usize);
            assert(snap.expansions@[jj].wf());
            crate::geom::lemma_dist_sq_bounds(snap.expansions@[jj].loc, home);
        }
        assert forall|i2: int| 0 <= i2 < n implies sorted@.contains(
            (dist_sq((#[trigger] snap.expansions@[i2]).loc, home) as u64, i2 as usize),
        ) by {
            assert(inp[i2] == (dist_sq(snap.expansions@[i2].loc, home) as u64, i2 as usize));
            assert(sorted@.contains(inp[i2]));
        }
    }
    sorted
}

/// Compute the desired base count: walk the expansions nearest-first and
/// reduce the worker deficit by each usable expansion's capacity.
#[verifier::loop_isolation(false)]
#[verifier::rlimit(50)]
fn desired_bases_of(snap: &Snapshot, deficit0: i64) -> (r: usize)
    requires
        snap.wf(),
        -1000000 <= deficit0 <= 1000000,
    ensures
        exists|idxs: Seq<(u64, usize)>|
            spec_nearest_first_arrangement(idxs, snap.expansions@, snap.start_location) && r
                == spec_bases_walk(
                spec_arranged(snap.expansions@, idxs),
                snap.resources@,
                deficit0 as int,
                0,
            ),
        r <= snap.expansions@.len(),
{
    let n = snap.expansions.len();
    let sorted = sorted_expansion_indices(snap);
    let ghost arr = spec_arranged(snap.expansions@, sorted@);
    let ghost target = spec_bases_walk(arr, snap.resources@, deficit0 as int, 0);
    let mut deficit: i64 = deficit0;
    let mut acc: usize = 0;
    let mut done = false;
    let mut j: usize = 0;
    proof {
        assert(arr.skip(0) =~= arr);
    }
    while j < n && !done
        invariant
            j <= n,
            acc <= j,
            deficit0 as int - 64 * (j as int) <= deficit as int <= deficit0 as int,
            if done {
                target == acc
            } else {
                target == spec_bases_walk(
                    arr.skip(j as int),
                    snap.resources@,
                    deficit as int,
                    acc as int,
                )
            },
        decreases n - j,
    {
        let idx = sorted[j].1;
        proof {
            assert(arr.skip(j as int)[0] == arr[j as int]);
            assert(arr.skip(j as int).drop_first() =~= arr.skip(j + 1));
            assert(arr[j as int] == snap.expansions@[idx as int]);
        }
        let e = &snap.expansions[idx];
        if !(e.alliance == Alliance::Enemy) {
            proof {
                assert(snap.expansions@[idx as int].wf());
                lemma_depleted_count_bounds(e.minerals@, snap.resources@);
            }
            let dep = depleted_count(&e.minerals, &snap.resources);
            let slots = e.minerals.len();
            let nonempty = slots - dep;
            if nonempty >= 1 {
                deficit = deficit - 2 * (nonempty as i64);
                acc = acc + 1;
            }
            if deficit <= 0 {
                done = true;
            }
        }
        j += 1;
    }
    proof {
        if !done {
            assert(arr.skip(n as int) =~= Seq::<Expansion>::empty());
        }
        assert(spec_nearest_first_arrangement(sorted@, snap.expansions@, snap.start_location));
        assert(acc == spec_bases_walk(
            spec_arranged(snap.expansions@, sorted@),
            snap.resources@,
            deficit0 as int,
            0,
        ));
    }
    acc
}

impl FaxBot {
    /// Spread a direction vector pointing away from the resources around
    /// a depot, for placements that must not block mining.
    pub fn vec_away_from_resources(&self, snap: &Snapshot, townhall: Pos) -> (r: Pos)
        requires
            snap.wf(),
            townhall.in_bounds(),
            snap.resources@.len() <= 1000,
        ensures
            r == spec_vec_away(snap.resources@, townhall),
    {
        let n = snap.resources.len();
        let mut sx: i64 = 0;
        let mut sy: i64 = 0;
        let mut i: usize = 0;
        proof {
            assert(snap.resources@.take(0) =~= Seq::<SnapUnit>::empty());
        }
        #[verifier::loop_isolation(false)]
        while i < n
            invariant
                i <= n,
                (sx as int, sy as int) == spec_resource_pull(
                    snap.resources@.take(i as int),
                    townhall,
                ),
                -(i as int) * 12 * SCALE <= sx <= (i as int) * 12 * SCALE,
                -(i as int) * 12 * SCALE <= sy <= (i as int) * 12 * SCALE,
            decreases n - i,
        {
            proof {
                assert(snap.resources@.take(i + 1).drop_last() =~= snap.resources@.take(i as int));
                assert(snap.resources@.take(i + 1).last() == snap.resources@[i as int]);
            }
            let u = &snap.resources[i];
            let d = distance_sq(u.pos, townhall);
            if d < ((RESOURCE_NEAR_DISTANCE * RESOURCE_NEAR_DISTANCE) as u64) {
                proof {
                    let dx = u.pos.x - townhall.x;
                    let dy = u.pos.y - townhall.y;
                    assert(-12 * SCALE <= dx <= 12 * SCALE && -12 * SCALE <= dy <= 12 * SCALE)
                        by (nonlinear_arith)
                        requires
                            dx * dx + dy * dy < (12 * SCALE) * (12 * SCALE),
                            SCALE == 64,
                    ;
                }
                sx = sx + (u.pos.x - townhall.x);
                sy = sy + (u.pos.y - townhall.y);
            }
            i += 1;
        }
        proof {
            assert(snap.resources@.take(n as int) =~= snap.resources@);
        }
        if sx == 0 && sy == 0 {
            Pos { x: 0, y: -SCALE }
        } else {
            proof {
                assert(0 <= (sx as int) * (sx as int) <= 768000 * 768000 && (sx != 0 ==> (
                sx as int) * (sx as int) >= 1)) by (nonlinear_arith)
                    requires
                        -768000 <= sx <= 768000,
                ;
                assert(0 <= (sy as int) * (sy as int) <= 768000 * 768000 && (sy != 0 ==> (
                sy as int) * (sy as int) >= 1)) by (nonlinear_arith)
                    requires
                        -768000 <= sy <= 768000,
                ;
            }
            let norm = isqrt(((sx * sx) as u64) + ((sy * sy) as u64));
            proof {
                crate::geom::lemma_sqrt_floor_bracket((sx * sx + sy * sy) as nat);
                assert(norm > 0) by (nonlinear_arith)
                    requires
                        (sx as int) * (sx as int) + (sy as int) * (sy as int) >= 1,
                        (norm as int + 1) * (norm as int + 1) > (sx as int) * (sx as int) + (
                        sy as int) * (sy as int),
                        norm >= 0,
                ;
            }
            let qx = crate::geom::scaled_toward_zero(sx, SCALE, norm);
            let qy = crate::geom::scaled_toward_zero(sy, SCALE, norm);
            Pos { x: -qx, y: -qy }
        }
    }
}

impl FaxBot {
    /// First stage of the tick: refresh both sighting memories from the
    /// snapshot, combine the two threat signals into the under-attack
    /// flag, recompute the desired base count by the deficit walk, and
    /// refresh the depot list.
    #[verifier::rlimit(50)]
    pub fn determine_state_for_tick(&mut self, snap: &Snapshot)
        requires
            old(self).state.wf(),
            snap.wf(),
            spec_other_starts(snap.start_locations@, snap.start_location).len() > 0,
        ensures
            final(self).state.wf(),
            spec_strategy_outcome(*old(self), *final(self), *snap),
    {
        let structures = filter_structures(&snap.my_units);
        proof {
            lemma_structures_in_bounds(snap.my_units@);
        }
        self.state.update_my_recent_structure_positions(&structures, snap.tick);
        self.state.update_recent_enemy_spotted_information(&snap.enemy_units, snap.tick);
        let attacking = self.num_attacking_enemies(snap.tick);
        let threatening = self.num_threatening_enemies(snap, snap.tick);
        let is_under_attack = attacking >= 2 || threatening >= 4;
        self.state.is_under_attack = is_under_attack;
        let deficit0: i64 = (self.state.desired_workers as i64) - 3 * (
        self.state.desired_gasses as i64);
        let db = desired_bases_of(snap, deficit0);
        self.state.desired_bases = db;
        let bases = townhall_positions(&snap.my_units);
        proof {
            lemma_townhall_positions_in_bounds(snap.my_units@);
        }
        self.state.bases = bases;
    }
}

/// Every structure of a well-formed unit list sits in bounds.
proof fn lemma_structures_in_bounds(units: Seq<SnapUnit>)
    requires
        forall|i: int| 0 <= i < units.len() ==> (#[trigger] units[i]).wf(),
    ensures
        forall|i: int|
            0 <= i < spec_structures(units).len() ==> (#[trigger] spec_structures(
                units,
            )[i]).pos.in_bounds(),
    decreases units.len(),
{
    if units.len() > 0 {
        assert(forall|i: int|
            0 <= i < units.len() - 1 ==> units.drop_last()[i] == #[trigger] units[i]);
        lemma_structures_in_bounds(units.drop_last());
        let rest = spec_structures(units.drop_last());
        if is_structure_kind(units.last().kind) {
            assert(units.last() == units[units.len() - 1]);
            assert(forall|i: int|
                0 <= i < rest.len() ==> rest.push(units.last())[i] == #[trigger] rest[i]);
        }
    }
}

/// Every depot position of a well-formed unit list sits in bounds.
proof fn lemma_townhall_positions_in_bounds(units: Seq<SnapUnit>)
    requires
        forall|i: int| 0 <= i < units.len() ==> (#[trigger] units[i]).wf(),
    ensures
        forall|i: int|
            0 <= i < spec_townhall_positions(units).len() ==> (#[trigger] spec_townhall_positions(
                units,
            )[i]).in_bounds(),
    decreases units.len(),
{
    if units.len() > 0 {
        assert(forall|i: int|
            0 <= i < units.len() - 1 ==> units.drop_last()[i] == #[trigger] units[i]);
        lemma_townhall_positions_in_bounds(units.drop_last());
        let rest = spec_townhall_positions(units.drop_last());
        if is_townhall_kind(units.last().kind) {
            assert(units.last() == units[units.len() - 1]);
            assert(forall|i: int|
                0 <= i < rest.len() ==> rest.push(units.last().pos)[i] == #[trigger] rest[i]);
        }
    }
}

/// The summed offsets from a depot to its nearby resource nodes.
pub open spec fn spec_resource_pull(resources: Seq<SnapUnit>, th: Pos) -> (int, int)
    decreases resources.len(),
{
    if resources.len() == 0 {
        (0, 0)
    } else {
        let (sx, sy) = spec_resource_pull(resources.drop_last(), th);
        let p = resources.last().pos;
        if dist_sq(p, th) < RESOURCE_NEAR_DISTANCE * RESOURCE_NEAR_DISTANCE {
            (sx + p.x - th.x, sy + p.y - th.y)
        } else {
            (sx, sy)
        }
    }
}

/// The unit direction (scaled to `SCALE`) pointing away from the summed
/// resource pull, defaulting to straight down the map when the pull
/// cancels out.
pub open spec fn spec_vec_away(resources: Seq<SnapUnit>, th: Pos) -> Pos {
    let (sx, sy) = spec_resource_pull(resources, th);
    if sx == 0 && sy == 0 {
        Pos { x: 0, y: -SCALE as i64 }
    } else {
        let norm = sqrt_floor((sx * sx + sy * sy) as nat);
        Pos {
            x: -crate::geom::div_toward_zero(sx * SCALE, norm as int) as i64,
            y: -crate::geom::div_toward_zero(sy * SCALE, norm as int) as i64,
        }
    }
}

proof fn lemma_num_attacking_bounds(sightings: Seq<(Pos, UnitKind)>, structures: Seq<Pos>)
    ensures
        0 <= spec_num_attacking(sightings, structures) <= sightings.len(),
    decreases sightings.len(),
{
    if sightings.len() > 0 {
        lemma_num_attacking_bounds(sightings.drop_last(), structures);
    }
}

proof fn lemma_num_threatening_bounds(sightings: Seq<(Pos, UnitKind)>, spawn: Pos, espawns: Seq<Pos>)
    ensures
        0 <= spec_num_threatening(sightings, spawn, espawns) <= sightings.len(),
    decreases sightings.len(),
{
    if sightings.len() > 0 {
        lemma_num_threatening_bounds(sightings.drop_last(), spawn, espawns);
    }
}

pub proof fn lemma_other_starts_in_bounds(starts: Seq<Pos>, spawn: Pos)
    requires
        forall|i: int| 0 <= i < starts.len() ==> (#[trigger] starts[i]).in_bounds(),
    ensures
        forall|i: int|
            0 <= i < spec_other_starts(starts, spawn).len() ==> (#[trigger] spec_other_starts(
                starts,
                spawn,
            )[i]).in_bounds(),
    decreases starts.len(),
{
    if starts.len() > 0 {
        assert(forall|i: int|
            0 <= i < starts.len() - 1 ==> starts.drop_last()[i] == #[trigger] starts[i]);
        lemma_other_starts_in_bounds(starts.drop_last(), spawn);
        let rest = spec_other_starts(starts.drop_last(), spawn);
        if starts.last() != spawn {
            assert(starts.last() == starts[starts.len() - 1]);
            assert(forall|i: int|
                0 <= i < rest.len() ==> rest.push(starts.last())[i] == #[trigger] rest[i]);
        }
    }
}

/// What the strategy stage guarantees: both sighting memories are
/// upserted from the snapshot, the under-attack flag is exactly the
/// disjunction of the two threat signals over the refreshed memories,
/// the desired base count follows the deficit walk over a nearest-first
/// arrangement, the depot list is refreshed, and everything else is
/// untouched.
pub open spec fn spec_strategy_outcome(pre: FaxBot, post: FaxBot, snap: Snapshot) -> bool {
    &&& post.runtime_options == pre.runtime_options
    &&& (forall|t: u64|
        post.state.my_structures.map.lookup(t) == match spec_observed(
            spec_structures(snap.my_units@),
            snap.tick,
            t,
        ) {
            Some(v) => Some(v),
            None => pre.state.my_structures.map.lookup(t),
        })
    &&& (forall|t: u64|
        post.state.enemy_units.map.lookup(t) == match spec_observed(
            snap.enemy_units@,
            snap.tick,
            t,
        ) {
            Some(v) => Some(v),
            None => pre.state.enemy_units.map.lookup(t),
        })
    &&& post.state.is_under_attack == (spec_num_attacking(
        spec_recent(post.state.enemy_units.map@, snap.tick, SHORT_SIGHTING_WINDOW),
        spec_positions(
            spec_recent(post.state.my_structures.map@, snap.tick, SHORT_SIGHTING_WINDOW),
        ),
    ) >= 2 || spec_num_threatening(
        spec_recent(post.state.enemy_units.map@, snap.tick, LONG_SIGHTING_WINDOW),
        snap.start_location,
        spec_other_starts(snap.start_locations@, snap.start_location),
    ) >= 4)
    &&& (exists|idxs: Seq<(u64, usize)>|
        spec_nearest_first_arrangement(idxs, snap.expansions@, snap.start_location)
            && post.state.desired_bases == spec_bases_walk(
            spec_arranged(snap.expansions@, idxs),
            snap.resources@,
            pre.state.desired_workers - 3 * pre.state.desired_gasses,
            0,
        ))
    &&& post.state.bases@ == spec_townhall_positions(snap.my_units@)
    &&& post.state.micro == pre.state.micro
    &&& post.state.peak_army == pre.state.peak_army
    &&& post.state.desired_workers == pre.state.desired_workers
    &&& post.state.desired_gasses == pre.state.desired_gasses
    &&& post.state.build_order == pre.state.build_order
    &&& post.state.reserved_expansions == pre.state.reserved_expansions
}

} // verus!
