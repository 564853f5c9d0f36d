//! Unit tests for the geometric and container foundations.
use faxbot::geom::{calc_line_points, distance_sq, isqrt, towards, Pos};
use faxbot::map::MapInfo;
use faxbot::model::{RuntimeOptions, SnapUnit, Snapshot, UnitKind};
use faxbot::sort::sort_by_key;
use faxbot::tagmap::TagMap;

#[test]
fn isqrt_exact_values() {
    assert_eq!(isqrt(0), 0);
    assert_eq!(isqrt(1), 1);
    assert_eq!(isqrt(15), 3);
    assert_eq!(isqrt(16), 4);
    assert_eq!(isqrt(1_000_000), 1000);
    assert_eq!(isqrt(999_999), 999);
}

#[test]
fn squared_distance_exact() {
    let a = Pos { x: 3, y: 4 };
    let b = Pos { x: 0, y: 0 };
    assert_eq!(distance_sq(a, b), 25);
    assert_eq!(distance_sq(a, a), 0);
}

#[test]
fn towards_walks_between_points() {
    let from = Pos { x: 0, y: 0 };
    let to = Pos { x: 100, y: 0 };
    let r = towards(from, to, 30);
    assert_eq!(r, Pos { x: 30, y: 0 });
    // coincident points stay put
    assert_eq!(towards(from, from, 30), from);
}

#[test]
fn boundary_points_degenerate_to_midpoint() {
    let a = Pos { x: 10, y: 10 };
    let b = Pos { x: 14, y: 10 };
    // radii overlap: both points collapse to the midpoint
    let (p1, p2) = calc_line_points(a, 4, b, 4, );
    assert_eq!(p1, Pos { x: 12, y: 10 });
    assert_eq!(p2, p1);
    // separated circles: each boundary point advances by its radius
    let far = Pos { x: 110, y: 10 };
    let (q1, q2) = calc_line_points(a, 4, far, 6);
    assert_eq!(q1, Pos { x: 14, y: 10 });
    assert_eq!(q2, Pos { x: 104, y: 10 });
}

#[test]
fn tag_map_semantics() {
    let mut m: TagMap<u64> = TagMap::new();
    assert_eq!(m.get(5), None);
    m.insert(5, 50);
    m.insert(6, 60);
    assert_eq!(m.get(5), Some(50));
    m.insert(5, 55);
    assert_eq!(m.get(5), Some(55));
    assert_eq!(m.len(), 2);
    m.remove(5);
    assert_eq!(m.get(5), None);
    assert_eq!(m.get(6), Some(60));
}

#[test]
fn sort_by_key_orders_pairs() {
    let v: Vec<(u64, u32)> = vec![(5, 500), (1, 100), (3, 300), (1, 101)];
    let sorted = sort_by_key(v);
    let keys: Vec<u64> = sorted.iter().map(|e| e.0).collect();
    assert_eq!(keys, vec![1, 1, 3, 5]);
    assert_eq!(sorted.len(), 4);
    assert!(sorted.contains(&(5, 500)));
    assert!(sorted.contains(&(1, 100)));
    assert!(sorted.contains(&(1, 101)));
    assert!(sorted.contains(&(3, 300)));
}

#[test]
fn random_point_stays_inside_rectangle() {
    let map = MapInfo::new(640, 480, Pos { x: 6400, y: 3200 });
    for _ in 0..50 {
        let r = map.get_random_point();
        assert!(r.x >= 6400 && r.x < 6400 + 640);
        assert!(r.y >= 3200 && r.y < 3200 + 480);
    }
    assert_eq!(map.midpoint(), Pos { x: 6400 + 320, y: 3200 + 240 });
}

#[test]
fn normalize_and_extract_round_trip() {
    let map = MapInfo::new(100, 100, Pos { x: 50, y: 50 });
    let inside = Pos { x: 80, y: 90 };
    let t = map.normalize_point(inside);
    assert_eq!(map.extract_point(t), inside);
    // points outside are clamped onto the rectangle
    let outside = Pos { x: 0, y: 400 };
    let c = map.normalize_point(outside);
    assert_eq!(map.extract_point(c), Pos { x: 50, y: 150 });
}

#[test]
fn resource_pull_points_away() {
    let bot = faxbot::bot::FaxBot::new(RuntimeOptions { use_tryhard_mining: false });
    let mut snap = empty_snapshot();
    // resources due east of the depot: the away vector points west
    let m = SnapUnit {
        tag: 1,
        kind: UnitKind::MineralField,
        pos: Pos { x: 6400 + 320, y: 6400 },
        radius: 64,
        is_ready: true,
        is_idle: false,
        is_flying: false,
        is_carrying_resource: false,
        is_returning: false,
        is_constructing: false,
        orders_len: 0,
        order: None,
        energy: 0,
        has_inject_buff: false,
        mineral_contents: 1000,
        vespene_contents: 0,
    };
    snap.resources = vec![m];
    let th = Pos { x: 6400, y: 6400 };
    let away = bot.vec_away_from_resources(&snap, th);
    assert_eq!(away, Pos { x: -64, y: 0 });
    // with no resources in range the vector defaults to straight down
    snap.resources = vec![];
    assert_eq!(bot.vec_away_from_resources(&snap, th), Pos { x: 0, y: -64 });
}

fn empty_snapshot() -> Snapshot {
    Snapshot {
        tick: 0,
        minerals: 0,
        vespene: 0,
        supply_used: 0,
        supply_cap: 0,
        supply_workers: 0,
        supply_per_provider: 8,
        start_location: Pos { x: 640, y: 640 },
        enemy_start: Pos { x: 12800, y: 12800 },
        map_center: Pos { x: 6400, y: 6400 },
        start_locations: vec![Pos { x: 640, y: 640 }, Pos { x: 12800, y: 12800 }],
        my_units: vec![],
        enemy_units: vec![],
        resources: vec![],
        expansions: vec![],
        pending: vec![],
        completed_upgrades: vec![],
        ordered_upgrades: vec![],
        costs: vec![],
        expansion_hidden: vec![],
    }
}
