//! Scenario tests for the decision engine, driving it through plain
//! snapshots.
use faxbot::bot::{Event, FaxBot};
use faxbot::geom::Pos;
use faxbot::micro::{DroneTask, ResourceType};
use faxbot::model::{
    Ability, Alliance, Command, Cost, Expansion, RuntimeOptions, SnapUnit, Snapshot, Target,
    UnitKind, UnitOrder,
};

const S: i64 = 64;

fn p(x: i64, y: i64) -> Pos {
    Pos { x: x * S, y: y * S }
}

fn unit(tag: u64, kind: UnitKind, pos: Pos) -> SnapUnit {
    SnapUnit {
        tag,
        kind,
        pos,
        radius: S,
        is_ready: true,
        is_idle: false,
        is_flying: false,
        is_carrying_resource: false,
        is_returning: false,
        is_constructing: false,
        orders_len: 0,
        order: None,
        energy: 0,
        has_inject_buff: false,
        mineral_contents: 0,
        vespene_contents: 0,
    }
}

fn base_snapshot() -> Snapshot {
    Snapshot {
        tick: 0,
        minerals: 0,
        vespene: 0,
        supply_used: 0,
        supply_cap: 0,
        supply_workers: 0,
        supply_per_provider: 8,
        start_location: p(10, 10),
        enemy_start: p(200, 200),
        map_center: p(100, 100),
        start_locations: vec![p(10, 10), p(200, 200)],
        my_units: vec![],
        enemy_units: vec![],
        resources: vec![],
        expansions: vec![],
        pending: vec![],
        completed_upgrades: vec![],
        ordered_upgrades: vec![],
        costs: vec![],
        expansion_hidden: vec![],
    }
}

fn new_bot() -> FaxBot {
    FaxBot::new(RuntimeOptions { use_tryhard_mining: false })
}

#[test]
fn energy_cost_table() {
    let bot = new_bot();
    assert_eq!(bot.energy_cost(Ability::InjectLarva), Some(25));
}

#[test]
fn under_attack_signal_a_and_expiry() {
    let mut bot = new_bot();
    let mut snap = base_snapshot();
    snap.tick = 10;
    snap.my_units = vec![unit(1, UnitKind::Hatchery, p(50, 50))];
    snap.enemy_units = vec![
        unit(100, UnitKind::Roach, p(52, 52)),
        unit(101, UnitKind::Roach, p(53, 52)),
    ];
    bot.determine_state_for_tick(&snap);
    assert!(bot.state.is_under_attack);

    // the sightings age past the short window; only two remain in the
    // long window, under the long-range threshold
    let mut later = base_snapshot();
    later.tick = 33;
    later.my_units = vec![unit(1, UnitKind::Hatchery, p(50, 50))];
    bot.determine_state_for_tick(&later);
    assert!(!bot.state.is_under_attack);
}

#[test]
fn under_attack_signal_b_and_expiry() {
    let mut bot = new_bot();
    let mut snap = base_snapshot();
    snap.tick = 10;
    // four enemy workers loitering near our spawn: ignored by the
    // short-range signal, counted by the long-range one
    snap.enemy_units = vec![
        unit(100, UnitKind::Drone, p(12, 12)),
        unit(101, UnitKind::Drone, p(12, 13)),
        unit(102, UnitKind::Drone, p(13, 12)),
        unit(103, UnitKind::Drone, p(13, 13)),
    ];
    bot.determine_state_for_tick(&snap);
    assert!(bot.state.is_under_attack);

    let mut later = base_snapshot();
    later.tick = 500;
    bot.determine_state_for_tick(&later);
    assert!(!bot.state.is_under_attack);
}

#[test]
fn desired_bases_deficit_walk() {
    let mut bot = new_bot();
    bot.state.desired_workers = 56;
    bot.state.desired_gasses = 8;
    let mut snap = base_snapshot();
    snap.tick = 5;
    let expansion = |x: i64, patch_tags: Vec<u64>, alliance: Alliance| Expansion {
        loc: p(x, 10),
        minerals: patch_tags,
        geysers: vec![],
        alliance,
        has_base: false,
    };
    // nearest first by x; deficit starts at 56 - 3*8 = 32
    snap.expansions = vec![
        expansion(20, (1..=8).collect(), Alliance::Neutral),   // 8 fresh patches: deficit 16
        expansion(30, (11..=18).collect(), Alliance::Neutral), // 2 depleted of 8: deficit 4
        expansion(40, (21..=28).collect(), Alliance::Enemy),   // skipped
        expansion(50, (31..=34).collect(), Alliance::Neutral), // 4 patches: deficit covered
        expansion(60, (41..=48).collect(), Alliance::Neutral), // never reached
    ];
    // two visibly depleted patches of the second expansion
    let mut depleted_a = unit(11, UnitKind::MineralField, p(30, 11));
    depleted_a.mineral_contents = 150;
    let mut depleted_b = unit(12, UnitKind::MineralField, p(30, 12));
    depleted_b.mineral_contents = 200;
    snap.resources = vec![depleted_a, depleted_b];
    bot.determine_state_for_tick(&snap);
    assert_eq!(bot.state.desired_bases, 3);
}

#[test]
fn gas_worker_liveness_window() {
    let mut state = faxbot::micro::MicroState::new();
    state.drones.insert(
        7,
        DroneTask::Gather { resource_type: ResourceType::Gas, resource_tag: 50, hatch: 60 },
    );
    state.drone_last_seen.insert(7, 100);
    let no_workers: Vec<SnapUnit> = vec![];

    // present for exactly 33 ticks past the last sighting
    state.prune_drones(&no_workers, 133);
    assert!(state.drones.get(7).is_some());
    state.prune_drones(&no_workers, 134);
    assert!(state.drones.get(7).is_none());
}

#[test]
fn mineral_worker_not_kept_when_absent() {
    let mut state = faxbot::micro::MicroState::new();
    state.drones.insert(
        8,
        DroneTask::Gather { resource_type: ResourceType::Mineral, resource_tag: 50, hatch: 60 },
    );
    state.drone_last_seen.insert(8, 100);
    let no_workers: Vec<SnapUnit> = vec![];
    state.prune_drones(&no_workers, 101);
    assert!(state.drones.get(8).is_none());
}

#[test]
fn full_saturation_two_per_patch() {
    let mut bot = new_bot();
    bot.state.desired_workers = 16;
    bot.state.desired_gasses = 0;
    let mut snap = base_snapshot();
    snap.tick = 40;
    let mut my_units = vec![unit(60, UnitKind::Hatchery, p(100, 100))];
    for i in 0..16u64 {
        let mut w = unit(200 + i, UnitKind::Drone, p(99, 99));
        w.is_idle = true;
        my_units.push(w);
    }
    snap.my_units = my_units;
    let mut patches = vec![];
    for i in 0..8u64 {
        let mut m = unit(300 + i, UnitKind::MineralField, p(101 + i as i64, 100));
        m.mineral_contents = 1500;
        patches.push(m);
    }
    snap.resources = patches;
    bot.micro_drones(&snap);
    // every patch holds exactly two workers, nobody idle
    for i in 0..8u64 {
        let mut assigned = 0;
        for w in 0..16u64 {
            match bot.state.micro.drones.get(200 + w) {
                Some(DroneTask::Gather { resource_tag, resource_type, .. }) => {
                    assert_eq!(resource_type, ResourceType::Mineral);
                    if resource_tag == 300 + i {
                        assigned += 1;
                    }
                }
                Some(other) => panic!("unexpected task {:?}", other),
                None => panic!("worker without task"),
            }
        }
        assert_eq!(assigned, 2);
    }
}

#[test]
fn army_watermark_and_idle_attack() {
    let mut bot = new_bot();
    bot.state.peak_army = 10;
    let mut snap = base_snapshot();
    snap.supply_used = 100;
    let mut my_units = vec![];
    for i in 0..11u64 {
        let mut r = unit(400 + i, UnitKind::Roach, p(60, 60));
        r.is_idle = i < 5;
        my_units.push(r);
    }
    snap.my_units = my_units;
    let target = p(90, 90);
    let cmds = bot.perform_army_micro(&snap, target);
    assert_eq!(cmds.len(), 5);
    for (k, c) in cmds.iter().enumerate() {
        assert_eq!(
            *c,
            Command::Attack { unit: 400 + k as u64, target: Target::Ground(target), queue: false },
        );
    }
    assert_eq!(bot.state.peak_army, 11);

    // no unit idle: the trigger may fire, but nobody is commanded
    let mut busy = snap.clone();
    for u in busy.my_units.iter_mut() {
        u.is_idle = false;
    }
    bot.state.is_under_attack = true;
    let cmds2 = bot.perform_army_micro(&busy, target);
    assert!(cmds2.is_empty());
}

#[test]
fn gather_command_not_reissued() {
    let mut bot = new_bot();
    bot.state.micro.drones.insert(
        1,
        DroneTask::Gather { resource_type: ResourceType::Mineral, resource_tag: 50, hatch: 60 },
    );
    let mut snap = base_snapshot();
    let mut worker = unit(1, UnitKind::Drone, p(99, 100));
    let hatch = unit(60, UnitKind::Hatchery, p(100, 100));
    snap.my_units = vec![hatch, worker];
    let mut patch = unit(50, UnitKind::MineralField, p(98, 100));
    patch.mineral_contents = 900;
    snap.resources = vec![patch];

    // first pass: the gather order is issued once
    let cmds = bot.move_drones(&snap);
    assert_eq!(cmds.len(), 1);
    assert_eq!(cmds[0], Command::Gather { unit: 1, resource: 50, queue: false });

    // the identical order is now active: nothing is reissued
    worker = unit(1, UnitKind::Drone, p(99, 100));
    worker.order = Some(UnitOrder { ability: Ability::HarvestGather, target: Target::Entity(50) });
    let hatch2 = unit(60, UnitKind::Hatchery, p(100, 100));
    let mut snap2 = base_snapshot();
    snap2.my_units = vec![hatch2, worker];
    snap2.resources = snap.resources.clone();
    let cmds2 = bot.move_drones(&snap2);
    assert!(cmds2.is_empty());
}

#[test]
fn stop_issued_once_for_idle_worker() {
    let mut bot = new_bot();
    bot.state.micro.drones.insert(2, DroneTask::Idle);
    let mut snap = base_snapshot();
    let mut worker = unit(2, UnitKind::Drone, p(20, 20));
    worker.order = Some(UnitOrder { ability: Ability::MoveTo, target: Target::Ground(p(30, 30)) });
    snap.my_units = vec![worker];
    let cmds = bot.move_drones(&snap);
    assert_eq!(cmds, vec![Command::Stop { unit: 2, queue: false }]);

    // once the order is gone, no further stop comes
    let mut snap2 = base_snapshot();
    snap2.my_units = vec![unit(2, UnitKind::Drone, p(20, 20))];
    let cmds2 = bot.move_drones(&snap2);
    assert!(cmds2.is_empty());
}

#[test]
fn training_prefers_supply_then_workers() {
    let mut bot = new_bot();
    bot.state.desired_workers = 38;
    let mut snap = base_snapshot();
    snap.minerals = 1000;
    snap.vespene = 0;
    snap.supply_used = 20;
    snap.supply_cap = 20;
    snap.supply_workers = 12;
    snap.costs = vec![
        (UnitKind::Overlord, Cost { minerals: 100, vespene: 0, supply: 0 }),
        (UnitKind::Drone, Cost { minerals: 50, vespene: 0, supply: 1 }),
    ];
    let mut larva = unit(70, UnitKind::Larva, p(100, 100));
    larva.is_idle = true;
    let hatch = unit(60, UnitKind::Hatchery, p(100, 100));
    snap.my_units = vec![hatch, larva];
    // supply is capped: the larva trains a supply unit
    let cmds = bot.perform_training(&snap);
    assert_eq!(
        cmds,
        vec![Command::Train { source: 70, unit: UnitKind::Overlord, queue: false }],
    );

    // with room under the cap, the larva trains a worker instead
    snap.supply_cap = 60;
    let cmds2 = bot.perform_training(&snap);
    assert_eq!(cmds2, vec![Command::Train { source: 70, unit: UnitKind::Drone, queue: false }]);
}

#[test]
fn queen_trained_at_least_busy_depot() {
    let mut bot = new_bot();
    let mut snap = base_snapshot();
    let pool = unit(80, UnitKind::SpawningPool, p(99, 100));
    let mut busy = unit(61, UnitKind::Hatchery, p(100, 100));
    busy.orders_len = 3;
    let mut calm = unit(62, UnitKind::Hatchery, p(104, 100));
    calm.orders_len = 1;
    snap.my_units = vec![pool, busy, calm];
    let cmds = bot.perform_training(&snap);
    assert_eq!(cmds, vec![Command::Train { source: 62, unit: UnitKind::Queen, queue: true }]);
}

#[test]
fn spawning_pool_rule_fires_first() {
    let mut bot = new_bot();
    bot.state.build_order = faxbot::state::BuildOrderInfo {
        spawning_pool_supply: 17,
        first_hatch_supply: 17,
    };
    let mut snap = base_snapshot();
    snap.tick = 9;
    snap.supply_used = 17;
    snap.minerals = 300;
    snap.costs = vec![(UnitKind::SpawningPool, Cost { minerals: 200, vespene: 0, supply: 0 })];
    snap.my_units = vec![unit(90, UnitKind::Drone, p(11, 10))];
    let (did, cmds) = bot.perform_building(&snap);
    assert!(did);
    assert_eq!(cmds.len(), 1);
    match cmds[0] {
        Command::Build { worker, structure, exact, .. } => {
            assert_eq!(worker, 90);
            assert_eq!(structure, UnitKind::SpawningPool);
            assert!(!exact);
        }
        ref other => panic!("unexpected command {:?}", other),
    }
    // the chosen worker is marked constructing from this tick
    assert_eq!(bot.state.micro.drones.get(90), Some(DroneTask::Construct { queued_at: 9 }));
}

#[test]
fn expansion_attempt_reserves_the_spot() {
    let mut bot = new_bot();
    bot.state.desired_bases = 2;
    bot.state.build_order = faxbot::state::BuildOrderInfo {
        spawning_pool_supply: 17,
        first_hatch_supply: 17,
    };
    let mut snap = base_snapshot();
    snap.tick = 100;
    snap.supply_used = 20;
    snap.minerals = 400;
    snap.costs = vec![(UnitKind::Hatchery, Cost { minerals: 300, vespene: 0, supply: 0 })];
    // a pool exists, so the cascade reaches the expand rule
    let pool = unit(80, UnitKind::SpawningPool, p(11, 11));
    let worker = unit(90, UnitKind::Drone, p(11, 10));
    let hatch = unit(60, UnitKind::Hatchery, p(10, 10));
    snap.my_units = vec![pool, worker, hatch];
    snap.expansions = vec![
        Expansion {
            loc: p(20, 10),
            minerals: vec![1, 2],
            geysers: vec![5, 6],
            alliance: Alliance::Neutral,
            has_base: false,
        },
        Expansion {
            loc: p(30, 10),
            minerals: vec![3, 4],
            geysers: vec![7, 8],
            alliance: Alliance::Neutral,
            has_base: false,
        },
    ];
    let (did, cmds) = bot.perform_building(&snap);
    assert!(did);
    assert_eq!(cmds.len(), 1);
    match cmds[0] {
        Command::Build { structure, near, exact, .. } => {
            assert_eq!(structure, UnitKind::Hatchery);
            assert_eq!(near, p(20, 10));
            assert!(exact);
        }
        ref other => panic!("unexpected command {:?}", other),
    }
    assert_eq!(bot.state.reserved_expansions, vec![(p(20, 10), 100)]);

    // the reserved spot is skipped next tick: the second expansion is tried
    let mut snap2 = snap.clone();
    snap2.tick = 101;
    let (_did2, cmds2) = bot.perform_building(&snap2);
    match cmds2[0] {
        Command::Build { near, .. } => assert_eq!(near, p(30, 10)),
        ref other => panic!("unexpected command {:?}", other),
    }
}

#[test]
fn research_rule_tried_in_priority_order() {
    let mut bot = new_bot();
    let mut snap = base_snapshot();
    snap.supply_used = 40;
    // the whole tech tree exists and sits idle
    let pool = unit(60, UnitKind::SpawningPool, p(9, 10));
    let lair = unit(61, UnitKind::Lair, p(10, 10));
    let warren = unit(62, UnitKind::RoachWarren, p(11, 10));
    let den = unit(63, UnitKind::HydraliskDen, p(12, 10));
    snap.my_units = vec![pool, lair, warren, den];
    let (did, cmds) = bot.perform_building(&snap);
    assert!(did);
    assert_eq!(
        cmds,
        vec![Command::UseAbility {
            unit: 62,
            ability: Ability::ResearchGlialReconstitution,
            target: Target::Nothing,
            queue: true,
        }],
    );

    // once the first upgrade is done, the next in priority is queued
    snap.completed_upgrades = vec![faxbot::model::UpgradeKind::GlialReconstitution];
    let (_did2, cmds2) = bot.perform_building(&snap);
    assert_eq!(
        cmds2,
        vec![Command::UseAbility {
            unit: 63,
            ability: Ability::ResearchGroovedSpines,
            target: Target::Nothing,
            queue: true,
        }],
    );
}

#[test]
fn inject_targets_unbuffed_depots() {
    let bot = new_bot();
    let mut snap = base_snapshot();
    let mut buffed = unit(61, UnitKind::Hatchery, p(10, 10));
    buffed.has_inject_buff = true;
    let needy = unit(62, UnitKind::Hatchery, p(20, 10));
    let mut queen = unit(71, UnitKind::Queen, p(21, 10));
    queen.is_idle = true;
    queen.energy = 30;
    let mut tired_queen = unit(72, UnitKind::Queen, p(19, 10));
    tired_queen.is_idle = true;
    tired_queen.energy = 10;
    snap.my_units = vec![buffed, needy, queen, tired_queen];
    let cmds = bot.inject_larva_commands(&snap);
    assert_eq!(
        cmds,
        vec![Command::UseAbility {
            unit: 71,
            ability: Ability::InjectLarva,
            target: Target::Entity(62),
            queue: true,
        }],
    );
}

#[test]
fn leftover_queen_moves_to_uncovered_depot() {
    let bot = new_bot();
    let mut snap = base_snapshot();
    let covered = unit(61, UnitKind::Hatchery, p(10, 10));
    let lonely = unit(62, UnitKind::Hatchery, p(40, 10));
    let mut near_queen = unit(71, UnitKind::Queen, p(11, 10));
    near_queen.is_idle = true;
    let mut spare_queen = unit(72, UnitKind::Queen, p(12, 10));
    spare_queen.is_idle = true;
    snap.my_units = vec![covered, lonely, near_queen, spare_queen];
    let cmds = bot.position_queens(&snap);
    assert_eq!(
        cmds,
        vec![Command::Attack { unit: 72, target: Target::Ground(p(40, 10)), queue: false }],
    );
}

#[test]
fn fresh_combat_unit_rallies() {
    let mut bot = new_bot();
    bot.state.bases = vec![p(10, 10)];
    let mut snap = base_snapshot();
    snap.my_units = vec![unit(401, UnitKind::Zergling, p(10, 10))];
    let cmds = bot.on_event(&snap, Event::UnitCreated(401));
    assert_eq!(cmds.len(), 1);
    match cmds[0] {
        Command::Attack { unit: u, target: Target::Ground(rally), queue } => {
            assert_eq!(u, 401);
            assert!(!queue);
            // the rally point stands a short way toward the enemy start
            assert!(rally.x > p(10, 10).x && rally.y > p(10, 10).y);
            assert!(rally.x < p(200, 200).x && rally.y < p(200, 200).y);
        }
        ref other => panic!("unexpected command {:?}", other),
    }

    // a worker's creation draws no rally order
    let mut snap2 = base_snapshot();
    snap2.my_units = vec![unit(402, UnitKind::Drone, p(10, 10))];
    assert!(bot.on_event(&snap2, Event::UnitDestroyed(999)).is_empty());
    assert!(bot.on_event(&snap2, Event::UnitCreated(402)).is_empty());
}

#[test]
fn destruction_report_drops_sighting() {
    let mut bot = new_bot();
    let mut snap = base_snapshot();
    snap.tick = 10;
    snap.enemy_units = vec![unit(100, UnitKind::Roach, p(52, 52))];
    bot.determine_state_for_tick(&snap);
    assert!(bot.state.enemy_units.map.get(100).is_some());
    bot.on_event(&snap, Event::UnitDestroyed(100));
    assert!(bot.state.enemy_units.map.get(100).is_none());
}

#[test]
fn count_unit_adds_pending() {
    let bot = new_bot();
    let mut snap = base_snapshot();
    snap.my_units = vec![unit(61, UnitKind::Hatchery, p(10, 10))];
    snap.pending = vec![(UnitKind::Hatchery, 2)];
    assert_eq!(bot.count_unit(&snap, UnitKind::Hatchery), 3);
    assert_eq!(bot.count_unit(&snap, UnitKind::Lair), 0);
}

#[test]
fn pending_supply_counts_unfinished_providers() {
    let bot = new_bot();
    let mut snap = base_snapshot();
    snap.supply_cap = 22;
    snap.supply_per_provider = 8;
    snap.pending = vec![(UnitKind::Overlord, 2)];
    assert_eq!(bot.calculate_pending_supply(&snap), 22 + 16);
}

#[test]
fn escalation_milestones_raise_targets() {
    // banked minerals with scarce gas escalate the gas target
    let mut bot = new_bot();
    bot.state.desired_gasses = 2;
    bot.state.desired_workers = 38;
    let mut snap = base_snapshot();
    snap.minerals = 400;
    snap.vespene = 50;
    bot.perform_building(&snap);
    assert_eq!(bot.state.desired_gasses, 4);
    assert_eq!(bot.state.desired_workers, 44);

    // a third desired base escalates both further
    let mut late = new_bot();
    late.state.desired_bases = 3;
    late.perform_building(&snap);
    assert_eq!(late.state.desired_gasses, 8);
    assert_eq!(late.state.desired_workers, 72);
}

#[test]
fn gas_rule_spends_a_worker_on_the_nearest_free_node() {
    let mut bot = new_bot();
    bot.state.desired_gasses = 2;
    bot.state.desired_workers = 38;
    bot.state.bases = vec![p(10, 10)];
    bot.state.build_order = faxbot::state::BuildOrderInfo {
        spawning_pool_supply: 17,
        first_hatch_supply: 17,
    };
    let mut snap = base_snapshot();
    snap.tick = 50;
    snap.supply_used = 18;
    snap.minerals = 100;
    snap.costs = vec![(UnitKind::Extractor, Cost { minerals: 25, vespene: 0, supply: 0 })];
    let pool = unit(80, UnitKind::SpawningPool, p(11, 11));
    let hatch = unit(60, UnitKind::Hatchery, p(10, 10));
    let mut idle_worker = unit(90, UnitKind::Drone, p(11, 10));
    idle_worker.is_idle = true;
    snap.my_units = vec![pool, hatch, idle_worker];
    let near_geyser = unit(50, UnitKind::VespeneGeyser, p(14, 10));
    let far_geyser = unit(51, UnitKind::VespeneGeyser, p(18, 10));
    snap.resources = vec![far_geyser, near_geyser];
    let (did, cmds) = bot.perform_building(&snap);
    assert!(did);
    assert_eq!(cmds, vec![Command::BuildGas { worker: 90, geyser: 50 }]);
    assert_eq!(bot.state.micro.drones.get(90), Some(DroneTask::Construct { queued_at: 50 }));
}

#[test]
fn full_tick_assigns_and_stays_calm() {
    let mut bot = new_bot();
    bot.state.desired_workers = 16;
    bot.state.desired_gasses = 0;
    let mut snap = base_snapshot();
    snap.tick = 40;
    let mut my_units = vec![unit(60, UnitKind::Hatchery, p(100, 100))];
    for i in 0..16u64 {
        let mut w = unit(200 + i, UnitKind::Drone, p(99, 99));
        w.is_idle = true;
        my_units.push(w);
    }
    snap.my_units = my_units;
    let mut patches = vec![];
    for i in 0..8u64 {
        let mut m = unit(300 + i, UnitKind::MineralField, p(101 + i as i64, 100));
        m.mineral_contents = 1500;
        patches.push(m);
    }
    snap.resources = patches;
    let cmds = bot.on_step(&snap);
    assert!(!bot.state.is_under_attack);
    assert!(!cmds.is_empty());
    // the full tick leaves every worker on a patch, two per patch
    let mut total = 0;
    for w in 0..16u64 {
        match bot.state.micro.drones.get(200 + w) {
            Some(DroneTask::Gather { resource_type: ResourceType::Mineral, .. }) => total += 1,
            other => panic!("unexpected task {:?}", other),
        }
    }
    assert_eq!(total, 16);
}

#[test]
fn stale_gather_degrades_to_idle() {
    // a vanished depot or resource downgrades the task immediately, in
    // either mining mode, even with no active order on the worker
    for tryhard in [false, true] {
        let mut bot = FaxBot::new(RuntimeOptions { use_tryhard_mining: tryhard });
        bot.state.micro.drones.insert(
            1,
            DroneTask::Gather { resource_type: ResourceType::Mineral, resource_tag: 50, hatch: 60 },
        );
        let mut snap = base_snapshot();
        // the depot exists but the mineral node is gone
        snap.my_units = vec![unit(60, UnitKind::Hatchery, p(100, 100)), unit(1, UnitKind::Drone, p(99, 100))];
        let cmds = bot.move_drones(&snap);
        assert_eq!(cmds, vec![Command::Stop { unit: 1, queue: false }]);
        assert_eq!(bot.state.micro.drones.get(1), Some(DroneTask::Idle));
    }
}

#[test]
fn over_quota_patch_releases_exactly_the_excess() {
    let mut bot = new_bot();
    for w in 0..4u64 {
        bot.state.micro.drones.insert(
            w,
            DroneTask::Gather { resource_type: ResourceType::Mineral, resource_tag: 50, hatch: 60 },
        );
    }
    let mut patch = unit(50, UnitKind::MineralField, p(101, 100));
    patch.mineral_contents = 900;
    let workers: Vec<SnapUnit> = vec![];
    bot.place_drones_on_resource(&workers, 60, &patch, ResourceType::Mineral, 4, 0);
    let mut gathering = 0;
    let mut idle = 0;
    for w in 0..4u64 {
        match bot.state.micro.drones.get(w) {
            Some(DroneTask::Gather { .. }) => gathering += 1,
            Some(DroneTask::Idle) => idle += 1,
            other => panic!("unexpected task {:?}", other),
        }
    }
    assert_eq!(gathering, 2);
    assert_eq!(idle, 2);
}
