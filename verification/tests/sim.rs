use harborsim::container::ContainerData;
use harborsim::geo;
use harborsim::snapshot::snapshot;
use harborsim::world::OpOutcome;
use harborsim::world::Operation;
use harborsim::world::SailOutcome;
use harborsim::world::World;

const DEG: i64 = 1_000_000; // micro-degrees per degree

fn ample_ship(w: &mut World, id: u64, port_id: u64, rate_milli: u64) {
    let r = w.create_ship(id, port_id, 1_000_000, 1000, 1000, 1000, 1000, rate_milli);
    assert_eq!(r, OpOutcome::Applied);
}

fn ship_idx(w: &World, id: u64) -> usize {
    w.ships.iter().position(|s| s.id == id).unwrap()
}

fn port_idx(w: &World, id: u64) -> usize {
    w.ports.iter().position(|p| p.id == id).unwrap()
}

#[test]
fn classification_rules() {
    let mut w = World::new();
    assert!(w.create_port(0, 0, 0));
    assert_eq!(w.create_container(1, 3000, None, 0), OpOutcome::Applied);
    assert_eq!(w.create_container(2, 3001, None, 0), OpOutcome::Applied);
    assert_eq!(w.create_container(3, 5000, Some("R"), 0), OpOutcome::Applied);
    assert_eq!(w.create_container(4, 1, Some("L"), 0), OpOutcome::Applied);
    assert_eq!(w.create_container(5, 1, Some("X"), 0), OpOutcome::Applied);
    let kinds: Vec<&str> = w.containers.iter().map(|c| c.kind_name()).collect();
    assert_eq!(kinds, vec!["basic", "heavy", "refrigerated", "liquid", "basic"]);
    assert_eq!(w.containers[2].weight(), 5000);
    assert_eq!(w.containers[2].id(), 3);
}

#[test]
fn consumption_rates() {
    let b = ContainerData::Basic { id: 1, weight: 10 };
    let h = ContainerData::Heavy { id: 2, weight: 10 };
    let r = ContainerData::Refrigerated { id: 3, weight: 10 };
    let l = ContainerData::Liquid { id: 4, weight: 10 };
    assert_eq!(b.consumption_per_unit(), 2500);
    assert_eq!(h.consumption_per_unit(), 3000);
    assert_eq!(r.consumption_per_unit(), 5000);
    assert_eq!(l.consumption_per_unit(), 4000);
    assert_eq!(b.total_consumption(), 25_000);
    assert_eq!(r.total_consumption(), 50_000);
}

#[test]
fn distance_symmetry_and_self_zero() {
    let pairs = [
        (0, 0, 0, DEG),
        (48 * DEG + 856_600, 2 * DEG + 352_200, 40 * DEG + 712_800, -74 * DEG - 6_000),
        (-33 * DEG, 151 * DEG, 35 * DEG, 139 * DEG),
    ];
    for &(a, b, c, d) in pairs.iter() {
        assert_eq!(geo::distance(a, b, c, d), geo::distance(c, d, a, b));
        assert_eq!(geo::distance(a, b, a, b), 0);
        assert_eq!(geo::distance(c, d, c, d), 0);
    }
}

#[test]
fn one_degree_is_about_111_km() {
    let d = geo::distance(0, 0, 0, DEG);
    assert!(111_000 <= d && d <= 111_400, "distance {}", d);
    // Paris to New York, roughly 5837 km
    let d2 = geo::distance(
        48 * DEG + 856_600,
        2 * DEG + 352_200,
        40 * DEG + 712_800,
        -74 * DEG - 6_000,
    );
    assert!(5_780_000 <= d2 && d2 <= 5_900_000, "distance {}", d2);
}

#[test]
fn duplicate_ids_are_reported() {
    let mut w = World::new();
    assert!(w.create_port(7, 0, 0));
    assert!(!w.create_port(7, DEG, DEG));
    ample_ship(&mut w, 1, 7, 1000);
    let dup = w.create_ship(1, 7, 1, 1, 1, 1, 1, 1);
    assert_eq!(dup, OpOutcome::DuplicateId);
    assert_eq!(w.create_container(9, 10, None, 7), OpOutcome::Applied);
    assert_eq!(w.create_container(9, 20, None, 7), OpOutcome::DuplicateId);
    assert_eq!(w.containers.len(), 1);
}

#[test]
fn unknown_ids_are_skipped() {
    let mut w = World::new();
    assert!(w.create_port(0, 0, 0));
    assert_eq!(w.process(&Operation::Load { ship_id: 42, container_id: 1 }), OpOutcome::Ignored);
    assert_eq!(
        w.process(&Operation::Unload { ship_id: 42, container_id: 1 }),
        OpOutcome::Ignored
    );
    assert_eq!(w.process(&Operation::Refuel { ship_id: 42, amount: 5 }), OpOutcome::Ignored);
    assert_eq!(
        w.process(&Operation::Sail { ship_id: 42, dest_port_id: 0 }),
        OpOutcome::Ignored
    );
    assert_eq!(w.sail(42, 0), SailOutcome::UnknownShip);
    // a ship sailing to an unknown port is skipped too
    ample_ship(&mut w, 1, 0, 1000);
    assert_eq!(w.sail(1, 99), SailOutcome::UnknownDestination);
    // creating a ship at an unknown port is skipped
    assert_eq!(w.create_ship(2, 99, 1, 1, 1, 1, 1, 1), OpOutcome::Ignored);
    assert_eq!(w.ships.len(), 1);
}

#[test]
fn container_creation_at_unknown_port_makes_placeholder() {
    let mut w = World::new();
    assert_eq!(w.create_container(5, 100, None, 33), OpOutcome::Applied);
    let pi = port_idx(&w, 33);
    assert_eq!(w.ports[pi].latitude, 0);
    assert_eq!(w.ports[pi].longitude, 0);
    assert_eq!(w.ports[pi].containers, vec![5]);
}

// Scenario: a ship with no fuel cannot sail one degree; after refuelling
// 200 units it arrives with 200 minus the leg cost left.
#[test]
fn refuel_then_sail_one_degree() {
    let mut w = World::new();
    assert!(w.create_port(0, 0, 0));
    assert!(w.create_port(1, 0, DEG));
    ample_ship(&mut w, 10, 0, 1000); // 1.000 fuel per km
    let si = ship_idx(&w, 10);
    assert_eq!(w.sail(10, 1), SailOutcome::Failed);
    assert_eq!(w.ships[si].fuel, 0);
    assert_eq!(w.ships[si].current_port, 0);
    assert!(w.ports[port_idx(&w, 0)].current.contains(&10));

    assert_eq!(w.process(&Operation::Refuel { ship_id: 10, amount: 200_000 }), OpOutcome::Applied);
    let d = geo::distance(0, 0, 0, DEG);
    assert_eq!(w.sail(10, 1), SailOutcome::Direct);
    assert_eq!(w.ships[si].fuel, 200_000 - d);
    assert!(111_000 <= d && d <= 111_400);
    assert_eq!(w.ships[si].current_port, 1);
    assert!(!w.ports[port_idx(&w, 0)].current.contains(&10));
    assert!(w.ports[port_idx(&w, 1)].current.contains(&10));
    assert!(w.ports[port_idx(&w, 1)].history.contains(&10));
    assert!(w.ports[port_idx(&w, 0)].history.contains(&10));
}

// Scenario: an overweight container is refused and nothing moves.
#[test]
fn overweight_load_fails_cleanly() {
    let mut w = World::new();
    assert!(w.create_port(0, 0, 0));
    let r = w.create_ship(1, 0, 100, 10, 10, 10, 10, 1000);
    assert_eq!(r, OpOutcome::Applied);
    assert_eq!(w.create_container(5, 150, None, 0), OpOutcome::Applied);
    assert!(!w.load(1, 5));
    let si = ship_idx(&w, 1);
    assert!(w.ships[si].containers.is_empty());
    assert!(w.ports[port_idx(&w, 0)].containers.contains(&5));
    assert_eq!(
        w.process(&Operation::Load { ship_id: 1, container_id: 5 }),
        OpOutcome::Failed
    );
}

// Scenario: sailing zero kilometres still charges the cargo surcharge; the
// required fuel is exactly the surcharge, not zero.
#[test]
fn zero_distance_sail_still_charges_surcharge() {
    let mut w = World::new();
    assert!(w.create_port(0, 0, 0));
    ample_ship(&mut w, 1, 0, 1000);
    assert_eq!(w.create_container(5, 10, Some("R"), 0), OpOutcome::Applied);
    assert!(w.load(1, 5));
    let si = ship_idx(&w, 1);
    // surcharge of one refrigerated container of weight 10: 5.0 * 10 = 50.0
    assert_eq!(w.sail(1, 0), SailOutcome::Failed); // no fuel, and no other port
    assert_eq!(w.ships[si].fuel, 0);
    w.refuel(1, 49_999);
    assert_eq!(w.sail(1, 0), SailOutcome::Failed); // one milli-unit short
    w.refuel(1, 1);
    assert_eq!(w.sail(1, 0), SailOutcome::Direct);
    assert_eq!(w.ships[si].fuel, 0); // exactly the surcharge was burnt
    assert_eq!(w.ships[si].current_port, 0);
    assert!(w.ports[port_idx(&w, 0)].current.contains(&1));
}

#[test]
fn load_and_unload_move_the_container() {
    let mut w = World::new();
    assert!(w.create_port(0, 0, 0));
    ample_ship(&mut w, 1, 0, 1000);
    assert_eq!(w.create_container(5, 10, None, 0), OpOutcome::Applied);
    assert!(!w.un_load(1, 5)); // not aboard yet
    assert!(w.load(1, 5));
    let si = ship_idx(&w, 1);
    assert_eq!(w.ships[si].containers, vec![5]);
    assert!(!w.ports[port_idx(&w, 0)].containers.contains(&5));
    assert!(!w.load(1, 5)); // no longer in the port
    assert!(w.un_load(1, 5));
    assert!(w.ships[si].containers.is_empty());
    assert!(w.ports[port_idx(&w, 0)].containers.contains(&5));
}

#[test]
fn capacity_limits_enforced_in_order() {
    let mut w = World::new();
    assert!(w.create_port(0, 0, 0));
    // weight 1000, at most 2 aboard, 1 heavy-class, 1 refrigerated, 1 liquid
    assert_eq!(w.create_ship(1, 0, 1000, 2, 1, 1, 1, 1000), OpOutcome::Applied);
    assert_eq!(w.create_container(10, 1, Some("R"), 0), OpOutcome::Applied);
    assert_eq!(w.create_container(11, 1, Some("L"), 0), OpOutcome::Applied);
    assert_eq!(w.create_container(12, 1, None, 0), OpOutcome::Applied);
    assert_eq!(w.create_container(13, 1, None, 0), OpOutcome::Applied);
    assert!(w.load(1, 10)); // refrigerated: one heavy-class slot taken
    assert!(!w.load(1, 11)); // liquid refused: heavy-class limit reached
    assert!(w.load(1, 12)); // basic is fine
    assert!(!w.load(1, 13)); // max number of containers reached
    let si = ship_idx(&w, 1);
    assert_eq!(w.ships[si].get_current_containers_sorted(), vec![10, 12]);
    assert_eq!(w.ships[si].current_total_weight(&w.containers), 2);
    assert_eq!(w.ships[si].current_heavy_count(&w.containers), 1);
    assert_eq!(w.ships[si].current_refrigerated_count(&w.containers), 1);
    assert_eq!(w.ships[si].current_liquid_count(&w.containers), 0);
}

#[test]
fn refrigerated_limit_and_liquid_limit() {
    let mut w = World::new();
    assert!(w.create_port(0, 0, 0));
    assert_eq!(w.create_ship(1, 0, 1000, 10, 10, 1, 1, 1000), OpOutcome::Applied);
    for (id, mark) in [(1, "R"), (2, "R"), (3, "L"), (4, "L")] {
        assert_eq!(w.create_container(id, 1, Some(mark), 0), OpOutcome::Applied);
    }
    assert!(w.load(1, 1));
    assert!(!w.load(1, 2)); // refrigerated limit
    assert!(w.load(1, 3));
    assert!(!w.load(1, 4)); // liquid limit
}

#[test]
fn detour_refuels_and_completes() {
    let mut w = World::new();
    assert!(w.create_port(0, 0, 0));
    assert!(w.create_port(1, 0, DEG / 2));
    assert!(w.create_port(2, 0, DEG));
    ample_ship(&mut w, 1, 0, 1000);
    let d_ab = geo::distance(0, 0, 0, DEG / 2);
    let d_bc = geo::distance(0, DEG / 2, 0, DEG);
    w.refuel(1, 60_000); // enough for ~55.6 km, not for ~111.2 km
    assert_eq!(w.sail(1, 2), SailOutcome::ViaDetour);
    let si = ship_idx(&w, 1);
    assert_eq!(w.ships[si].current_port, 2);
    assert_eq!(w.ships[si].fuel, 60_000 - d_ab + 10_000_000 - d_bc);
    // the intermediate port keeps the visit in its history, but the ship left
    let b = port_idx(&w, 1);
    assert!(w.ports[b].history.contains(&1));
    assert!(!w.ports[b].current.contains(&1));
    assert!(w.ports[port_idx(&w, 2)].current.contains(&1));
    assert!(!w.ports[port_idx(&w, 0)].current.contains(&1));
}

#[test]
fn detour_can_strand_the_ship() {
    let mut w = World::new();
    assert!(w.create_port(0, 0, 0));
    assert!(w.create_port(1, 0, DEG / 2));
    assert!(w.create_port(2, 0, 179 * DEG)); // far away
    ample_ship(&mut w, 1, 0, 1000);
    let d_ab = geo::distance(0, 0, 0, DEG / 2);
    w.refuel(1, 60_000);
    // direct leg to port 2 is ~19900 km; the top-up of 10000 fuel units
    // cannot cover it either, so the ship strands at port 1
    assert_eq!(w.sail(1, 2), SailOutcome::Stranded);
    let si = ship_idx(&w, 1);
    assert_eq!(w.ships[si].current_port, 1);
    assert_eq!(w.ships[si].fuel, 60_000 - d_ab + 10_000_000);
    assert!(w.ports[port_idx(&w, 1)].current.contains(&1));
    assert!(w.ports[port_idx(&w, 1)].history.contains(&1));
    assert!(!w.ports[port_idx(&w, 2)].history.contains(&1));
}

#[test]
fn stranding_is_a_partially_applied_operation() {
    let mut w = World::new();
    assert!(w.create_port(0, 0, 0));
    assert!(w.create_port(1, 0, DEG / 2));
    assert!(w.create_port(2, 0, 179 * DEG));
    ample_ship(&mut w, 1, 0, 1000);
    w.refuel(1, 60_000);
    assert_eq!(
        w.process(&Operation::Sail { ship_id: 1, dest_port_id: 2 }),
        OpOutcome::PartiallyApplied
    );
    assert_eq!(w.ships[ship_idx(&w, 1)].current_port, 1);
}

#[test]
fn detour_fails_when_nearest_is_out_of_reach() {
    let mut w = World::new();
    assert!(w.create_port(0, 0, 0));
    assert!(w.create_port(1, 0, DEG));
    ample_ship(&mut w, 1, 0, 1000);
    w.refuel(1, 10); // far too little even for the nearest port
    assert_eq!(w.sail(1, 1), SailOutcome::Failed);
    let si = ship_idx(&w, 1);
    assert_eq!(w.ships[si].fuel, 10);
    assert_eq!(w.ships[si].current_port, 0);
}

#[test]
fn refuel_saturates_at_the_maximum() {
    let mut w = World::new();
    assert!(w.create_port(0, 0, 0));
    ample_ship(&mut w, 1, 0, 1000);
    w.refuel(1, u64::MAX);
    w.refuel(1, u64::MAX);
    assert_eq!(w.ships[ship_idx(&w, 1)].fuel, u64::MAX);
}

#[test]
fn snapshot_is_sorted_and_rounded() {
    let mut w = World::new();
    assert!(w.create_port(3, 12_345_678, -7_654_321));
    assert!(w.create_port(1, 0, 0));
    assert_eq!(w.create_ship(2, 3, 1_000_000, 10, 10, 10, 10, 1000), OpOutcome::Applied);
    assert_eq!(w.create_ship(0, 3, 1_000_000, 10, 10, 10, 10, 1000), OpOutcome::Applied);
    w.refuel(2, 123_456);
    for (id, mark, weight) in [(20, None, 1u64), (21, Some("R"), 1), (22, None, 4000), (23, Some("L"), 1)] {
        assert_eq!(w.create_container(id, weight, mark, 3), OpOutcome::Applied);
    }
    assert!(w.load(2, 21));
    let snap = snapshot(&w);
    assert_eq!(snap.len(), 2);
    assert_eq!(snap[0].id, 1);
    assert_eq!(snap[1].id, 3);
    let p = &snap[1];
    assert_eq!(p.lat_centi, 1235); // 12.345678 degrees, rounded to 12.35
    assert_eq!(p.lon_centi, -765); // -7.654321 degrees, rounded to -7.65
    assert_eq!(p.basic, vec![20]);
    assert_eq!(p.heavy, vec![22]);
    assert_eq!(p.refrigerated, Vec::<u64>::new()); // 21 is aboard ship 2
    assert_eq!(p.liquid, vec![23]);
    assert_eq!(p.ships.len(), 2);
    assert_eq!(p.ships[0].id, 0);
    assert_eq!(p.ships[1].id, 2);
    assert_eq!(p.ships[1].fuel_centi, 12_346); // 123.456 rounded to 123.46
    assert_eq!(p.ships[1].refrigerated, vec![21]);
    assert!(p.ships[1].basic.is_empty());
}

#[test]
fn conservation_over_a_mixed_stream() {
    let mut w = World::new();
    let ops = vec![
        Operation::CreatePort { id: 0, latitude: 0, longitude: 0 },
        Operation::CreatePort { id: 1, latitude: 0, longitude: DEG },
        Operation::CreateShip {
            id: 1,
            port_id: 0,
            total_weight_capacity: 100_000,
            max_number_of_all_containers: 50,
            max_number_of_heavy_containers: 50,
            max_number_of_refrigerated_containers: 50,
            max_number_of_liquid_containers: 50,
            fuel_consumption_per_km: 1000,
        },
        Operation::CreateContainer { id: 7, weight: 10, special: None, port_id: 0 },
        Operation::CreateContainer { id: 8, weight: 10, special: Some(String::from("R")), port_id: 0 },
        Operation::Load { ship_id: 1, container_id: 7 },
        Operation::Load { ship_id: 1, container_id: 8 },
        Operation::Refuel { ship_id: 1, amount: 500_000 },
        Operation::Sail { ship_id: 1, dest_port_id: 1 },
        Operation::Unload { ship_id: 1, container_id: 8 },
    ];
    for op in &ops {
        let r = w.process(op);
        assert_ne!(r, OpOutcome::Ignored);
        // every container is in exactly one place after every step
        for c in &w.containers {
            let in_ports = w.ports.iter().filter(|p| p.containers.contains(&c.id())).count();
            let in_ships = w.ships.iter().filter(|s| s.containers.contains(&c.id())).count();
            assert_eq!(in_ports + in_ships, 1);
        }
    }
    let si = ship_idx(&w, 1);
    assert_eq!(w.ships[si].current_port, 1);
    assert_eq!(w.ships[si].containers, vec![7]);
    assert!(w.ports[port_idx(&w, 1)].containers.contains(&8));
}
