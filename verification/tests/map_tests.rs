use std::collections::HashSet;

use parking_lot::Mutex;
use rand::rngs::StdRng;
use rand::SeedableRng;

use robot_colony::discovered::DiscoveredSet;
use robot_colony::map::{
    generate_map, is_blocked, Obstacle, ObstacleType, World, INITIAL_ROBOTS_COUNT,
    INTEREST_IN_TEN, RICHEST_CELL,
};
use robot_colony::movement::all_directions;
use robot_colony::terrain::{classify_noise, PIT_THRESHOLD, POSITIVE_INFINITY, ROCK_THRESHOLD};

fn quiet_world(width: u32, height: u32, seed: u64) -> World {
    let noise = vec![0.0f64.to_bits(); (width * height) as usize];
    let rng = Mutex::new(StdRng::seed_from_u64(seed));
    generate_map(width, height, &noise, &rng)
}

#[test]
fn thresholds_are_three_and_six_tenths() {
    assert_eq!(PIT_THRESHOLD, 0.3f64.to_bits());
    assert_eq!(ROCK_THRESHOLD, 0.6f64.to_bits());
    assert_eq!(POSITIVE_INFINITY, f64::INFINITY.to_bits());
    assert_eq!(RICHEST_CELL, 100);
    assert_eq!(INTEREST_IN_TEN, 1);
    assert_eq!(INITIAL_ROBOTS_COUNT, 3);
}

#[test]
fn noise_above_six_tenths_is_a_rock() {
    assert_eq!(classify_noise(0.61f64.to_bits()), Some(ObstacleType::Rock));
    assert_eq!(classify_noise(0.6000000000000001f64.to_bits()), Some(ObstacleType::Rock));
    assert_eq!(classify_noise(1.0f64.to_bits()), Some(ObstacleType::Rock));
    assert_eq!(classify_noise(f64::MAX.to_bits()), Some(ObstacleType::Rock));
    assert_eq!(classify_noise(f64::INFINITY.to_bits()), Some(ObstacleType::Rock));
}

#[test]
fn noise_above_three_tenths_is_a_pit() {
    assert_eq!(classify_noise(0.6f64.to_bits()), Some(ObstacleType::Pit));
    assert_eq!(classify_noise(0.5f64.to_bits()), Some(ObstacleType::Pit));
    assert_eq!(classify_noise(0.30000000000000004f64.to_bits()), Some(ObstacleType::Pit));
}

#[test]
fn noise_up_to_three_tenths_is_no_obstacle() {
    assert_eq!(classify_noise(0.3f64.to_bits()), None);
    assert_eq!(classify_noise(0.0f64.to_bits()), None);
    assert_eq!(classify_noise((-0.0f64).to_bits()), None);
    assert_eq!(classify_noise((-0.7f64).to_bits()), None);
    assert_eq!(classify_noise((-1.0f64).to_bits()), None);
    assert_eq!(classify_noise(f64::NEG_INFINITY.to_bits()), None);
    assert_eq!(classify_noise(f64::NAN.to_bits()), None);
    assert_eq!(classify_noise(f64::MIN_POSITIVE.to_bits()), None);
}

#[test]
fn classification_agrees_with_the_comparison_of_numbers() {
    let mut sample = -1.0f64;
    while sample <= 1.0 {
        let expected = if sample > 0.6 {
            Some(ObstacleType::Rock)
        } else if sample > 0.3 {
            Some(ObstacleType::Pit)
        } else {
            None
        };
        assert_eq!(classify_noise(sample.to_bits()), expected);
        sample += 0.001;
    }
}

#[test]
fn is_blocked_looks_at_the_cell_only() {
    let obstacles: Vec<Obstacle> = vec![(1, 2, ObstacleType::Rock), (3, 4, ObstacleType::Pit)];
    assert!(is_blocked(&obstacles, 1, 2));
    assert!(is_blocked(&obstacles, 3, 4));
    assert!(!is_blocked(&obstacles, 2, 1));
    assert!(!is_blocked(&obstacles, 1, 4));
    assert!(!is_blocked(&Vec::new(), 1, 2));
}

#[test]
fn generated_world_has_one_resource_for_each_cell() {
    let map = quiet_world(4, 3, 1);
    assert_eq!(map.get_width(), &4);
    assert_eq!(map.get_height(), &3);
    let resources = map.get_resources();
    assert_eq!(resources.len(), 12);
    for x in 0..4u32 {
        for y in 0..3u32 {
            let resource = &resources[(x * 3 + y) as usize];
            assert_eq!(resource.get_position(), &(x, y));
            assert!(*resource.get_energy() <= 100);
            assert!(*resource.get_minerals() <= 100);
        }
    }
}

#[test]
fn generated_world_draws_its_resources() {
    let map = quiet_world(20, 20, 123);
    let resources = map.get_resources();
    let energies: HashSet<u32> = resources.iter().map(|r| *r.get_energy()).collect();
    let minerals: HashSet<u32> = resources.iter().map(|r| *r.get_minerals()).collect();
    assert!(energies.len() > 20);
    assert!(minerals.len() > 20);
    let interesting = resources.iter().filter(|r| *r.get_scientific_interest()).count();
    assert!(interesting > 0);
    assert!(interesting < 200);
}

#[test]
fn generated_world_starts_with_three_robots_at_the_origin() {
    let map = quiet_world(20, 20, 123);
    let robots = map.get_robots();
    assert_eq!(robots.len(), 3);
    for robot in robots {
        assert_eq!(robot.get_position(), &(0, 0));
        assert_eq!(robot.get_storage().get_energy(), 0);
        assert_eq!(robot.get_storage().get_minerals(), 0);
        assert!(robot.get_storage().discovered_coords.is_empty());
    }
    assert!(robots[0].get_modules().is_miner());
    assert!(!robots[0].get_modules().is_energy_collector());
    assert!(!robots[0].get_modules().is_scientific_analyzer());
    assert!(!robots[1].get_modules().is_miner());
    assert!(robots[1].get_modules().is_energy_collector());
    assert!(!robots[1].get_modules().is_scientific_analyzer());
    assert!(!robots[2].get_modules().is_miner());
    assert!(!robots[2].get_modules().is_energy_collector());
    assert!(robots[2].get_modules().is_scientific_analyzer());
    assert_ne!(robots[0].get_id(), robots[1].get_id());
    assert_ne!(robots[0].get_id(), robots[2].get_id());
    assert_ne!(robots[1].get_id(), robots[2].get_id());
}

#[test]
fn generated_world_has_an_empty_station_at_the_origin() {
    let map = quiet_world(7, 5, 9);
    let station = map.get_station();
    assert_eq!(station.get_position(), &(0, 0));
    assert_eq!(station.get_stored_energy(), 0);
    assert_eq!(station.get_stored_minerals(), 0);
    assert!(station.get_discovered_coords().is_empty());
}

#[test]
fn quiet_noise_makes_no_obstacle() {
    assert!(quiet_world(20, 20, 5).get_obstacles().is_empty());

    let noise = vec![0.3f64.to_bits(); 400];
    let rng = Mutex::new(StdRng::seed_from_u64(5));
    assert!(generate_map(20, 20, &noise, &rng).get_obstacles().is_empty());

    let noise = vec![(-0.9f64).to_bits(); 400];
    let rng = Mutex::new(StdRng::seed_from_u64(5));
    assert!(generate_map(20, 20, &noise, &rng).get_obstacles().is_empty());
}

#[test]
fn obstacles_follow_the_noise() {
    let width = 4u32;
    let height = 3u32;
    let at = |x: u32, y: u32| (x * height + y) as usize;
    let mut noise = vec![0.0f64.to_bits(); 12];
    noise[at(1, 1)] = 0.7f64.to_bits();
    noise[at(2, 1)] = 0.5f64.to_bits();
    noise[at(3, 2)] = 0.6f64.to_bits();
    noise[at(1, 2)] = 0.3f64.to_bits();
    noise[at(0, 1)] = 0.9f64.to_bits();
    noise[at(2, 0)] = 0.9f64.to_bits();
    noise[at(0, 0)] = 0.9f64.to_bits();
    noise[at(3, 1)] = (-0.9f64).to_bits();
    let rng = Mutex::new(StdRng::seed_from_u64(5));

    let map = generate_map(width, height, &noise, &rng);

    assert_eq!(
        map.get_obstacles(),
        &vec![(1, 1, ObstacleType::Rock), (2, 1, ObstacleType::Pit), (3, 2, ObstacleType::Pit)]
    );
}

#[test]
fn loud_noise_leaves_the_home_row_and_column_free() {
    let noise = vec![0.99f64.to_bits(); 30];
    let rng = Mutex::new(StdRng::seed_from_u64(5));
    let map = generate_map(6, 5, &noise, &rng);
    let obstacles = map.get_obstacles();
    assert_eq!(obstacles.len(), 20);
    for x in 0..6u32 {
        for y in 0..5u32 {
            assert_eq!(is_blocked(obstacles, x, y), x != 0 && y != 0);
        }
    }
    for obstacle in obstacles {
        assert_eq!(obstacle.2, ObstacleType::Rock);
    }
}

#[test]
fn smallest_world() {
    let map = quiet_world(1, 1, 0);
    assert_eq!(map.get_resources().len(), 1);
    assert_eq!(map.get_resources()[0].get_position(), &(0, 0));
    assert!(map.get_obstacles().is_empty());
    assert_eq!(map.get_robots().len(), 3);
    let rng = Mutex::new(StdRng::seed_from_u64(0));
    let next = map.get_next_coords(0, 0, &DiscoveredSet::new(), map.get_obstacles(), &rng);
    assert_eq!(next, (0, 0));
}

#[test]
fn directions_in_the_order_tried() {
    assert_eq!(all_directions(), vec![(0, 1), (0, -1), (1, 0), (-1, 0)]);
}

#[test]
fn step_from_wraps_round_the_grid() {
    let map = quiet_world(5, 4, 2);
    assert_eq!(map.step_from(2, 2, (0, 1)), (2, 3));
    assert_eq!(map.step_from(2, 3, (0, 1)), (2, 0));
    assert_eq!(map.step_from(2, 0, (0, -1)), (2, 3));
    assert_eq!(map.step_from(4, 1, (1, 0)), (0, 1));
    assert_eq!(map.step_from(0, 1, (-1, 0)), (4, 1));
}

#[test]
fn candidates_are_the_steps_to_fresh_free_cells() {
    let map = quiet_world(5, 5, 2);
    let mut discovered = DiscoveredSet::new();
    let none: Vec<Obstacle> = Vec::new();

    assert_eq!(
        map.candidate_directions(2, 2, &discovered, &none),
        vec![(0, 1), (0, -1), (1, 0), (-1, 0)]
    );

    discovered.insert((2, 3, true));
    assert_eq!(
        map.candidate_directions(2, 2, &discovered, &none),
        vec![(0, -1), (1, 0), (-1, 0)]
    );

    let obstacles: Vec<Obstacle> = vec![(3, 2, ObstacleType::Pit)];
    assert_eq!(map.candidate_directions(2, 2, &discovered, &obstacles), vec![(0, -1), (-1, 0)]);

    discovered.insert((1, 2, false));
    assert_eq!(map.candidate_directions(2, 2, &discovered, &obstacles), vec![(0, -1)]);
}

#[test]
fn candidates_fall_back_on_all_four_steps() {
    let map = quiet_world(5, 5, 2);
    let mut discovered = DiscoveredSet::new();
    discovered.insert((2, 3, false));
    discovered.insert((2, 1, false));
    let obstacles: Vec<Obstacle> = vec![(3, 2, ObstacleType::Rock), (1, 2, ObstacleType::Pit)];

    assert_eq!(
        map.candidate_directions(2, 2, &discovered, &obstacles),
        vec![(0, 1), (0, -1), (1, 0), (-1, 0)]
    );
}

#[test]
fn candidates_wrap_round_the_grid() {
    let map = quiet_world(5, 5, 2);
    let mut discovered = DiscoveredSet::new();
    discovered.insert((0, 4, false));
    discovered.insert((4, 0, false));
    let none: Vec<Obstacle> = Vec::new();
    assert_eq!(map.candidate_directions(0, 0, &discovered, &none), vec![(0, 1), (1, 0)]);
}

#[test]
fn next_coords_is_one_of_the_candidates() {
    let map = quiet_world(5, 5, 2);
    let rng = Mutex::new(StdRng::seed_from_u64(77));
    let none: Vec<Obstacle> = Vec::new();
    let mut discovered = DiscoveredSet::new();

    let mut seen = HashSet::new();
    for _ in 0..200 {
        seen.insert(map.get_next_coords(2, 2, &discovered, &none, &rng));
    }
    let expected: HashSet<(u32, u32)> = [(2, 3), (2, 1), (3, 2), (1, 2)].into_iter().collect();
    assert_eq!(seen, expected);

    discovered.insert((2, 3, false));
    discovered.insert((3, 2, true));
    let mut seen = HashSet::new();
    for _ in 0..200 {
        seen.insert(map.get_next_coords(2, 2, &discovered, &none, &rng));
    }
    let expected: HashSet<(u32, u32)> = [(2, 1), (1, 2)].into_iter().collect();
    assert_eq!(seen, expected);

    discovered.insert((2, 1, false));
    for _ in 0..50 {
        assert_eq!(map.get_next_coords(2, 2, &discovered, &none, &rng), (1, 2));
    }
}

#[test]
fn no_fallback_while_a_neighbour_is_fresh() {
    let map = quiet_world(6, 6, 3);
    assert!(map.get_obstacles().is_empty());
    let rng = Mutex::new(StdRng::seed_from_u64(31));
    let mut discovered = DiscoveredSet::new();
    let mut position = (0u32, 0u32);
    for _ in 0..500 {
        let neighbours = [
            map.step_from(position.0, position.1, (0, 1)),
            map.step_from(position.0, position.1, (0, -1)),
            map.step_from(position.0, position.1, (1, 0)),
            map.step_from(position.0, position.1, (-1, 0)),
        ];
        let some_fresh = neighbours.iter().any(|cell| !discovered.covers(cell.0, cell.1));
        let next = map.get_next_coords(
            position.0,
            position.1,
            &discovered,
            map.get_obstacles(),
            &rng,
        );
        assert!(neighbours.contains(&next));
        if some_fresh {
            assert!(!discovered.covers(next.0, next.1));
        }
        discovered.insert((next.0, next.1, false));
        position = next;
    }
}

#[test]
fn move_robot_harvests_and_moves() {
    let mut map = quiet_world(5, 5, 8);
    assert!(map.is_within_limits());
    let energy_here = *map.get_resources()[0].get_energy();
    let minerals_here = *map.get_resources()[0].get_minerals();

    map.move_robot(1, (0, 1));

    assert_eq!(map.get_robots()[1].get_position(), &(0, 1));
    assert_eq!(map.get_robots()[1].get_storage().get_energy(), energy_here);
    assert_eq!(map.get_robots()[1].get_storage().get_minerals(), 0);
    assert_eq!(map.get_resources()[0].get_energy(), &0);
    assert_eq!(map.get_resources()[0].get_minerals(), &minerals_here);
    assert_eq!(map.get_robots()[0].get_position(), &(0, 0));

    let energy_next = *map.get_resources()[1].get_energy();
    map.move_robot(1, (0, 0));

    assert_eq!(map.get_station().get_stored_energy(), energy_here + energy_next);
    assert_eq!(map.get_resources()[1].get_energy(), &0);
    assert_eq!(map.get_robots()[1].get_storage().get_energy(), 0);
    assert_eq!(map.get_robots()[1].get_position(), &(0, 0));
    let mut known = map.get_station().get_discovered_coords().to_vec();
    known.sort();
    assert_eq!(known, vec![(0, 0, false), (0, 1, false)]);
}

#[test]
fn move_robot_stops_at_obstacles() {
    let mut noise = vec![0.0f64.to_bits(); 25];
    noise[5 + 1] = 0.8f64.to_bits();
    let rng = Mutex::new(StdRng::seed_from_u64(8));
    let mut map = generate_map(5, 5, &noise, &rng);
    assert_eq!(map.get_obstacles(), &vec![(1, 1, ObstacleType::Rock)]);

    map.move_robot(0, (0, 1));
    assert_eq!(map.get_robots()[0].get_position(), &(0, 1));
    map.move_robot(0, (1, 1));
    assert_eq!(map.get_robots()[0].get_position(), &(0, 1));
    assert!(map.get_robots()[0].get_storage().discovered_coords.contains(&(1, 1, false)));
}

#[test]
fn spawn_robots_spends_what_the_station_holds() {
    let mut map = quiet_world(3, 3, 4);
    let rng = Mutex::new(StdRng::seed_from_u64(4));
    assert_eq!(map.spawn_robots(&rng), 0);
    assert_eq!(map.get_robots().len(), 3);
}

#[test]
fn fresh_world_is_within_its_limits() {
    assert!(quiet_world(20, 20, 123).is_within_limits());
    assert!(quiet_world(1, 1, 123).is_within_limits());
}
