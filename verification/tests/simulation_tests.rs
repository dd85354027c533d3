use std::collections::HashSet;

use parking_lot::Mutex;
use rand::rngs::StdRng;
use rand::SeedableRng;

use robot_colony::map::{generate_map, is_blocked, World};
use robot_colony::renderer::{glyph_for, is_occupied, render_rows, Glyph};
use robot_colony::simulation::{
    apply_moves, draw_dimensions, next_phase, plan_moves, run_tick, tick_is_due, Phase,
    TICK_MILLIS,
};

fn noisy_world(width: u32, height: u32, seed: u64) -> (World, Mutex<StdRng>) {
    let rng = Mutex::new(StdRng::seed_from_u64(seed));
    let mut noise = Vec::new();
    for x in 0..width {
        for y in 0..height {
            let sample = if (x * 7 + y * 3) % 11 == 0 {
                0.8f64
            } else if (x * 5 + y) % 13 == 0 {
                0.45f64
            } else {
                0.1f64
            };
            noise.push(sample.to_bits());
        }
    }
    let map = generate_map(width, height, &noise, &rng);
    (map, rng)
}

fn total_energy(map: &World) -> u64 {
    let in_cells: u64 = map.get_resources().iter().map(|r| u64::from(*r.get_energy())).sum();
    let on_robots: u64 =
        map.get_robots().iter().map(|r| u64::from(r.get_storage().get_energy())).sum();
    in_cells + on_robots + u64::from(map.get_station().get_stored_energy())
}

fn total_minerals(map: &World) -> u64 {
    let in_cells: u64 = map.get_resources().iter().map(|r| u64::from(*r.get_minerals())).sum();
    let on_robots: u64 =
        map.get_robots().iter().map(|r| u64::from(r.get_storage().get_minerals())).sum();
    in_cells + on_robots + u64::from(map.get_station().get_stored_minerals())
}

#[test]
fn tick_is_due_after_a_tenth_of_a_second() {
    assert_eq!(TICK_MILLIS, 100);
    assert!(!tick_is_due(0));
    assert!(!tick_is_due(99));
    assert!(tick_is_due(100));
    assert!(tick_is_due(101));
    assert!(tick_is_due(u64::MAX));
}

#[test]
fn dimensions_are_drawn_from_their_ranges() {
    let rng = Mutex::new(StdRng::seed_from_u64(123));
    assert_eq!(draw_dimensions(&rng, 20, 20, 20, 20), (20, 20));
    assert_eq!(draw_dimensions(&rng, 1, 1, 7, 7), (1, 7));

    let mut widths = HashSet::new();
    let mut heights = HashSet::new();
    for _ in 0..300 {
        let (width, height) = draw_dimensions(&rng, 10, 20, 30, 40);
        assert!((10..=20).contains(&width));
        assert!((30..=40).contains(&height));
        widths.insert(width);
        heights.insert(height);
    }
    assert_eq!(widths.len(), 11);
    assert_eq!(heights.len(), 11);
}

#[test]
fn planned_moves_are_steps_to_neighbours() {
    let (map, rng) = noisy_world(8, 8, 21);
    let destinations = plan_moves(&map, &rng);
    assert_eq!(destinations.len(), 3);
    for destination in destinations {
        assert!([(0, 1), (0, 7), (1, 0), (7, 0)].contains(&destination));
    }
}

#[test]
fn applied_moves_take_each_robot_to_its_cell() {
    let (mut map, _) = noisy_world(8, 8, 21);
    assert!(map.is_within_limits());
    let before_energy = total_energy(&map);
    let before_minerals = total_minerals(&map);

    apply_moves(&mut map, &vec![(0, 1), (1, 0), (0, 7)]);

    assert_eq!(map.get_robots()[0].get_position(), &(0, 1));
    assert_eq!(map.get_robots()[1].get_position(), &(1, 0));
    assert_eq!(map.get_robots()[2].get_position(), &(0, 7));
    assert_eq!(total_energy(&map), before_energy);
    assert_eq!(total_minerals(&map), before_minerals);
    assert_eq!(map.get_resources()[0].get_minerals(), &0);
    assert_eq!(map.get_resources()[0].get_energy(), &0);
}

#[test]
fn ticks_keep_the_books() {
    let (mut map, rng) = noisy_world(12, 10, 123);
    assert!(map.is_within_limits());
    let obstacles = map.get_obstacles().clone();
    assert!(!obstacles.is_empty());
    let mut built = 0usize;

    for _ in 0..400 {
        let energy = total_energy(&map);
        let minerals = total_minerals(&map);
        let robots = map.get_robots().len();
        let cells: Vec<(u32, u32)> = map
            .get_resources()
            .iter()
            .map(|resource| (*resource.get_energy(), *resource.get_minerals()))
            .collect();
        let ids: Vec<u32> = map.get_robots().iter().map(|robot| robot.get_id()).collect();

        let spawned = run_tick(&mut map, &rng);
        built += spawned;

        assert_eq!(total_energy(&map) + 1000 * spawned as u64, energy);
        assert_eq!(total_minerals(&map) + 1000 * spawned as u64, minerals);
        assert_eq!(map.get_robots().len(), robots + spawned);
        assert_eq!(map.get_obstacles(), &obstacles);
        assert_eq!(map.get_width(), &12);
        assert_eq!(map.get_height(), &10);
        assert!(
            map.get_station().get_stored_energy() < 1000
                || map.get_station().get_stored_minerals() < 1000
        );
        for (resource, (old_energy, old_minerals)) in map.get_resources().iter().zip(cells) {
            assert!(*resource.get_energy() <= old_energy);
            assert!(*resource.get_minerals() <= old_minerals);
        }
        let mut seen = HashSet::new();
        for (place, robot) in map.get_robots().iter().enumerate() {
            let position = robot.get_position();
            assert!(position.0 < 12 && position.1 < 10);
            assert!(!is_blocked(map.get_obstacles(), position.0, position.1));
            assert!(seen.insert(robot.get_id()));
            if place < ids.len() {
                assert_eq!(robot.get_id(), ids[place]);
            } else {
                assert_eq!(position, &(0, 0));
            }
        }
        assert!(map.is_within_limits());
    }
    assert!(built > 0);
}

#[test]
fn same_seed_same_run() {
    let (mut left, left_rng) = noisy_world(9, 9, 55);
    let (mut right, right_rng) = noisy_world(9, 9, 55);
    for _ in 0..60 {
        run_tick(&mut left, &left_rng);
        run_tick(&mut right, &right_rng);
    }
    let places = |map: &World| -> Vec<(u32, u32)> {
        map.get_robots().iter().map(|robot| *robot.get_position()).collect()
    };
    let mut left_places = places(&left);
    let mut right_places = places(&right);
    left_places.sort();
    right_places.sort();
    assert_eq!(left_places, right_places);
    assert_eq!(total_energy(&left), total_energy(&right));
}

#[test]
fn glyphs_have_their_symbols() {
    assert_eq!(Glyph::Station.symbol(), 'S');
    assert_eq!(Glyph::Robot.symbol(), 'R');
    assert_eq!(Glyph::Obstacle.symbol(), '#');
    assert_eq!(Glyph::Empty.symbol(), '.');
}

#[test]
fn station_shows_before_robots_and_robots_before_the_rest() {
    let (mut map, _) = noisy_world(8, 8, 21);
    assert_eq!(glyph_for(&map, 0, 0), Glyph::Station);
    assert!(is_occupied(&map, 0, 0));
    assert!(!is_occupied(&map, 0, 1));
    assert_eq!(glyph_for(&map, 0, 1), Glyph::Empty);

    map.move_robot(0, (0, 1));

    assert!(is_occupied(&map, 0, 1));
    assert_eq!(glyph_for(&map, 0, 1), Glyph::Robot);
    assert_eq!(glyph_for(&map, 0, 0), Glyph::Station);
    for x in 0..8u32 {
        for y in 0..8u32 {
            if (x, y) == (0, 0) || (x, y) == (0, 1) {
                continue;
            }
            let expected = if is_blocked(map.get_obstacles(), x, y) {
                Glyph::Obstacle
            } else {
                Glyph::Empty
            };
            assert_eq!(glyph_for(&map, x, y), expected);
        }
    }
}

#[test]
fn rows_show_the_whole_grid() {
    let (mut map, _) = noisy_world(6, 4, 21);
    map.move_robot(2, (1, 0));
    let rows = render_rows(&map);
    assert_eq!(rows.len(), 4);
    for (y, row) in rows.iter().enumerate() {
        assert_eq!(row.len(), 6);
        for (x, glyph) in row.iter().enumerate() {
            assert_eq!(*glyph, glyph_for(&map, x as u32, y as u32));
        }
    }
    assert_eq!(rows[0][0], Glyph::Station);
    assert_eq!(rows[0][1], Glyph::Robot);
    let obstacles = rows.iter().flatten().filter(|glyph| **glyph == Glyph::Obstacle).count();
    assert_eq!(obstacles, map.get_obstacles().len());
}

#[test]
fn a_run_without_budget_never_ends() {
    assert_eq!(next_phase(Phase::Initializing, None), Phase::Running(0));
    assert_eq!(next_phase(Phase::Running(0), None), Phase::Running(1));
    assert_eq!(next_phase(Phase::Running(41), None), Phase::Running(42));
    assert_eq!(next_phase(Phase::Running(u64::MAX - 1), None), Phase::Running(u64::MAX));
    assert_eq!(next_phase(Phase::Running(u64::MAX), None), Phase::Running(u64::MAX));
}

#[test]
fn a_run_ends_when_its_budget_is_spent() {
    assert_eq!(next_phase(Phase::Initializing, Some(0)), Phase::Terminated);
    assert_eq!(next_phase(Phase::Initializing, Some(1)), Phase::Running(0));
    assert_eq!(next_phase(Phase::Running(0), Some(1)), Phase::Terminated);
    assert_eq!(next_phase(Phase::Running(0), Some(3)), Phase::Running(1));
    assert_eq!(next_phase(Phase::Running(1), Some(3)), Phase::Running(2));
    assert_eq!(next_phase(Phase::Running(2), Some(3)), Phase::Terminated);
    assert_eq!(next_phase(Phase::Running(7), Some(3)), Phase::Terminated);
    assert_eq!(next_phase(Phase::Terminated, Some(3)), Phase::Terminated);
    assert_eq!(next_phase(Phase::Terminated, None), Phase::Terminated);

    let mut phase = next_phase(Phase::Initializing, Some(5));
    let mut ticks = 0;
    while let Phase::Running(tick) = phase {
        assert_eq!(tick, ticks);
        ticks += 1;
        phase = next_phase(phase, Some(5));
    }
    assert_eq!(ticks, 5);
}
