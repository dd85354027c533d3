use std::collections::HashSet;

use parking_lot::Mutex;
use rand::rngs::StdRng;
use rand::SeedableRng;

use robot_colony::shared::{add, first_free_id, generate_unique_id, generate_unique_ids, ID_SPACE};

#[test]
fn add_steps_along_the_axis() {
    assert_eq!(add(3, 1, 20), 4);
    assert_eq!(add(3, -1, 20), 2);
    assert_eq!(add(3, 0, 20), 3);
    assert_eq!(add(0, 5, 20), 5);
}

#[test]
fn add_wraps_at_both_ends() {
    assert_eq!(add(19, 1, 20), 0);
    assert_eq!(add(0, -1, 20), 19);
    assert_eq!(add(0, -1, 1), 0);
    assert_eq!(add(0, 1, 1), 0);
    assert_eq!(add(0, -5, 5), 0);
    assert_eq!(add(0, -20, 20), 0);
    assert_eq!(add(0, -21, 20), 19);
}

#[test]
fn add_takes_large_offsets() {
    assert_eq!(add(3, -5, 10), 8);
    assert_eq!(add(7, -1000, 10), 7);
    assert_eq!(add(7, 1000, 10), 7);
    assert_eq!(add(0, i32::MIN, 10), 2);
    assert_eq!(add(0, i32::MAX, 10), 7);
    assert_eq!(add(u32::MAX, i32::MAX, u32::MAX), 2147483647);
    assert_eq!(add(u32::MAX, 1, 7), 4);
    assert_eq!(add(25, 0, 20), 5);
}

#[test]
fn add_stays_on_the_axis() {
    for size in 1..12u32 {
        for u in 0..size {
            for i in -40..40i32 {
                let moved = add(u, i, size);
                assert!(moved < size);
                assert_eq!(
                    i64::from(moved),
                    (i64::from(u) + i64::from(i)).rem_euclid(i64::from(size))
                );
            }
        }
    }
}

#[test]
fn a_step_and_a_step_back_return() {
    for size in 1..12u32 {
        for u in 0..size {
            assert_eq!(add(add(u, 1, size), -1, size), u);
            assert_eq!(add(add(u, -1, size), 1, size), u);
            assert_eq!(add(add(u, 17, size), -17, size), u);
        }
    }
}

#[test]
fn id_space_is_all_of_u32() {
    assert_eq!(ID_SPACE, 4_294_967_296);
}

#[test]
fn first_free_id_skips_used_ids() {
    let mut used = HashSet::new();
    assert_eq!(first_free_id(42, &used), 42);
    used.insert(42);
    assert_eq!(first_free_id(42, &used), 43);
    used.insert(43);
    used.insert(45);
    assert_eq!(first_free_id(42, &used), 44);
    assert_eq!(first_free_id(45, &used), 46);
    assert_eq!(first_free_id(7, &used), 7);
}

#[test]
fn first_free_id_goes_round_the_id_space() {
    let mut used = HashSet::new();
    used.insert(u32::MAX);
    assert_eq!(first_free_id(u32::MAX, &used), 0);
    used.insert(0);
    used.insert(1);
    assert_eq!(first_free_id(u32::MAX, &used), 2);
    used.insert(u32::MAX - 1);
    assert_eq!(first_free_id(u32::MAX - 1, &used), 2);
}

#[test]
fn unique_id_is_not_in_use() {
    let rng = Mutex::new(StdRng::seed_from_u64(1));
    let mut used = HashSet::new();
    for _ in 0..500 {
        let id = generate_unique_id(&rng, &used);
        assert!(!used.contains(&id));
        used.insert(id);
    }
    assert_eq!(used.len(), 500);
}

#[test]
fn unique_ids_are_as_many_as_asked_for() {
    let rng = Mutex::new(StdRng::seed_from_u64(2));
    assert_eq!(generate_unique_ids(&rng, 0).len(), 0);
    assert_eq!(generate_unique_ids(&rng, 1).len(), 1);
    assert_eq!(generate_unique_ids(&rng, 3).len(), 3);
    assert_eq!(generate_unique_ids(&rng, 1000).len(), 1000);
}

#[test]
fn unique_ids_come_from_the_random_source() {
    let rng = Mutex::new(StdRng::seed_from_u64(3));
    let ids = generate_unique_ids(&rng, 50);
    let mut sorted: Vec<u32> = ids.into_iter().collect();
    sorted.sort();
    let in_a_row = sorted.windows(2).all(|pair| pair[1] == pair[0] + 1);
    assert!(!in_a_row);

    let same_seed = Mutex::new(StdRng::seed_from_u64(3));
    let again = generate_unique_ids(&same_seed, 50);
    let mut sorted_again: Vec<u32> = again.into_iter().collect();
    sorted_again.sort();
    assert_eq!(sorted, sorted_again);

    let other_seed = Mutex::new(StdRng::seed_from_u64(4));
    let others = generate_unique_ids(&other_seed, 50);
    let mut sorted_others: Vec<u32> = others.into_iter().collect();
    sorted_others.sort();
    assert_ne!(sorted, sorted_others);
}
