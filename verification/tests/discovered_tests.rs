use robot_colony::discovered::DiscoveredSet;

#[test]
fn new_set_is_empty() {
    let set = DiscoveredSet::new();
    assert_eq!(set.len(), 0);
    assert!(set.is_empty());
    assert!(!set.contains(&(0, 0, false)));
    assert!(!set.covers(0, 0));
    assert!(set.to_vec().is_empty());
}

#[test]
fn insert_holds_each_entry_once() {
    let mut set = DiscoveredSet::new();
    assert!(set.insert((1, 2, false)));
    assert!(!set.insert((1, 2, false)));
    assert!(set.insert((1, 2, true)));
    assert!(set.insert((2, 1, false)));
    assert_eq!(set.len(), 3);
    assert!(!set.is_empty());
    assert!(set.contains(&(1, 2, false)));
    assert!(set.contains(&(1, 2, true)));
    assert!(set.contains(&(2, 1, false)));
    assert!(!set.contains(&(2, 1, true)));
}

#[test]
fn covers_looks_at_the_cell_only() {
    let mut set = DiscoveredSet::new();
    set.insert((4, 5, true));
    set.insert((6, 7, false));
    assert!(set.covers(4, 5));
    assert!(set.covers(6, 7));
    assert!(!set.covers(5, 4));
    assert!(!set.covers(4, 7));
}

#[test]
fn clear_forgets_everything() {
    let mut set = DiscoveredSet::new();
    set.insert((4, 5, true));
    set.insert((6, 7, false));
    set.clear();
    assert!(set.is_empty());
    assert_eq!(set.len(), 0);
    assert!(!set.covers(4, 5));
    assert!(set.insert((4, 5, true)));
}

#[test]
fn extend_is_the_union() {
    let mut left = DiscoveredSet::new();
    left.insert((1, 1, false));
    left.insert((2, 2, false));
    let mut right = DiscoveredSet::new();
    right.insert((2, 2, false));
    right.insert((3, 3, true));

    left.extend(&right);

    assert_eq!(left.len(), 3);
    assert!(left.contains(&(1, 1, false)));
    assert!(left.contains(&(2, 2, false)));
    assert!(left.contains(&(3, 3, true)));
    assert_eq!(right.len(), 2);

    let before = left.to_vec();
    left.extend(&DiscoveredSet::new());
    assert_eq!(left.to_vec(), before);
}

#[test]
fn to_vec_gives_each_entry_once() {
    let mut set = DiscoveredSet::new();
    set.insert((9, 9, true));
    set.insert((8, 8, false));
    set.insert((9, 9, true));
    let mut entries = set.to_vec();
    entries.sort();
    assert_eq!(entries, vec![(8, 8, false), (9, 9, true)]);
}
