//! The set of cells that a robot, or the station, has learned about.

use vstd::prelude::*;

verus! {

/// A cell that has been seen, `(x, y, is_scientific_interest)`.
pub type DiscoveredCoord = (u32, u32, bool);

/// Whether `known` holds the cell `(x, y)`, under either flag.
pub open spec fn covers_cell(known: Set<DiscoveredCoord>, x: u32, y: u32) -> bool {
    known.contains((x, y, false)) || known.contains((x, y, true))
}

/// A set of discovered cells. Its view is the set it stands for; the order
/// in which the entries arrived is not part of it.
pub struct DiscoveredSet {
    coords: Vec<DiscoveredCoord>,
}

impl View for DiscoveredSet {
    type V = Set<DiscoveredCoord>;

    closed spec fn view(&self) -> Set<DiscoveredCoord> {
        self.coords@.to_set()
    }
}

impl DiscoveredSet {
    /// No entry is held twice.
    #[verifier::type_invariant]
    spec fn distinct(self) -> bool {
        self.coords@.no_duplicates()
    }

    /// The empty set.
    pub fn new() -> (set: DiscoveredSet)
        ensures
            set@ == Set::<DiscoveredCoord>::empty(),
    {
        let set = DiscoveredSet { coords: Vec::new() };
        assert(set.coords@.to_set() =~= Set::<DiscoveredCoord>::empty());
        set
    }

    /// Every discovered set is finite.
    pub proof fn lemma_finite(&self)
        ensures
            self@.finite(),
    {
        vstd::seq_lib::seq_to_set_is_finite(self.coords@);
    }

    /// The number of entries.
    pub fn len(&self) -> (count: usize)
        ensures
            count == self@.len(),
    {
        proof {
            use_type_invariant(self);
            self.coords@.unique_seq_to_set();
        }
        self.coords.len()
    }

    /// Whether the set has no entry.
    pub fn is_empty(&self) -> (empty: bool)
        ensures
            empty == (self@ == Set::<DiscoveredCoord>::empty()),
    {
        proof {
            if self.coords@.len() > 0 {
                assert(self.coords@.to_set().contains(self.coords@[0]));
            } else {
                assert(self.coords@.to_set() =~= Set::<DiscoveredCoord>::empty());
            }
        }
        self.coords.len() == 0
    }

    /// Whether `coord` is an entry.
    pub fn contains(&self, coord: &DiscoveredCoord) -> (found: bool)
        ensures
            found == self@.contains(*coord),
    {
        let mut i: usize = 0;
        while i < self.coords.len()
            invariant
                i <= self.coords@.len(),
                forall|j: int| 0 <= j < i ==> self.coords@[j] != *coord,
            decreases self.coords@.len() - i,
        {
            let entry = &self.coords[i];
            if entry.0 == coord.0 && entry.1 == coord.1 && entry.2 == coord.2 {
                assert(self.coords@[i as int] == *coord);
                return true;
            }
            i += 1;
        }
        false
    }

    /// Whether the cell `(x, y)` is an entry, under either flag.
    pub fn covers(&self, x: u32, y: u32) -> (found: bool)
        ensures
            found == covers_cell(self@, x, y),
    {
        let mut i: usize = 0;
        while i < self.coords.len()
            invariant
                i <= self.coords@.len(),
                forall|j: int| 0 <= j < i ==> !(self.coords@[j].0 == x && self.coords@[j].1 == y),
            decreases self.coords@.len() - i,
        {
            let entry = &self.coords[i];
            if entry.0 == x && entry.1 == y {
                assert(self.coords@[i as int] == (x, y, entry.2));
                return true;
            }
            i += 1;
        }
        false
    }

    /// Adds `coord`; says whether it was new.
    pub fn insert(&mut self, coord: DiscoveredCoord) -> (fresh: bool)
        ensures
            final(self)@ == old(self)@.insert(coord),
            fresh == !old(self)@.contains(coord),
    {
        if self.contains(&coord) {
            assert(self@ =~= self@.insert(coord));
            false
        } else {
            proof {
                use_type_invariant(&*self);
            }
            let mut coords: Vec<DiscoveredCoord> = Vec::new();
            std::mem::swap(&mut coords, &mut self.coords);
            let ghost before = coords@;
            coords.push(coord);
            assert(coords@.to_set() =~= before.to_set().insert(coord)) by {
                assert forall|c: DiscoveredCoord|
                    coords@.to_set().contains(c) == before.to_set().insert(coord).contains(
                        c,
                    ) by {
                    if coords@.to_set().contains(c) {
                        let k = choose|k: int| 0 <= k < coords@.len() && coords@[k] == c;
                        if k < before.len() {
                            assert(before[k] == c);
                        }
                    }
                    if before.to_set().contains(c) {
                        let k = choose|k: int| 0 <= k < before.len() && before[k] == c;
                        assert(coords@[k] == c);
                    }
                    if c == coord {
                        assert(coords@[before.len() as int] == c);
                    }
                }
            }
            self.coords = coords;
            true
        }
    }

    /// Removes every entry.
    pub fn clear(&mut self)
        ensures
            final(self)@ == Set::<DiscoveredCoord>::empty(),
    {
        self.coords = Vec::new();
        assert(self.coords@.to_set() =~= Set::<DiscoveredCoord>::empty());
    }

    /// Adds every entry of `other`.
    pub fn extend(&mut self, other: &DiscoveredSet)
        ensures
            final(self)@ == old(self)@.union(other@),
    {
        let mut i: usize = 0;
        while i < other.coords.len()
            invariant
                i <= other.coords@.len(),
                self@ == old(self)@.union(other.coords@.take(i as int).to_set()),
            decreases other.coords@.len() - i,
        {
            let entry = other.coords[i];
            self.insert(entry);
            proof {
                let done = other.coords@.take(i as int);
                let next = other.coords@.take(i as int + 1);
                assert(next.to_set() =~= done.to_set().insert(entry)) by {
                    assert(next =~= done.push(entry));
                    assert forall|c: DiscoveredCoord|
                        next.to_set().contains(c) == done.to_set().insert(entry).contains(c) by {
                        if next.to_set().contains(c) {
                            let k = choose|k: int| 0 <= k < next.len() && next[k] == c;
                            if k < done.len() {
                                assert(done[k] == c);
                            }
                        }
                        if done.to_set().contains(c) {
                            let k = choose|k: int| 0 <= k < done.len() && done[k] == c;
                            assert(next[k] == c);
                        }
                        if c == entry {
                            assert(next[done.len() as int] == c);
                        }
                    }
                }
                assert(old(self)@.union(done.to_set()).insert(entry) =~= old(self)@.union(
                    next.to_set(),
                ));
            }
            i += 1;
        }
        proof {
            assert(other.coords@.take(other.coords@.len() as int) =~= other.coords@);
        }
    }

    /// The entries, each once, in no order that is promised.
    pub fn to_vec(&self) -> (entries: Vec<DiscoveredCoord>)
        ensures
            entries@.to_set() == self@,
            entries@.no_duplicates(),
    {
        proof {
            use_type_invariant(self);
        }
        let mut entries: Vec<DiscoveredCoord> = Vec::new();
        let mut i: usize = 0;
        while i < self.coords.len()
            invariant
                i <= self.coords@.len(),
                entries@ == self.coords@.take(i as int),
            decreases self.coords@.len() - i,
        {
            entries.push(self.coords[i]);
            assert(entries@ =~= self.coords@.take(i as int + 1));
            i += 1;
        }
        assert(entries@ =~= self.coords@);
        entries
    }
}

} // verus!
