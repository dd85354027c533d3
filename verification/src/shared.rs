//! Toroidal coordinate arithmetic and the issue of robot ids.

use crate::random::random_u32;
use parking_lot::Mutex;
use rand::rngs::StdRng;
use std::collections::HashSet;
use vstd::arithmetic::div_mod::{
    lemma_fundamental_div_mod, lemma_fundamental_div_mod_converse, lemma_mod_bound,
    lemma_sub_mod_noop,
};
use vstd::prelude::*;
use vstd::relations::injective_on;
use vstd::seq_lib::seq_to_set_is_finite;
use vstd::set_lib::{lemma_int_range, lemma_len_subset, lemma_map_size, set_int_range};
use vstd::std_specs::hash::spec_hash_keys_iter;
use vstd::std_specs::iter::IteratorSpec;

verus! {

/// A cell of the grid, `(x, y)`.
pub type Coord = (u32, u32);

/// How many different ids there are.
pub const ID_SPACE: u64 = 0x1_0000_0000;

/// The representative of `value` in `[0, size)`: the remainder of the
/// Euclidean division of `value` by `size`.
pub open spec fn wrap(value: int, size: int) -> int {
    value % size
}

/// Moves the coordinate `u` by the signed offset `i` on an axis of `size`
/// cells whose two ends are joined.
pub fn add(u: u32, i: i32, size: u32) -> (r: u32)
    requires
        size > 0,
    ensures
        r == wrap(u as int + i as int, size as int),
        r < size,
{
    let modulus: u64 = size as u64;
    proof {
        lemma_mod_bound(u as int + i as int, size as int);
    }
    if i >= 0 {
        let sum: u64 = u as u64 + i as u64;
        (sum % modulus) as u32
    } else {
        let back: u64 = (-(i as i64)) as u64;
        let from: u64 = u as u64 % modulus;
        let less: u64 = back % modulus;
        proof {
            lemma_sub_mod_noop(u as int, back as int, size as int);
            if from >= less {
                lemma_fundamental_div_mod_converse(from - less, size as int, 0, from - less);
            } else {
                lemma_fundamental_div_mod_converse(
                    from - less,
                    size as int,
                    -1,
                    from - less + size,
                );
            }
        }
        if from >= less {
            (from - less) as u32
        } else {
            (from + modulus - less) as u32
        }
    }
}

/// Wrapping keeps every coordinate on the axis, whatever the offset.
pub proof fn lemma_wrap_in_range(x: int, dx: int, size: int)
    requires
        size > 0,
    ensures
        0 <= wrap(x + dx, size) < size,
{
    lemma_mod_bound(x + dx, size);
}

/// A step forward and then a step back returns to the cell it started from,
/// and so does a step back and then a step forward.
pub proof fn lemma_wrap_round_trip(x: int, dx: int, size: int)
    requires
        size > 0,
        0 <= x < size,
    ensures
        wrap(wrap(x + dx, size) - dx, size) == x,
        wrap(wrap(x - dx, size) + dx, size) == x,
{
    let forward = x + dx;
    let backward = x - dx;
    lemma_fundamental_div_mod(forward, size);
    lemma_fundamental_div_mod(backward, size);
    let turns_forward = forward / size;
    let turns_backward = backward / size;
    assert((-turns_forward) * size == -(size * turns_forward)) by (nonlinear_arith);
    assert((-turns_backward) * size == -(size * turns_backward)) by (nonlinear_arith);
    lemma_fundamental_div_mod_converse(forward % size - dx, size, -turns_forward, x);
    lemma_fundamental_div_mod_converse(backward % size + dx, size, -turns_backward, x);
}

/// The id `distance` places after `start`, counting round the id space.
pub open spec fn probe(start: u32, distance: int) -> u32 {
    ((start as int + distance) % (ID_SPACE as int)) as u32
}

/// `id` is the first id at or after `start`, counting round the id space,
/// that `used` does not hold.
pub open spec fn is_first_free(id: u32, start: u32, used: Set<u32>) -> bool {
    exists|distance: int|
        {
            &&& 0 <= distance < ID_SPACE
            &&& id == #[trigger] probe(start, distance)
            &&& !used.contains(id)
            &&& forall|nearer: int|
                0 <= nearer < distance ==> used.contains(#[trigger] probe(start, nearer))
        }
}

/// A set that holds `count` ids in a row has at least `count` ids.
proof fn lemma_probes_counted(start: u32, count: int, used: Set<u32>)
    requires
        0 <= count <= ID_SPACE,
        used.finite(),
        forall|nearer: int| 0 <= nearer < count ==> used.contains(#[trigger] probe(start, nearer)),
    ensures
        count <= used.len(),
{
    let distances = set_int_range(0, count);
    let at = |distance: int| probe(start, distance);
    let probed = distances.map(at);
    lemma_int_range(0, count);
    assert(injective_on(at, distances)) by {
        assert forall|a: int, b: int|
            distances.contains(a) && distances.contains(b) && #[trigger] at(a) == #[trigger] at(
                b,
            ) implies a == b by {
            assert(probe(start, a) == probe(start, b));
        }
    }
    lemma_map_size(distances, probed, at);
    assert(probed.subset_of(used)) by {
        assert forall|id: u32| probed.contains(id) implies used.contains(id) by {
            let distance = choose|distance: int| distances.contains(distance) && id == at(distance);
            assert(used.contains(probe(start, distance)));
        }
    }
    lemma_len_subset(probed, used);
}

/// A hash set holds finitely many ids: they can be listed.
pub proof fn lemma_finite(used: &HashSet<u32>)
    ensures
        used@.finite(),
{
    let listed = spec_hash_keys_iter(used).remaining().unref();
    assert(listed.to_set() == used@);
    seq_to_set_is_finite(listed);
}

/// The first id at or after `start` that is not in `used`.
pub fn first_free_id(start: u32, used: &HashSet<u32>) -> (id: u32)
    requires
        used@.len() < ID_SPACE,
    ensures
        is_first_free(id, start, used@),
        !used@.contains(id),
{
    let mut candidate: u32 = start;
    let ghost mut distance: int = 0;
    proof {
        lemma_finite(used);
    }
    while used.contains(&candidate)
        invariant
            0 <= distance <= ID_SPACE,
            candidate == probe(start, distance),
            used@.finite(),
            used@.len() < ID_SPACE,
            forall|nearer: int|
                0 <= nearer < distance ==> used@.contains(#[trigger] probe(start, nearer)),
        decreases ID_SPACE - distance,
    {
        proof {
            if distance < ID_SPACE {
                lemma_probes_counted(start, distance + 1, used@);
            } else {
                lemma_probes_counted(start, distance, used@);
            }
            distance = distance + 1;
        }
        candidate = if candidate == u32::MAX {
            0
        } else {
            candidate + 1
        };
    }
    proof {
        lemma_probes_counted(start, distance, used@);
        assert(candidate == probe(start, distance));
    }
    candidate
}

/// A new id, not among `used`: one draw from `rng`, moved on to the first
/// free id where the draw is taken.
pub fn generate_unique_id(rng: &Mutex<StdRng>, used: &HashSet<u32>) -> (id: u32)
    requires
        used@.len() < ID_SPACE,
    ensures
        !used@.contains(id),
{
    let start = random_u32(rng);
    first_free_id(start, used)
}

/// `count` ids, no two alike.
pub fn generate_unique_ids(rng: &Mutex<StdRng>, count: usize) -> (ids: HashSet<u32>)
    requires
        count <= ID_SPACE,
    ensures
        ids@.finite(),
        ids@.len() == count,
{
    let mut unique_ids: HashSet<u32> = HashSet::new();
    while unique_ids.len() < count
        invariant
            unique_ids@.finite(),
            unique_ids@.len() <= count <= ID_SPACE,
        decreases count - unique_ids@.len(),
    {
        let id = generate_unique_id(rng, &unique_ids);
        unique_ids.insert(id);
    }
    unique_ids
}

} // verus!
