//! One tick of the colony: every robot picks its next cell, every robot
//! makes its step, and the station builds what robots it can pay for.

use crate::ledger::{lemma_moves, lemma_spawn_accounts};
use crate::map::{World, WorldView};
use crate::movement::{is_candidate, lemma_candidate_on_grid};
use crate::random::random_in_range;
use crate::shared::Coord;
use crate::station::{spawn_count, ENERGY_PER_ROBOT, MINERALS_PER_ROBOT};
use parking_lot::Mutex;
use rand::rngs::StdRng;
use vstd::prelude::*;

verus! {

/// The time from one tick to the next, in milliseconds.
pub const TICK_MILLIS: u64 = 100;

/// Whether the next tick is due, `elapsed_millis` after the last one.
pub fn tick_is_due(elapsed_millis: u64) -> (due: bool)
    ensures
        due == (elapsed_millis >= TICK_MILLIS),
{
    elapsed_millis >= TICK_MILLIS
}

/// Where a run stands: before the world is there, in the tick of the given
/// number, counted from zero, or at its end.
#[derive(Clone, Copy, Debug, PartialEq, Eq)]
pub enum Phase {
    Initializing,
    Running(u64),
    Terminated,
}

/// The phase that follows `phase` in a run of `budget` ticks, or in a run
/// without end where there is no budget. The number of the tick stops
/// counting at `u64::MAX`.
pub open spec fn phase_after(phase: Phase, budget: Option<u64>) -> Phase {
    match phase {
        Phase::Initializing => if budget == Some(0u64) {
            Phase::Terminated
        } else {
            Phase::Running(0)
        },
        Phase::Running(tick) => if tick == u64::MAX {
            Phase::Running(tick)
        } else if budget is Some && tick + 1 >= budget->0 {
            Phase::Terminated
        } else {
            Phase::Running((tick + 1) as u64)
        },
        Phase::Terminated => Phase::Terminated,
    }
}

/// The phase that follows `phase`, once the world has been generated or the
/// tick has been run.
pub fn next_phase(phase: Phase, budget: Option<u64>) -> (next: Phase)
    ensures
        next == phase_after(phase, budget),
{
    match phase {
        Phase::Initializing => match budget {
            Some(0) => Phase::Terminated,
            _ => Phase::Running(0),
        },
        Phase::Running(tick) => {
            if tick == u64::MAX {
                Phase::Running(tick)
            } else {
                match budget {
                    Some(limit) => if tick + 1 >= limit {
                        Phase::Terminated
                    } else {
                        Phase::Running(tick + 1)
                    },
                    None => Phase::Running(tick + 1),
                }
            }
        },
        Phase::Terminated => Phase::Terminated,
    }
}

/// The size of the grid, each side drawn from its range.
pub fn draw_dimensions(
    rng: &Mutex<StdRng>,
    min_width: u32,
    max_width: u32,
    min_height: u32,
    max_height: u32,
) -> (size: (u32, u32))
    requires
        min_width <= max_width,
        min_height <= max_height,
    ensures
        min_width <= size.0 <= max_width,
        min_height <= size.1 <= max_height,
{
    let map_width = random_in_range(rng, min_width, max_width);
    let map_height = random_in_range(rng, min_height, max_height);
    (map_width, map_height)
}

/// Whether `destination` is a cell that the robot at place `index` may pick
/// as its next, from where it stands and by what it has discovered.
pub open spec fn plausible(world: WorldView, index: int, destination: Coord) -> bool {
    is_candidate(
        destination,
        world.robots[index].position,
        world.robots[index].storage.discovered,
        world.obstacles,
        world.width,
        world.height,
    )
}

/// Whether `after` can be the world one tick after `before`, the robots
/// having picked `destinations`: each robot picked a cell that it may pick,
/// the robots made their steps in the order of their places, and then the
/// station built what robots it could pay for.
pub open spec fn tick_outcome(before: WorldView, destinations: Seq<Coord>, after: WorldView) -> bool {
    &&& destinations.len() == before.robots.len()
    &&& forall|i: int| 0 <= i < destinations.len() ==> plausible(before, i, #[trigger] destinations[i])
    &&& after.spawned_from(before.after_moves(destinations, destinations.len() as int))
}

/// Through every tick a well-formed world within its limits stays so: the
/// robots keep to the grid and off the obstacles, and their ids differ for
/// as long as the world lasts. No energy and no minerals come into being,
/// and what leaves is the price of the robots built. The grid and its
/// obstacles stay; every robot that was there keeps its place in the list,
/// its id and its modules; no resource gains anything.
pub proof fn lemma_tick(before: WorldView, destinations: Seq<Coord>, after: WorldView)
    requires
        before.well_formed(),
        before.within_limits(),
        tick_outcome(before, destinations, after),
    ensures
        after.well_formed(),
        after.within_limits(),
        after.total_energy() + spawn_count(
            before.after_moves(destinations, destinations.len() as int).station,
        ) * ENERGY_PER_ROBOT == before.total_energy(),
        after.total_minerals() + spawn_count(
            before.after_moves(destinations, destinations.len() as int).station,
        ) * MINERALS_PER_ROBOT == before.total_minerals(),
        after.width == before.width,
        after.height == before.height,
        after.obstacles == before.obstacles,
        after.robots.len() >= before.robots.len(),
        forall|i: int|
            0 <= i < before.robots.len() ==> {
                &&& (#[trigger] after.robots[i]).id == before.robots[i].id
                &&& after.robots[i].modules == before.robots[i].modules
            },
        after.resources.len() == before.resources.len(),
        forall|i: int|
            0 <= i < before.resources.len() ==> {
                &&& (#[trigger] after.resources[i]).position == before.resources[i].position
                &&& after.resources[i].energy <= before.resources[i].energy
                &&& after.resources[i].minerals <= before.resources[i].minerals
            },
{
    let count = destinations.len() as int;
    let moved = before.after_moves(destinations, count);
    assert forall|i: int| 0 <= i < count implies before.in_bounds(#[trigger] destinations[i]) by {
        assert(plausible(before, i, destinations[i]));
        lemma_candidate_on_grid(
            destinations[i],
            before.robots[i].position,
            before.robots[i].storage.discovered,
            before.obstacles,
            before.width,
            before.height,
        );
    }
    lemma_moves(before, destinations, count);
    lemma_spawn_accounts(moved, after);
    assert forall|i: int| 0 <= i < before.robots.len() implies {
        &&& (#[trigger] after.robots[i]).id == before.robots[i].id
        &&& after.robots[i].modules == before.robots[i].modules
    } by {
        assert(after.robots.take(moved.robots.len() as int)[i] == after.robots[i]);
        assert(moved.robots[i].id == before.robots[i].id);
    }
    assert forall|i: int| 0 <= i < before.resources.len() implies {
        &&& (#[trigger] after.resources[i]).position == before.resources[i].position
        &&& after.resources[i].energy <= before.resources[i].energy
        &&& after.resources[i].minerals <= before.resources[i].minerals
    } by {
        assert(moved.resources[i].position == before.resources[i].position);
    }
}

/// The next cell of each robot, drawn from `rng` in the order of their
/// places.
pub fn plan_moves(map: &World, rng: &Mutex<StdRng>) -> (destinations: Vec<Coord>)
    requires
        map.well_formed(),
    ensures
        destinations@.len() == map@.robots.len(),
        forall|i: int|
            0 <= i < destinations@.len() ==> {
                &&& plausible(map@, i, #[trigger] destinations@[i])
                &&& map@.in_bounds(destinations@[i])
            },
{
    let robots = map.get_robots();
    let obstacles = map.get_obstacles();
    let mut destinations: Vec<Coord> = Vec::new();
    let mut i: usize = 0;
    while i < robots.len()
        invariant
            i <= robots@.len(),
            map.well_formed(),
            crate::robot::robot_views(robots@) == map@.robots,
            obstacles@ == map@.obstacles,
            destinations@.len() == i,
            forall|j: int|
                0 <= j < i ==> {
                    &&& plausible(map@, j, #[trigger] destinations@[j])
                    &&& map@.in_bounds(destinations@[j])
                },
        decreases robots@.len() - i,
    {
        let robot = &robots[i];
        let position = robot.get_position();
        let next = map.get_next_coords(
            position.0,
            position.1,
            robot.get_storage().get_discovered_coords(),
            obstacles,
            rng,
        );
        proof {
            assert(map@.robots[i as int] == robots@[i as int]@);
        }
        destinations.push(next);
        i += 1;
    }
    destinations
}

/// Every robot makes its step, the robot at place `i` toward
/// `destinations[i]`, in the order of their places.
pub fn apply_moves(map: &mut World, destinations: &Vec<Coord>)
    requires
        old(map).well_formed(),
        old(map)@.within_limits(),
        destinations@.len() == old(map)@.robots.len(),
        forall|i: int|
            0 <= i < destinations@.len() ==> old(map)@.in_bounds(#[trigger] destinations@[i]),
    ensures
        final(map)@ == old(map)@.after_moves(destinations@, destinations@.len() as int),
        final(map).well_formed(),
        final(map)@.within_limits(),
        final(map)@.total_energy() == old(map)@.total_energy(),
        final(map)@.total_minerals() == old(map)@.total_minerals(),
{
    let count = destinations.len();
    let mut i: usize = 0;
    while i < count
        invariant
            i <= count,
            count == destinations@.len(),
            map.well_formed(),
            map@.within_limits(),
            map@.robots.len() == count,
            map@.width == old(map)@.width,
            map@.height == old(map)@.height,
            forall|j: int|
                0 <= j < destinations@.len() ==> old(map)@.in_bounds(#[trigger] destinations@[j]),
            map@ == old(map)@.after_moves(destinations@, i as int),
            map@.total_energy() == old(map)@.total_energy(),
            map@.total_minerals() == old(map)@.total_minerals(),
        decreases count - i,
    {
        let destination = destinations[i];
        assert(old(map)@.in_bounds(destinations@[i as int]));
        map.move_robot(i, destination);
        i += 1;
    }
}

/// One tick. Every robot picks its next cell, by draws from `rng`; every
/// robot makes its step; the station builds what robots it can pay for.
/// Says how many robots were built.
pub fn run_tick(map: &mut World, rng: &Mutex<StdRng>) -> (spawned: usize)
    requires
        old(map).well_formed(),
        old(map)@.within_limits(),
    ensures
        exists|destinations: Seq<Coord>| tick_outcome(old(map)@, destinations, final(map)@),
        final(map).well_formed(),
        final(map)@.within_limits(),
        final(map)@.total_energy() + spawned * ENERGY_PER_ROBOT == old(map)@.total_energy(),
        final(map)@.total_minerals() + spawned * MINERALS_PER_ROBOT == old(map)@.total_minerals(),
{
    let destinations = plan_moves(map, rng);
    apply_moves(map, &destinations);
    let spawned = map.spawn_robots(rng);
    proof {
        assert(tick_outcome(old(map)@, destinations@, map@));
    }
    spawned
}

} // verus!
