//! The books of the colony: how much energy and how many minerals the world
//! holds, what one step of a robot does to the world as a whole, and why
//! nothing is lost or made on the way.

use crate::map::{blocked, cell_of, obstacle_cell, ResourceView, WorldView, RICHEST_CELL};
use crate::robot::{
    empty_load, energy_on, harvested_at, minerals_on, robot_after, station_after, step_fits,
    RobotView,
};
use crate::shared::{Coord, ID_SPACE};
use crate::station::{
    distinct_ids, ids_of, newly_built, spawn_count, StationView, ENERGY_PER_ROBOT,
    MINERALS_PER_ROBOT,
};
use crate::tally::{
    lemma_total_below, lemma_total_bounded, lemma_total_concat, lemma_total_entry,
    lemma_total_split, lemma_total_update, lemma_total_zero, total,
};
use vstd::prelude::*;

verus! {

/// The energy of each resource.
pub open spec fn energies(resources: Seq<ResourceView>) -> Seq<nat> {
    resources.map_values(|resource: ResourceView| resource.energy)
}

/// The minerals of each resource.
pub open spec fn minerals(resources: Seq<ResourceView>) -> Seq<nat> {
    resources.map_values(|resource: ResourceView| resource.minerals)
}

/// The energy that each robot carries.
pub open spec fn carried_energy(robots: Seq<RobotView>) -> Seq<nat> {
    robots.map_values(|robot: RobotView| robot.storage.energy)
}

/// The minerals that each robot carries.
pub open spec fn carried_minerals(robots: Seq<RobotView>) -> Seq<nat> {
    robots.map_values(|robot: RobotView| robot.storage.minerals)
}

impl WorldView {
    /// All the energy there is: in the cells, on the robots and at the
    /// station.
    pub open spec fn total_energy(self) -> nat {
        total(energies(self.resources)) + total(carried_energy(self.robots))
            + self.station.stored_energy
    }

    /// All the minerals there are: in the cells, on the robots and at the
    /// station.
    pub open spec fn total_minerals(self) -> nat {
        total(minerals(self.resources)) + total(carried_minerals(self.robots))
            + self.station.stored_minerals
    }

    /// Whether the world can run on for ever without a counter ever
    /// overflowing or the ids ever running out: whatever the robots do, no
    /// counter can come to hold more than all there is, and no more robots
    /// can be built than the energy there is pays for.
    pub open spec fn within_limits(self) -> bool {
        &&& self.total_energy() <= u32::MAX
        &&& self.total_minerals() <= u32::MAX
        &&& self.robots.len() + self.total_energy() / (ENERGY_PER_ROBOT as nat) <= ID_SPACE
    }

    /// The world after the robot at place `index` has made one step toward
    /// `destination`.
    pub open spec fn after_move(self, index: int, destination: Coord) -> WorldView {
        let robot = self.robots[index];
        WorldView {
            robots: self.robots.update(
                index,
                robot_after(
                    robot,
                    self.resources,
                    self.obstacles,
                    self.station.position,
                    destination,
                ),
            ),
            resources: harvested_at(self.resources, robot.position, robot.modules),
            station: station_after(self.station, robot, self.resources, destination),
            ..self
        }
    }

    /// The world after each of the first `count` robots has made one step,
    /// the robot at place `i` toward `destinations[i]`, in the order of
    /// their places.
    pub open spec fn after_moves(self, destinations: Seq<Coord>, count: int) -> WorldView
        decreases count,
    {
        if count <= 0 {
            self
        } else {
            self.after_moves(destinations, count - 1).after_move(
                count - 1,
                destinations[count - 1],
            )
        }
    }

    /// Whether this world is what the station's building of robots makes
    /// of `before`: the station has paid for as many robots as it could,
    /// they stand at the end of the list, at the station and with empty
    /// hands, under ids that were not in use and that differ, and nothing
    /// else has changed.
    pub open spec fn spawned_from(self, before: WorldView) -> bool {
        let count = spawn_count(before.station);
        &&& self.width == before.width
        &&& self.height == before.height
        &&& self.resources == before.resources
        &&& self.obstacles == before.obstacles
        &&& count * ENERGY_PER_ROBOT <= before.station.stored_energy
        &&& count * MINERALS_PER_ROBOT <= before.station.stored_minerals
        &&& self.station == (StationView {
            stored_energy: (before.station.stored_energy - count * ENERGY_PER_ROBOT) as nat,
            stored_minerals: (before.station.stored_minerals - count * MINERALS_PER_ROBOT) as nat,
            ..before.station
        })
        &&& self.robots.len() == before.robots.len() + count
        &&& self.robots.take(before.robots.len() as int) == before.robots
        &&& forall|i: int|
            before.robots.len() <= i < self.robots.len() ==> {
                &&& newly_built(#[trigger] self.robots[i], before.station.position)
                &&& !before.ids.contains(self.robots[i].id)
            }
        &&& distinct_ids(self.robots)
        &&& self.ids == ids_of(self.robots)
        &&& self.ids.finite()
        &&& self.ids.len() == self.robots.len()
    }
}

/// A world in which no cell holds more than a new cell may, no robot
/// carries anything and the station is empty, holds no more than the
/// richest cell times the number of its cells. It is within its limits
/// where that fits the counters and the ids.
pub proof fn lemma_fresh_world(world: WorldView)
    requires
        forall|i: int|
            0 <= i < world.resources.len() ==> (#[trigger] world.resources[i]).energy
                <= RICHEST_CELL && world.resources[i].minerals <= RICHEST_CELL,
        forall|i: int|
            0 <= i < world.robots.len() ==> (#[trigger] world.robots[i]).storage == empty_load(),
        world.station.stored_energy == 0,
        world.station.stored_minerals == 0,
    ensures
        world.total_energy() <= RICHEST_CELL * world.resources.len(),
        world.total_minerals() <= RICHEST_CELL * world.resources.len(),
        RICHEST_CELL * world.resources.len() <= u32::MAX && world.robots.len() + (RICHEST_CELL
            * world.resources.len()) / (ENERGY_PER_ROBOT as int) <= ID_SPACE
            ==> world.within_limits(),
{
    lemma_total_bounded(energies(world.resources), RICHEST_CELL as nat);
    lemma_total_bounded(minerals(world.resources), RICHEST_CELL as nat);
    lemma_total_zero(carried_energy(world.robots));
    lemma_total_zero(carried_minerals(world.robots));
}

/// One step of a robot neither makes nor loses energy or minerals: what
/// leaves a cell is on the robot, or at the station, afterwards.
pub proof fn lemma_move_conserves(world: WorldView, index: int, destination: Coord)
    requires
        0 <= index < world.robots.len(),
    ensures
        world.after_move(index, destination).total_energy() == world.total_energy(),
        world.after_move(index, destination).total_minerals() == world.total_minerals(),
{
    let after = world.after_move(index, destination);
    let robot = world.robots[index];
    let cell = robot.position;
    let moved = after.robots[index];

    assert(carried_energy(after.robots) =~= carried_energy(world.robots).update(
        index,
        moved.storage.energy,
    ));
    assert(carried_minerals(after.robots) =~= carried_minerals(world.robots).update(
        index,
        moved.storage.minerals,
    ));
    lemma_total_update(carried_energy(world.robots), index, moved.storage.energy);
    lemma_total_update(carried_minerals(world.robots), index, moved.storage.minerals);

    if robot.modules.energy_collector {
        lemma_total_split(
            energies(world.resources),
            energies(after.resources),
            energy_on(world.resources, cell),
        );
    } else {
        assert(energies(after.resources) =~= energies(world.resources));
    }
    if robot.modules.miner {
        lemma_total_split(
            minerals(world.resources),
            minerals(after.resources),
            minerals_on(world.resources, cell),
        );
    } else {
        assert(minerals(after.resources) =~= minerals(world.resources));
    }
}

/// In a world within its limits every step of a robot fits the counters.
pub proof fn lemma_move_fits(world: WorldView, index: int, destination: Coord)
    requires
        0 <= index < world.robots.len(),
        world.total_energy() <= u32::MAX,
        world.total_minerals() <= u32::MAX,
    ensures
        step_fits(world.robots[index], world.resources, world.station, destination),
{
    let robot = world.robots[index];
    lemma_total_below(energy_on(world.resources, robot.position), energies(world.resources));
    lemma_total_below(minerals_on(world.resources, robot.position), minerals(world.resources));
    lemma_total_entry(carried_energy(world.robots), index);
    lemma_total_entry(carried_minerals(world.robots), index);
}

/// A step of a robot toward a cell of the grid leaves the world well
/// formed: the robot stays on the grid and off the obstacles, and keeps its
/// id.
pub proof fn lemma_move_keeps_form(world: WorldView, index: int, destination: Coord)
    requires
        world.well_formed(),
        0 <= index < world.robots.len(),
        world.in_bounds(destination),
    ensures
        world.after_move(index, destination).well_formed(),
{
    let after = world.after_move(index, destination);
    assert forall|i: int| 0 <= i < after.robots.len() implies (#[trigger] after.robots[i]).id
        == world.robots[i].id by {}
    assert(after.ids =~= ids_of(after.robots)) by {
        assert forall|id: u32| ids_of(world.robots).contains(id) == ids_of(after.robots).contains(
            id,
        ) by {
            if ids_of(world.robots).contains(id) {
                let k = choose|k: int|
                    0 <= k < world.robots.len() && (#[trigger] world.robots[k]).id == id;
                assert(after.robots[k].id == id);
            }
            if ids_of(after.robots).contains(id) {
                let k = choose|k: int|
                    0 <= k < after.robots.len() && (#[trigger] after.robots[k]).id == id;
                assert(world.robots[k].id == id);
            }
        }
    }
    assert forall|i: int| 0 <= i < after.robots.len() implies {
        let cell = (#[trigger] after.robots[i]).position;
        after.in_bounds(cell) && !blocked(after.obstacles, cell)
    } by {
        if i != index {
            assert(after.robots[i] == world.robots[i]);
        }
    }
    assert forall|i: int| 0 <= i < after.resources.len() implies (
    #[trigger] after.resources[i]).position == cell_of(i, after.height as int) by {
        assert(world.resources[i].position == cell_of(i, world.height as int));
    }
}

/// A world within its limits stays within them through any step of a
/// robot.
pub proof fn lemma_move_keeps_limits(world: WorldView, index: int, destination: Coord)
    requires
        world.within_limits(),
        0 <= index < world.robots.len(),
    ensures
        world.after_move(index, destination).within_limits(),
{
    lemma_move_conserves(world, index, destination);
}

/// What no step of a robot ever changes, and what it changes one way only:
/// the grid and its obstacles stay, every robot keeps its id and its
/// modules, every resource keeps its cell and its flag and holds no more
/// than before, and the station holds no less.
pub open spec fn settled_from(after: WorldView, before: WorldView) -> bool {
    &&& after.width == before.width
    &&& after.height == before.height
    &&& after.obstacles == before.obstacles
    &&& after.ids == before.ids
    &&& after.station.position == before.station.position
    &&& after.station.stored_energy >= before.station.stored_energy
    &&& after.station.stored_minerals >= before.station.stored_minerals
    &&& before.station.discovered.subset_of(after.station.discovered)
    &&& after.robots.len() == before.robots.len()
    &&& forall|i: int|
        0 <= i < before.robots.len() ==> {
            &&& (#[trigger] after.robots[i]).id == before.robots[i].id
            &&& after.robots[i].modules == before.robots[i].modules
        }
    &&& after.resources.len() == before.resources.len()
    &&& forall|i: int|
        0 <= i < before.resources.len() ==> {
            &&& (#[trigger] after.resources[i]).position == before.resources[i].position
            &&& after.resources[i].scientific_interest == before.resources[i].scientific_interest
            &&& after.resources[i].energy <= before.resources[i].energy
            &&& after.resources[i].minerals <= before.resources[i].minerals
        }
}

/// A step of a robot settles the world in the sense of [`settled_from`].
pub proof fn lemma_move_settles(world: WorldView, index: int, destination: Coord)
    requires
        0 <= index < world.robots.len(),
    ensures
        settled_from(world.after_move(index, destination), world),
{
}

/// The steps of the first `count` robots conserve energy and minerals, keep
/// a well-formed world well formed and within its limits, and settle it in
/// the sense of [`settled_from`]. Before its own step each robot is as it
/// was at the start.
pub proof fn lemma_moves(world: WorldView, destinations: Seq<Coord>, count: int)
    requires
        world.well_formed(),
        0 <= count <= world.robots.len(),
        count <= destinations.len(),
        forall|i: int| 0 <= i < count ==> world.in_bounds(#[trigger] destinations[i]),
    ensures
        world.after_moves(destinations, count).well_formed(),
        world.after_moves(destinations, count).total_energy() == world.total_energy(),
        world.after_moves(destinations, count).total_minerals() == world.total_minerals(),
        world.within_limits() ==> world.after_moves(destinations, count).within_limits(),
        settled_from(world.after_moves(destinations, count), world),
        forall|i: int|
            count <= i < world.robots.len() ==> world.after_moves(destinations, count).robots[i]
                == world.robots[i],
    decreases count,
{
    if count > 0 {
        let earlier = world.after_moves(destinations, count - 1);
        lemma_moves(world, destinations, count - 1);
        assert(world.in_bounds(destinations[count - 1]));
        lemma_move_conserves(earlier, count - 1, destinations[count - 1]);
        lemma_move_keeps_form(earlier, count - 1, destinations[count - 1]);
        lemma_move_settles(earlier, count - 1, destinations[count - 1]);
    }
}

/// The ids of two lists of robots laid end to end are the ids of both, and
/// they all differ where they differ within each list and the ids of the
/// second list are new.
pub proof fn lemma_joined_ids(robots: Seq<RobotView>, batch: Seq<RobotView>, used: Set<u32>)
    requires
        used == ids_of(robots),
        distinct_ids(robots),
        distinct_ids(batch),
        forall|i: int| 0 <= i < batch.len() ==> !used.contains((#[trigger] batch[i]).id),
    ensures
        ids_of(robots + batch) == used.union(ids_of(batch)),
        distinct_ids(robots + batch),
{
    let all = robots + batch;
    assert(ids_of(all) =~= used.union(ids_of(batch))) by {
        assert forall|id: u32| ids_of(all).contains(id) == used.union(ids_of(batch)).contains(
            id,
        ) by {
            if ids_of(all).contains(id) {
                let k = choose|k: int| 0 <= k < all.len() && (#[trigger] all[k]).id == id;
                if k < robots.len() {
                    assert(robots[k].id == id);
                } else {
                    assert(batch[k - robots.len()].id == id);
                }
            }
            if ids_of(robots).contains(id) {
                let k = choose|k: int| 0 <= k < robots.len() && (#[trigger] robots[k]).id == id;
                assert(all[k].id == id);
            }
            if ids_of(batch).contains(id) {
                let k = choose|k: int| 0 <= k < batch.len() && (#[trigger] batch[k]).id == id;
                assert(all[robots.len() + k].id == id);
            }
        }
    }
    assert forall|i: int, j: int| 0 <= i < j < all.len() implies (#[trigger] all[i]).id != (
    #[trigger] all[j]).id by {
        if j < robots.len() {
            assert(robots[i].id != robots[j].id);
        } else if i >= robots.len() {
            assert(batch[i - robots.len()].id != batch[j - robots.len()].id);
        } else {
            assert(ids_of(robots).contains(robots[i].id));
            assert(!used.contains(batch[j - robots.len()].id));
        }
    }
}

/// Building robots at the station takes the price of each from all there
/// is, and nothing more; a well-formed world within its limits stays so.
pub proof fn lemma_spawn_accounts(before: WorldView, after: WorldView)
    requires
        before.well_formed(),
        before.within_limits(),
        after.spawned_from(before),
    ensures
        after.well_formed(),
        after.within_limits(),
        after.total_energy() + spawn_count(before.station) * ENERGY_PER_ROBOT
            == before.total_energy(),
        after.total_minerals() + spawn_count(before.station) * MINERALS_PER_ROBOT
            == before.total_minerals(),
{
    let count = spawn_count(before.station);
    let old_len = before.robots.len() as int;
    let batch = after.robots.skip(old_len);
    assert(after.robots =~= before.robots + batch) by {
        assert(after.robots.take(old_len) == before.robots);
    }
    assert(carried_energy(after.robots) =~= carried_energy(before.robots) + carried_energy(
        batch,
    ));
    assert(carried_minerals(after.robots) =~= carried_minerals(before.robots)
        + carried_minerals(batch));
    assert forall|i: int| 0 <= i < batch.len() implies carried_energy(batch)[i] == 0
        && carried_minerals(batch)[i] == 0 by {
        assert(newly_built(after.robots[old_len + i], before.station.position));
    }
    lemma_total_zero(carried_energy(batch));
    lemma_total_zero(carried_minerals(batch));
    lemma_total_concat(carried_energy(before.robots), carried_energy(batch));
    lemma_total_concat(carried_minerals(before.robots), carried_minerals(batch));

    assert forall|i: int| 0 <= i < after.robots.len() implies {
        let cell = (#[trigger] after.robots[i]).position;
        after.in_bounds(cell) && !blocked(after.obstacles, cell)
    } by {
        if i < old_len {
            assert(after.robots[i] == before.robots[i]);
        } else {
            assert(newly_built(after.robots[i], before.station.position));
            assert(after.robots[i].position == (0u32, 0u32));
            if blocked(after.obstacles, (0u32, 0u32)) {
                let k = choose|k: int|
                    0 <= k < after.obstacles.len() && obstacle_cell(#[trigger] after.obstacles[k])
                        == (0u32, 0u32);
                assert(obstacle_cell(before.obstacles[k]).0 != 0);
            }
        }
    }
}

} // verus!
