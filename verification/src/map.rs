//! The world: its cells, its obstacles, and what stands on them.

use crate::discovered::{DiscoveredCoord, DiscoveredSet};
use crate::ledger::{
    carried_energy, carried_minerals, energies, lemma_fresh_world, lemma_joined_ids,
    lemma_move_conserves, lemma_move_fits, lemma_move_keeps_form, lemma_move_keeps_limits,
    lemma_spawn_accounts, minerals as minerals_of,
};
use crate::movement::{
    all_directions, choices, directions, inviting, is_candidate, step, Direction,
};
use crate::random::{random_in_range, random_index, random_ratio};
use crate::robot::{empty_load, robot_views, Modules, ModulesView, Robot, RobotView};
use crate::shared::{generate_unique_ids, Coord, ID_SPACE};
use crate::station::{
    distinct_ids, ids_of, single_module, spawn_count, Station, StationView, ENERGY_PER_ROBOT,
    MINERALS_PER_ROBOT,
};
use crate::tally::{lemma_total_prefix, lemma_total_push, total};
use crate::terrain::{classify_noise, obstacles_from};
use parking_lot::Mutex;
use rand::rngs::StdRng;
use std::collections::HashSet;
use vstd::arithmetic::div_mod::lemma_fundamental_div_mod_converse;
use vstd::prelude::*;
use vstd::std_specs::hash::spec_hash_keys_iter;
use vstd::std_specs::iter::IteratorSpec;

verus! {

/// What blocks a cell. Both kinds block alike: no robot ever enters a cell
/// that holds either.
#[derive(Clone, Copy, Debug, PartialEq, Eq)]
pub enum ObstacleType {
    Rock,
    Pit,
}

/// An obstacle, `(x, y, kind)`.
pub type Obstacle = (u32, u32, ObstacleType);

/// The cell that an obstacle stands on.
pub open spec fn obstacle_cell(obstacle: Obstacle) -> Coord {
    (obstacle.0, obstacle.1)
}

/// Whether an obstacle stands on `cell`.
pub open spec fn blocked(obstacles: Seq<Obstacle>, cell: Coord) -> bool {
    exists|i: int| 0 <= i < obstacles.len() && obstacle_cell(#[trigger] obstacles[i]) == cell
}

/// Whether an obstacle stands on the cell `(x, y)`.
pub fn is_blocked(obstacles: &Vec<Obstacle>, x: u32, y: u32) -> (found: bool)
    ensures
        found == blocked(obstacles@, (x, y)),
{
    let mut i: usize = 0;
    while i < obstacles.len()
        invariant
            i <= obstacles@.len(),
            forall|j: int| 0 <= j < i ==> obstacle_cell(#[trigger] obstacles@[j]) != (x, y),
        decreases obstacles@.len() - i,
    {
        let obstacle = &obstacles[i];
        if obstacle.0 == x && obstacle.1 == y {
            assert(obstacle_cell(obstacles@[i as int]) == (x, y));
            return true;
        }
        i += 1;
    }
    false
}

/// What one cell of the grid holds.
#[derive(Debug)]
pub struct Resource {
    position: Coord,
    energy: u32,
    minerals: u32,
    scientific_interest: bool,
}

/// A resource as a value: where it lies and what is left of it.
pub struct ResourceView {
    pub position: Coord,
    pub energy: nat,
    pub minerals: nat,
    pub scientific_interest: bool,
}

impl View for Resource {
    type V = ResourceView;

    closed spec fn view(&self) -> ResourceView {
        ResourceView {
            position: self.position,
            energy: self.energy as nat,
            minerals: self.minerals as nat,
            scientific_interest: self.scientific_interest,
        }
    }
}

/// The resources of a list, each as a value.
pub open spec fn resource_views(resources: Seq<Resource>) -> Seq<ResourceView> {
    resources.map_values(|resource: Resource| resource@)
}

impl Resource {
    /// The resource of the cell `position`.
    pub fn new(position: Coord, energy: u32, minerals: u32, scientific_interest: bool) -> (resource:
        Resource)
        ensures
            resource@ == (ResourceView {
                position,
                energy: energy as nat,
                minerals: minerals as nat,
                scientific_interest,
            }),
    {
        Resource { position, energy, minerals, scientific_interest }
    }

    /// Quantities are machine integers: neither exceeds `u32::MAX`.
    pub proof fn lemma_bounded(&self)
        ensures
            self@.energy <= u32::MAX,
            self@.minerals <= u32::MAX,
    {
    }

    pub fn get_position(&self) -> (position: &Coord)
        ensures
            *position == self@.position,
    {
        &self.position
    }

    pub fn get_energy(&self) -> (energy: &u32)
        ensures
            *energy == self@.energy,
    {
        &self.energy
    }

    pub fn set_energy(&mut self, energy: u32)
        ensures
            final(self)@ == (ResourceView { energy: energy as nat, ..old(self)@ }),
    {
        self.energy = energy;
    }

    pub fn get_minerals(&self) -> (minerals: &u32)
        ensures
            *minerals == self@.minerals,
    {
        &self.minerals
    }

    pub fn set_minerals(&mut self, minerals: u32)
        ensures
            final(self)@ == (ResourceView { minerals: minerals as nat, ..old(self)@ }),
    {
        self.minerals = minerals;
    }

    pub fn get_scientific_interest(&self) -> (interest: &bool)
        ensures
            *interest == self@.scientific_interest,
    {
        &self.scientific_interest
    }
}

/// How many robots a new world starts with.
pub const INITIAL_ROBOTS_COUNT: usize = 3;

/// The most energy, and the most minerals, that a cell starts with.
pub const RICHEST_CELL: u32 = 100;

/// Of ten cells, how many are of scientific interest on average.
pub const INTEREST_IN_TEN: u32 = 1;

/// The world: a grid of `width` by `height` cells whose opposite edges are
/// joined, with a resource on every cell, obstacles on some, the station at
/// the origin, and the robots.
pub struct World {
    width: u32,
    height: u32,
    robots: Vec<Robot>,
    resources: Vec<Resource>,
    obstacles: Vec<Obstacle>,
    station: Station,
    ids: HashSet<u32>,
}

/// The world as a value.
pub struct WorldView {
    pub width: u32,
    pub height: u32,
    pub robots: Seq<RobotView>,
    pub resources: Seq<ResourceView>,
    pub obstacles: Seq<Obstacle>,
    pub station: StationView,
    /// The ids that have been given out.
    pub ids: Set<u32>,
}

impl View for World {
    type V = WorldView;

    closed spec fn view(&self) -> WorldView {
        WorldView {
            width: self.width,
            height: self.height,
            robots: robot_views(self.robots@),
            resources: resource_views(self.resources@),
            obstacles: self.obstacles@,
            station: self.station@,
            ids: self.ids@,
        }
    }
}

/// The cell that the resource at place `index` of the list belongs to:
/// the list goes through the grid column by column.
pub open spec fn cell_of(index: int, height: int) -> Coord {
    ((index / height) as u32, (index % height) as u32)
}

impl WorldView {
    /// Whether `cell` lies on the grid.
    pub open spec fn in_bounds(self, cell: Coord) -> bool {
        cell.0 < self.width && cell.1 < self.height
    }

    /// What holds of every world, from its generation on.
    pub open spec fn well_formed(self) -> bool {
        &&& self.width >= 1
        &&& self.height >= 1
        &&& self.resources.len() == self.width * self.height
        &&& forall|i: int|
            0 <= i < self.resources.len() ==> (#[trigger] self.resources[i]).position == cell_of(
                i,
                self.height as int,
            )
        &&& forall|i: int|
            0 <= i < self.obstacles.len() ==> {
                let cell = obstacle_cell(#[trigger] self.obstacles[i]);
                self.in_bounds(cell) && cell.0 != 0 && cell.1 != 0
            }
        &&& forall|i: int, j: int|
            0 <= i < j < self.obstacles.len() ==> obstacle_cell(#[trigger] self.obstacles[i])
                != obstacle_cell(#[trigger] self.obstacles[j])
        &&& self.station.position == (0u32, 0u32)
        &&& forall|i: int|
            0 <= i < self.robots.len() ==> {
                let cell = (#[trigger] self.robots[i]).position;
                self.in_bounds(cell) && !blocked(self.obstacles, cell)
            }
        &&& distinct_ids(self.robots)
        &&& self.ids.finite()
        &&& self.ids == ids_of(self.robots)
        &&& self.ids.len() == self.robots.len()
    }
}

impl World {
    /// What holds of every world, from its generation on.
    pub open spec fn well_formed(&self) -> bool {
        self@.well_formed()
    }

    pub fn get_width(&self) -> (width: &u32)
        ensures
            *width == self@.width,
    {
        &self.width
    }

    pub fn get_height(&self) -> (height: &u32)
        ensures
            *height == self@.height,
    {
        &self.height
    }

    pub fn get_robots(&self) -> (robots: &Vec<Robot>)
        ensures
            robot_views(robots@) == self@.robots,
    {
        &self.robots
    }

    pub fn get_resources(&self) -> (resources: &Vec<Resource>)
        ensures
            resource_views(resources@) == self@.resources,
    {
        &self.resources
    }

    pub fn get_obstacles(&self) -> (obstacles: &Vec<Obstacle>)
        ensures
            obstacles@ == self@.obstacles,
    {
        &self.obstacles
    }

    pub fn get_station(&self) -> (station: &Station)
        ensures
            station@ == self@.station,
    {
        &self.station
    }

    /// One step of the robot at place `index` toward `destination`: the
    /// robot harvests its cell, unloads if the destination is the station,
    /// and moves unless an obstacle holds the destination.
    pub fn move_robot(&mut self, index: usize, destination: Coord)
        requires
            old(self).well_formed(),
            old(self)@.within_limits(),
            index < old(self)@.robots.len(),
            old(self)@.in_bounds(destination),
        ensures
            final(self)@ == old(self)@.after_move(index as int, destination),
            final(self).well_formed(),
            final(self)@.within_limits(),
            final(self)@.total_energy() == old(self)@.total_energy(),
            final(self)@.total_minerals() == old(self)@.total_minerals(),
    {
        let ghost before = self@;
        let ghost robots_before = self.robots@;
        proof {
            lemma_move_fits(before, index as int, destination);
            lemma_move_conserves(before, index as int, destination);
            lemma_move_keeps_form(before, index as int, destination);
            lemma_move_keeps_limits(before, index as int, destination);
            assert(before.robots[index as int] == self.robots@[index as int]@);
        }
        self.robots[index].move_and_collect(
            &mut self.resources,
            &self.obstacles,
            &mut self.station,
            destination.0,
            destination.1,
        );
        proof {
            assert(self.robots@ =~= robots_before.update(index as int, self.robots@[index as int]));
            assert(robot_views(self.robots@) =~= before.robots.update(
                index as int,
                self.robots@[index as int]@,
            ));
        }
    }

    /// Lets the station build what robots it can pay for, and adds them to
    /// the world. Says how many were built.
    pub fn spawn_robots(&mut self, rng: &Mutex<StdRng>) -> (spawned: usize)
        requires
            old(self).well_formed(),
            old(self)@.within_limits(),
        ensures
            final(self)@.spawned_from(old(self)@),
            spawned == spawn_count(old(self)@.station),
            final(self).well_formed(),
            final(self)@.within_limits(),
            final(self)@.total_energy() + spawned * ENERGY_PER_ROBOT == old(self)@.total_energy(),
            final(self)@.total_minerals() + spawned * MINERALS_PER_ROBOT == old(
                self,
            )@.total_minerals(),
    {
        let ghost before = self@;
        proof {
            self.station.lemma_bounded();
        }
        let spawned = match self.station.create_robots_if_able(rng, &mut self.ids) {
            Some(new_robots) => {
                let mut new_robots = new_robots;
                let count = new_robots.len();
                let ghost batch = robot_views(new_robots@);
                self.robots.append(&mut new_robots);
                proof {
                    assert(robot_views(self.robots@) =~= before.robots + batch);
                    assert((before.robots + batch).take(before.robots.len() as int)
                        =~= before.robots);
                    lemma_joined_ids(before.robots, batch, before.ids);
                }
                count
            },
            None => {
                proof {
                    assert(self@.robots.take(before.robots.len() as int) =~= before.robots);
                }
                0
            },
        };
        proof {
            lemma_spawn_accounts(before, self@);
        }
        spawned
    }

    /// Whether the world is within its limits: see
    /// [`WorldView::within_limits`].
    pub fn is_within_limits(&self) -> (ok: bool)
        ensures
            ok == self@.within_limits(),
    {
        let ghost view = self@;
        let ceiling: u64 = 0xFFFF_FFFF;
        let mut energy: u64 = 0;
        let mut minerals: u64 = 0;

        let mut i: usize = 0;
        proof {
            assert(energies(view.resources).take(0) =~= Seq::<nat>::empty());
            assert(minerals_of(view.resources).take(0) =~= Seq::<nat>::empty());
        }
        while i < self.resources.len()
            invariant
                view == self@,
                ceiling == u32::MAX,
                i <= self.resources@.len(),
                energy == total(energies(view.resources).take(i as int)),
                minerals == total(minerals_of(view.resources).take(i as int)),
                energy <= ceiling,
                minerals <= ceiling,
            decreases self.resources@.len() - i,
        {
            proof {
                let e = energies(view.resources);
                let m = minerals_of(view.resources);
                assert(e.take(i as int + 1) =~= e.take(i as int).push(e[i as int]));
                assert(m.take(i as int + 1) =~= m.take(i as int).push(m[i as int]));
                lemma_total_push(e.take(i as int), e[i as int]);
                lemma_total_push(m.take(i as int), m[i as int]);
                lemma_total_prefix(e, i as int + 1);
                lemma_total_prefix(m, i as int + 1);
            }
            energy = energy + *self.resources[i].get_energy() as u64;
            minerals = minerals + *self.resources[i].get_minerals() as u64;
            if energy > ceiling || minerals > ceiling {
                return false;
            }
            i += 1;
        }
        let ghost cell_energy = energy;
        let ghost cell_minerals = minerals;
        proof {
            assert(energies(view.resources).take(i as int) =~= energies(view.resources));
            assert(minerals_of(view.resources).take(i as int) =~= minerals_of(view.resources));
            assert(carried_energy(view.robots).take(0) =~= Seq::<nat>::empty());
            assert(carried_minerals(view.robots).take(0) =~= Seq::<nat>::empty());
        }

        let mut j: usize = 0;
        while j < self.robots.len()
            invariant
                view == self@,
                ceiling == u32::MAX,
                j <= self.robots@.len(),
                cell_energy == total(energies(view.resources)),
                cell_minerals == total(minerals_of(view.resources)),
                energy == cell_energy + total(carried_energy(view.robots).take(j as int)),
                minerals == cell_minerals + total(carried_minerals(view.robots).take(j as int)),
                energy <= ceiling,
                minerals <= ceiling,
            decreases self.robots@.len() - j,
        {
            proof {
                let e = carried_energy(view.robots);
                let m = carried_minerals(view.robots);
                assert(e.take(j as int + 1) =~= e.take(j as int).push(e[j as int]));
                assert(m.take(j as int + 1) =~= m.take(j as int).push(m[j as int]));
                lemma_total_push(e.take(j as int), e[j as int]);
                lemma_total_push(m.take(j as int), m[j as int]);
                lemma_total_prefix(e, j as int + 1);
                lemma_total_prefix(m, j as int + 1);
            }
            let storage = self.robots[j].get_storage();
            energy = energy + storage.get_energy() as u64;
            minerals = minerals + storage.get_minerals() as u64;
            if energy > ceiling || minerals > ceiling {
                return false;
            }
            j += 1;
        }
        proof {
            assert(carried_energy(view.robots).take(j as int) =~= carried_energy(view.robots));
            assert(carried_minerals(view.robots).take(j as int) =~= carried_minerals(
                view.robots,
            ));
        }
        energy = energy + self.station.get_stored_energy() as u64;
        minerals = minerals + self.station.get_stored_minerals() as u64;
        if energy > ceiling || minerals > ceiling {
            return false;
        }
        let affordable: u64 = energy / (ENERGY_PER_ROBOT as u64);
        self.robots.len() as u64 <= ID_SPACE - affordable
    }

    /// The cell that the step `direction` leads to from `(x, y)`.
    pub fn step_from(&self, x: u32, y: u32, direction: Direction) -> (cell: Coord)
        requires
            self@.width >= 1,
            self@.height >= 1,
        ensures
            cell == step((x, y), direction, self@.width, self@.height),
            self@.in_bounds(cell),
    {
        (crate::shared::add(x, direction.0, self.width), crate::shared::add(y, direction.1, self.height))
    }

    /// The steps that a robot on `(current_x, current_y)` chooses among: each
    /// step that leads to a cell which is neither in `discovered_coords` nor
    /// held by one of `obstacles`, or all four steps where there is no such
    /// step.
    pub fn candidate_directions(
        &self,
        current_x: u32,
        current_y: u32,
        discovered_coords: &DiscoveredSet,
        obstacles: &Vec<Obstacle>,
    ) -> (among: Vec<Direction>)
        requires
            self@.width >= 1,
            self@.height >= 1,
        ensures
            among@ == choices(
                (current_x, current_y),
                discovered_coords@,
                obstacles@,
                self@.width,
                self@.height,
            ),
            among@.len() > 0,
    {
        let four = all_directions();
        let mut valid_directions: Vec<Direction> = Vec::new();
        let ghost cell = (current_x, current_y);
        let ghost wanted = |direction: Direction|
            inviting(
                discovered_coords@,
                obstacles@,
                step(cell, direction, self@.width, self@.height),
            );
        proof {
            reveal(Seq::filter);
            assert(four@.take(0).filter(wanted) =~= Seq::<Direction>::empty());
        }
        let mut i: usize = 0;
        while i < four.len()
            invariant
                i <= four@.len(),
                four@ == directions(),
                self@.width >= 1,
                self@.height >= 1,
                cell == (current_x, current_y),
                wanted == |direction: Direction|
                    inviting(
                        discovered_coords@,
                        obstacles@,
                        step(cell, direction, self@.width, self@.height),
                    ),
                valid_directions@ == four@.take(i as int).filter(wanted),
            decreases four@.len() - i,
        {
            let direction = four[i];
            let next = self.step_from(current_x, current_y, direction);
            proof {
                reveal(Seq::filter);
                assert(four@.take(i as int + 1).drop_last() =~= four@.take(i as int));
            }
            if !discovered_coords.covers(next.0, next.1) && !is_blocked(obstacles, next.0, next.1) {
                valid_directions.push(direction);
            }
            i += 1;
        }
        proof {
            assert(four@.take(four@.len() as int) =~= four@);
        }
        if valid_directions.len() == 0 {
            four
        } else {
            valid_directions
        }
    }

    /// The next cell for a robot on `(current_x, current_y)`: the cell that
    /// one of its candidate steps leads to, the step drawn from `rng`.
    pub fn get_next_coords(
        &self,
        current_x: u32,
        current_y: u32,
        discovered_coords: &DiscoveredSet,
        obstacles: &Vec<Obstacle>,
        rng: &Mutex<StdRng>,
    ) -> (next: Coord)
        requires
            self@.width >= 1,
            self@.height >= 1,
        ensures
            is_candidate(
                next,
                (current_x, current_y),
                discovered_coords@,
                obstacles@,
                self@.width,
                self@.height,
            ),
            self@.in_bounds(next),
    {
        let directions_to_choose_from = self.candidate_directions(
            current_x,
            current_y,
            discovered_coords,
            obstacles,
        );
        let index = random_index(rng, directions_to_choose_from.len());
        let direction = directions_to_choose_from[index];
        self.step_from(current_x, current_y, direction)
    }
}

/// The equipment of the robot at place `index` of the first population:
/// miner, energy collector and scientific analyzer in turn.
pub open spec fn initial_modules(index: int) -> ModulesView {
    single_module((index % 3) as u32)
}

/// The place of `cell` in the list of resources.
spec fn place_of(cell: Coord, height: int) -> int {
    cell.0 * height + cell.1
}

/// A new world of `width` by `height` cells. Every cell gets a resource
/// with energy and minerals drawn from `rng`, each up to `RICHEST_CELL`, and
/// is of scientific interest in `INTEREST_IN_TEN` of ten draws. The
/// obstacles are those that `noise` makes: it holds one sample for each
/// cell, column by column. The station stands empty at the origin, and so
/// do the first robots, under ids that differ.
pub fn generate_map(width: u32, height: u32, noise: &Vec<u64>, rng: &Mutex<StdRng>) -> (map: World)
    requires
        width >= 1,
        height >= 1,
        noise@.len() == width * height,
    ensures
        map.well_formed(),
        map@.width == width,
        map@.height == height,
        map@.obstacles == obstacles_from(noise@, height as int),
        forall|i: int|
            0 <= i < map@.resources.len() ==> (#[trigger] map@.resources[i]).energy <= RICHEST_CELL
                && map@.resources[i].minerals <= RICHEST_CELL,
        map@.robots.len() == INITIAL_ROBOTS_COUNT,
        forall|i: int|
            0 <= i < map@.robots.len() ==> {
                &&& (#[trigger] map@.robots[i]).position == (0u32, 0u32)
                &&& map@.robots[i].modules == initial_modules(i)
                &&& map@.robots[i].storage == empty_load()
            },
        map@.station == (StationView {
            position: (0u32, 0u32),
            stored_energy: 0,
            stored_minerals: 0,
            discovered: Set::<DiscoveredCoord>::empty(),
        }),
        width * height * RICHEST_CELL <= u32::MAX ==> map@.within_limits(),
{
    let mut resources: Vec<Resource> = Vec::new();
    let mut obstacles: Vec<Obstacle> = Vec::new();
    let mut robots: Vec<Robot> = Vec::new();
    let ghost tall = height as int;
    let cells = noise.len();

    let mut index: usize = 0;
    let mut x: u32 = 0;
    proof {
        assert(noise@.take(0) =~= Seq::<u64>::empty());
    }
    while x < width
        invariant
            x <= width,
            height >= 1,
            tall == height,
            noise@.len() == width * height,
            noise@.len() == cells,
            index == x * height,
            resources@.len() == index,
            forall|i: int|
                0 <= i < resources@.len() ==> {
                    &&& (#[trigger] resources@[i])@.position == cell_of(i, tall)
                    &&& resources@[i]@.energy <= RICHEST_CELL
                    &&& resources@[i]@.minerals <= RICHEST_CELL
                },
            obstacles@ == obstacles_from(noise@.take(index as int), tall),
            forall|i: int|
                0 <= i < obstacles@.len() ==> {
                    let cell = obstacle_cell(#[trigger] obstacles@[i]);
                    &&& cell.0 < width
                    &&& cell.1 < height
                    &&& cell.0 != 0
                    &&& cell.1 != 0
                    &&& place_of(cell, tall) < index
                },
            forall|i: int, j: int|
                0 <= i < j < obstacles@.len() ==> place_of(
                    obstacle_cell(#[trigger] obstacles@[i]),
                    tall,
                ) < place_of(obstacle_cell(#[trigger] obstacles@[j]), tall),
        decreases width - x,
    {
        let mut y: u32 = 0;
        while y < height
            invariant
                x < width,
                y <= height,
                height >= 1,
                tall == height,
                noise@.len() == width * height,
                noise@.len() == cells,
                index == x * height + y,
                resources@.len() == index,
                forall|i: int|
                    0 <= i < resources@.len() ==> {
                        &&& (#[trigger] resources@[i])@.position == cell_of(i, tall)
                        &&& resources@[i]@.energy <= RICHEST_CELL
                        &&& resources@[i]@.minerals <= RICHEST_CELL
                    },
                obstacles@ == obstacles_from(noise@.take(index as int), tall),
                forall|i: int|
                    0 <= i < obstacles@.len() ==> {
                        let cell = obstacle_cell(#[trigger] obstacles@[i]);
                        &&& cell.0 < width
                        &&& cell.1 < height
                        &&& cell.0 != 0
                        &&& cell.1 != 0
                        &&& place_of(cell, tall) < index
                    },
                forall|i: int, j: int|
                    0 <= i < j < obstacles@.len() ==> place_of(
                        obstacle_cell(#[trigger] obstacles@[i]),
                        tall,
                    ) < place_of(obstacle_cell(#[trigger] obstacles@[j]), tall),
            decreases height - y,
        {
            proof {
                assert(x * height + height <= width * height) by (nonlinear_arith)
                    requires
                        x < width,
                ;
                lemma_fundamental_div_mod_converse(index as int, tall, x as int, y as int);
                assert(cell_of(index as int, tall) == (x, y));
                assert(noise@.take(index as int + 1).drop_last() =~= noise@.take(index as int));
            }
            let energy = random_in_range(rng, 0, RICHEST_CELL);
            let minerals = random_in_range(rng, 0, RICHEST_CELL);
            let scientific_interest = random_ratio(rng, INTEREST_IN_TEN, 10);

            resources.push(Resource::new((x, y), energy, minerals, scientific_interest));

            let sample = noise[index];
            if x != 0 && y != 0 {
                match classify_noise(sample) {
                    Some(obstacle_type) => {
                        obstacles.push((x, y, obstacle_type));
                    },
                    None => {},
                }
            }
            index += 1;
            y += 1;
        }
        proof {
            assert(x * height + height == (x + 1) * height) by (nonlinear_arith);
        }
        x += 1;
    }
    proof {
        assert(noise@.take(index as int) =~= noise@);
    }

    let unique_ids = generate_unique_ids(rng, INITIAL_ROBOTS_COUNT);
    let ghost issued = spec_hash_keys_iter(&unique_ids).remaining();

    for id in order: unique_ids.iter()
        invariant
            order.seq() == issued,
            issued == spec_hash_keys_iter(&unique_ids).remaining(),
            robots@.len() == order.index(),
            forall|i: int|
                0 <= i < robots@.len() ==> (#[trigger] robots@[i])@ == (RobotView {
                    id: *issued[i],
                    position: (0u32, 0u32),
                    modules: initial_modules(i),
                    storage: empty_load(),
                }),
    {
        let i = robots.len();
        robots.push(
            Robot::new(
                *id,
                (0, 0),
                Modules::new(i == 0 || i % 3 == 0, i == 1 || i % 3 == 1, i == 2 || i % 3 == 2),
            ),
        );
    }

    let map = World {
        width,
        height,
        robots,
        resources,
        obstacles,
        station: Station::new(),
        ids: unique_ids,
    };
    proof {
        let view = map@;
        assert(issued.no_duplicates());
        assert(issued.unref().to_set() == view.ids);
        assert(view.robots.len() == issued.len());
        assert forall|i: int| 0 <= i < view.robots.len() implies (#[trigger] view.robots[i]).id
            == issued.unref()[i] by {
            assert(map.robots@[i]@.id == *issued[i]);
        }
        assert(distinct_ids(view.robots));
        assert(view.ids =~= ids_of(view.robots)) by {
            assert forall|id: u32| view.ids.contains(id) == ids_of(view.robots).contains(id) by {
                if view.ids.contains(id) {
                    let k = choose|k: int| 0 <= k < issued.unref().len() && issued.unref()[k] == id;
                    assert(view.robots[k].id == id);
                }
                if ids_of(view.robots).contains(id) {
                    let k = choose|k: int|
                        0 <= k < view.robots.len() && (#[trigger] view.robots[k]).id == id;
                    assert(issued.unref()[k] == id);
                }
            }
        }
        assert forall|i: int| 0 <= i < view.robots.len() implies {
            let cell = (#[trigger] view.robots[i]).position;
            view.in_bounds(cell) && !blocked(view.obstacles, cell)
        } by {
            assert(map.robots@[i]@.position == (0u32, 0u32));
        }
        assert forall|i: int| 0 <= i < view.robots.len() implies {
            &&& (#[trigger] view.robots[i]).position == (0u32, 0u32)
            &&& view.robots[i].modules == initial_modules(i)
            &&& view.robots[i].storage == empty_load()
        } by {
            assert(map.robots@[i]@.position == (0u32, 0u32));
        }
        assert forall|i: int| 0 <= i < view.resources.len() implies {
            &&& (#[trigger] view.resources[i]).position == cell_of(i, view.height as int)
            &&& view.resources[i].energy <= RICHEST_CELL
            &&& view.resources[i].minerals <= RICHEST_CELL
        } by {
            assert(map.resources@[i]@.position == cell_of(i, tall));
        }
        lemma_fresh_world(view);
        assert(RICHEST_CELL * view.resources.len() == width * height * RICHEST_CELL)
            by (nonlinear_arith)
            requires
                view.resources.len() == width * height,
        ;
    }
    map
}

} // verus!
