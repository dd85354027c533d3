//! The robots: what they carry, what they can do, and how one of them
//! harvests the cell it stands on, unloads at the station and moves on.

use crate::discovered::{DiscoveredCoord, DiscoveredSet};
use crate::map::{blocked, is_blocked, resource_views, Obstacle, Resource, ResourceView};
use crate::shared::Coord;
use crate::station::{Station, StationView};
use crate::tally::{lemma_total_prefix, lemma_total_push, lemma_total_zero, total};
use vstd::prelude::*;

verus! {

/// What a robot is equipped to do. It is fixed when the robot is built.
pub struct Modules {
    miner: bool,
    energy_collector: bool,
    scientific_analyzer: bool,
}

/// The equipment of a robot as a value.
pub struct ModulesView {
    pub miner: bool,
    pub energy_collector: bool,
    pub scientific_analyzer: bool,
}

impl View for Modules {
    type V = ModulesView;

    closed spec fn view(&self) -> ModulesView {
        ModulesView {
            miner: self.miner,
            energy_collector: self.energy_collector,
            scientific_analyzer: self.scientific_analyzer,
        }
    }
}

impl Modules {
    pub fn new(miner: bool, energy_collector: bool, scientific_analyzer: bool) -> (modules: Modules)
        ensures
            modules@ == (ModulesView { miner, energy_collector, scientific_analyzer }),
    {
        Modules { miner, energy_collector, scientific_analyzer }
    }

    pub fn is_miner(&self) -> (miner: bool)
        ensures
            miner == self@.miner,
    {
        self.miner
    }

    pub fn is_energy_collector(&self) -> (energy_collector: bool)
        ensures
            energy_collector == self@.energy_collector,
    {
        self.energy_collector
    }

    pub fn is_scientific_analyzer(&self) -> (scientific_analyzer: bool)
        ensures
            scientific_analyzer == self@.scientific_analyzer,
    {
        self.scientific_analyzer
    }
}

/// What a robot carries until it next reaches the station.
pub struct RobotStorage {
    energy: u32,
    minerals: u32,
    pub discovered_coords: DiscoveredSet,
}

/// The load of a robot as a value.
pub struct RobotStorageView {
    pub energy: nat,
    pub minerals: nat,
    pub discovered: Set<DiscoveredCoord>,
}

impl View for RobotStorage {
    type V = RobotStorageView;

    closed spec fn view(&self) -> RobotStorageView {
        RobotStorageView {
            energy: self.energy as nat,
            minerals: self.minerals as nat,
            discovered: self.discovered_coords@,
        }
    }
}

/// The load of a robot that carries nothing.
pub open spec fn empty_load() -> RobotStorageView {
    RobotStorageView { energy: 0, minerals: 0, discovered: Set::<DiscoveredCoord>::empty() }
}

impl RobotStorage {
    /// Quantities are machine integers: neither exceeds `u32::MAX`.
    pub proof fn lemma_bounded(&self)
        ensures
            self@.energy <= u32::MAX,
            self@.minerals <= u32::MAX,
    {
    }

    pub fn get_discovered_coords(&self) -> (discovered: &DiscoveredSet)
        ensures
            discovered@ == self@.discovered,
    {
        &self.discovered_coords
    }

    pub fn get_energy(&self) -> (energy: u32)
        ensures
            energy == self@.energy,
    {
        self.energy
    }

    pub fn get_minerals(&self) -> (minerals: u32)
        ensures
            minerals == self@.minerals,
    {
        self.minerals
    }
}

/// One robot.
pub struct Robot {
    id: u32,
    position: Coord,
    modules: Modules,
    storage: RobotStorage,
}

/// A robot as a value.
pub struct RobotView {
    pub id: u32,
    pub position: Coord,
    pub modules: ModulesView,
    pub storage: RobotStorageView,
}

impl View for Robot {
    type V = RobotView;

    closed spec fn view(&self) -> RobotView {
        RobotView {
            id: self.id,
            position: self.position,
            modules: self.modules@,
            storage: self.storage@,
        }
    }
}

/// The robots of a list, each as a value.
pub open spec fn robot_views(robots: Seq<Robot>) -> Seq<RobotView> {
    robots.map_values(|robot: Robot| robot@)
}

/// What a visit by a robot with `modules` leaves of `resource`.
pub open spec fn harvested(resource: ResourceView, modules: ModulesView) -> ResourceView {
    ResourceView {
        energy: if modules.energy_collector {
            0
        } else {
            resource.energy
        },
        minerals: if modules.miner {
            0
        } else {
            resource.minerals
        },
        ..resource
    }
}

/// `resources` after a robot with `modules` has harvested the cell `cell`:
/// what lies elsewhere is untouched.
pub open spec fn harvested_at(resources: Seq<ResourceView>, cell: Coord, modules: ModulesView) -> Seq<
    ResourceView,
> {
    resources.map_values(
        |resource: ResourceView|
            if resource.position == cell {
                harvested(resource, modules)
            } else {
                resource
            },
    )
}

/// The energy of each resource that lies on `cell`, and zero for the others.
pub open spec fn energy_on(resources: Seq<ResourceView>, cell: Coord) -> Seq<nat> {
    resources.map_values(
        |resource: ResourceView|
            if resource.position == cell {
                resource.energy
            } else {
                0nat
            },
    )
}

/// The minerals of each resource that lies on `cell`, and zero for the
/// others.
pub open spec fn minerals_on(resources: Seq<ResourceView>, cell: Coord) -> Seq<nat> {
    resources.map_values(
        |resource: ResourceView|
            if resource.position == cell {
                resource.minerals
            } else {
                0nat
            },
    )
}

/// All the energy that lies on `cell`.
pub open spec fn energy_at(resources: Seq<ResourceView>, cell: Coord) -> nat {
    total(energy_on(resources, cell))
}

/// All the minerals that lie on `cell`.
pub open spec fn minerals_at(resources: Seq<ResourceView>, cell: Coord) -> nat {
    total(minerals_on(resources, cell))
}

/// What a robot standing on `cell` and bound for `destination` records: the
/// destination, once for each flag that a resource of `cell` gives it. The
/// flag of a resource counts only for a robot with an analyzer.
pub open spec fn sightings(
    resources: Seq<ResourceView>,
    cell: Coord,
    destination: Coord,
    analyzer: bool,
) -> Set<DiscoveredCoord> {
    Set::new(
        |coord: DiscoveredCoord|
            coord.0 == destination.0 && coord.1 == destination.1 && exists|i: int|
                0 <= i < resources.len() && (#[trigger] resources[i]).position == cell && coord.2
                    == (resources[i].scientific_interest && analyzer),
    )
}

/// The load of `robot` once it has harvested its cell, before it unloads.
pub open spec fn loaded(robot: RobotView, resources: Seq<ResourceView>, destination: Coord) -> RobotStorageView {
    RobotStorageView {
        energy: if robot.modules.energy_collector {
            robot.storage.energy + energy_at(resources, robot.position)
        } else {
            robot.storage.energy
        },
        minerals: if robot.modules.miner {
            robot.storage.minerals + minerals_at(resources, robot.position)
        } else {
            robot.storage.minerals
        },
        discovered: robot.storage.discovered.union(
            sightings(resources, robot.position, destination, robot.modules.scientific_analyzer),
        ),
    }
}

/// `robot` after one step toward `destination`: it has harvested its cell;
/// it has handed everything over if the destination is `home`; and it
/// stands on the destination unless an obstacle holds that cell.
pub open spec fn robot_after(
    robot: RobotView,
    resources: Seq<ResourceView>,
    obstacles: Seq<Obstacle>,
    home: Coord,
    destination: Coord,
) -> RobotView {
    RobotView {
        position: if blocked(obstacles, destination) {
            robot.position
        } else {
            destination
        },
        storage: if destination == home {
            empty_load()
        } else {
            loaded(robot, resources, destination)
        },
        ..robot
    }
}

/// `station` after `robot` has made one step toward `destination`: it has
/// received the robot's whole load if the destination is its own cell.
pub open spec fn station_after(
    station: StationView,
    robot: RobotView,
    resources: Seq<ResourceView>,
    destination: Coord,
) -> StationView {
    if destination == station.position {
        let load = loaded(robot, resources, destination);
        StationView {
            stored_energy: station.stored_energy + load.energy,
            stored_minerals: station.stored_minerals + load.minerals,
            discovered: station.discovered.union(load.discovered),
            ..station
        }
    } else {
        station
    }
}

/// Whether the step of `robot` toward `destination` stays within what the
/// counters can hold.
pub open spec fn step_fits(
    robot: RobotView,
    resources: Seq<ResourceView>,
    station: StationView,
    destination: Coord,
) -> bool {
    let load = loaded(robot, resources, destination);
    &&& load.energy <= u32::MAX
    &&& load.minerals <= u32::MAX
    &&& destination == station.position ==> {
        &&& station.stored_energy + load.energy <= u32::MAX
        &&& station.stored_minerals + load.minerals <= u32::MAX
    }
}

/// A cell that has been harvested yields nothing to the same robot again:
/// a second harvest leaves the resources as the first left them, and what
/// the robot is equipped to take is no longer there.
pub proof fn lemma_harvest_once(resources: Seq<ResourceView>, cell: Coord, modules: ModulesView)
    ensures
        harvested_at(harvested_at(resources, cell, modules), cell, modules) == harvested_at(
            resources,
            cell,
            modules,
        ),
        modules.energy_collector ==> energy_at(harvested_at(resources, cell, modules), cell) == 0,
        modules.miner ==> minerals_at(harvested_at(resources, cell, modules), cell) == 0,
{
    let once = harvested_at(resources, cell, modules);
    assert(harvested_at(once, cell, modules) =~= once);
    if modules.energy_collector {
        lemma_total_zero(energy_on(once, cell));
    }
    if modules.miner {
        lemma_total_zero(minerals_on(once, cell));
    }
}

/// Where there is no obstacle, no step is ever refused: the robot arrives
/// on whatever cell it set out for.
pub proof fn lemma_open_grid(
    robot: RobotView,
    resources: Seq<ResourceView>,
    home: Coord,
    destination: Coord,
)
    ensures
        robot_after(robot, resources, Seq::<Obstacle>::empty(), home, destination).position
            == destination,
{
}

/// A harvest never adds to a cell: each resource keeps its place and its
/// flag, and holds no more than before.
pub proof fn lemma_harvest_depletes(resources: Seq<ResourceView>, cell: Coord, modules: ModulesView)
    ensures
        harvested_at(resources, cell, modules).len() == resources.len(),
        forall|i: int|
            0 <= i < resources.len() ==> {
                let after = #[trigger] harvested_at(resources, cell, modules)[i];
                &&& after.position == resources[i].position
                &&& after.scientific_interest == resources[i].scientific_interest
                &&& after.energy <= resources[i].energy
                &&& after.minerals <= resources[i].minerals
            },
{
}

impl Robot {
    pub fn get_id(&self) -> (id: u32)
        ensures
            id == self@.id,
    {
        self.id
    }

    pub fn get_position(&self) -> (position: &Coord)
        ensures
            *position == self@.position,
    {
        &self.position
    }

    pub fn get_modules(&self) -> (modules: &Modules)
        ensures
            modules@ == self@.modules,
    {
        &self.modules
    }

    pub fn get_storage(&self) -> (storage: &RobotStorage)
        ensures
            storage@ == self@.storage,
    {
        &self.storage
    }

    /// Harvests the cell the robot stands on, and records the destination.
    fn collect(&mut self, resources: &mut Vec<Resource>, new_x: u32, new_y: u32)
        requires
            loaded(old(self)@, resource_views(old(resources)@), (new_x, new_y)).energy <= u32::MAX,
            loaded(old(self)@, resource_views(old(resources)@), (new_x, new_y)).minerals
                <= u32::MAX,
        ensures
            final(self)@ == (RobotView {
                storage: loaded(old(self)@, resource_views(old(resources)@), (new_x, new_y)),
                ..old(self)@
            }),
            resource_views(final(resources)@) == harvested_at(
                resource_views(old(resources)@),
                old(self)@.position,
                old(self)@.modules,
            ),
    {
        let ghost before = resource_views(old(resources)@);
        let ghost start = old(self)@;
        let ghost cell = start.position;
        let ghost destination = (new_x, new_y);
        let count = resources.len();
        let mut i: usize = 0;
        proof {
            assert(energy_on(before.take(0), cell) =~= Seq::<nat>::empty());
            assert(minerals_on(before.take(0), cell) =~= Seq::<nat>::empty());
            assert(start.storage.discovered.union(
                sightings(before.take(0), cell, destination, start.modules.scientific_analyzer),
            ) =~= start.storage.discovered);
        }
        while i < count
            invariant
                i <= count,
                count == resources@.len(),
                count == before.len(),
                before == resource_views(old(resources)@),
                start == old(self)@,
                cell == start.position,
                destination == (new_x, new_y),
                self@.id == start.id,
                self@.position == start.position,
                self@.modules == start.modules,
                loaded(start, before, destination).energy <= u32::MAX,
                loaded(start, before, destination).minerals <= u32::MAX,
                forall|j: int|
                    0 <= j < i ==> (#[trigger] resources@[j])@ == if before[j].position == cell {
                        harvested(before[j], start.modules)
                    } else {
                        before[j]
                    },
                forall|j: int| i <= j < count ==> (#[trigger] resources@[j])@ == before[j],
                self@.storage.energy == if start.modules.energy_collector {
                    start.storage.energy + energy_at(before.take(i as int), cell)
                } else {
                    start.storage.energy
                },
                self@.storage.minerals == if start.modules.miner {
                    start.storage.minerals + minerals_at(before.take(i as int), cell)
                } else {
                    start.storage.minerals
                },
                self@.storage.discovered == start.storage.discovered.union(
                    sightings(
                        before.take(i as int),
                        cell,
                        destination,
                        start.modules.scientific_analyzer,
                    ),
                ),
            decreases count - i,
        {
            let ghost seen = before.take(i as int);
            let ghost next = before.take(i as int + 1);
            proof {
                assert(resources@[i as int]@ == before[i as int]);
                assert(energy_on(next, cell) =~= energy_on(seen, cell).push(
                    energy_on(before, cell)[i as int],
                ));
                assert(minerals_on(next, cell) =~= minerals_on(seen, cell).push(
                    minerals_on(before, cell)[i as int],
                ));
                lemma_total_push(energy_on(seen, cell), energy_on(before, cell)[i as int]);
                lemma_total_push(minerals_on(seen, cell), minerals_on(before, cell)[i as int]);
                assert(energy_on(next, cell) =~= energy_on(before, cell).take(i as int + 1));
                assert(minerals_on(next, cell) =~= minerals_on(before, cell).take(i as int + 1));
                lemma_total_prefix(energy_on(before, cell), i as int + 1);
                lemma_total_prefix(minerals_on(before, cell), i as int + 1);
            }
            let here = {
                let position = resources[i].get_position();
                position.0 == self.position.0 && position.1 == self.position.1
            };
            if here {
                let energy = *resources[i].get_energy();
                if energy > 0 && self.modules.energy_collector {
                    self.storage.energy = self.storage.energy + energy;
                    resources[i].set_energy(0);
                }
                let minerals = *resources[i].get_minerals();
                if minerals > 0 && self.modules.miner {
                    self.storage.minerals = self.storage.minerals + minerals;
                    resources[i].set_minerals(0);
                }
                let interest = *resources[i].get_scientific_interest()
                    && self.modules.scientific_analyzer;
                self.storage.discovered_coords.insert((new_x, new_y, interest));
                proof {
                    let sighting = (new_x, new_y, interest);
                    let analyzer = start.modules.scientific_analyzer;
                    assert(next[i as int] == before[i as int]);
                    assert(sightings(next, cell, destination, analyzer) =~= sightings(
                        seen,
                        cell,
                        destination,
                        analyzer,
                    ).insert(sighting)) by {
                        assert forall|coord: DiscoveredCoord|
                            sightings(next, cell, destination, analyzer).contains(coord)
                                == sightings(seen, cell, destination, analyzer).insert(
                                sighting,
                            ).contains(coord) by {
                            if sightings(next, cell, destination, analyzer).contains(coord) {
                                let k = choose|k: int|
                                    0 <= k < next.len() && (#[trigger] next[k]).position == cell
                                        && coord.2 == (next[k].scientific_interest && analyzer);
                                if k < i {
                                    assert(seen[k] == next[k]);
                                }
                            }
                            if sightings(seen, cell, destination, analyzer).contains(coord) {
                                let k = choose|k: int|
                                    0 <= k < seen.len() && (#[trigger] seen[k]).position == cell
                                        && coord.2 == (seen[k].scientific_interest && analyzer);
                                assert(next[k] == seen[k]);
                            }
                        }
                    }
                    assert(self@.storage.discovered =~= start.storage.discovered.union(
                        sightings(next, cell, destination, analyzer),
                    ));
                }
            } else {
                proof {
                    let analyzer = start.modules.scientific_analyzer;
                    assert(sightings(next, cell, destination, analyzer) =~= sightings(
                        seen,
                        cell,
                        destination,
                        analyzer,
                    )) by {
                        assert forall|coord: DiscoveredCoord|
                            sightings(next, cell, destination, analyzer).contains(coord)
                                == sightings(seen, cell, destination, analyzer).contains(
                                coord,
                            ) by {
                            if sightings(next, cell, destination, analyzer).contains(coord) {
                                let k = choose|k: int|
                                    0 <= k < next.len() && (#[trigger] next[k]).position == cell
                                        && coord.2 == (next[k].scientific_interest && analyzer);
                                assert(next[i as int] == before[i as int]);
                                assert(seen[k] == next[k]);
                            }
                            if sightings(seen, cell, destination, analyzer).contains(coord) {
                                let k = choose|k: int|
                                    0 <= k < seen.len() && (#[trigger] seen[k]).position == cell
                                        && coord.2 == (seen[k].scientific_interest && analyzer);
                                assert(next[k] == seen[k]);
                            }
                        }
                    }
                }
            }
            i += 1;
        }
        proof {
            assert(before.take(count as int) =~= before);
            assert(resource_views(resources@) =~= harvested_at(before, cell, start.modules));
        }
    }

    /// Hands the whole load over to `station`.
    fn unload(&mut self, station: &mut Station)
        requires
            old(station)@.stored_energy + old(self)@.storage.energy <= u32::MAX,
            old(station)@.stored_minerals + old(self)@.storage.minerals <= u32::MAX,
        ensures
            final(self)@ == (RobotView { storage: empty_load(), ..old(self)@ }),
            final(station)@ == (StationView {
                stored_energy: old(station)@.stored_energy + old(self)@.storage.energy,
                stored_minerals: old(station)@.stored_minerals + old(self)@.storage.minerals,
                discovered: old(station)@.discovered.union(old(self)@.storage.discovered),
                ..old(station)@
            }),
    {
        station.store_energy(self.storage.energy);
        self.storage.energy = 0;

        station.store_minerals(self.storage.minerals);
        self.storage.minerals = 0;

        station.store_discovered_coords(&self.storage.discovered_coords);
        self.storage.discovered_coords.clear();
    }

    /// One step of the robot toward the cell `(new_x, new_y)`. The robot
    /// first harvests the cell it stands on: energy if it has a collector,
    /// minerals if it has a miner, and in any case a record of the
    /// destination. If the destination is the station's cell, it then hands
    /// its whole load over. Last it moves, unless an obstacle holds the
    /// destination: then it stays where it is.
    ///
    /// No counter may overflow on the way: see [`step_fits`].
    pub fn move_and_collect(
        &mut self,
        resources: &mut Vec<Resource>,
        obstacles: &Vec<Obstacle>,
        station: &mut Station,
        new_x: u32,
        new_y: u32,
    )
        requires
            step_fits(
                old(self)@,
                resource_views(old(resources)@),
                old(station)@,
                (new_x, new_y),
            ),
        ensures
            resource_views(final(resources)@) == harvested_at(
                resource_views(old(resources)@),
                old(self)@.position,
                old(self)@.modules,
            ),
            final(self)@ == robot_after(
                old(self)@,
                resource_views(old(resources)@),
                obstacles@,
                old(station)@.position,
                (new_x, new_y),
            ),
            final(station)@ == station_after(
                old(station)@,
                old(self)@,
                resource_views(old(resources)@),
                (new_x, new_y),
            ),
    {
        self.collect(resources, new_x, new_y);

        let home = *station.get_position();
        if new_x == home.0 && new_y == home.1 {
            self.unload(station);
        }
        if !is_blocked(obstacles, new_x, new_y) {
            self.position = (new_x, new_y);
        }
    }

    /// A robot that carries nothing.
    pub fn new(id: u32, position: Coord, modules: Modules) -> (robot: Robot)
        ensures
            robot@ == (RobotView { id, position, modules: modules@, storage: empty_load() }),
    {
        Robot {
            id,
            position,
            modules,
            storage: RobotStorage { energy: 0, minerals: 0, discovered_coords: DiscoveredSet::new() },
        }
    }
}

} // verus!
