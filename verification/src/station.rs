//! The station: the depot at the origin that robots bring their load to.

use crate::discovered::{DiscoveredCoord, DiscoveredSet};
use crate::random::random_in_range;
use crate::robot::{empty_load, robot_views, Modules, ModulesView, Robot, RobotView};
use crate::shared::{generate_unique_id, lemma_finite, Coord, ID_SPACE};
use parking_lot::Mutex;
use rand::rngs::StdRng;
use std::collections::HashSet;
use vstd::prelude::*;

verus! {

/// The energy that building one robot takes.
pub const ENERGY_PER_ROBOT: u32 = 1000;

/// The minerals that building one robot takes.
pub const MINERALS_PER_ROBOT: u32 = 1000;

/// The depot. It stands at the origin for as long as the world lasts.
pub struct Station {
    position: Coord,
    stored_energy: u32,
    stored_minerals: u32,
    discovered_coords: DiscoveredSet,
}

/// The station as a value.
pub struct StationView {
    pub position: Coord,
    pub stored_energy: nat,
    pub stored_minerals: nat,
    pub discovered: Set<DiscoveredCoord>,
}

impl View for Station {
    type V = StationView;

    closed spec fn view(&self) -> StationView {
        StationView {
            position: self.position,
            stored_energy: self.stored_energy as nat,
            stored_minerals: self.stored_minerals as nat,
            discovered: self.discovered_coords@,
        }
    }
}

impl StationView {
    /// The station once it has learned every cell of `coords`.
    pub open spec fn learning(self, coords: Set<DiscoveredCoord>) -> StationView {
        StationView { discovered: self.discovered.union(coords), ..self }
    }
}

/// Storing discoveries is taking a union of sets. Two deliveries leave what
/// one delivery of both would leave, so a cell that comes twice is held
/// once, and the station then knows as many cells as there are different
/// ones among what it knew and what came; and a delivery that is repeated
/// changes nothing.
pub proof fn lemma_learning_twice(
    station: StationView,
    first: Set<DiscoveredCoord>,
    second: Set<DiscoveredCoord>,
)
    ensures
        station.learning(first).learning(second) == station.learning(first.union(second)),
        station.learning(first).learning(second).discovered.len() == station.discovered.union(
            first,
        ).union(second).len(),
        station.learning(first).learning(first) == station.learning(first),
{
    assert(station.discovered.union(first).union(second) =~= station.discovered.union(
        first.union(second),
    ));
    assert(station.discovered.union(first).union(first) =~= station.discovered.union(first));
}

/// The equipment of a robot of the kind drawn: a miner for a draw of 0, an
/// energy collector for 1, a scientific analyzer for 2.
pub open spec fn single_module(kind: u32) -> ModulesView {
    ModulesView { miner: kind == 0, energy_collector: kind == 1, scientific_analyzer: kind == 2 }
}

/// A robot as it leaves the station at `home`: it carries nothing and has
/// one module.
pub open spec fn newly_built(robot: RobotView, home: Coord) -> bool {
    &&& robot.position == home
    &&& robot.storage == empty_load()
    &&& exists|kind: u32| 0 <= kind <= 2 && robot.modules == #[trigger] single_module(kind)
}

/// How many robots the station can pay for: each takes its price in energy
/// and in minerals.
pub open spec fn spawn_count(station: StationView) -> nat {
    let by_energy = station.stored_energy / (ENERGY_PER_ROBOT as nat);
    let by_minerals = station.stored_minerals / (MINERALS_PER_ROBOT as nat);
    if by_energy <= by_minerals {
        by_energy
    } else {
        by_minerals
    }
}

/// The ids of `robots`.
pub open spec fn ids_of(robots: Seq<RobotView>) -> Set<u32> {
    Set::new(|id: u32| exists|i: int| 0 <= i < robots.len() && (#[trigger] robots[i]).id == id)
}

/// No two of `robots` share an id.
pub open spec fn distinct_ids(robots: Seq<RobotView>) -> bool {
    forall|i: int, j: int|
        0 <= i < j < robots.len() ==> (#[trigger] robots[i]).id != (#[trigger] robots[j]).id
}

/// The robot with the given id and of the given kind, as it leaves the
/// station at `home`.
pub fn build_robot(id: u32, kind: u32, home: Coord) -> (robot: Robot)
    ensures
        robot@ == (RobotView {
            id,
            position: home,
            modules: single_module(kind),
            storage: empty_load(),
        }),
{
    Robot::new(id, home, Modules::new(kind == 0, kind == 1, kind == 2))
}

impl Station {
    /// An empty station at the origin.
    pub fn new() -> (station: Station)
        ensures
            station@ == (StationView {
                position: (0u32, 0u32),
                stored_energy: 0,
                stored_minerals: 0,
                discovered: Set::<DiscoveredCoord>::empty(),
            }),
    {
        Station {
            position: (0, 0),
            stored_energy: 0,
            stored_minerals: 0,
            discovered_coords: DiscoveredSet::new(),
        }
    }

    /// Quantities are machine integers: neither exceeds `u32::MAX`.
    pub proof fn lemma_bounded(&self)
        ensures
            self@.stored_energy <= u32::MAX,
            self@.stored_minerals <= u32::MAX,
    {
    }

    pub fn get_position(&self) -> (position: &Coord)
        ensures
            *position == self@.position,
    {
        &self.position
    }

    pub fn get_stored_energy(&self) -> (energy: u32)
        ensures
            energy == self@.stored_energy,
    {
        self.stored_energy
    }

    pub fn get_stored_minerals(&self) -> (minerals: u32)
        ensures
            minerals == self@.stored_minerals,
    {
        self.stored_minerals
    }

    pub fn get_discovered_coords(&self) -> (discovered: &DiscoveredSet)
        ensures
            discovered@ == self@.discovered,
    {
        &self.discovered_coords
    }

    /// Takes `energy` into store. The store must have room for it.
    pub fn store_energy(&mut self, energy: u32)
        requires
            old(self)@.stored_energy + energy <= u32::MAX,
        ensures
            final(self)@ == (StationView {
                stored_energy: (old(self)@.stored_energy + energy) as nat,
                ..old(self)@
            }),
    {
        self.stored_energy = self.stored_energy + energy;
    }

    /// Takes `minerals` into store. The store must have room for them.
    pub fn store_minerals(&mut self, minerals: u32)
        requires
            old(self)@.stored_minerals + minerals <= u32::MAX,
        ensures
            final(self)@ == (StationView {
                stored_minerals: (old(self)@.stored_minerals + minerals) as nat,
                ..old(self)@
            }),
    {
        self.stored_minerals = self.stored_minerals + minerals;
    }

    /// Builds as many robots as the store pays for, each at the station's
    /// cell, of a kind drawn from `rng` and under an id that `used_ids` did
    /// not hold; the ids given out are added to `used_ids`.
    ///
    /// With less than the price of one robot both in energy and in minerals
    /// the answer is `None`. Otherwise it is the batch, which is empty where
    /// only one of the two falls short. The store pays the price of each robot
    /// built, and nothing else ever leaves it.
    ///
    /// The id space must have room for the batch.
    pub fn create_robots_if_able(&mut self, rng: &Mutex<StdRng>, used_ids: &mut HashSet<u32>) -> (batch:
        Option<Vec<Robot>>)
        requires
            old(used_ids)@.len() + spawn_count(old(self)@) <= ID_SPACE,
        ensures
            batch is None <==> old(self)@.stored_energy < ENERGY_PER_ROBOT && old(
                self,
            )@.stored_minerals < MINERALS_PER_ROBOT,
            final(self)@ == (StationView {
                stored_energy: (old(self)@.stored_energy - spawn_count(old(self)@)
                    * ENERGY_PER_ROBOT) as nat,
                stored_minerals: (old(self)@.stored_minerals - spawn_count(old(self)@)
                    * MINERALS_PER_ROBOT) as nat,
                ..old(self)@
            }),
            spawn_count(old(self)@) * ENERGY_PER_ROBOT <= old(self)@.stored_energy,
            spawn_count(old(self)@) * MINERALS_PER_ROBOT <= old(self)@.stored_minerals,
            final(used_ids)@.finite(),
            final(used_ids)@.len() == old(used_ids)@.len() + spawn_count(old(self)@),
            match batch {
                Some(robots) => {
                    &&& robots@.len() == spawn_count(old(self)@)
                    &&& distinct_ids(robot_views(robots@))
                    &&& final(used_ids)@ == old(used_ids)@.union(ids_of(robot_views(robots@)))
                    &&& forall|i: int|
                        0 <= i < robots@.len() ==> {
                            &&& newly_built((#[trigger] robots@[i])@, old(self)@.position)
                            &&& !old(used_ids)@.contains(robots@[i]@.id)
                        }
                },
                None => final(used_ids)@ == old(used_ids)@,
            },
    {
        proof {
            lemma_finite(used_ids);
        }
        if self.stored_energy < ENERGY_PER_ROBOT && self.stored_minerals < MINERALS_PER_ROBOT {
            return None;
        }
        let ghost before = self@;
        let ghost known = used_ids@;
        let ghost count = spawn_count(before);
        let mut robots: Vec<Robot> = Vec::new();
        proof {
            assert(known.union(ids_of(robot_views(robots@))) =~= known);
        }
        while self.stored_energy >= ENERGY_PER_ROBOT && self.stored_minerals >= MINERALS_PER_ROBOT
            invariant
                before == old(self)@,
                known == old(used_ids)@,
                count == spawn_count(before),
                known.finite(),
                known.len() + count <= ID_SPACE,
                robots@.len() <= count,
                self@.position == before.position,
                self@.discovered == before.discovered,
                self@.stored_energy + robots@.len() * ENERGY_PER_ROBOT == before.stored_energy,
                self@.stored_minerals + robots@.len() * MINERALS_PER_ROBOT
                    == before.stored_minerals,
                spawn_count(self@) + robots@.len() == count,
                used_ids@.finite(),
                used_ids@.len() == known.len() + robots@.len(),
                used_ids@ == known.union(ids_of(robot_views(robots@))),
                distinct_ids(robot_views(robots@)),
                forall|i: int|
                    0 <= i < robots@.len() ==> {
                        &&& newly_built((#[trigger] robots@[i])@, before.position)
                        &&& !known.contains(robots@[i]@.id)
                    },
            decreases self.stored_energy,
        {
            let kind = random_in_range(rng, 0, 2);
            let id = generate_unique_id(rng, used_ids);
            let robot = build_robot(id, kind, self.position);
            let ghost built = robot_views(robots@);
            proof {
                assert(robot@.modules == single_module(kind));
                assert forall|i: int| 0 <= i < built.len() implies (#[trigger] built[i]).id
                    != id by {
                    assert(ids_of(built).contains(built[i].id));
                }
            }
            used_ids.insert(id);
            robots.push(robot);
            self.stored_energy = self.stored_energy - ENERGY_PER_ROBOT;
            self.stored_minerals = self.stored_minerals - MINERALS_PER_ROBOT;
            proof {
                let grown = robot_views(robots@);
                assert(grown =~= built.push(robot@));
                assert(ids_of(grown) =~= ids_of(built).insert(id)) by {
                    assert forall|other: u32|
                        ids_of(grown).contains(other) == ids_of(built).insert(id).contains(
                            other,
                        ) by {
                        if ids_of(grown).contains(other) {
                            let k = choose|k: int|
                                0 <= k < grown.len() && (#[trigger] grown[k]).id == other;
                            if k < built.len() {
                                assert(built[k].id == other);
                            }
                        }
                        if ids_of(built).contains(other) {
                            let k = choose|k: int|
                                0 <= k < built.len() && (#[trigger] built[k]).id == other;
                            assert(grown[k].id == other);
                        }
                        if other == id {
                            assert(grown[built.len() as int].id == id);
                        }
                    }
                }
                assert(used_ids@ =~= known.union(ids_of(grown)));
            }
        }
        Some(robots)
    }

    /// Learns every cell of `coords`; what was known before stays known.
    pub fn store_discovered_coords(&mut self, coords: &DiscoveredSet)
        ensures
            final(self)@ == old(self)@.learning(coords@),
    {
        self.discovered_coords.extend(coords);
    }
}

} // verus!
