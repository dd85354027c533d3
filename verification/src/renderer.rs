//! What each cell of the grid shows.

use crate::map::{blocked, is_blocked, World, WorldView};
use crate::shared::Coord;
use vstd::prelude::*;

verus! {

/// What a cell shows.
#[derive(Clone, Copy, Debug, PartialEq, Eq)]
pub enum Glyph {
    Station,
    Robot,
    Obstacle,
    Empty,
}

/// Whether a robot stands on `cell`.
pub open spec fn occupied(world: WorldView, cell: Coord) -> bool {
    exists|i: int| 0 <= i < world.robots.len() && (#[trigger] world.robots[i]).position == cell
}

/// What `cell` shows: the station, or else a robot, or else an obstacle,
/// or else nothing.
pub open spec fn glyph_at(world: WorldView, cell: Coord) -> Glyph {
    if cell == world.station.position {
        Glyph::Station
    } else if occupied(world, cell) {
        Glyph::Robot
    } else if blocked(world.obstacles, cell) {
        Glyph::Obstacle
    } else {
        Glyph::Empty
    }
}

impl Glyph {
    /// The character that stands for the glyph.
    pub fn symbol(&self) -> (symbol: char)
        ensures
            symbol == match *self {
                Glyph::Station => 'S',
                Glyph::Robot => 'R',
                Glyph::Obstacle => '#',
                Glyph::Empty => '.',
            },
    {
        match self {
            Glyph::Station => 'S',
            Glyph::Robot => 'R',
            Glyph::Obstacle => '#',
            Glyph::Empty => '.',
        }
    }
}

/// Whether a robot of `map` stands on the cell `(x, y)`.
pub fn is_occupied(map: &World, x: u32, y: u32) -> (found: bool)
    ensures
        found == occupied(map@, (x, y)),
{
    let robots = map.get_robots();
    let mut i: usize = 0;
    while i < robots.len()
        invariant
            i <= robots@.len(),
            crate::robot::robot_views(robots@) == map@.robots,
            forall|j: int| 0 <= j < i ==> (#[trigger] map@.robots[j]).position != (x, y),
        decreases robots@.len() - i,
    {
        let position = robots[i].get_position();
        proof {
            assert(map@.robots[i as int] == robots@[i as int]@);
        }
        if position.0 == x && position.1 == y {
            return true;
        }
        i += 1;
    }
    false
}

/// What the cell `(x, y)` of `map` shows.
pub fn glyph_for(map: &World, x: u32, y: u32) -> (glyph: Glyph)
    ensures
        glyph == glyph_at(map@, (x, y)),
{
    let station = map.get_station().get_position();
    if x == station.0 && y == station.1 {
        Glyph::Station
    } else if is_occupied(map, x, y) {
        Glyph::Robot
    } else if is_blocked(map.get_obstacles(), x, y) {
        Glyph::Obstacle
    } else {
        Glyph::Empty
    }
}

/// The whole grid, row by row from the top: `rows[y][x]` is what the cell
/// `(x, y)` shows.
pub fn render_rows(map: &World) -> (rows: Vec<Vec<Glyph>>)
    ensures
        rows@.len() == map@.height,
        forall|y: int| 0 <= y < rows@.len() ==> (#[trigger] rows@[y])@.len() == map@.width,
        forall|x: int, y: int|
            0 <= y < map@.height && 0 <= x < map@.width ==> rows@[y]@[x] == glyph_at(
                map@,
                (x as u32, y as u32),
            ),
{
    let width = *map.get_width();
    let height = *map.get_height();
    let mut rows: Vec<Vec<Glyph>> = Vec::new();
    let mut y: u32 = 0;
    while y < height
        invariant
            y <= height,
            width == map@.width,
            height == map@.height,
            rows@.len() == y,
            forall|j: int| 0 <= j < rows@.len() ==> (#[trigger] rows@[j])@.len() == width,
            forall|i: int, j: int|
                0 <= j < y && 0 <= i < width ==> rows@[j]@[i] == glyph_at(
                    map@,
                    (i as u32, j as u32),
                ),
        decreases height - y,
    {
        let mut row: Vec<Glyph> = Vec::new();
        let mut x: u32 = 0;
        while x < width
            invariant
                x <= width,
                y < height,
                width == map@.width,
                row@.len() == x,
                forall|i: int| 0 <= i < x ==> row@[i] == glyph_at(map@, (i as u32, y)),
            decreases width - x,
        {
            row.push(glyph_for(map, x, y));
            x += 1;
        }
        rows.push(row);
        y += 1;
    }
    rows
}

} // verus!
