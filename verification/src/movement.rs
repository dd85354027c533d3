//! How a robot picks its next cell: the four steps, the cells they lead to,
//! and which of them a robot chooses among.

use crate::discovered::{covers_cell, DiscoveredCoord};
use crate::map::{blocked, Obstacle};
use crate::shared::{lemma_wrap_in_range, wrap, Coord};
use vstd::prelude::*;

verus! {

/// A step of one cell along one axis, `(dx, dy)`.
pub type Direction = (i32, i32);

/// The four steps a robot can take, in the order in which they are tried.
pub open spec fn directions() -> Seq<Direction> {
    seq![(0i32, 1i32), (0i32, -1i32), (1i32, 0i32), (-1i32, 0i32)]
}

/// The cell that the step `direction` leads to from `cell`, on a grid of
/// `width` by `height` cells whose opposite edges are joined.
pub open spec fn step(cell: Coord, direction: Direction, width: u32, height: u32) -> Coord {
    (
        wrap(cell.0 as int + direction.0 as int, width as int) as u32,
        wrap(cell.1 as int + direction.1 as int, height as int) as u32,
    )
}

/// Whether a robot that knows `known` would choose to enter `cell`: it has
/// not been there, and no obstacle holds it.
pub open spec fn inviting(known: Set<DiscoveredCoord>, obstacles: Seq<Obstacle>, cell: Coord) -> bool {
    !covers_cell(known, cell.0, cell.1) && !blocked(obstacles, cell)
}

/// The steps from `cell` that lead to an inviting cell, in the order in
/// which they are tried.
pub open spec fn inviting_directions(
    cell: Coord,
    known: Set<DiscoveredCoord>,
    obstacles: Seq<Obstacle>,
    width: u32,
    height: u32,
) -> Seq<Direction> {
    directions().filter(
        |direction: Direction| inviting(known, obstacles, step(cell, direction, width, height)),
    )
}

/// The steps that a robot on `cell` chooses among: those that lead to an
/// inviting cell, or all four where none does.
pub open spec fn choices(
    cell: Coord,
    known: Set<DiscoveredCoord>,
    obstacles: Seq<Obstacle>,
    width: u32,
    height: u32,
) -> Seq<Direction> {
    let inviting = inviting_directions(cell, known, obstacles, width, height);
    if inviting.len() == 0 {
        directions()
    } else {
        inviting
    }
}

/// Whether `destination` is one of the cells that a robot on `cell` may
/// pick as its next.
pub open spec fn is_candidate(
    destination: Coord,
    cell: Coord,
    known: Set<DiscoveredCoord>,
    obstacles: Seq<Obstacle>,
    width: u32,
    height: u32,
) -> bool {
    let among = choices(cell, known, obstacles, width, height);
    exists|i: int| 0 <= i < among.len() && destination == step(cell, #[trigger] among[i], width, height)
}

/// Every cell that a robot may pick lies on the grid.
pub proof fn lemma_candidate_on_grid(
    destination: Coord,
    cell: Coord,
    known: Set<DiscoveredCoord>,
    obstacles: Seq<Obstacle>,
    width: u32,
    height: u32,
)
    requires
        width >= 1,
        height >= 1,
        is_candidate(destination, cell, known, obstacles, width, height),
    ensures
        destination.0 < width,
        destination.1 < height,
{
    let among = choices(cell, known, obstacles, width, height);
    let i = choose|i: int|
        0 <= i < among.len() && destination == step(cell, #[trigger] among[i], width, height);
    lemma_wrap_in_range(cell.0 as int, among[i].0 as int, width as int);
    lemma_wrap_in_range(cell.1 as int, among[i].1 as int, height as int);
}

/// The four steps, in the order in which they are tried.
pub fn all_directions() -> (list: Vec<Direction>)
    ensures
        list@ == directions(),
{
    let mut list: Vec<Direction> = Vec::new();
    list.push((0, 1));
    list.push((0, -1));
    list.push((1, 0));
    list.push((-1, 0));
    assert(list@ =~= directions());
    list
}

/// Where there is no obstacle, a robot with a neighbouring cell that it has
/// not discovered never falls back on all four steps: every cell that it may
/// pick is one that it has not discovered.
pub proof fn lemma_no_fallback(
    cell: Coord,
    known: Set<DiscoveredCoord>,
    width: u32,
    height: u32,
    fresh: int,
    destination: Coord,
)
    requires
        0 <= fresh < directions().len(),
        !covers_cell(
            known,
            step(cell, directions()[fresh], width, height).0,
            step(cell, directions()[fresh], width, height).1,
        ),
        is_candidate(destination, cell, known, Seq::<Obstacle>::empty(), width, height),
    ensures
        !covers_cell(known, destination.0, destination.1),
        choices(cell, known, Seq::<Obstacle>::empty(), width, height) == inviting_directions(
            cell,
            known,
            Seq::<Obstacle>::empty(),
            width,
            height,
        ),
{
    let none = Seq::<Obstacle>::empty();
    let wanted = |direction: Direction|
        inviting(known, none, step(cell, direction, width, height));
    let inviting_ones = directions().filter(wanted);
    assert(wanted(directions()[fresh]));
    directions().lemma_filter_contains(wanted, fresh);
    let among = choices(cell, known, none, width, height);
    assert(among == inviting_ones);
    let i = choose|i: int|
        0 <= i < among.len() && destination == step(cell, #[trigger] among[i], width, height);
    directions().lemma_filter_pred(wanted, i);
}

} // verus!
