//! From noise to obstacles: what a sample of the noise makes of a cell.

use crate::map::{cell_of, obstacle_cell, Obstacle, ObstacleType};
use crate::shared::Coord;
use vstd::prelude::*;

verus! {

/// A noise sample above three tenths makes a pit. Samples are carried as
/// the bit pattern of a binary64 number, and so is this threshold: among
/// the patterns of the numbers that are not negative, the greater number
/// has the greater pattern.
pub const PIT_THRESHOLD: u64 = 0x3FD3_3333_3333_3333;

/// A noise sample above six tenths makes a rock.
pub const ROCK_THRESHOLD: u64 = 0x3FE3_3333_3333_3333;

/// The bit pattern of positive infinity. The patterns above it, and those
/// with the sign bit set, stand for no number above a positive threshold.
pub const POSITIVE_INFINITY: u64 = 0x7FF0_0000_0000_0000;

/// Whether the number with the bit pattern `sample` is greater than the
/// positive number with the bit pattern `threshold`.
pub open spec fn exceeds(sample: u64, threshold: u64) -> bool {
    threshold < sample <= POSITIVE_INFINITY
}

/// What a noise sample makes of a cell: a rock above six tenths, a pit
/// above three tenths and up to six, nothing up to three tenths.
pub open spec fn obstacle_for(sample: u64) -> Option<ObstacleType> {
    if exceeds(sample, ROCK_THRESHOLD) {
        Some(ObstacleType::Rock)
    } else if exceeds(sample, PIT_THRESHOLD) {
        Some(ObstacleType::Pit)
    } else {
        None
    }
}

/// What a noise sample makes of a cell.
pub fn classify_noise(sample: u64) -> (kind: Option<ObstacleType>)
    ensures
        kind == obstacle_for(sample),
{
    if sample > POSITIVE_INFINITY {
        None
    } else if sample > ROCK_THRESHOLD {
        Some(ObstacleType::Rock)
    } else if sample > PIT_THRESHOLD {
        Some(ObstacleType::Pit)
    } else {
        None
    }
}

/// What a noise sample makes of `cell`: the column and the row of the
/// station stay free whatever the sample.
pub open spec fn obstacle_at(sample: u64, cell: Coord) -> Option<ObstacleType> {
    if cell.0 != 0 && cell.1 != 0 {
        obstacle_for(sample)
    } else {
        None
    }
}

/// The obstacles that the samples `noise` make, one sample for each cell,
/// column by column on a grid of the given height.
pub open spec fn obstacles_from(noise: Seq<u64>, height: int) -> Seq<Obstacle>
    decreases noise.len(),
{
    if noise.len() == 0 {
        Seq::empty()
    } else {
        let before = obstacles_from(noise.drop_last(), height);
        let cell = cell_of(noise.len() - 1, height);
        match obstacle_at(noise.last(), cell) {
            Some(kind) => before.push((cell.0, cell.1, kind)),
            None => before,
        }
    }
}

/// Where no sample is above the threshold of a pit, there is no obstacle.
pub proof fn lemma_quiet_noise(noise: Seq<u64>, height: int)
    requires
        forall|i: int| 0 <= i < noise.len() ==> !exceeds(#[trigger] noise[i], PIT_THRESHOLD),
    ensures
        obstacles_from(noise, height) == Seq::<Obstacle>::empty(),
    decreases noise.len(),
{
    if noise.len() > 0 {
        lemma_quiet_noise(noise.drop_last(), height);
        assert(!exceeds(noise[noise.len() - 1], PIT_THRESHOLD));
    }
}

/// Every obstacle that the samples make comes from a sample above the
/// threshold of a pit, and stands neither in the column nor in the row of
/// the station.
pub proof fn lemma_obstacles_from_noise(noise: Seq<u64>, height: int, index: int)
    requires
        0 <= index < obstacles_from(noise, height).len(),
    ensures
        obstacles_from(noise, height)[index].0 != 0,
        obstacles_from(noise, height)[index].1 != 0,
        exists|place: int|
            0 <= place < noise.len() && exceeds(#[trigger] noise[place], PIT_THRESHOLD)
                && obstacle_cell(obstacles_from(noise, height)[index]) == cell_of(place, height),
    decreases noise.len(),
{
    let before = obstacles_from(noise.drop_last(), height);
    let last = noise.len() - 1;
    if index < before.len() {
        lemma_obstacles_from_noise(noise.drop_last(), height, index);
        let place = choose|place: int|
            0 <= place < noise.drop_last().len() && exceeds(
                #[trigger] noise.drop_last()[place],
                PIT_THRESHOLD,
            ) && obstacle_cell(before[index]) == cell_of(place, height);
        assert(noise[place] == noise.drop_last()[place]);
    } else {
        assert(exceeds(noise[last], PIT_THRESHOLD));
    }
}

} // verus!
