//! What the caller measures before a step of the game: where the balloons have moved to, and how
//! far they are from each other and from the emitters.

use crate::seqs::views;
use crate::single::Single;
use crate::state::GameStateView;
use vstd::prelude::*;

verus! {

/// The sides of the square around a balloon: its position less and plus its radius.
#[derive(Clone, Copy, Debug)]
pub struct Extent {
    pub left: Single,
    pub right: Single,
    pub top: Single,
    pub bottom: Single,
}

/// Where a balloon has moved to, and the square that it then fills.
#[derive(Clone, Copy, Debug)]
pub struct Motion {
    pub x: Single,
    pub y: Single,
    pub extent: Extent,
}

/// The measurements of one step, all taken with the balloons where they have moved to.
#[derive(Debug)]
pub struct Measurements {
    /// The motion of each balloon.
    pub motions: Vec<Motion>,
    /// The distances of each balloon from every balloon; those from a later one are read.
    pub between_balloons: Vec<Vec<Single>>,
    /// The distances of each balloon from every emitter.
    pub to_emitters: Vec<Vec<Single>>,
}

pub struct MeasurementsView {
    pub motions: Seq<Motion>,
    pub between_balloons: Seq<Seq<Single>>,
    pub to_emitters: Seq<Seq<Single>>,
}

impl View for Measurements {
    type V = MeasurementsView;

    open spec fn view(&self) -> MeasurementsView {
        MeasurementsView {
            motions: self.motions@,
            between_balloons: views(self.between_balloons@),
            to_emitters: views(self.to_emitters@),
        }
    }
}

/// A table of `rows` by `cols`.
pub open spec fn is_table(d: Seq<Seq<Single>>, rows: int, cols: int) -> bool {
    &&& d.len() == rows
    &&& forall|i: int| 0 <= i < rows ==> (#[trigger] d[i]).len() == cols
}

impl MeasurementsView {
    /// There is a measurement for everything in the room.
    pub open spec fn covers(self, s: GameStateView) -> bool {
        let n = s.balloons.len() as int;
        &&& self.motions.len() == n
        &&& is_table(self.between_balloons, n, n)
        &&& is_table(self.to_emitters, n, s.emitters.len() as int)
    }
}

} // verus!
