//! The three coordinate axes, and a uniform random choice among them.
use vstd::prelude::*;
use rand::Rng;

verus! {

#[derive(Clone, Copy, Debug, PartialEq, Eq, Structural)]
pub enum Axis {
    X,
    Y,
    Z,
}

/// Relies on rand's `thread_rng().gen_range(0..3)`: a draw from the
/// half-open range `0..3`, which is not empty, so the call does not panic.
#[verifier::external_body]
fn draw_below_three() -> (r: u32)
    ensures
        r < 3,
{
    rand::thread_rng().gen_range(0..3u32)
}

impl Axis {
    /// The axis numbered `i`: 0 is X, 1 is Y, 2 is Z.
    pub open spec fn spec_from_index(i: u32) -> Option<Axis> {
        if i == 0 {
            Some(Axis::X)
        } else if i == 1 {
            Some(Axis::Y)
        } else if i == 2 {
            Some(Axis::Z)
        } else {
            None
        }
    }

    pub open spec fn spec_index(self) -> u32 {
        match self {
            Axis::X => 0,
            Axis::Y => 1,
            Axis::Z => 2,
        }
    }

    /// The axis numbered `i`, if `i` is below three.
    pub fn from_index(i: u32) -> (r: Option<Axis>)
        ensures
            r == Self::spec_from_index(i),
    {
        if i == 0 {
            Some(Axis::X)
        } else if i == 1 {
            Some(Axis::Y)
        } else if i == 2 {
            Some(Axis::Z)
        } else {
            None
        }
    }

    /// The number of the axis.
    pub fn index(self) -> (r: u32)
        ensures
            r == self.spec_index(),
            r < 3,
    {
        match self {
            Axis::X => 0,
            Axis::Y => 1,
            Axis::Z => 2,
        }
    }

    /// The axis for a draw `i` from `0..3`: 0 is X, 1 is Y, 2 is Z.
    pub fn from_draw(i: u32) -> (r: Axis)
        requires
            i < 3,
        ensures
            Self::spec_from_index(i) == Some(r),
            r.spec_index() == i,
    {
        match Self::from_index(i) {
            Some(a) => a,
            None => Axis::X,
        }
    }

    /// One of the three axes, drawn uniformly: the draw is taken from
    /// `0..3` directly, not reduced from a wider integer, and numbered as
    /// `from_draw` says.
    pub fn random() -> (r: Axis) {
        Self::from_draw(draw_below_three())
    }
}

} // verus!
