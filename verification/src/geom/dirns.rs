//! Cardinal directions on a row-column grid, and quarter-turn rotations.

use vstd::prelude::*;
use crate::geom::convert::ConvertInto;

verus! {

/// Symbolic direction constants. Rows grow downwards, columns to the right.
#[derive(Debug, Clone, Copy, PartialEq, Eq, Structural)]
pub enum Dirn {
    Up,
    Left,
    Down,
    Right,
}

/// Rotation directions.
#[derive(Debug, Clone, Copy, PartialEq, Eq, Structural)]
pub enum Rot {
    /// Counter-clockwise.
    CCW,
    /// Clockwise.
    CW,
}

/// Displacements induced by the cardinal directions: up, left, down, right
/// in a row-column coordinate system where increasing rows go down.
pub const DIRNS: [(i64, i64); 4] = [(-1, 0), (0, -1), (1, 0), (0, 1)];

/// The possible facings, in counter-clockwise order.
pub const FACINGS: [Dirn; 4] = [Dirn::Up, Dirn::Left, Dirn::Down, Dirn::Right];

impl Dirn {
    /// Position of the direction in the cycle `[Up, Left, Down, Right]`.
    pub open spec fn index(self) -> int {
        match self {
            Dirn::Up => 0,
            Dirn::Left => 1,
            Dirn::Down => 2,
            Dirn::Right => 3,
        }
    }

    /// The direction at the given position of the cycle.
    pub open spec fn facing(index: int) -> Dirn {
        if index == 0 {
            Dirn::Up
        } else if index == 1 {
            Dirn::Left
        } else if index == 2 {
            Dirn::Down
        } else {
            Dirn::Right
        }
    }

    /// Row and column displacement of one step in this direction.
    pub open spec fn delta(self) -> (int, int) {
        match self {
            Dirn::Up => (-1, 0),
            Dirn::Left => (0, -1),
            Dirn::Down => (1, 0),
            Dirn::Right => (0, 1),
        }
    }

    /// The direction reached from this one by `count` quarter turns in the
    /// sense of `rot`. The count is first reduced to its residue in `0..4`,
    /// so negative counts turn the other way. A counter-clockwise turn moves
    /// one place forward in the cycle, a clockwise turn three places.
    pub open spec fn turned(self, rot: Rot, count: int) -> Dirn {
        let steps = count % 4;
        let offset = match rot {
            Rot::CCW => steps,
            Rot::CW => (3 * steps) % 4,
        };
        Dirn::facing((self.index() + offset) % 4)
    }

    /// The point reached from `point` by `dist` steps in this direction:
    /// `point` plus `dist` times the displacement of the direction.
    pub open spec fn displaced(self, point: (int, int), dist: int) -> (int, int) {
        match self {
            Dirn::Up => (point.0 - dist, point.1),
            Dirn::Left => (point.0, point.1 - dist),
            Dirn::Down => (point.0 + dist, point.1),
            Dirn::Right => (point.0, point.1 + dist),
        }
    }

    /// Position of the direction in `FACINGS` and of its displacement in
    /// `DIRNS`.
    fn position(self) -> (out: usize)
        ensures
            out == self.index(),
            FACINGS[out as int] == self,
            (DIRNS[out as int].0 as int, DIRNS[out as int].1 as int) == self.delta(),
    {
        match self {
            Dirn::Up => 0,
            Dirn::Left => 1,
            Dirn::Down => 2,
            Dirn::Right => 3,
        }
    }

    /// Displacement resulting from a step in the given direction, which the
    /// target type must be able to hold.
    pub fn disp<T>(self) -> (out: (T, T)) where i64: ConvertInto<T>
        requires
            (self.delta().0 as i64).representable(),
            (self.delta().1 as i64).representable(),
        ensures
            out == ((self.delta().0 as i64).converted(), (self.delta().1 as i64).converted()),
    {
        let (r, c) = DIRNS[self.position()];
        (r.convert_into(), c.convert_into())
    }

    /// Apply the appropriate displacement for the given distance in this
    /// direction to the given point. The displaced point must fit in the
    /// point's type.
    pub fn displace<T, U>(self, point: (T, T), dist: U) -> (out: (T, T)) where
        T: ConvertInto<i64>,
        i64: ConvertInto<T>,
        U: ConvertInto<i64>,

        requires
            point.0.representable(),
            point.1.representable(),
            dist.representable(),
            ({
                let target = self.displaced(
                    (point.0.converted() as int, point.1.converted() as int),
                    dist.converted() as int,
                );
                &&& i64::MIN <= target.0 <= i64::MAX
                &&& i64::MIN <= target.1 <= i64::MAX
                &&& (target.0 as i64).representable()
                &&& (target.1 as i64).representable()
            }),
        ensures
            ({
                let target = self.displaced(
                    (point.0.converted() as int, point.1.converted() as int),
                    dist.converted() as int,
                );
                out == ((target.0 as i64).converted(), (target.1 as i64).converted())
            }),
    {
        let (dr, dc) = self.disp::<i64>();
        let r: i64 = point.0.convert_into();
        let c: i64 = point.1.convert_into();
        let dist: i64 = dist.convert_into();
        // The products are formed in 128 bits: only the sums need to fit.
        proof {
            lemma_displaced(self, (r as int, c as int), dist as int);
        }
        let nr = r as i128 + dist as i128 * dr as i128;
        let nc = c as i128 + dist as i128 * dc as i128;
        let nr: i64 = nr.convert_into();
        let nc: i64 = nc.convert_into();
        (nr.convert_into(), nc.convert_into())
    }

    /// Direction resulting from turning 90° in the given rotation direction
    /// the given number of times. Negative counts turn the other way.
    pub fn turn<T>(self, rot: Rot, steps: T) -> (out: Dirn) where T: ConvertInto<i64>
        requires
            steps.representable(),
        ensures
            out == self.turned(rot, steps.converted() as int),
    {
        let mut steps: i64 = steps.convert_into();
        if steps < 0 {
            steps = (4 - -(steps % 4)) % 4;
        }
        // Reduce before widening, so that the product below stays small.
        let steps = (steps % 4) as usize;
        let nfacings = FACINGS.len();
        let offset = match rot {
            Rot::CCW => steps % nfacings,
            Rot::CW => ((nfacings - 1) * steps) % nfacings,
        };
        FACINGS[(self.position() + offset) % nfacings]
    }
}

/// Displacing a point adds the displacement of the direction to it, once
/// for each step.
pub proof fn lemma_displaced(d: Dirn, point: (int, int), dist: int)
    ensures
        d.displaced(point, dist) == (point.0 + dist * d.delta().0, point.1 + dist * d.delta().1),
        dist * d.delta().0 == d.displaced(point, dist).0 - point.0,
        dist * d.delta().1 == d.displaced(point, dist).1 - point.1,
{
    assert(dist * 0 == 0 && dist * 1 == dist && dist * (-1) == -dist) by (nonlinear_arith);
}

/// Turning counter-clockwise and then clockwise by the same count leads back
/// to the direction one started from.
pub proof fn lemma_turn_inverse(d: Dirn, count: int)
    ensures
        d.turned(Rot::CCW, count).turned(Rot::CW, count) == d,
        d.turned(Rot::CW, count).turned(Rot::CCW, count) == d,
{
}

/// Only the residue of the count modulo four matters to a turn, and a count
/// of zero leaves the direction as it is.
pub proof fn lemma_turn_periodic(d: Dirn, rot: Rot, count: int)
    ensures
        d.turned(rot, count) == d.turned(rot, count % 4),
        d.turned(rot, 0) == d,
{
}

/// Turning clockwise by a negated count is turning counter-clockwise by the
/// count itself.
pub proof fn lemma_turn_symmetry(d: Dirn, count: int)
    ensures
        d.turned(Rot::CW, -count) == d.turned(Rot::CCW, count),
        d.turned(Rot::CCW, -count) == d.turned(Rot::CW, count),
{
}

} // verus!
