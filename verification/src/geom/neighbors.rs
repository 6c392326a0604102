//! Neighborhoods and beams on a grid, clipped to the grid's bounds.
//!
//! Make a [`GridBox`] to set the clipping bounds, then call its methods to
//! get cursors over coordinates.

use core::marker::PhantomData;
use vstd::prelude::*;
use vstd::math::{abs, max, min};
use crate::geom::convert::ConvertInto;
use crate::geom::dirns::{Dirn, DIRNS};
use crate::geom::window::{
    inside,
    lemma_point_at_position,
    lemma_window_without,
    lemma_window_without_at,
    position,
    row_major_before,
    width,
    window_without,
};

verus! {

/// Description of the grid, for possible clipping.
#[derive(Copy, Clone)]
pub enum GridBox {
    /// Grid is clipped on bottom and right: its points are those of the
    /// given number of rows and columns.
    ClipBox((i64, i64)),
    /// Grid is unclipped. Negative locations are still outside of it.
    Unclipped,
}

impl GridBox {
    /// Whether the sizes of a clipped grid are non-negative. A clipped grid
    /// with a negative size is accepted everywhere and has no points.
    pub open spec fn wf(self) -> bool {
        self matches GridBox::ClipBox((rows, cols)) ==> rows >= 0 && cols >= 0
    }

    /// Whether the point is in bounds: its coordinates are not negative and,
    /// on a clipped grid, below the grid's sizes.
    pub open spec fn admits(self, p: (int, int)) -> bool {
        &&& p.0 >= 0
        &&& p.1 >= 0
        &&& (self matches GridBox::ClipBox((rows, cols)) ==> p.0 < rows && p.1 < cols)
    }

    /// The location moved by the offset if that point is in bounds.
    pub open spec fn clipped(self, loc: (int, int), off: (int, int)) -> Option<(int, int)> {
        let p = (loc.0 + off.0, loc.1 + off.1);
        if self.admits(p) {
            Some(p)
        } else {
            None
        }
    }

    /// First point of the window of the given radius around `point`.
    pub open spec fn window_start(self, point: (int, int), radius: int) -> (int, int) {
        (max(0, point.0 - radius), max(0, point.1 - radius))
    }

    /// End of the window of the given radius around `point`: one past its
    /// last row and last column.
    pub open spec fn window_end(self, point: (int, int), radius: int) -> (int, int) {
        match self {
            GridBox::ClipBox((rows, cols)) => (
                min(rows as int, point.0 + radius + 1),
                min(cols as int, point.1 + radius + 1),
            ),
            GridBox::Unclipped => (point.0 + radius + 1, point.1 + radius + 1),
        }
    }

    /// The neighbors of `point` within the given radius: the points of the
    /// square window around it that are in bounds, in row-major order,
    /// without `point` itself.
    pub open spec fn neighborhood(self, point: (int, int), radius: int) -> Seq<(int, int)> {
        window_without(self.window_start(point, radius), self.window_end(point, radius), point)
    }

    /// The first `n` points of the beam from `loc` with the given step, or
    /// all of them where the beam ends before: each point is the one before
    /// it moved by the step, and the beam ends with the first point out of
    /// bounds.
    pub open spec fn beam_points(self, loc: (int, int), step: (int, int), n: nat) -> Seq<
        (int, int),
    >
        decreases n,
    {
        if n == 0 {
            Seq::empty()
        } else {
            match self.clipped(loc, step) {
                Some(p) => seq![p] + self.beam_points(p, step, (n - 1) as nat),
                None => Seq::empty(),
            }
        }
    }

    /// A number of points that no beam from `loc` with the given step
    /// exceeds, where the grid is clipped or the step is negative in a
    /// coordinate.
    pub open spec fn beam_bound(self, loc: (int, int), step: (int, int)) -> nat {
        if step.0 < 0 {
            max(0, loc.0) as nat
        } else if step.1 < 0 {
            max(0, loc.1) as nat
        } else {
            match self {
                GridBox::ClipBox((rows, cols)) => if step.0 > 0 {
                    max(0, rows - loc.0) as nat
                } else {
                    max(0, cols - loc.1) as nat
                },
                GridBox::Unclipped => 0,
            }
        }
    }

    /// Whether every beam with the given step ends: the grid is clipped, or
    /// the step is negative in a coordinate.
    pub open spec fn ends_beams(self, step: (int, int)) -> bool {
        &&& step.0 != 0 || step.1 != 0
        &&& self is ClipBox || step.0 < 0 || step.1 < 0
    }

    /// The neighbors of a point within a radius are the points in bounds
    /// other than the point itself whose row and column differ from the
    /// point's by no more than the radius; they come in row-major order,
    /// and so each of them once.
    pub proof fn lemma_neighborhood(self, point: (int, int), radius: int)
        ensures
            forall|p: (int, int)| #[trigger]
                self.neighborhood(point, radius).contains(p) <==> ({
                    &&& self.admits(p)
                    &&& p != point
                    &&& -radius <= p.0 - point.0 <= radius
                    &&& -radius <= p.1 - point.1 <= radius
                }),
            forall|i: int, j: int|
                0 <= i < j < self.neighborhood(point, radius).len() ==> row_major_before(
                    #[trigger] self.neighborhood(point, radius)[i],
                    #[trigger] self.neighborhood(point, radius)[j],
                ),
    {
        lemma_window_without(
            self.window_start(point, radius),
            self.window_end(point, radius),
            point,
        );
    }

    /// The point at an index of a beam is the start moved by the step once
    /// more than the index says, and it is in bounds.
    pub proof fn lemma_beam_point(self, loc: (int, int), step: (int, int), n: nat, k: int)
        requires
            0 <= k < self.beam_points(loc, step, n).len(),
        ensures
            self.beam_points(loc, step, n)[k] == (
                loc.0 + (k + 1) * step.0,
                loc.1 + (k + 1) * step.1,
            ),
            self.admits(self.beam_points(loc, step, n)[k]),
        decreases n,
    {
        let p = (loc.0 + step.0, loc.1 + step.1);
        if k == 0 {
            assert(1 * step.0 == step.0 && 1 * step.1 == step.1) by (nonlinear_arith);
        } else {
            self.lemma_beam_point(p, step, (n - 1) as nat, k - 1);
            assert((k + 1) * step.0 == step.0 + k * step.0 && (k + 1) * step.1 == step.1 + k
                * step.1) by (nonlinear_arith);
        }
    }

    /// A beam never has more points than were asked for, and asking for
    /// more points only adds points at the end.
    pub proof fn lemma_beam_grows(self, loc: (int, int), step: (int, int), n: nat, m: nat)
        requires
            n <= m,
        ensures
            self.beam_points(loc, step, n).len() <= n,
            self.beam_points(loc, step, n).is_prefix_of(self.beam_points(loc, step, m)),
            self.beam_points(loc, step, n).len() < n ==> self.beam_points(loc, step, m)
                == self.beam_points(loc, step, n),
        decreases n,
    {
        if n > 0 {
            match self.clipped(loc, step) {
                Some(p) => {
                    self.lemma_beam_grows(p, step, (n - 1) as nat, (m - 1) as nat);
                },
                None => {},
            }
        }
    }

    /// On a clipped grid, and with a step that is negative in a coordinate,
    /// every beam ends: it has no more points than its bound.
    pub proof fn lemma_beam_ends(self, loc: (int, int), step: (int, int), n: nat)
        requires
            self.ends_beams(step),
        ensures
            self.beam_points(loc, step, n).len() <= self.beam_bound(loc, step),
        decreases n,
    {
        if n > 0 {
            match self.clipped(loc, step) {
                Some(p) => {
                    self.lemma_beam_ends(p, step, (n - 1) as nat);
                },
                None => {},
            }
        }
    }

    /// A beam that ends has all its points among the first so many as its
    /// bound says: asking for more gives no more.
    pub proof fn lemma_beam_whole(self, loc: (int, int), step: (int, int), n: nat)
        requires
            self.ends_beams(step),
            n >= self.beam_bound(loc, step),
        ensures
            self.beam_points(loc, step, n) == self.beam_points(
                loc,
                step,
                self.beam_bound(loc, step),
            ),
    {
        self.lemma_beam_grows(loc, step, self.beam_bound(loc, step), n);
        self.lemma_beam_ends(loc, step, n);
    }

    /// On an unclipped grid, a beam whose first point is in bounds and whose
    /// step is negative in neither coordinate never ends.
    pub proof fn lemma_beam_unending(self, loc: (int, int), step: (int, int), n: nat)
        requires
            self is Unclipped,
            step.0 >= 0 && step.1 >= 0,
            loc.0 + step.0 >= 0 && loc.1 + step.1 >= 0,
        ensures
            self.beam_points(loc, step, n).len() == n,
        decreases n,
    {
        if n > 0 {
            self.lemma_beam_unending((loc.0 + step.0, loc.1 + step.1), step, (n - 1) as nat);
        }
    }

    /// Create a clip box for neighbor calculations.
    pub fn new<T>(row_size: T, col_size: T) -> (grid: GridBox) where T: ConvertInto<i64>
        requires
            row_size.representable(),
            col_size.representable(),
        ensures
            grid == GridBox::ClipBox((row_size.converted(), col_size.converted())),
            grid.wf() <==> row_size.converted() >= 0 && col_size.converted() >= 0,
    {
        GridBox::ClipBox((row_size.convert_into(), col_size.convert_into()))
    }

    /// Create an "unbounded clip box" for neighbor calculations. **Negative
    /// locations will still be clipped.**
    pub fn new_grid() -> (grid: GridBox)
        ensures
            grid == GridBox::Unclipped,
            grid.wf(),
    {
        GridBox::Unclipped
    }

    /// Return the source location adjusted by the given offset iff the
    /// destination is in bounds. This is useful when "manual" clipping is
    /// needed. A destination in bounds must fit in the location's type.
    pub fn clip<T, U>(&self, loc: (T, T), off: (U, U)) -> (out: Option<(T, T)>) where
        T: ConvertInto<i64>,
        i64: ConvertInto<T>,
        U: ConvertInto<i64>,

        requires
            loc.0.representable(),
            loc.1.representable(),
            off.0.representable(),
            off.1.representable(),
            self.clipped(
                (loc.0.converted() as int, loc.1.converted() as int),
                (off.0.converted() as int, off.1.converted() as int),
            ) matches Some(p) ==> ({
                &&& p.0 <= i64::MAX && (p.0 as i64).representable()
                &&& p.1 <= i64::MAX && (p.1 as i64).representable()
            }),
        ensures
            match self.clipped(
                (loc.0.converted() as int, loc.1.converted() as int),
                (off.0.converted() as int, off.1.converted() as int),
            ) {
                Some(p) => out == Some(((p.0 as i64).converted(), (p.1 as i64).converted())),
                None => out is None,
            },
            *self is Unclipped ==> (out is Some <==> loc.0.converted() + off.0.converted() >= 0
                && loc.1.converted() + off.1.converted() >= 0),
    {
        let r: i64 = loc.0.convert_into();
        let c: i64 = loc.1.convert_into();
        let dr: i64 = off.0.convert_into();
        let dc: i64 = off.1.convert_into();
        // The sums are formed in 128 bits: a destination out of bounds need
        // not fit in 64.
        let nr = r as i128 + dr as i128;
        let nc = c as i128 + dc as i128;
        if nr < 0 || nc < 0 {
            return None;
        }
        if let GridBox::ClipBox((row_size, col_size)) = *self {
            if nr >= row_size as i128 || nc >= col_size as i128 {
                return None;
            }
        };
        let nr: i64 = nr.convert_into();
        let nc: i64 = nc.convert_into();
        Some((nr.convert_into(), nc.convert_into()))
    }

    /// Return a cursor that will produce the neighbors of the given
    /// location within the given distance, clipped as needed. The location
    /// must be in bounds and the distance positive; on an unclipped grid the
    /// window must end below the largest `i64`.
    pub fn neighbors<T, U>(&self, location: (T, T), dist: U) -> (out: Neighbors<T>) where
        T: ConvertInto<i64>,
        i64: ConvertInto<T>,
        U: ConvertInto<i64>,

        requires
            location.0.representable(),
            location.1.representable(),
            dist.representable(),
            self.admits((location.0.converted() as int, location.1.converted() as int)),
            dist.converted() > 0,
            *self is Unclipped ==> location.0.converted() + dist.converted() < i64::MAX
                && location.1.converted() + dist.converted() < i64::MAX,
        ensures
            out.remaining() == self.neighborhood(
                (location.0.converted() as int, location.1.converted() as int),
                dist.converted() as int,
            ),
    {
        let r: i64 = location.0.convert_into();
        let c: i64 = location.1.convert_into();
        Neighbors::new(self, (r, c), dist.convert_into())
    }

    /// Return a cursor that will produce a beam from the given location in
    /// the given direction, stopping at a grid boundary. The step may not be
    /// zero in both coordinates.
    pub fn beam<T, U>(&self, location: (T, T), step: (U, U)) -> (out: Beam<'_, T>) where
        T: ConvertInto<i64>,
        i64: ConvertInto<T>,
        U: ConvertInto<i64>,

        requires
            location.0.representable(),
            location.1.representable(),
            step.0.representable(),
            step.1.representable(),
            step.0.converted() != 0 || step.1.converted() != 0,
        ensures
            out.grid() == *self,
            out.position() == (location.0.converted() as int, location.1.converted() as int),
            out.step() == (step.0.converted() as int, step.1.converted() as int),
    {
        let r: i64 = location.0.convert_into();
        let c: i64 = location.1.convert_into();
        let dr: i64 = step.0.convert_into();
        let dc: i64 = step.1.convert_into();
        Beam::new(self, (r, c), (dr, dc))
    }
}

/// Number of points that a cursor standing at `loc` has passed: the points
/// of the window before `loc` in row-major order, other than the origin.
spec fn passed(start: (int, int), end: (int, int), origin: (int, int), loc: (int, int)) -> int {
    if loc.0 >= end.0 {
        window_without(start, end, origin).len() as int
    } else if inside(start, end, origin) && position(start, end, origin) < position(
        start,
        end,
        loc,
    ) {
        position(start, end, loc) - 1
    } else {
        position(start, end, loc)
    }
}

/// The points that a cursor standing at `loc` has yet to yield.
spec fn points_from(start: (int, int), end: (int, int), origin: (int, int), loc: (int, int)) -> Seq<
    (int, int),
> {
    let all = window_without(start, end, origin);
    let k = passed(start, end, origin, loc);
    if 0 <= k < all.len() {
        all.skip(k)
    } else {
        Seq::empty()
    }
}

/// Where a cursor may stand: in the window, at the end of one of its rows,
/// or at the start of the row past the last.
spec fn in_reach(start: (int, int), end: (int, int), loc: (int, int)) -> bool {
    &&& start.0 <= loc.0 <= max(start.0, end.0)
    &&& start.1 <= loc.1 <= max(start.1, end.1)
}

/// A cursor at the end of a row has the same points ahead of it as one at
/// the start of the next row.
proof fn lemma_points_from_row_end(
    start: (int, int),
    end: (int, int),
    origin: (int, int),
    loc: (int, int),
)
    requires
        in_reach(start, end, loc),
        loc.0 < end.0,
        loc.1 >= end.1,
    ensures
        points_from(start, end, origin, (loc.0 + 1, start.1)) == points_from(
            start,
            end,
            origin,
            loc,
        ),
{
    let w = width(start, end);
    assert((loc.0 + 1 - start.0) * w == (loc.0 - start.0) * w + w) by (nonlinear_arith);
    if inside(start, end, origin) {
        lemma_point_at_position(start, end, origin);
    }
}

/// A cursor on a point other than the origin has that point ahead of it,
/// followed by what a cursor on the next column has ahead of it.
proof fn lemma_points_from_point(
    start: (int, int),
    end: (int, int),
    origin: (int, int),
    loc: (int, int),
)
    requires
        inside(start, end, loc),
        loc != origin,
    ensures
        points_from(start, end, origin, loc).len() > 0,
        points_from(start, end, origin, loc)[0] == loc,
        points_from(start, end, origin, (loc.0, loc.1 + 1)) == points_from(
            start,
            end,
            origin,
            loc,
        ).skip(1),
{
    lemma_window_without_at(start, end, origin, loc);
    if inside(start, end, origin) {
        // Two points of the window do not share a position.
        lemma_point_at_position(start, end, origin);
        lemma_point_at_position(start, end, loc);
    }
}

/// Cursor over the neighbors of a point: the points of the square window
/// around it, clipped as appropriate, in row-major order and without the
/// point itself.
pub struct Neighbors<T> {
    // Origin.
    orig: (i64, i64),
    // Current location.
    loc: (i64, i64),
    // Upper-left corner.
    start: (i64, i64),
    // Lower-right corner.
    end: (i64, i64),
    // Phantom type for the points that the cursor yields.
    phantom: PhantomData<T>,
}

impl<T> Neighbors<T> {
    #[verifier::type_invariant]
    spec fn well_formed(self) -> bool {
        in_reach(
            (self.start.0 as int, self.start.1 as int),
            (self.end.0 as int, self.end.1 as int),
            (self.loc.0 as int, self.loc.1 as int),
        )
    }

    /// The points that the cursor has yet to yield, in order.
    pub closed spec fn remaining(self) -> Seq<(int, int)> {
        points_from(
            (self.start.0 as int, self.start.1 as int),
            (self.end.0 as int, self.end.1 as int),
            (self.orig.0 as int, self.orig.1 as int),
            (self.loc.0 as int, self.loc.1 as int),
        )
    }

    /// Return a cursor over the neighbors of the given origin within the
    /// given distance, clipped to the given grid box. On an unclipped grid
    /// the window must end below the largest `i64`.
    pub fn new(bounds: &GridBox, orig: (i64, i64), dist: i64) -> (out: Self)
        requires
            dist > 0,
            *bounds is Unclipped ==> orig.0 + dist < i64::MAX && orig.1 + dist < i64::MAX,
        ensures
            out.remaining() == bounds.neighborhood((orig.0 as int, orig.1 as int), dist as int),
    {
        let (r, c) = orig;
        // The corners are formed in 128 bits: a corner that clipping
        // replaces need not fit in 64.
        let top = r as i128 - dist as i128;
        let left = c as i128 - dist as i128;
        let start: (i64, i64) = (
            if top < 0 {
                0
            } else {
                top.convert_into()
            },
            if left < 0 {
                0
            } else {
                left.convert_into()
            },
        );
        let bottom = r as i128 + dist as i128 + 1;
        let right = c as i128 + dist as i128 + 1;
        let end: (i64, i64) = if let GridBox::ClipBox((rows, cols)) = *bounds {
            (
                if rows as i128 <= bottom {
                    rows
                } else {
                    bottom.convert_into()
                },
                if cols as i128 <= right {
                    cols
                } else {
                    right.convert_into()
                },
            )
        } else {
            (bottom.convert_into(), right.convert_into())
        };
        Neighbors { orig, loc: start, start, end, phantom: PhantomData }
    }

    /// Moves the cursor past the next neighbor and returns it.
    fn advance(&mut self) -> (out: Option<(i64, i64)>)
        ensures
            match out {
                Some(p) => {
                    &&& old(self).remaining().len() > 0
                    &&& old(self).remaining()[0] == (p.0 as int, p.1 as int)
                    &&& final(self).remaining() == old(self).remaining().skip(1)
                },
                None => old(self).remaining().len() == 0 && final(self).remaining().len() == 0,
            },
    {
        proof {
            use_type_invariant(&*self);
        }
        loop
            invariant
                self.well_formed(),
                self.remaining() == old(self).remaining(),
            decreases max(0, self.end.0 - self.loc.0), max(0, self.end.1 - self.loc.1),
        {
            let ghost start = (self.start.0 as int, self.start.1 as int);
            let ghost end = (self.end.0 as int, self.end.1 as int);
            let ghost origin = (self.orig.0 as int, self.orig.1 as int);
            let ghost loc = (self.loc.0 as int, self.loc.1 as int);
            if self.loc.0 >= self.end.0 {
                return None;
            }
            if self.loc.1 >= self.end.1 {
                proof {
                    lemma_points_from_row_end(start, end, origin, loc);
                }
                self.loc = (self.loc.0 + 1, self.start.1);
                continue ;
            }
            if self.loc.0 == self.orig.0 && self.loc.1 == self.orig.1 {
                self.loc.1 += 1;
                continue ;
            }
            proof {
                lemma_points_from_point(start, end, origin, loc);
            }
            let result = self.loc;
            self.loc.1 += 1;
            return Some(result);
        }
    }

    /// Return the next neighbor of the origin, which must fit in the
    /// cursor's point type, or `None` when all neighbors have been
    /// returned.
    pub fn next(&mut self) -> (out: Option<(T, T)>) where i64: ConvertInto<T>
        requires
            old(self).remaining().len() > 0 ==> ({
                let p = old(self).remaining()[0];
                (p.0 as i64).representable() && (p.1 as i64).representable()
            }),
        ensures
            old(self).remaining().len() == 0 ==> out is None && final(self).remaining().len() == 0,
            old(self).remaining().len() > 0 ==> ({
                let p = old(self).remaining()[0];
                &&& out == Some(((p.0 as i64).converted(), (p.1 as i64).converted()))
                &&& final(self).remaining() == old(self).remaining().skip(1)
            }),
    {
        match self.advance() {
            Some((r, c)) => Some((r.convert_into(), c.convert_into())),
            None => None,
        }
    }

    /// Return the neighbors that the cursor has yet to yield, in order,
    /// leaving the cursor with none. Each of them must fit in the cursor's
    /// point type.
    pub fn collect(&mut self) -> (out: Vec<(T, T)>) where i64: ConvertInto<T>
        requires
            forall|i: int|
                0 <= i < old(self).remaining().len() ==> (#[trigger] old(self).remaining()[i].0
                    as i64).representable() && (old(self).remaining()[i].1
                    as i64).representable(),
        ensures
            final(self).remaining().len() == 0,
            out@.len() == old(self).remaining().len(),
            forall|i: int|
                0 <= i < out@.len() ==> #[trigger] out@[i] == (
                    (old(self).remaining()[i].0 as i64).converted(),
                    (old(self).remaining()[i].1 as i64).converted(),
                ),
    {
        let ghost all = self.remaining();
        let mut out: Vec<(T, T)> = Vec::new();
        loop
            invariant
                all == old(self).remaining(),
                out@.len() <= all.len(),
                self.remaining() == all.skip(out@.len() as int),
                forall|i: int|
                    0 <= i < all.len() ==> (#[trigger] all[i].0 as i64).representable() && (
                    all[i].1 as i64).representable(),
                forall|i: int|
                    0 <= i < out@.len() ==> #[trigger] out@[i] == (
                        (all[i].0 as i64).converted(),
                        (all[i].1 as i64).converted(),
                    ),
            ensures
                self.remaining().len() == 0,
                out@.len() == all.len(),
                forall|i: int|
                    0 <= i < out@.len() ==> #[trigger] out@[i] == (
                        (all[i].0 as i64).converted(),
                        (all[i].1 as i64).converted(),
                    ),
            decreases all.len() - out@.len(),
        {
            match self.advance() {
                Some((r, c)) => {
                    out.push((r.convert_into(), c.convert_into()));
                },
                None => {
                    break ;
                },
            }
        }
        out
    }
}

/// Cursor over a beam: the points reached from a location by repeating a
/// step, until the edge of the grid is reached.
pub struct Beam<'a, T> {
    // Clipper.
    clip: &'a GridBox,
    // Current location.
    loc: (i64, i64),
    // Step direction.
    step: (i64, i64),
    // Phantom type for the points that the cursor yields.
    phantom: PhantomData<T>,
}

impl<'a, T> Beam<'a, T> {
    #[verifier::type_invariant]
    spec fn well_formed(self) -> bool {
        self.step.0 != 0 || self.step.1 != 0
    }

    /// The grid that clips the beam.
    pub closed spec fn grid(self) -> GridBox {
        *self.clip
    }

    /// The location that the beam has reached.
    pub closed spec fn position(self) -> (int, int) {
        (self.loc.0 as int, self.loc.1 as int)
    }

    /// The step from one point of the beam to the next.
    pub closed spec fn step(self) -> (int, int) {
        (self.step.0 as int, self.step.1 as int)
    }

    /// The next point of the beam, if the beam has not reached the edge of
    /// the grid.
    pub open spec fn upcoming(self) -> Option<(int, int)> {
        self.grid().clipped(self.position(), self.step())
    }

    /// Return a cursor stepping in the given direction until edge-of-grid
    /// is reached. The step may not be zero in both coordinates.
    pub fn new(clip: &'a GridBox, loc: (i64, i64), step: (i64, i64)) -> (out: Self)
        requires
            step.0 != 0 || step.1 != 0,
        ensures
            out.grid() == *clip,
            out.position() == (loc.0 as int, loc.1 as int),
            out.step() == (step.0 as int, step.1 as int),
    {
        Beam { clip, loc, step, phantom: PhantomData }
    }

    /// Step to the next point of the beam and return it, or return `None`
    /// and stay when that point is out of bounds. A point in bounds must
    /// fit in the cursor's point type.
    pub fn next(&mut self) -> (out: Option<(T, T)>) where i64: ConvertInto<T>
        requires
            old(self).upcoming() matches Some(p) ==> ({
                &&& p.0 <= i64::MAX && (p.0 as i64).representable()
                &&& p.1 <= i64::MAX && (p.1 as i64).representable()
            }),
        ensures
            final(self).grid() == old(self).grid(),
            final(self).step() == old(self).step(),
            match old(self).upcoming() {
                Some(p) => {
                    &&& out == Some(((p.0 as i64).converted(), (p.1 as i64).converted()))
                    &&& final(self).position() == p
                },
                None => out is None && final(self).position() == old(self).position(),
            },
    {
        proof {
            use_type_invariant(&*self);
        }
        match self.clip.clip::<i64, i64>(self.loc, self.step) {
            Some(l) => {
                self.loc = l;
                Some((l.0.convert_into(), l.1.convert_into()))
            },
            None => None,
        }
    }

    /// The first `n` points ahead of the cursor, or all of them where the
    /// beam ends before.
    pub open spec fn ahead(self, n: nat) -> Seq<(int, int)> {
        self.grid().beam_points(self.position(), self.step(), n)
    }

    /// Step along the beam up to `n` times and return the points passed:
    /// the first `n` points of the beam, or all of them where the beam ends
    /// before. Each of them must fit in the cursor's point type.
    pub fn take(&mut self, n: usize) -> (out: Vec<(T, T)>) where i64: ConvertInto<T>
        requires
            forall|i: int|
                0 <= i < old(self).ahead(n as nat).len() ==> ({
                    let p = #[trigger] old(self).ahead(n as nat)[i];
                    &&& p.0 <= i64::MAX && (p.0 as i64).representable()
                    &&& p.1 <= i64::MAX && (p.1 as i64).representable()
                }),
        ensures
            final(self).grid() == old(self).grid(),
            final(self).step() == old(self).step(),
            final(self).position() == if old(self).ahead(n as nat).len() > 0 {
                old(self).ahead(n as nat).last()
            } else {
                old(self).position()
            },
            out@.len() == old(self).ahead(n as nat).len(),
            forall|i: int|
                0 <= i < out@.len() ==> #[trigger] out@[i] == (
                    (old(self).ahead(n as nat)[i].0 as i64).converted(),
                    (old(self).ahead(n as nat)[i].1 as i64).converted(),
                ),
    {
        let ghost all = self.ahead(n as nat);
        let mut out: Vec<(T, T)> = Vec::new();
        proof {
            self.grid().lemma_beam_grows(self.position(), self.step(), n as nat, n as nat);
        }
        while out.len() < n
            invariant
                self.grid() == old(self).grid(),
                self.step() == old(self).step(),
                all == old(self).ahead(n as nat),
                out@.len() <= all.len() <= n,
                all == all.subrange(0, out@.len() as int) + self.ahead((n - out@.len()) as nat),
                self.position() == if out@.len() > 0 {
                    all[out@.len() - 1]
                } else {
                    old(self).position()
                },
                forall|i: int|
                    0 <= i < all.len() ==> ({
                        let p = #[trigger] all[i];
                        &&& p.0 <= i64::MAX && (p.0 as i64).representable()
                        &&& p.1 <= i64::MAX && (p.1 as i64).representable()
                    }),
                forall|i: int|
                    0 <= i < out@.len() ==> #[trigger] out@[i] == (
                        (all[i].0 as i64).converted(),
                        (all[i].1 as i64).converted(),
                    ),
            ensures
                self.grid() == old(self).grid(),
                self.step() == old(self).step(),
                out@.len() == all.len(),
                self.position() == if out@.len() > 0 {
                    all[out@.len() - 1]
                } else {
                    old(self).position()
                },
                forall|i: int|
                    0 <= i < out@.len() ==> #[trigger] out@[i] == (
                        (all[i].0 as i64).converted(),
                        (all[i].1 as i64).converted(),
                    ),
            decreases n - out@.len(),
        {
            let ghost k = out@.len() as int;
            let ghost rest = self.ahead((n - k) as nat);
            proof {
                if rest.len() > 0 {
                    assert(all[k] == rest[0]);
                }
            }
            match self.next() {
                Some(p) => {
                    proof {
                        assert(rest == seq![rest[0]] + self.ahead((n - k - 1) as nat));
                    }
                    out.push(p);
                },
                None => {
                    break ;
                },
            }
        }
        out
    }

    /// A number of points that the beam ahead of the cursor does not
    /// exceed, where the beam is one that ends.
    pub open spec fn bound(self) -> nat {
        self.grid().beam_bound(self.position(), self.step())
    }

    /// Step along the beam to its end and return the points passed. The
    /// beam must be one that ends: the grid is clipped, or the step is
    /// negative in a coordinate. Each point must fit in the cursor's point
    /// type.
    pub fn collect(&mut self) -> (out: Vec<(T, T)>) where i64: ConvertInto<T>
        requires
            old(self).grid().ends_beams(old(self).step()),
            forall|i: int|
                0 <= i < old(self).ahead(old(self).bound()).len() ==> ({
                    let p = #[trigger] old(self).ahead(old(self).bound())[i];
                    &&& p.0 <= i64::MAX && (p.0 as i64).representable()
                    &&& p.1 <= i64::MAX && (p.1 as i64).representable()
                }),
        ensures
            final(self).grid() == old(self).grid(),
            final(self).step() == old(self).step(),
            final(self).upcoming() is None,
            final(self).position() == if old(self).ahead(old(self).bound()).len() > 0 {
                old(self).ahead(old(self).bound()).last()
            } else {
                old(self).position()
            },
            out@.len() == old(self).ahead(old(self).bound()).len(),
            forall|i: int|
                0 <= i < out@.len() ==> #[trigger] out@[i] == (
                    (old(self).ahead(old(self).bound())[i].0 as i64).converted(),
                    (old(self).ahead(old(self).bound())[i].1 as i64).converted(),
                ),
    {
        let ghost total = self.bound();
        let ghost all = self.ahead(total);
        let mut out: Vec<(T, T)> = Vec::new();
        loop
            invariant
                self.grid() == old(self).grid(),
                self.step() == old(self).step(),
                self.grid().ends_beams(self.step()),
                all == old(self).ahead(old(self).bound()),
                out@.len() <= all.len(),
                out@.len() + self.bound() <= total,
                all == all.subrange(0, out@.len() as int) + self.ahead((total - out@.len()) as nat),
                self.position() == if out@.len() > 0 {
                    all[out@.len() - 1]
                } else {
                    old(self).position()
                },
                forall|i: int|
                    0 <= i < all.len() ==> ({
                        let p = #[trigger] all[i];
                        &&& p.0 <= i64::MAX && (p.0 as i64).representable()
                        &&& p.1 <= i64::MAX && (p.1 as i64).representable()
                    }),
                forall|i: int|
                    0 <= i < out@.len() ==> #[trigger] out@[i] == (
                        (all[i].0 as i64).converted(),
                        (all[i].1 as i64).converted(),
                    ),
            ensures
                self.grid() == old(self).grid(),
                self.step() == old(self).step(),
                self.upcoming() is None,
                out@.len() == all.len(),
                self.position() == if out@.len() > 0 {
                    all[out@.len() - 1]
                } else {
                    old(self).position()
                },
                forall|i: int|
                    0 <= i < out@.len() ==> #[trigger] out@[i] == (
                        (all[i].0 as i64).converted(),
                        (all[i].1 as i64).converted(),
                    ),
            decreases self.bound(),
        {
            let ghost k = out@.len() as int;
            let ghost rest = self.ahead((total - k) as nat);
            proof {
                if self.upcoming() is Some {
                    assert(all[k] == rest[0]);
                }
            }
            match self.next() {
                Some(p) => {
                    proof {
                        assert(rest == seq![rest[0]] + self.ahead((total - k - 1) as nat));
                    }
                    out.push(p);
                },
                None => {
                    break ;
                },
            }
        }
        out
    }
}

/// The four unit displacements along the axes, in the order up, left,
/// down, right.
pub open spec fn axis_offsets() -> Seq<(int, int)> {
    Seq::new(4, |i: int| Dirn::facing(i).delta())
}

/// The offsets within the given radius of the origin in both coordinates,
/// in row-major order, without the zero offset.
pub open spec fn chebyshev_offsets(radius: int) -> Seq<(int, int)> {
    window_without((-radius, -radius), (radius + 1, radius + 1), (0, 0))
}

/// The sum of the absolute differences of the coordinates.
pub open spec fn manhattan(p: (int, int), q: (int, int)) -> nat {
    abs(p.0 - q.0) + abs(p.1 - q.1)
}

/// The four unit displacements along the axes, in the order up, left, down,
/// right. The target type must be able to hold -1.
pub fn neighbors4<T>() -> (out: Vec<(T, T)>) where i64: ConvertInto<T>
    requires
        forall|v: i64| -1 <= v <= 1 ==> #[trigger] v.representable(),
    ensures
        out@.len() == 4,
        forall|i: int|
            0 <= i < 4 ==> #[trigger] out@[i] == (
                (axis_offsets()[i].0 as i64).converted(),
                (axis_offsets()[i].1 as i64).converted(),
            ),
{
    let mut out: Vec<(T, T)> = Vec::new();
    let mut i: usize = 0;
    while i < 4
        invariant
            i <= 4,
            out@.len() == i,
            forall|v: i64| -1 <= v <= 1 ==> #[trigger] v.representable(),
            forall|j: int|
                0 <= j < i ==> #[trigger] out@[j] == (
                    (axis_offsets()[j].0 as i64).converted(),
                    (axis_offsets()[j].1 as i64).converted(),
                ),
        decreases 4 - i,
    {
        let (r, c) = DIRNS[i];
        out.push((r.convert_into(), c.convert_into()));
        i += 1;
    }
    out
}

/// The offsets within the given distance of the origin in both coordinates,
/// in row-major order, without the zero offset. The distance must be
/// positive, the target type must hold every coordinate from the negated
/// distance to the distance, and the number of offsets must fit in `usize`.
pub fn neighbors8<T, U>(dist: T) -> (out: Vec<(U, U)>) where
    T: ConvertInto<i64>,
    i64: ConvertInto<U>,

    requires
        dist.representable(),
        dist.converted() > 0,
        (2 * dist.converted() + 1) * (2 * dist.converted() + 1) - 1 <= usize::MAX,
        forall|v: i64| -dist.converted() <= v <= dist.converted() ==> #[trigger] v.representable(),
    ensures
        out@.len() == chebyshev_offsets(dist.converted() as int).len(),
        out@.len() == (2 * dist.converted() + 1) * (2 * dist.converted() + 1) - 1,
        forall|i: int|
            0 <= i < out@.len() ==> #[trigger] out@[i] == (
                (chebyshev_offsets(dist.converted() as int)[i].0 as i64).converted(),
                (chebyshev_offsets(dist.converted() as int)[i].1 as i64).converted(),
            ),
{
    let dist: i64 = dist.convert_into();
    let ghost offsets = chebyshev_offsets(dist as int);
    proof {
        assert(dist < i64::MAX) by (nonlinear_arith)
            requires
                dist > 0,
                (2 * dist + 1) * (2 * dist + 1) - 1 <= u64::MAX,
        ;
        lemma_window_without((-dist, -dist), (dist + 1, dist + 1), (0, 0));
    }
    let mut cursor: Neighbors<U> = Neighbors {
        orig: (0, 0),
        loc: (-dist, -dist),
        start: (-dist, -dist),
        end: (dist + 1, dist + 1),
        phantom: PhantomData,
    };
    let mut out: Vec<(U, U)> = Vec::new();
    loop
        invariant
            out@.len() <= offsets.len(),
            cursor.remaining() == offsets.skip(out@.len() as int),
            offsets == chebyshev_offsets(dist as int),
            forall|p: (int, int)| #[trigger]
                offsets.contains(p) ==> -dist <= p.0 <= dist && -dist <= p.1 <= dist,
            forall|v: i64| -dist <= v <= dist ==> #[trigger] v.representable(),
            forall|i: int|
                0 <= i < out@.len() ==> #[trigger] out@[i] == (
                    (offsets[i].0 as i64).converted(),
                    (offsets[i].1 as i64).converted(),
                ),
        ensures
            out@.len() == offsets.len(),
            forall|i: int|
                0 <= i < out@.len() ==> #[trigger] out@[i] == (
                    (offsets[i].0 as i64).converted(),
                    (offsets[i].1 as i64).converted(),
                ),
        decreases offsets.len() - out@.len(),
    {
        let ghost n = out@.len() as int;
        match cursor.advance() {
            Some((r, c)) => {
                proof {
                    assert(offsets.contains(offsets[n]));
                }
                out.push((r.convert_into(), c.convert_into()));
            },
            None => {
                break ;
            },
        }
    }
    out
}

/// The ["Manhattan Distance"][1] between two points, which must fit in the
/// target type.
///
/// [1]: http://en.wikipedia.org/wiki/Taxicab_geometry
pub fn manhattan_distance<T, U>(p: (T, T), q: (T, T)) -> (out: U) where
    T: ConvertInto<i64>,
    i64: ConvertInto<U>,

    requires
        p.0.representable(),
        p.1.representable(),
        q.0.representable(),
        q.1.representable(),
        ({
            let d = manhattan(
                (p.0.converted() as int, p.1.converted() as int),
                (q.0.converted() as int, q.1.converted() as int),
            );
            d <= i64::MAX && (d as i64).representable()
        }),
    ensures
        out == (manhattan(
            (p.0.converted() as int, p.1.converted() as int),
            (q.0.converted() as int, q.1.converted() as int),
        ) as i64).converted(),
{
    let r1: i64 = p.0.convert_into();
    let c1: i64 = p.1.convert_into();
    let r2: i64 = q.0.convert_into();
    let c2: i64 = q.1.convert_into();
    // The differences are formed in 128 bits: only their sum needs to fit.
    let dr = r1 as i128 - r2 as i128;
    let dc = c1 as i128 - c2 as i128;
    let dr = if dr < 0 {
        -dr
    } else {
        dr
    };
    let dc = if dc < 0 {
        -dc
    } else {
        dc
    };
    let d: i64 = (dr + dc).convert_into();
    d.convert_into()
}

} // verus!
