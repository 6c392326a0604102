//! Rectangular windows of grid points, enumerated row by row.
//!
//! A window is given by its first point `start` and by `end`, the point one
//! past its last row and last column. A window whose end does not lie beyond
//! its start in both coordinates has no points.

use vstd::prelude::*;
use vstd::arithmetic::div_mod::*;
use vstd::arithmetic::mul::*;
use vstd::math::max;

verus! {

/// Number of columns of the window.
pub open spec fn width(start: (int, int), end: (int, int)) -> int {
    max(0, end.1 - start.1)
}

/// Number of rows of the window.
pub open spec fn height(start: (int, int), end: (int, int)) -> int {
    max(0, end.0 - start.0)
}

/// Whether the point lies in the window.
pub open spec fn inside(start: (int, int), end: (int, int), p: (int, int)) -> bool {
    start.0 <= p.0 < end.0 && start.1 <= p.1 < end.1
}

/// Number of window points that come before `p` in row-major order, for a
/// point in the window or at the end of one of its rows.
pub open spec fn position(start: (int, int), end: (int, int), p: (int, int)) -> int {
    (p.0 - start.0) * width(start, end) + (p.1 - start.1)
}

/// The points of the window in row-major order.
pub open spec fn window_points(start: (int, int), end: (int, int)) -> Seq<(int, int)> {
    Seq::new(
        (height(start, end) * width(start, end)) as nat,
        |i: int| (start.0 + i / width(start, end), start.1 + i % width(start, end)),
    )
}

/// The points of the window in row-major order, leaving out `origin`.
pub open spec fn window_without(start: (int, int), end: (int, int), origin: (int, int)) -> Seq<
    (int, int),
> {
    if inside(start, end, origin) {
        window_points(start, end).remove(position(start, end, origin))
    } else {
        window_points(start, end)
    }
}

/// `p` comes before `q` in row-major order.
pub open spec fn row_major_before(p: (int, int), q: (int, int)) -> bool {
    p.0 < q.0 || (p.0 == q.0 && p.1 < q.1)
}

/// The window has as many points as its height times its width, and none
/// when either is zero.
pub proof fn lemma_window_len(start: (int, int), end: (int, int))
    ensures
        window_points(start, end).len() == height(start, end) * width(start, end),
        height(start, end) * width(start, end) >= 0,
        height(start, end) == 0 || width(start, end) == 0 ==> window_points(start, end).len() == 0,
{
    lemma_mul_nonnegative(height(start, end), width(start, end));
    lemma_mul_basics(width(start, end));
    lemma_mul_basics(height(start, end));
}

/// A point of the window stands at its position in the enumeration.
pub proof fn lemma_point_at_position(start: (int, int), end: (int, int), p: (int, int))
    requires
        inside(start, end, p),
    ensures
        0 <= position(start, end, p) < window_points(start, end).len(),
        window_points(start, end)[position(start, end, p)] == p,
{
    let w = width(start, end);
    let h = height(start, end);
    let row = p.0 - start.0;
    let col = p.1 - start.1;
    assert(0 <= row * w + col < h * w) by (nonlinear_arith)
        requires
            0 <= row < h,
            0 <= col < w,
    ;
    lemma_fundamental_div_mod_converse(row * w + col, w, row, col);
}

/// The point at an index of the enumeration lies in the window, at the
/// position that the index names.
pub proof fn lemma_position_of_point(start: (int, int), end: (int, int), i: int)
    requires
        0 <= i < window_points(start, end).len(),
    ensures
        inside(start, end, window_points(start, end)[i]),
        position(start, end, window_points(start, end)[i]) == i,
{
    let w = width(start, end);
    let h = height(start, end);
    lemma_window_len(start, end);
    assert(w > 0);
    assert(0 <= i / w < h) by (nonlinear_arith)
        requires
            0 <= i < h * w,
            w > 0,
            i == (i / w) * w + i % w,
            0 <= i % w < w,
    ;
}

/// The enumeration of a window lists exactly the points of the window, each
/// once, in row-major order.
pub proof fn lemma_window_points(start: (int, int), end: (int, int))
    ensures
        forall|p: (int, int)| #[trigger]
            window_points(start, end).contains(p) <==> inside(start, end, p),
        forall|i: int, j: int|
            0 <= i < j < window_points(start, end).len() ==> row_major_before(
                #[trigger] window_points(start, end)[i],
                #[trigger] window_points(start, end)[j],
            ),
{
    let all = window_points(start, end);
    assert forall|p: (int, int)| #[trigger] all.contains(p) <==> inside(start, end, p) by {
        if inside(start, end, p) {
            lemma_point_at_position(start, end, p);
        }
        if all.contains(p) {
            let i = choose|i: int| 0 <= i < all.len() && all[i] == p;
            lemma_position_of_point(start, end, i);
        }
    }
    assert forall|i: int, j: int| 0 <= i < j < all.len() implies row_major_before(
        #[trigger] all[i],
        #[trigger] all[j],
    ) by {
        lemma_increasing(start, end, i, j);
    }
}

/// A point at an earlier index of the enumeration comes before a point at a
/// later index in row-major order.
proof fn lemma_increasing(start: (int, int), end: (int, int), i: int, j: int)
    requires
        0 <= i < j < window_points(start, end).len(),
    ensures
        row_major_before(window_points(start, end)[i], window_points(start, end)[j]),
{
    let w = width(start, end);
    lemma_position_of_point(start, end, i);
    lemma_position_of_point(start, end, j);
    let p = window_points(start, end)[i];
    let q = window_points(start, end)[j];
    assert(!(p.0 > q.0)) by (nonlinear_arith)
        requires
            (p.0 - start.0) * w + (p.1 - start.1) < (q.0 - start.0) * w + (q.1 - start.1),
            0 <= p.1 - start.1 < w,
            0 <= q.1 - start.1 < w,
    ;
}

/// The enumeration without the origin lists exactly the points of the
/// window other than the origin, each once, in row-major order.
pub proof fn lemma_window_without(start: (int, int), end: (int, int), origin: (int, int))
    ensures
        forall|p: (int, int)| #[trigger]
            window_without(start, end, origin).contains(p) <==> inside(start, end, p) && p
                != origin,
        forall|i: int, j: int|
            0 <= i < j < window_without(start, end, origin).len() ==> row_major_before(
                #[trigger] window_without(start, end, origin)[i],
                #[trigger] window_without(start, end, origin)[j],
            ),
        window_without(start, end, origin).len() == if inside(start, end, origin) {
            height(start, end) * width(start, end) - 1
        } else {
            height(start, end) * width(start, end)
        },
{
    let all = window_points(start, end);
    let rest = window_without(start, end, origin);
    lemma_window_points(start, end);
    if inside(start, end, origin) {
        let k = position(start, end, origin);
        lemma_point_at_position(start, end, origin);
        assert forall|p: (int, int)| #[trigger] rest.contains(p) <==> inside(start, end, p) && p
            != origin by {
            if rest.contains(p) {
                // The point stands in the window too, at an index other
                // than that of the origin.
                let i = choose|i: int| 0 <= i < rest.len() && rest[i] == p;
                let j = if i < k {
                    i
                } else {
                    i + 1
                };
                assert(all[j] == p);
                assert(all.contains(p));
            }
            if inside(start, end, p) && p != origin {
                lemma_point_at_position(start, end, p);
                let j = position(start, end, p);
                let i = if j < k {
                    j
                } else {
                    j - 1
                };
                assert(rest[i] == p);
            }
        }
    }
}

/// Where a point other than the origin stands in the enumeration without
/// the origin: at its position in the window, or one before where the
/// origin lies in the window and comes before the point.
pub proof fn lemma_window_without_at(
    start: (int, int),
    end: (int, int),
    origin: (int, int),
    p: (int, int),
)
    requires
        inside(start, end, p),
        p != origin,
    ensures
        ({
            let k = if inside(start, end, origin) && position(start, end, origin) < position(
                start,
                end,
                p,
            ) {
                position(start, end, p) - 1
            } else {
                position(start, end, p)
            };
            0 <= k < window_without(start, end, origin).len() && window_without(
                start,
                end,
                origin,
            )[k] == p
        }),
{
    lemma_point_at_position(start, end, p);
    if inside(start, end, origin) {
        lemma_point_at_position(start, end, origin);
    }
}

} // verus!
