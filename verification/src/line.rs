use crate::types2d::{Dimension2D, Vec2D};
use crate::util::approx::{ApproxFrom, ApproxInto};
use std::mem::swap;
use vstd::arithmetic::div_mod::lemma_fundamental_div_mod_converse;
use vstd::prelude::*;

verus! {

/// The distance between two coordinates.
pub open spec fn distance(a: int, b: int) -> int {
    if a <= b {
        b - a
    } else {
        a - b
    }
}

/// The axis along which a line from `p1` to `p2` is stepped: the one with the
/// greater extent, and Y where the two extents are equal.
pub open spec fn major_axis(p1: Vec2D<int>, p2: Vec2D<int>) -> Dimension2D {
    if distance(p1.x, p2.x) > distance(p1.y, p2.y) {
        Dimension2D::X
    } else {
        Dimension2D::Y
    }
}

/// The coordinate of `p` along `axis`.
pub open spec fn major(axis: Dimension2D, p: Vec2D<int>) -> int {
    match axis {
        Dimension2D::X => p.x,
        Dimension2D::Y => p.y,
    }
}

/// The coordinate of `p` along the axis other than `axis`.
pub open spec fn minor(axis: Dimension2D, p: Vec2D<int>) -> int {
    match axis {
        Dimension2D::X => p.y,
        Dimension2D::Y => p.x,
    }
}

/// The point with `along` on `axis` and `across` on the other axis.
pub open spec fn place(axis: Dimension2D, along: int, across: int) -> Vec2D<int> {
    match axis {
        Dimension2D::X => Vec2D { x: along, y: across },
        Dimension2D::Y => Vec2D { x: across, y: along },
    }
}

/// The end of the line at which stepping starts: the one with the lower major
/// coordinate.
pub open spec fn line_start(p1: Vec2D<int>, p2: Vec2D<int>) -> Vec2D<int> {
    let axis = major_axis(p1, p2);
    if major(axis, p2) < major(axis, p1) {
        p2
    } else {
        p1
    }
}

/// The end of the line at which stepping stops.
pub open spec fn line_end(p1: Vec2D<int>, p2: Vec2D<int>) -> Vec2D<int> {
    let axis = major_axis(p1, p2);
    if major(axis, p2) < major(axis, p1) {
        p1
    } else {
        p2
    }
}

/// How far the minor coordinate has moved after `k` major steps of a line
/// whose extents are `minor_delta` and `major_delta`: the quotient
/// `k * minor_delta / major_delta` rounded to the nearest integer, a half
/// rounded down.
pub open spec fn minor_offset(k: int, minor_delta: int, major_delta: int) -> int {
    (2 * k * minor_delta + major_delta - 1) / (2 * major_delta)
}

/// The `k`-th point of the line between `p1` and `p2`, counted from the end
/// with the lower major coordinate.
pub open spec fn line_point(p1: Vec2D<int>, p2: Vec2D<int>, k: int) -> Vec2D<int> {
    let axis = major_axis(p1, p2);
    let start = line_start(p1, p2);
    let end = line_end(p1, p2);
    let offset = minor_offset(
        k,
        distance(minor(axis, start), minor(axis, end)),
        major(axis, end) - major(axis, start),
    );
    place(
        axis,
        major(axis, start) + k,
        if minor(axis, start) <= minor(axis, end) {
            minor(axis, start) + offset
        } else {
            minor(axis, start) - offset
        },
    )
}

/// The number of points on the line between `p1` and `p2`: none where the two
/// coincide, else one for each major coordinate from one end to the other.
pub open spec fn line_length(p1: Vec2D<int>, p2: Vec2D<int>) -> nat {
    if p1 == p2 {
        0
    } else if distance(p1.x, p2.x) > distance(p1.y, p2.y) {
        (distance(p1.x, p2.x) + 1) as nat
    } else {
        (distance(p1.y, p2.y) + 1) as nat
    }
}

/// The points of the line between `p1` and `p2`, in the order in which they
/// are stepped through.
pub open spec fn line_points(p1: Vec2D<int>, p2: Vec2D<int>) -> Seq<Vec2D<int>> {
    Seq::new(line_length(p1, p2), |k: int| line_point(p1, p2, k))
}

/// `offset` is the minor offset after `k` steps exactly when the error left
/// over, in units of half a major step, lies above `-major_delta` and not above
/// `major_delta`.
pub proof fn lemma_minor_offset_unique(k: int, minor_delta: int, major_delta: int, offset: int)
    requires
        0 < major_delta,
        -major_delta < 2 * k * minor_delta - 2 * major_delta * offset <= major_delta,
    ensures
        minor_offset(k, minor_delta, major_delta) == offset,
{
    let x = 2 * k * minor_delta + major_delta - 1;
    let d = 2 * major_delta;
    let r = x - offset * d;
    assert(offset * d == 2 * major_delta * offset) by (nonlinear_arith)
        requires
            d == 2 * major_delta,
    ;
    lemma_fundamental_div_mod_converse(x, d, offset, r);
}

/// The error left over after `k` steps lies above `-major_delta` and not above
/// `major_delta`.
pub proof fn lemma_minor_offset_error(k: int, minor_delta: int, major_delta: int)
    requires
        0 < major_delta,
    ensures
        -major_delta < 2 * k * minor_delta - 2 * major_delta * minor_offset(
            k,
            minor_delta,
            major_delta,
        ) <= major_delta,
{
    let x = 2 * k * minor_delta + major_delta - 1;
    let d = 2 * major_delta;
    vstd::arithmetic::div_mod::lemma_fundamental_div_mod(x, d);
    vstd::arithmetic::div_mod::lemma_mod_bound(x, d);
    assert(d * (x / d) == 2 * major_delta * (x / d)) by (nonlinear_arith)
        requires
            d == 2 * major_delta,
    ;
}

/// From one step to the next the minor offset stays or grows by one; it starts
/// at zero, never exceeds `minor_delta`, and reaches it at the last step.
pub proof fn lemma_minor_offset_step(k: int, minor_delta: int, major_delta: int)
    requires
        0 <= minor_delta <= major_delta,
        0 < major_delta,
        0 <= k,
    ensures
        minor_offset(0, minor_delta, major_delta) == 0,
        minor_offset(major_delta, minor_delta, major_delta) == minor_delta,
        minor_offset(k, minor_delta, major_delta) <= minor_offset(k + 1, minor_delta, major_delta)
            <= minor_offset(k, minor_delta, major_delta) + 1,
        0 <= minor_offset(k, minor_delta, major_delta),
        k <= major_delta ==> minor_offset(k, minor_delta, major_delta) <= minor_delta,
{
    let c = minor_offset(k, minor_delta, major_delta);
    let e = 2 * k * minor_delta - 2 * major_delta * c;
    lemma_minor_offset_error(k, minor_delta, major_delta);
    assert(2 * 0 * minor_delta == 0) by (nonlinear_arith);
    lemma_minor_offset_unique(0, minor_delta, major_delta, 0);
    assert(2 * major_delta * minor_delta - 2 * major_delta * minor_delta == 0)
        by (nonlinear_arith);
    lemma_minor_offset_unique(major_delta, minor_delta, major_delta, minor_delta);
    assert(2 * (k + 1) * minor_delta == 2 * k * minor_delta + 2 * minor_delta)
        by (nonlinear_arith);
    assert(2 * major_delta * (c + 1) == 2 * major_delta * c + 2 * major_delta)
        by (nonlinear_arith);
    if e + 2 * minor_delta > major_delta {
        lemma_minor_offset_unique(k + 1, minor_delta, major_delta, c + 1);
    } else {
        lemma_minor_offset_unique(k + 1, minor_delta, major_delta, c);
    }
    assert(0 <= c) by (nonlinear_arith)
        requires
            2 * k * minor_delta - 2 * major_delta * c <= major_delta,
            0 <= k,
            0 <= minor_delta,
            0 < major_delta,
    ;
    if k <= major_delta {
        assert(c <= minor_delta) by (nonlinear_arith)
            requires
                -major_delta < 2 * k * minor_delta - 2 * major_delta * c,
                0 <= k <= major_delta,
                0 <= minor_delta,
                0 < major_delta,
        ;
    }
}

/// `p` lies in the smallest upright rectangle that holds `p1` and `p2`.
pub open spec fn between(p1: Vec2D<int>, p2: Vec2D<int>, p: Vec2D<int>) -> bool {
    &&& p1.x <= p.x <= p2.x || p2.x <= p.x <= p1.x
    &&& p1.y <= p.y <= p2.y || p2.y <= p.y <= p1.y
}

/// A line between two distinct points has one point for each major coordinate
/// from one end to the other, that is one more than the greater of its two
/// extents. It starts at the end with the lower major coordinate and stops at
/// the other. Each point lies one major unit after the one before it, and at
/// most one minor unit beside it.
pub proof fn line_points_connected(p1: Vec2D<int>, p2: Vec2D<int>)
    requires
        p1 != p2,
    ensures
        line_points(p1, p2).len() == 1 + if distance(p1.x, p2.x) > distance(p1.y, p2.y) {
            distance(p1.x, p2.x)
        } else {
            distance(p1.y, p2.y)
        },
        line_points(p1, p2).first() == line_start(p1, p2),
        line_points(p1, p2).last() == line_end(p1, p2),
        forall|k: int|
            #![trigger line_points(p1, p2)[k]]
            0 < k < line_points(p1, p2).len() ==> {
                let axis = major_axis(p1, p2);
                let before = line_points(p1, p2)[k - 1];
                let here = line_points(p1, p2)[k];
                &&& major(axis, here) == major(axis, before) + 1
                &&& -1 <= minor(axis, here) - minor(axis, before) <= 1
            },
{
    let axis = major_axis(p1, p2);
    let start = line_start(p1, p2);
    let end = line_end(p1, p2);
    let major_delta = major(axis, end) - major(axis, start);
    let minor_delta = distance(minor(axis, start), minor(axis, end));
    lemma_minor_offset_step(0, minor_delta, major_delta);
    assert forall|k: int| 0 < k < line_points(p1, p2).len() implies {
        let before = #[trigger] line_points(p1, p2)[k - 1];
        let here = line_points(p1, p2)[k];
        &&& major(axis, here) == major(axis, before) + 1
        &&& -1 <= minor(axis, here) - minor(axis, before) <= 1
    } by {
        lemma_minor_offset_step(k - 1, minor_delta, major_delta);
    }
}

/// A line from a point to itself has no points.
pub proof fn line_points_of_one_point(p: Vec2D<int>)
    ensures
        line_points(p, p).len() == 0,
{
}

/// The line from `p1` to `p2` and the line from `p2` to `p1` are the same
/// points in the same order.
pub proof fn line_points_symmetric(p1: Vec2D<int>, p2: Vec2D<int>)
    ensures
        line_points(p1, p2) == line_points(p2, p1),
        line_points(p1, p2).to_set() == line_points(p2, p1).to_set(),
{
    assert(line_points(p1, p2) =~= line_points(p2, p1));
}

/// No point of a line lies outside the rectangle that its two ends span.
pub proof fn line_points_between(p1: Vec2D<int>, p2: Vec2D<int>)
    ensures
        forall|k: int|
            0 <= k < line_points(p1, p2).len() ==> between(
                p1,
                p2,
                #[trigger] line_points(p1, p2)[k],
            ),
{
    let axis = major_axis(p1, p2);
    let start = line_start(p1, p2);
    let end = line_end(p1, p2);
    let major_delta = major(axis, end) - major(axis, start);
    let minor_delta = distance(minor(axis, start), minor(axis, end));
    assert forall|k: int| 0 <= k < line_points(p1, p2).len() implies between(
        p1,
        p2,
        #[trigger] line_points(p1, p2)[k],
    ) by {
        lemma_minor_offset_step(k, minor_delta, major_delta);
    }
}

/// The stepper of one line: hands out the points of the line one by one.
pub struct LineIter {
    index_max: usize,
    /// What each major step adds to the error. The error is counted in parts
    /// of a minor step, of which a whole step has twice the major extent.
    delta_error: i128,
    /// Half a minor step in those parts: the major extent.
    threshold: i128,
    index_dimension: Dimension2D,
    ascending: bool,
    index: usize,
    value: usize,
    error: i128,
    exhausted: bool,
    ends: Ghost<(Vec2D<int>, Vec2D<int>)>,
}

impl View for LineIter {
    type V = Seq<Vec2D<int>>;

    /// The points that are still to come, in order.
    closed spec fn view(&self) -> Seq<Vec2D<int>> {
        if self.exhausted {
            Seq::empty()
        } else {
            line_points(self.ends@.0, self.ends@.1).skip(self.steps_taken())
        }
    }
}

impl LineIter {
    spec fn steps_taken(&self) -> int {
        let axis = major_axis(self.ends@.0, self.ends@.1);
        self.index - major(axis, line_start(self.ends@.0, self.ends@.1))
    }

    /// The state is that of a stepper on its line: the minor coordinate and
    /// the error are what the steps taken so far make them.
    pub closed spec fn wf(&self) -> bool {
        let p1 = self.ends@.0;
        let p2 = self.ends@.1;
        let axis = major_axis(p1, p2);
        let start = line_start(p1, p2);
        let end = line_end(p1, p2);
        let major_delta = major(axis, end) - major(axis, start);
        let minor_delta = distance(minor(axis, start), minor(axis, end));
        let offset = minor_offset(self.steps_taken(), minor_delta, major_delta);
        &&& 0 <= p1.x <= usize::MAX && 0 <= p1.y <= usize::MAX
        &&& 0 <= p2.x <= usize::MAX && 0 <= p2.y <= usize::MAX
        &&& self.index_dimension == axis
        &&& self.index_max == major(axis, end)
        &&& major(axis, start) <= self.index <= self.index_max
        &&& self.delta_error == 2 * minor_delta
        &&& self.threshold == major_delta
        &&& self.ascending == (minor(axis, start) <= minor(axis, end))
        &&& p1 == p2 ==> self.exhausted
        &&& !self.exhausted ==> {
            &&& self.value == if self.ascending {
                minor(axis, start) + offset
            } else {
                minor(axis, start) - offset
            }
            &&& self.error == 2 * self.steps_taken() * minor_delta - 2 * major_delta * offset
        }
    }

    /// A stepper for the line between `p1` and `p2`.
    pub fn new(p1: Vec2D<usize>, p2: Vec2D<usize>) -> (line: LineIter)
        ensures
            line.wf(),
            line@ == line_points(p1@, p2@),
    {
        let mut p1 = p1;
        let mut p2 = p2;
        let delta_x: usize = if p1.x <= p2.x { p2.x - p1.x } else { p1.x - p2.x };
        let delta_y: usize = if p1.y <= p2.y { p2.y - p1.y } else { p1.y - p2.y };
        let extent_x: i128 = delta_x.approx();
        let extent_y: i128 = delta_y.approx();
        let ends = Ghost((p1@, p2@));
        proof {
            if delta_x > delta_y {
                lemma_minor_offset_step(0, delta_y as int, delta_x as int);
            } else if delta_y != 0 {
                lemma_minor_offset_step(0, delta_x as int, delta_y as int);
            }
        }
        if delta_x > delta_y {
            if p2.x < p1.x {
                // Step from the lower x to the higher
                swap(&mut p1, &mut p2);
            }
            let line = LineIter {
                index_max: p2.x,
                delta_error: 2 * extent_y,
                threshold: extent_x,
                index_dimension: Dimension2D::X,
                ascending: p1.y <= p2.y,
                index: p1.x,
                value: p1.y,
                error: 0,
                exhausted: false,
                ends,
            };
            assert(2 * 0 * delta_y == 0) by (nonlinear_arith);
            assert(2 * delta_x * 0 == 0) by (nonlinear_arith);
            assert(line@ =~= line_points(ends@.0, ends@.1));
            line
        } else {
            if p2.y < p1.y {
                // Step from the lower y to the higher
                swap(&mut p1, &mut p2);
            }
            let line = LineIter {
                index_max: p2.y,
                delta_error: 2 * extent_x,
                threshold: extent_y,
                index_dimension: Dimension2D::Y,
                ascending: p1.x <= p2.x,
                index: p1.y,
                value: p1.x,
                error: 0,
                // Both extents are zero: the two ends coincide
                exhausted: delta_y == 0,
                ends,
            };
            if delta_y != 0 {
                assert(2 * 0 * delta_x == 0) by (nonlinear_arith);
                assert(2 * delta_y * 0 == 0) by (nonlinear_arith);
            }
            assert(line@ =~= line_points(ends@.0, ends@.1));
            line
        }
    }

    /// Hands out the next point of the line, if one is left.
    pub fn next(&mut self) -> (point: Option<Vec2D<usize>>)
        requires
            old(self).wf(),
        ensures
            final(self).wf(),
            old(self)@.len() == 0 ==> point is None && final(self)@ == old(self)@,
            old(self)@.len() > 0 ==> point is Some && point->0@ == old(self)@[0] && final(self)@
                == old(self)@.skip(1),
    {
        if self.exhausted {
            return None;
        }
        let ghost p1 = self.ends@.0;
        let ghost p2 = self.ends@.1;
        let ghost axis = major_axis(p1, p2);
        let ghost start = line_start(p1, p2);
        let ghost end = line_end(p1, p2);
        let ghost major_delta = major(axis, end) - major(axis, start);
        let ghost minor_delta = distance(minor(axis, start), minor(axis, end));
        let ghost k = self.steps_taken();
        let ghost offset = minor_offset(k, minor_delta, major_delta);
        let current = match self.index_dimension {
            Dimension2D::X => Vec2D::new(self.index, self.value),
            Dimension2D::Y => Vec2D::new(self.value, self.index),
        };
        assert(current@ == line_point(p1, p2, k));
        assert(self@.len() == major_delta + 1 - k);
        if self.index == self.index_max {
            self.exhausted = true;
            assert(self@ =~= old(self)@.skip(1));
        } else {
            proof {
                lemma_minor_offset_error(k, minor_delta, major_delta);
                lemma_minor_offset_step(k, minor_delta, major_delta);
                lemma_minor_offset_step(k + 1, minor_delta, major_delta);
                assert(2 * (k + 1) * minor_delta == 2 * k * minor_delta + 2 * minor_delta)
                    by (nonlinear_arith);
                assert(2 * major_delta * (offset + 1) == 2 * major_delta * offset + 2
                    * major_delta) by (nonlinear_arith);
            }
            self.index = self.index + usize::approx_from(1);
            self.error = self.error + self.delta_error;
            if self.error > self.threshold {
                proof {
                    lemma_minor_offset_unique(k + 1, minor_delta, major_delta, offset + 1);
                }
                if self.ascending {
                    self.value = self.value + 1;
                } else {
                    self.value = self.value - 1;
                }
                self.error = self.error - 2 * self.threshold;
            } else {
                proof {
                    lemma_minor_offset_unique(k + 1, minor_delta, major_delta, offset);
                }
            }
            assert(self.steps_taken() == k + 1);
            assert(self@ =~= old(self)@.skip(1));
        }
        Some(current)
    }
}

} // verus!
