use crate::line::{
    between, distance, lemma_minor_offset_unique, line_points, line_points_between,
    line_points_symmetric,
};
use crate::types2d::{Triangle2d, Vec2D};
use vstd::arithmetic::div_mod::{
    lemma_div_is_ordered, lemma_div_multiples_vanish, lemma_div_pos_is_pos,
};
use vstd::prelude::*;

verus! {

/// The number of points at the head of `points` that lie on row `y`.
pub open spec fn run_length(points: Seq<Vec2D<int>>, y: int) -> nat
    decreases points.len(),
{
    if points.len() > 0 && points[0].y == y {
        1 + run_length(points.skip(1), y)
    } else {
        0
    }
}

/// What is left of `points` behind the points at its head that lie on row
/// `y`.
pub open spec fn after_row(points: Seq<Vec2D<int>>, y: int) -> Seq<Vec2D<int>> {
    points.skip(run_length(points, y) as int)
}

/// A run is no longer than the sequence it heads, and the point behind it, if
/// there is one, lies on another row.
pub proof fn lemma_run_length(points: Seq<Vec2D<int>>, y: int)
    ensures
        run_length(points, y) <= points.len(),
        run_length(points, y) < points.len() ==> points[run_length(points, y) as int].y != y,
        points.len() > 0 && points[0].y == y ==> after_row(points, y) == after_row(
            points.skip(1),
            y,
        ),
        !(points.len() > 0 && points[0].y == y) ==> after_row(points, y) == points,
    decreases points.len(),
{
    if points.len() > 0 && points[0].y == y {
        lemma_run_length(points.skip(1), y);
        assert(points.skip(1).skip(run_length(points.skip(1), y) as int) =~= points.skip(
            run_length(points, y) as int,
        ));
    } else {
        assert(points.skip(0) =~= points);
    }
}

/// The first point of each row of `points`: the first point, and each one
/// behind it that lies on another row than the point before it.
pub open spec fn row_starts(points: Seq<Vec2D<int>>) -> Seq<Vec2D<int>>
    decreases points.len(),
{
    if points.len() == 0 {
        Seq::empty()
    } else {
        proof {
            lemma_run_length(points.skip(1), points[0].y);
        }
        seq![points[0]] + row_starts(after_row(points.skip(1), points[0].y))
    }
}

/// The rows of `points` are its first point, and then the rows of what is
/// left behind the first row.
pub proof fn lemma_row_starts_unfold(points: Seq<Vec2D<int>>)
    ensures
        points.len() == 0 ==> row_starts(points).len() == 0,
        points.len() > 0 ==> row_starts(points).len() > 0 && row_starts(points)[0] == points[0]
            && row_starts(points).skip(1) == row_starts(
            after_row(points.skip(1), points[0].y),
        ),
{
    if points.len() > 0 {
        assert(row_starts(points).skip(1) =~= row_starts(
            after_row(points.skip(1), points[0].y),
        ));
    }
}

/// Each first point of a row of `points` is a point of `points`.
pub proof fn lemma_row_starts_within(points: Seq<Vec2D<int>>)
    ensures
        forall|i: int|
            0 <= i < row_starts(points).len() ==> points.contains(#[trigger] row_starts(points)[i]),
    decreases points.len(),
{
    if points.len() > 0 {
        let rest = after_row(points.skip(1), points[0].y);
        let skipped = 1 + run_length(points.skip(1), points[0].y);
        lemma_run_length(points.skip(1), points[0].y);
        lemma_row_starts_within(rest);
        assert(rest =~= points.skip(skipped as int));
        assert forall|i: int| 0 <= i < row_starts(points).len() implies points.contains(
            #[trigger] row_starts(points)[i],
        ) by {
            if i == 0 {
                assert(points[0] == row_starts(points)[0]);
            } else {
                let q = row_starts(rest)[i - 1];
                assert(rest.contains(q));
                let k = choose|k: int| 0 <= k < rest.len() && rest[k] == q;
                assert(points[skipped + k] == q);
            }
        }
    }
}

/// `p` lies on the row of `left` and `right`, which is one and the same, from
/// the column of `left` to the column of `right`, both included.
pub open spec fn span_covers(left: Vec2D<int>, right: Vec2D<int>, p: Vec2D<int>) -> bool {
    &&& left.y == right.y
    &&& p.y == left.y
    &&& left.x <= p.x <= right.x
}

/// `p` is painted when the area between two edges is filled: the rows of the
/// left edge are paired with the rows of the right edge, first with first and
/// so on while both last, and `p` lies between the first points of a pair.
pub open spec fn flat_covers(
    left: Seq<Vec2D<int>>,
    right: Seq<Vec2D<int>>,
    p: Vec2D<int>,
) -> bool {
    exists|i: int|
        0 <= i < row_starts(left).len() && i < row_starts(right).len() && span_covers(
            #[trigger] row_starts(left)[i],
            row_starts(right)[i],
            p,
        )
}

/// `p` is a point of one of the three lines between the vertices of `t`.
pub open spec fn outline_covers(t: Triangle2d<int>, p: Vec2D<int>) -> bool {
    ||| line_points(t.0, t.1).contains(p)
    ||| line_points(t.1, t.2).contains(p)
    ||| line_points(t.2, t.0).contains(p)
}

/// The vertices of `t` in the order in which a fill takes them: by ascending
/// y, and by ascending x where two have the same y. It is reached by sorting
/// by x first and then, stably, by y.
pub open spec fn fill_order(t: Triangle2d<int>) -> Triangle2d<int> {
    t.sorted_by_key(|v: Vec2D<int>| v.x).sorted_by_key(|v: Vec2D<int>| v.y)
}

/// The quotient of `n` by a positive `d`, rounded towards zero.
pub open spec fn truncated_quotient(n: int, d: int) -> int {
    if n >= 0 {
        n / d
    } else {
        -((-n) / d)
    }
}

/// The point at which the edge from the first to the last vertex of `t`
/// crosses the row of the middle vertex, its column rounded towards the
/// column of the first vertex.
pub open spec fn split_point(t: Triangle2d<int>) -> Vec2D<int> {
    Vec2D {
        x: t.0.x + truncated_quotient((t.1.y - t.0.y) * (t.2.x - t.0.x), t.2.y - t.0.y),
        y: t.1.y,
    }
}

/// `p` is painted by the fill of a triangle whose first two vertices span its
/// flat edge, left and right: the edges run from there to the third vertex.
pub open spec fn top_flat_covers(t: Triangle2d<int>, p: Vec2D<int>) -> bool {
    flat_covers(line_points(t.2, t.0), line_points(t.2, t.1), p)
}

/// `p` is painted by the fill of a triangle whose last two vertices span its
/// flat edge, left and right: the edges run from the first vertex to there.
pub open spec fn bottom_flat_covers(t: Triangle2d<int>, p: Vec2D<int>) -> bool {
    flat_covers(line_points(t.0, t.1), line_points(t.0, t.2), p)
}

/// The two triangles with a flat edge into which a triangle in fill order,
/// with three different rows, is cut at the row of its middle vertex: first
/// the one that ends in the cut, then the one that starts from it.
pub open spec fn split_halves(s: Triangle2d<int>) -> (Triangle2d<int>, Triangle2d<int>) {
    let cut = split_point(s);
    if cut.x < s.1.x {
        (Triangle2d(s.0, cut, s.1), Triangle2d(cut, s.1, s.2))
    } else {
        (Triangle2d(s.0, s.1, cut), Triangle2d(s.1, cut, s.2))
    }
}

/// `p` is painted by the fill of `t`.
pub open spec fn fill_covers(t: Triangle2d<int>, p: Vec2D<int>) -> bool {
    let s = fill_order(t);
    if s.0.y == s.1.y {
        top_flat_covers(s, p)
    } else if s.1.y == s.2.y {
        bottom_flat_covers(s, p)
    } else {
        bottom_flat_covers(split_halves(s).0, p) || top_flat_covers(split_halves(s).1, p)
    }
}

/// `p` lies in the smallest upright rectangle that holds the three vertices
/// of `t`.
pub open spec fn in_bounding_box(t: Triangle2d<int>, p: Vec2D<int>) -> bool {
    &&& t.0.x <= p.x || t.1.x <= p.x || t.2.x <= p.x
    &&& p.x <= t.0.x || p.x <= t.1.x || p.x <= t.2.x
    &&& t.0.y <= p.y || t.1.y <= p.y || t.2.y <= p.y
    &&& p.y <= t.0.y || p.y <= t.1.y || p.y <= t.2.y
}

/// The fill order puts the rows in ascending order, and the columns in
/// ascending order wherever two neighbours share a row.
pub proof fn fill_order_sorts(t: Triangle2d<int>)
    ensures
        ({
            let s = fill_order(t);
            &&& s.vertices() == t.vertices()
            &&& s.0.y <= s.1.y <= s.2.y
            &&& s.0.y == s.1.y ==> s.0.x <= s.1.x
            &&& s.1.y == s.2.y ==> s.1.x <= s.2.x
        }),
{
    let by_x = |v: Vec2D<int>| v.x;
    let by_y = |v: Vec2D<int>| v.y;
    let first = t.sorted_by_key(by_x);
    t.arranged_permutes(t.0.x > t.1.x, t.1.x > t.2.x, t.0.x > t.2.x);
    first.arranged_permutes(first.0.y > first.1.y, first.1.y > first.2.y, first.0.y > first.2.y);
    t.sorted_by_key_orders(by_x);
    first.sorted_by_key_stable(by_x, by_y);
}

/// What is painted between two lines lies in the smallest upright rectangle
/// that holds the ends of both.
pub proof fn flat_covers_between(
    a: Vec2D<int>,
    b: Vec2D<int>,
    c: Vec2D<int>,
    d: Vec2D<int>,
    p: Vec2D<int>,
)
    requires
        flat_covers(line_points(a, b), line_points(c, d), p),
    ensures
        exists|l: Vec2D<int>, r: Vec2D<int>|
            #![trigger span_covers(l, r, p)]
            between(a, b, l) && between(c, d, r) && span_covers(l, r, p),
{
    let left = line_points(a, b);
    let right = line_points(c, d);
    let i = choose|i: int|
        0 <= i < row_starts(left).len() && i < row_starts(right).len() && span_covers(
            #[trigger] row_starts(left)[i],
            row_starts(right)[i],
            p,
        );
    let l = row_starts(left)[i];
    let r = row_starts(right)[i];
    lemma_row_starts_within(left);
    lemma_row_starts_within(right);
    line_points_between(a, b);
    line_points_between(c, d);
    assert(left.contains(l));
    assert(right.contains(r));
    assert(span_covers(l, r, p));
}

/// The cut of a triangle with three ascending rows lies on the row of the
/// middle vertex, between the columns of the first and the last.
pub proof fn split_point_between(t: Triangle2d<int>)
    requires
        t.0.y < t.1.y < t.2.y,
    ensures
        split_point(t).y == t.1.y,
        t.0.x <= split_point(t).x <= t.2.x || t.2.x <= split_point(t).x <= t.0.x,
{
    let part = t.1.y - t.0.y;
    let whole = t.2.y - t.0.y;
    let run = if t.0.x <= t.2.x {
        t.2.x - t.0.x
    } else {
        t.0.x - t.2.x
    };
    assert(0 <= part * run <= whole * run) by (nonlinear_arith)
        requires
            0 <= part <= whole,
            0 <= run,
    ;
    lemma_div_is_ordered(part * run, whole * run, whole);
    lemma_div_multiples_vanish(run, whole);
    lemma_div_pos_is_pos(part * run, whole);
    assert(part * (t.2.x - t.0.x) == if t.0.x <= t.2.x {
        part * run
    } else {
        -(part * run)
    }) by (nonlinear_arith)
        requires
            run == if t.0.x <= t.2.x {
                t.2.x - t.0.x
            } else {
                t.0.x - t.2.x
            },
    ;
}

/// A fill never paints outside the smallest upright rectangle that holds the
/// three vertices.
pub proof fn fill_covers_in_bounding_box(t: Triangle2d<int>, p: Vec2D<int>)
    requires
        fill_covers(t, p),
    ensures
        in_bounding_box(t, p),
{
    let s = fill_order(t);
    fill_order_sorts(t);
    assert(in_bounding_box(s, p) ==> in_bounding_box(t, p));
    if s.0.y == s.1.y {
        flat_covers_between(s.2, s.0, s.2, s.1, p);
    } else if s.1.y == s.2.y {
        flat_covers_between(s.0, s.1, s.0, s.2, p);
    } else {
        split_point_between(s);
        let bottom = split_halves(s).0;
        let top = split_halves(s).1;
        if bottom_flat_covers(bottom, p) {
            flat_covers_between(bottom.0, bottom.1, bottom.0, bottom.2, p);
        } else {
            flat_covers_between(top.2, top.0, top.2, top.1, p);
        }
    }
}

/// Points that all lie on row `y` make one run.
pub proof fn lemma_run_length_of_row(points: Seq<Vec2D<int>>, y: int)
    requires
        forall|k: int| 0 <= k < points.len() ==> (#[trigger] points[k]).y == y,
    ensures
        run_length(points, y) == points.len(),
    decreases points.len(),
{
    if points.len() > 0 {
        let rest = points.skip(1);
        assert forall|k: int| 0 <= k < rest.len() implies (#[trigger] rest[k]).y == y by {
            assert(rest[k] == points[k + 1]);
        }
        lemma_run_length_of_row(rest, y);
    }
}

/// A line between two different points of one row holds each point of the
/// row between them, and starts at the left one.
pub proof fn lemma_level_line(a: Vec2D<int>, b: Vec2D<int>)
    requires
        a.y == b.y,
        a.x != b.x,
    ensures
        line_points(a, b).len() > 0,
        line_points(a, b)[0] == if a.x < b.x {
            a
        } else {
            b
        },
        row_starts(line_points(a, b)) == seq![line_points(a, b)[0]],
        forall|p: Vec2D<int>|
            p.y == a.y && (a.x <= p.x <= b.x || b.x <= p.x <= a.x) ==> line_points(a, b).contains(
                p,
            ),
{
    let points = line_points(a, b);
    let extent = distance(a.x, b.x);
    let low = if a.x < b.x {
        a.x
    } else {
        b.x
    };
    assert forall|k: int| 0 <= k < points.len() implies #[trigger] points[k] == (Vec2D {
        x: low + k,
        y: a.y,
    }) by {
        assert(2 * k * 0 == 0) by (nonlinear_arith);
        lemma_minor_offset_unique(k, 0, extent, 0);
    }
    assert forall|p: Vec2D<int>|
        p.y == a.y && (a.x <= p.x <= b.x || b.x <= p.x <= a.x) implies points.contains(p) by {
        assert(points[p.x - low] == p);
    }
    let rest = points.skip(1);
    assert forall|k: int| 0 <= k < rest.len() implies (#[trigger] rest[k]).y == a.y by {
        assert(rest[k] == points[k + 1]);
    }
    lemma_run_length_of_row(rest, a.y);
    assert(after_row(rest, a.y).len() == 0);
    assert(row_starts(after_row(rest, a.y)) =~= Seq::empty());
    assert(row_starts(points) =~= seq![points[0]]);
}

/// A triangle whose vertices all lie on one row has no interior: what its
/// fill paints lies on its outline.
pub proof fn fill_covers_of_flat_triangle(t: Triangle2d<int>, p: Vec2D<int>)
    requires
        t.0.y == t.1.y == t.2.y,
        fill_covers(t, p),
    ensures
        outline_covers(t, p),
{
    let s = fill_order(t);
    fill_order_sorts(t);
    line_points_symmetric(t.0, t.1);
    line_points_symmetric(t.1, t.2);
    line_points_symmetric(t.2, t.0);
    assert(outline_covers(s, p) ==> outline_covers(t, p));
    let left = line_points(s.2, s.0);
    let right = line_points(s.2, s.1);
    let i = choose|i: int|
        0 <= i < row_starts(left).len() && i < row_starts(right).len() && span_covers(
            #[trigger] row_starts(left)[i],
            row_starts(right)[i],
            p,
        );
    lemma_row_starts_unfold(left);
    lemma_row_starts_unfold(right);
    assert(s.2 != s.0 && s.2 != s.1);
    lemma_level_line(s.2, s.0);
    lemma_level_line(s.2, s.1);
    assert(span_covers(s.0, s.1, p));
    if s.0.x < s.1.x {
        lemma_level_line(s.0, s.1);
    } else {
        lemma_level_line(s.1, s.2);
    }
}

} // verus!
