use crate::buffer::Framebuffer;
use crate::line::{between, line_points, line_points_between, LineIter};
use crate::scan::{
    after_row, bottom_flat_covers, fill_covers, fill_covers_in_bounding_box, fill_order,
    fill_order_sorts, flat_covers, in_bounding_box, lemma_row_starts_unfold,
    lemma_row_starts_within, lemma_run_length, outline_covers, row_starts, span_covers,
    split_point, top_flat_covers,
};
use crate::types2d::{Triangle2d, Vec2D};
use std::cmp::Ordering;
use vstd::arithmetic::div_mod::{
    lemma_div_is_ordered, lemma_div_multiples_vanish, lemma_div_pos_is_pos,
};
use vstd::prelude::*;

verus! {

/// Two different places of a buffer that is `width` wide have different
/// indices, and the index of a place within `height` rows is below
/// `width * height`.
pub proof fn lemma_index(width: int, height: int, p: Vec2D<int>, q: Vec2D<int>)
    requires
        0 <= p.x < width,
        0 <= q.x < width,
        0 <= p.y < height,
        0 <= q.y,
    ensures
        0 <= p.y * width + p.x < width * height,
        p != q ==> p.y * width + p.x != q.y * width + q.x,
{
    assert(p.y * width + p.x < width * height) by (nonlinear_arith)
        requires
            0 <= p.x < width,
            0 <= p.y < height,
    ;
    assert(0 <= p.y * width) by (nonlinear_arith)
        requires
            0 <= p.y,
            0 < width,
    ;
    if p.y < q.y {
        assert(p.y * width + width <= q.y * width) by (nonlinear_arith)
            requires
                p.y + 1 <= q.y,
                0 < width,
        ;
    } else if q.y < p.y {
        assert(q.y * width + width <= p.y * width) by (nonlinear_arith)
            requires
                q.y + 1 <= p.y,
                0 < width,
        ;
    }
}

/// `p` lies on row `y`, from column `left` up to but not including column
/// `right`.
pub open spec fn in_run(y: int, left: int, right: int, p: Vec2D<int>) -> bool {
    p.y == y && left <= p.x < right
}

/// `p` lies in the upright rectangle with corner `origin` and extent `size`.
pub open spec fn in_rect(origin: Vec2D<int>, size: Vec2D<int>, p: Vec2D<int>) -> bool {
    &&& origin.x <= p.x < origin.x + size.x
    &&& origin.y <= p.y < origin.y + size.y
}

impl Framebuffer {
    /// `other` has the dimensions of this buffer and is well formed if this one
    /// is.
    pub open spec fn same_shape(&self, other: &Framebuffer) -> bool {
        &&& self.width == other.width
        &&& self.height == other.height
        &&& self.wf() ==> other.wf()
    }

    /// Paints the pixel at `p`.
    fn put_pixel(&mut self, p: Vec2D<usize>, color: u32)
        requires
            old(self).wf(),
            old(self).contains(p@),
        ensures
            old(self).same_shape(final(self)),
            forall|q: Vec2D<int>|
                final(self).contains(q) ==> #[trigger] final(self).pixel(q) == if q == p@ {
                    color
                } else {
                    old(self).pixel(q)
                },
    {
        let width = self.width;
        let ghost height = self.height as int;
        let ghost before = *self;
        let slice = self.slice_mut();
        proof {
            lemma_index(width as int, height, p@, p@);
            assert(width * p.y == p.y * width) by (nonlinear_arith);
        }
        slice[width * p.y + p.x] = color;
        assert forall|q: Vec2D<int>| final(self).contains(q) implies #[trigger] final(self).pixel(
            q,
        ) == if q == p@ {
            color
        } else {
            before.pixel(q)
        } by {
            lemma_index(width as int, height, q, p@);
        }
    }

    /// Paints the pixels of row `y` from column `left` up to but not including
    /// column `right`.
    fn fill_run(&mut self, y: usize, left: usize, right: usize, color: u32)
        requires
            old(self).wf(),
            y < old(self).height,
            left <= right <= old(self).width,
        ensures
            old(self).same_shape(final(self)),
            forall|p: Vec2D<int>|
                final(self).contains(p) ==> #[trigger] final(self).pixel(p) == if in_run(
                    y as int,
                    left as int,
                    right as int,
                    p,
                ) {
                    color
                } else {
                    old(self).pixel(p)
                },
    {
        let width = self.width;
        let ghost height = self.height as int;
        let ghost before = *self;
        let slice = self.slice_mut();
        proof {
            assert(0 <= width * y && width * y + width <= width * height) by (nonlinear_arith)
                requires
                    0 <= width,
                    0 <= y < height,
            ;
            assert(width * y == y * width) by (nonlinear_arith);
        }
        let pixel_start = width * y;
        let mut x = left;
        while x < right
            invariant
                left <= x <= right <= width,
                y < height,
                pixel_start == y * width,
                pixel_start + right <= width * height <= usize::MAX,
                slice@.len() == width * height,
                before.wf(),
                before.width == width,
                before.height == height,
                forall|i: int|
                    0 <= i < slice@.len() ==> #[trigger] slice@[i] == if pixel_start + left <= i
                        < pixel_start + x {
                        color
                    } else {
                        before@[i]
                    },
            decreases right - x,
        {
            slice[pixel_start + x] = color;
            x += 1;
        }
        assert forall|p: Vec2D<int>| final(self).contains(p) implies #[trigger] final(self).pixel(
            p,
        ) == if in_run(y as int, left as int, right as int, p) {
            color
        } else {
            before.pixel(p)
        } by {
            lemma_index(width as int, height, p, Vec2D { x: p.x, y: y as int });
            lemma_index(width as int, height, p, Vec2D { x: 0, y: y as int });
            if p.y != y {
                if left < right {
                    lemma_index(width as int, height, p, Vec2D { x: left as int, y: y as int });
                    lemma_index(width as int, height, p, Vec2D { x: right - 1, y: y as int });
                }
                if p.y < y {
                    assert(p.y * width + width <= y * width) by (nonlinear_arith)
                        requires
                            p.y + 1 <= y,
                            0 < width,
                    ;
                } else {
                    assert(y * width + width <= p.y * width) by (nonlinear_arith)
                        requires
                            y + 1 <= p.y,
                            0 < width,
                    ;
                }
            }
        }
    }
}

/// Orders two points by their columns.
fn compare_x(v1: &Vec2D<usize>, v2: &Vec2D<usize>) -> (order: Ordering)
    ensures
        (order is Less) == (v1.x < v2.x),
        (order is Greater) == (v1.x > v2.x),
{
    v1.x.cmp(&v2.x)
}

/// Orders two points by their rows.
fn compare_y(v1: &Vec2D<usize>, v2: &Vec2D<usize>) -> (order: Ordering)
    ensures
        (order is Less) == (v1.y < v2.y),
        (order is Greater) == (v1.y > v2.y),
{
    v1.y.cmp(&v2.y)
}

/// The vertices of `triangle` by ascending row, and by ascending column
/// where two lie on the same row.
fn sorted_for_fill(triangle: &Triangle2d<usize>) -> (t: Triangle2d<usize>)
    ensures
        t@ == fill_order(triangle@),
{
    let mut t = *triangle;
    t.sort_vectors_by(compare_x);
    t.sort_vectors_by(compare_y);
    t
}

/// The point at which the edge from the first to the last vertex of `t`
/// crosses the row of the middle vertex.
fn split_vertex(t: &Triangle2d<usize>) -> (cut: Vec2D<usize>)
    requires
        t.0.y < t.1.y < t.2.y,
    ensures
        cut@ == split_point(t@),
        cut.y == t.1.y,
        t.0.x <= cut.x <= t.2.x || t.2.x <= cut.x <= t.0.x,
{
    let part = (t.1.y - t.0.y) as u128;
    let whole = (t.2.y - t.0.y) as u128;
    let run = if t.0.x <= t.2.x {
        (t.2.x - t.0.x) as u128
    } else {
        (t.0.x - t.2.x) as u128
    };
    proof {
        assert(part * run <= whole * run <= 0xffff_ffff_ffff_ffff * 0xffff_ffff_ffff_ffff)
            by (nonlinear_arith)
            requires
                0 <= part <= whole <= 0xffff_ffff_ffff_ffff,
                0 <= run <= 0xffff_ffff_ffff_ffff,
        ;
        lemma_div_is_ordered(part * run, whole * run, whole as int);
        lemma_div_multiples_vanish(run as int, whole as int);
        assert(whole * run == run * whole) by (nonlinear_arith);
        lemma_div_pos_is_pos(part * run, whole as int);
        assert((t.1.y - t.0.y) * (t.2.x - t.0.x) == if t.0.x <= t.2.x {
            part * run
        } else {
            -(part * run)
        }) by (nonlinear_arith)
            requires
                part == t.1.y - t.0.y,
                run == if t.0.x <= t.2.x {
                    t.2.x - t.0.x
                } else {
                    t.0.x - t.2.x
                },
        ;
        assert(0 <= part * run) by (nonlinear_arith)
            requires
                0 <= part,
                0 <= run,
        ;
    }
    let shift = (part * run / whole) as usize;
    Vec2D { x: if t.0.x <= t.2.x { t.0.x + shift } else { t.0.x - shift }, y: t.1.y }
}

/// Steps `line` past the points that lie on row `y` and hands out the first
/// point on another row, if one is left.
fn skip_row(line: &mut LineIter, y: usize) -> (next: Option<Vec2D<usize>>)
    requires
        old(line).wf(),
    ensures
        final(line).wf(),
        ({
            let rest = after_row(old(line)@, y as int);
            &&& rest.len() == 0 ==> next is None && final(line)@.len() == 0
            &&& rest.len() > 0 ==> next is Some && next->0@ == rest[0] && final(line)@
                == rest.skip(1)
        }),
{
    loop
        invariant
            line.wf(),
            after_row(line@, y as int) == after_row(old(line)@, y as int),
        decreases line@.len(),
    {
        proof {
            lemma_run_length(line@, y as int);
        }
        match line.next() {
            None => {
                return None;
            },
            Some(p) => {
                if p.y != y {
                    return Some(p);
                }
            },
        }
    }
}

impl Framebuffer {
    /// Fills the area between two edges, row by row. The rows of the two lines
    /// are paired in the order in which the lines are stepped; where the two
    /// rows of a pair are one and the same, it is painted from the first point
    /// of the left line on it to the first point of the right line on it.
    fn fill_flat_triangle(&mut self, left_line: LineIter, right_line: LineIter, color: u32)
        requires
            old(self).wf(),
            left_line.wf(),
            right_line.wf(),
            forall|k: int|
                0 <= k < left_line@.len() ==> old(self).contains(#[trigger] left_line@[k]),
            forall|k: int|
                0 <= k < right_line@.len() ==> old(self).contains(#[trigger] right_line@[k]),
        ensures
            old(self).same_shape(final(self)),
            forall|p: Vec2D<int>|
                final(self).contains(p) ==> #[trigger] final(self).pixel(p) == if flat_covers(
                    left_line@,
                    right_line@,
                    p,
                ) {
                    color
                } else {
                    old(self).pixel(p)
                },
    {
        let mut left_line = left_line;
        let mut right_line = right_line;
        let ghost left_points = left_line@;
        let ghost right_points = right_line@;
        let ghost lefts = row_starts(left_points);
        let ghost rights = row_starts(right_points);
        let ghost mut rows: int = 0;
        proof {
            lemma_row_starts_within(left_points);
            lemma_row_starts_within(right_points);
        }
        // First points of both sides
        let mut left = left_line.next();
        let mut right = right_line.next();
        loop
            invariant
                self.wf(),
                old(self).same_shape(self),
                left_line.wf(),
                right_line.wf(),
                lefts == row_starts(left_points),
                rights == row_starts(right_points),
                0 <= rows,
                forall|i: int| 0 <= i < lefts.len() ==> old(self).contains(#[trigger] lefts[i]),
                forall|i: int| 0 <= i < rights.len() ==> old(self).contains(#[trigger] rights[i]),
                match left {
                    Some(l) => rows < lefts.len() && l@ == lefts[rows] && row_starts(
                        after_row(left_line@, l@.y),
                    ) == lefts.skip(rows + 1),
                    None => lefts.len() <= rows,
                },
                left is Some ==> match right {
                    Some(r) => rows < rights.len() && r@ == rights[rows] && row_starts(
                        after_row(right_line@, r@.y),
                    ) == rights.skip(rows + 1),
                    None => rights.len() <= rows,
                },
                forall|p: Vec2D<int>|
                    self.contains(p) ==> #[trigger] self.pixel(p) == if exists|i: int|
                        0 <= i < rows && i < lefts.len() && i < rights.len() && span_covers(
                            #[trigger] lefts[i],
                            rights[i],
                            p,
                        ) {
                        color
                    } else {
                        old(self).pixel(p)
                    },
            ensures
                self.wf(),
                old(self).same_shape(self),
                lefts.len() <= rows || rights.len() <= rows,
                forall|p: Vec2D<int>|
                    self.contains(p) ==> #[trigger] self.pixel(p) == if exists|i: int|
                        0 <= i < rows && i < lefts.len() && i < rights.len() && span_covers(
                            #[trigger] lefts[i],
                            rights[i],
                            p,
                        ) {
                        color
                    } else {
                        old(self).pixel(p)
                    },
            decreases lefts.len() - rows,
        {
            let (left_point, right_point) = match (left, right) {
                (Some(l), Some(r)) => (l, r),
                _ => {
                    break ;
                },
            };
            let ghost previous = *self;
            // Paint from the left point to the right point
            if left_point.y == right_point.y && left_point.x <= right_point.x {
                self.fill_run(left_point.y, left_point.x, right_point.x + 1, color);
            }
            proof {
                assert forall|p: Vec2D<int>| self.contains(p) implies #[trigger] self.pixel(p)
                    == if exists|i: int|
                    0 <= i < rows + 1 && i < lefts.len() && i < rights.len() && span_covers(
                        #[trigger] lefts[i],
                        rights[i],
                        p,
                    ) {
                    color
                } else {
                    old(self).pixel(p)
                } by {
                    let before = exists|i: int|
                        0 <= i < rows && i < lefts.len() && i < rights.len() && span_covers(
                            #[trigger] lefts[i],
                            rights[i],
                            p,
                        );
                    let after = exists|i: int|
                        0 <= i < rows + 1 && i < lefts.len() && i < rights.len() && span_covers(
                            #[trigger] lefts[i],
                            rights[i],
                            p,
                        );
                    let here = span_covers(lefts[rows], rights[rows], p);
                    if before {
                        let i = choose|i: int|
                            0 <= i < rows && i < lefts.len() && i < rights.len() && span_covers(
                                #[trigger] lefts[i],
                                rights[i],
                                p,
                            );
                        assert(span_covers(lefts[i], rights[i], p));
                        assert(after);
                    }
                    if here {
                        assert(after);
                    }
                    if after {
                        let i = choose|i: int|
                            0 <= i < rows + 1 && i < lefts.len() && i < rights.len()
                                && span_covers(#[trigger] lefts[i], rights[i], p);
                        if i < rows {
                            assert(before);
                        } else {
                            assert(here);
                        }
                    }
                    assert(previous.pixel(p) == if before {
                        color
                    } else {
                        old(self).pixel(p)
                    });
                }
                lemma_run_length(left_line@, left_point@.y);
                lemma_run_length(right_line@, right_point@.y);
            }
            // Step both sides to their next rows
            let ghost left_rest = after_row(left_line@, left_point@.y);
            let ghost right_rest = after_row(right_line@, right_point@.y);
            left = skip_row(&mut left_line, left_point.y);
            proof {
                lemma_row_starts_unfold(left_rest);
                if left is Some {
                    assert(lefts.skip(rows + 1).skip(1) =~= lefts.skip(rows + 2));
                }
            }
            if left.is_some() {
                right = skip_row(&mut right_line, right_point.y);
                proof {
                    lemma_row_starts_unfold(right_rest);
                    if right is Some {
                        assert(rights.skip(rows + 1).skip(1) =~= rights.skip(rows + 2));
                    }
                }
            }
            proof {
                rows = rows + 1;
            }
        }
        proof {
            assert forall|p: Vec2D<int>| self.contains(p) implies #[trigger] self.pixel(p)
                == if flat_covers(left_points, right_points, p) {
                color
            } else {
                old(self).pixel(p)
            } by {
                let painted = exists|i: int|
                    0 <= i < rows && i < lefts.len() && i < rights.len() && span_covers(
                        #[trigger] lefts[i],
                        rights[i],
                        p,
                    );
                if painted {
                    let i = choose|i: int|
                        0 <= i < rows && i < lefts.len() && i < rights.len() && span_covers(
                            #[trigger] lefts[i],
                            rights[i],
                            p,
                        );
                    assert(span_covers(row_starts(left_points)[i], row_starts(right_points)[i], p));
                }
                if flat_covers(left_points, right_points, p) {
                    let i = choose|i: int|
                        0 <= i < lefts.len() && i < rights.len() && span_covers(
                            #[trigger] lefts[i],
                            rights[i],
                            p,
                        );
                    assert(painted);
                }
            }
        }
    }

    /// Fills a triangle whose last two vertices lie on one row, the second to
    /// the left of the third, from the first vertex to that row.
    pub fn fill_bottom_flat_triangle(&mut self, t: &Triangle2d<usize>, color: u32)
        requires
            old(self).wf(),
            old(self).contains(t.0@),
            old(self).contains(t.1@),
            old(self).contains(t.2@),
        ensures
            old(self).same_shape(final(self)),
            forall|p: Vec2D<int>|
                final(self).contains(p) ==> #[trigger] final(self).pixel(p)
                    == if bottom_flat_covers(t@, p) {
                    color
                } else {
                    old(self).pixel(p)
                },
    {
        proof {
            line_points_between(t.0@, t.1@);
            line_points_between(t.0@, t.2@);
        }
        self.fill_flat_triangle(LineIter::new(t.0, t.1), LineIter::new(t.0, t.2), color);
    }

    /// Fills a triangle whose first two vertices lie on one row, the first to
    /// the left of the second, from that row to the third vertex.
    pub fn fill_top_flat_triangle(&mut self, t: &Triangle2d<usize>, color: u32)
        requires
            old(self).wf(),
            old(self).contains(t.0@),
            old(self).contains(t.1@),
            old(self).contains(t.2@),
        ensures
            old(self).same_shape(final(self)),
            forall|p: Vec2D<int>|
                final(self).contains(p) ==> #[trigger] final(self).pixel(p) == if top_flat_covers(
                    t@,
                    p,
                ) {
                    color
                } else {
                    old(self).pixel(p)
                },
    {
        proof {
            line_points_between(t.2@, t.0@);
            line_points_between(t.2@, t.1@);
        }
        self.fill_flat_triangle(LineIter::new(t.2, t.0), LineIter::new(t.2, t.1), color);
    }

    /// Paints the upright rectangle with corner `point` and extent `size`.
    pub fn fill_rect(&mut self, point: Vec2D<usize>, size: Vec2D<usize>, color: u32)
        requires
            old(self).wf(),
            point.x + size.x <= old(self).width,
            point.y + size.y <= old(self).height,
        ensures
            old(self).same_shape(final(self)),
            forall|p: Vec2D<int>|
                final(self).contains(p) ==> #[trigger] final(self).pixel(p) == if in_rect(
                    point@,
                    size@,
                    p,
                ) {
                    color
                } else {
                    old(self).pixel(p)
                },
    {
        let mut y = point.y;
        while y < point.y + size.y
            invariant
                point.y <= y <= point.y + size.y <= self.height,
                point.x + size.x <= self.width,
                self.wf(),
                old(self).same_shape(self),
                forall|p: Vec2D<int>|
                    self.contains(p) ==> #[trigger] self.pixel(p) == if in_rect(
                        point@,
                        Vec2D { x: size.x as int, y: y - point.y },
                        p,
                    ) {
                        color
                    } else {
                        old(self).pixel(p)
                    },
            decreases point.y + size.y - y,
        {
            self.fill_run(y, point.x, point.x + size.x, color);
            y += 1;
        }
    }

    /// Paints the three lines between the vertices of `triangle`.
    pub fn draw_triangle(&mut self, triangle: &Triangle2d<usize>, color: u32)
        requires
            old(self).wf(),
            old(self).contains(triangle.0@),
            old(self).contains(triangle.1@),
            old(self).contains(triangle.2@),
        ensures
            old(self).same_shape(final(self)),
            forall|p: Vec2D<int>|
                final(self).contains(p) ==> #[trigger] final(self).pixel(p) == if outline_covers(
                    triangle@,
                    p,
                ) {
                    color
                } else {
                    old(self).pixel(p)
                },
    {
        let t = triangle;
        self.draw_line(t.0, t.1, color);
        self.draw_line(t.1, t.2, color);
        self.draw_line(t.2, t.0, color);
    }

    /// Fills `triangle`: takes its vertices by ascending row, fills it as it
    /// is where two of them share a row, and else cuts it at the row of the
    /// middle vertex and fills the two halves.
    pub fn fill_triangle(&mut self, triangle: &Triangle2d<usize>, color: u32)
        requires
            old(self).wf(),
            old(self).contains(triangle.0@),
            old(self).contains(triangle.1@),
            old(self).contains(triangle.2@),
        ensures
            old(self).same_shape(final(self)),
            forall|p: Vec2D<int>|
                final(self).contains(p) ==> #[trigger] final(self).pixel(p) == if fill_covers(
                    triangle@,
                    p,
                ) {
                    color
                } else {
                    old(self).pixel(p)
                },
            forall|p: Vec2D<int>|
                final(self).contains(p) && !in_bounding_box(triangle@, p)
                    ==> #[trigger] final(self).pixel(p) == old(self).pixel(p),
    {
        let t = sorted_for_fill(triangle);
        proof {
            fill_order_sorts(triangle@);
            assert forall|p: Vec2D<int>| fill_covers(triangle@, p) implies in_bounding_box(
                triangle@,
                p,
            ) by {
                fill_covers_in_bounding_box(triangle@, p);
            }
        }
        if t.0.y == t.1.y {
            // The top edge is flat
            self.fill_top_flat_triangle(&t, color);
        } else if t.1.y == t.2.y {
            // The bottom edge is flat
            self.fill_bottom_flat_triangle(&t, color);
        } else {
            // Cut into a pair of triangles with a flat edge each
            let t4 = split_vertex(&t);
            // The cut may lie to the left or to the right of the middle vertex
            let (t_bottom, t_top) = if t4.x < t.1.x {
                (Triangle2d(t.0, t4, t.1), Triangle2d(t4, t.1, t.2))
            } else {
                (Triangle2d(t.0, t.1, t4), Triangle2d(t.1, t4, t.2))
            };
            self.fill_bottom_flat_triangle(&t_bottom, color);
            self.fill_top_flat_triangle(&t_top, color);
        }
    }

    /// Paints the points of the line between `p1` and `p2`.
    pub fn draw_line(&mut self, p1: Vec2D<usize>, p2: Vec2D<usize>, color: u32)
        requires
            old(self).wf(),
            old(self).contains(p1@),
            old(self).contains(p2@),
        ensures
            old(self).same_shape(final(self)),
            forall|p: Vec2D<int>|
                final(self).contains(p) ==> #[trigger] final(self).pixel(p) == if line_points(
                    p1@,
                    p2@,
                ).contains(p) {
                    color
                } else {
                    old(self).pixel(p)
                },
    {
        let mut line = LineIter::new(p1, p2);
        let ghost points = line_points(p1@, p2@);
        let ghost mut taken: int = 0;
        proof {
            line_points_between(p1@, p2@);
        }
        loop
            invariant
                self.wf(),
                old(self).same_shape(self),
                old(self).contains(p1@),
                old(self).contains(p2@),
                line.wf(),
                points == line_points(p1@, p2@),
                0 <= taken <= points.len(),
                line@ == points.skip(taken),
                forall|k: int| 0 <= k < points.len() ==> between(p1@, p2@, #[trigger] points[k]),
                forall|p: Vec2D<int>|
                    self.contains(p) ==> #[trigger] self.pixel(p) == if points.take(
                        taken,
                    ).contains(p) {
                        color
                    } else {
                        old(self).pixel(p)
                    },
            ensures
                self.wf(),
                old(self).same_shape(self),
                forall|p: Vec2D<int>|
                    self.contains(p) ==> #[trigger] self.pixel(p) == if points.contains(p) {
                        color
                    } else {
                        old(self).pixel(p)
                    },
            decreases points.len() - taken,
        {
            match line.next() {
                None => {
                    assert(points.take(taken) =~= points);
                    break ;
                },
                Some(p) => {
                    assert(p@ == points[taken]);
                    let ghost previous = *self;
                    self.put_pixel(p, color);
                    proof {
                        assert forall|q: Vec2D<int>| self.contains(q) implies #[trigger] self.pixel(
                            q,
                        ) == if points.take(taken + 1).contains(q) {
                            color
                        } else {
                            old(self).pixel(q)
                        } by {
                            let shorter = points.take(taken);
                            let longer = points.take(taken + 1);
                            assert(longer =~= shorter.push(points[taken]));
                            if shorter.contains(q) {
                                let k = choose|k: int| 0 <= k < shorter.len() && shorter[k] == q;
                                assert(longer[k] == q);
                            }
                            if longer.contains(q) {
                                let k = choose|k: int| 0 <= k < longer.len() && longer[k] == q;
                                if k < taken {
                                    assert(shorter[k] == q);
                                }
                            } else {
                                assert(longer[taken] == p@);
                            }
                        }
                        taken = taken + 1;
                    }
                },
            }
        }
    }
}

} // verus!
