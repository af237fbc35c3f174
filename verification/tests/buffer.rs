use view3d::buffer::Framebuffer;
use view3d::types2d::{Triangle2d, Vec2D};

fn triangle(a: (usize, usize), b: (usize, usize), c: (usize, usize)) -> Triangle2d<usize> {
    Triangle2d(Vec2D::new(a.0, a.1), Vec2D::new(b.0, b.1), Vec2D::new(c.0, c.1))
}

/// The places of `fb` that hold `color`, row by row.
fn painted(fb: &Framebuffer, color: u32) -> Vec<(usize, usize)> {
    let mut out = Vec::new();
    for y in 0..fb.height {
        for x in 0..fb.width {
            if fb.slice()[y * fb.width + x] == color {
                out.push((x, y));
            }
        }
    }
    out
}

/// The places of row `y` from column `left` to column `right`, both included.
fn row(y: usize, left: usize, right: usize) -> Vec<(usize, usize)> {
    (left..=right).map(|x| (x, y)).collect()
}

#[test]
fn new_buffer_is_zeroed() {
    let fb = Framebuffer::new(7, 3);
    assert_eq!(fb.width, 7);
    assert_eq!(fb.height, 3);
    assert_eq!(fb.slice().len(), 21);
    assert!(fb.slice().iter().all(|&p| p == 0));
}

#[test]
fn empty_buffer() {
    let fb = Framebuffer::new(0, 5);
    assert_eq!(fb.slice().len(), 0);
}

#[test]
fn slice_mut_writes_through() {
    let mut fb = Framebuffer::new(4, 2);
    fb.slice_mut()[5] = 0xABCD;
    assert_eq!(fb.slice()[5], 0xABCD);
    assert_eq!(painted(&fb, 0xABCD), vec![(1, 1)]);
    assert_eq!(fb.slice().len(), 8);
}

#[test]
fn fill_rect_paints_nine_pixels() {
    let mut fb = Framebuffer::new(10, 10);
    fb.fill_rect(Vec2D::new(2, 2), Vec2D::new(3, 3), 0xFF0000FF);
    for y in 0..10 {
        for x in 0..10 {
            let inside = (2..=4).contains(&x) && (2..=4).contains(&y);
            let expected = if inside { 0xFF0000FF } else { 0 };
            assert_eq!(fb.slice()[y * 10 + x], expected);
        }
    }
    assert_eq!(painted(&fb, 0xFF0000FF).len(), 9);
}

#[test]
fn fill_rect_of_no_extent_paints_nothing() {
    let mut fb = Framebuffer::new(5, 5);
    fb.fill_rect(Vec2D::new(2, 2), Vec2D::new(0, 3), 1);
    fb.fill_rect(Vec2D::new(2, 2), Vec2D::new(3, 0), 1);
    fb.fill_rect(Vec2D::new(5, 5), Vec2D::new(0, 0), 1);
    assert!(painted(&fb, 1).is_empty());
}

#[test]
fn fill_rect_over_the_whole_buffer() {
    let mut fb = Framebuffer::new(3, 2);
    fb.fill_rect(Vec2D::new(0, 0), Vec2D::new(3, 2), 9);
    assert!(fb.slice().iter().all(|&p| p == 9));
}

#[test]
fn draw_line_paints_the_points_of_the_line() {
    let mut fb = Framebuffer::new(6, 4);
    fb.draw_line(Vec2D::new(0, 0), Vec2D::new(4, 2), 7);
    assert_eq!(painted(&fb, 7), vec![(0, 0), (1, 0), (2, 1), (3, 1), (4, 2)]);
    assert_eq!(painted(&fb, 0).len(), 24 - 5);
}

#[test]
fn draw_line_in_reverse_paints_the_same() {
    let mut forth = Framebuffer::new(8, 8);
    let mut back = Framebuffer::new(8, 8);
    forth.draw_line(Vec2D::new(1, 6), Vec2D::new(7, 2), 3);
    back.draw_line(Vec2D::new(7, 2), Vec2D::new(1, 6), 3);
    assert_eq!(forth.slice(), back.slice());
    assert_eq!(painted(&forth, 3).len(), 7);
}

#[test]
fn draw_line_between_identical_points_paints_nothing() {
    let mut fb = Framebuffer::new(4, 4);
    fb.draw_line(Vec2D::new(2, 1), Vec2D::new(2, 1), 5);
    assert!(painted(&fb, 5).len() <= 1);
    assert!(painted(&fb, 5).is_empty());
}

#[test]
fn draw_line_keeps_other_colours() {
    let mut fb = Framebuffer::new(4, 4);
    fb.fill_rect(Vec2D::new(0, 0), Vec2D::new(4, 4), 1);
    fb.draw_line(Vec2D::new(0, 3), Vec2D::new(3, 3), 2);
    assert_eq!(painted(&fb, 2), row(3, 0, 3));
    assert_eq!(painted(&fb, 1).len(), 12);
}

#[test]
fn draw_triangle_paints_three_lines() {
    let mut fb = Framebuffer::new(6, 6);
    fb.draw_triangle(&triangle((0, 0), (4, 0), (0, 4)), 8);
    let mut expected = row(0, 0, 4);
    expected.extend([(0, 1), (3, 1), (0, 2), (2, 2), (0, 3), (1, 3), (0, 4)]);
    assert_eq!(painted(&fb, 8), expected);
}

#[test]
fn draw_triangle_does_not_depend_on_vertex_order() {
    let mut one = Framebuffer::new(9, 9);
    let mut other = Framebuffer::new(9, 9);
    one.draw_triangle(&triangle((1, 1), (7, 3), (4, 8)), 8);
    other.draw_triangle(&triangle((4, 8), (1, 1), (7, 3)), 8);
    assert_eq!(one.slice(), other.slice());
}

#[test]
fn fill_top_flat_triangle_is_symmetric() {
    let mut fb = Framebuffer::new(6, 6);
    fb.fill_triangle(&triangle((0, 0), (4, 0), (2, 4)), 6);
    let mut expected = row(0, 0, 4);
    expected.extend(row(1, 0, 4));
    expected.extend(row(2, 1, 3));
    expected.extend(row(3, 1, 3));
    expected.extend(row(4, 2, 2));
    assert_eq!(painted(&fb, 6), expected);
    // Nothing below the apex, nothing to the right of the flat edge
    assert!(painted(&fb, 6).iter().all(|&(x, y)| x <= 4 && y <= 4));
}

#[test]
fn fill_triangle_does_not_depend_on_vertex_order() {
    let mut one = Framebuffer::new(6, 6);
    let mut other = Framebuffer::new(6, 6);
    one.fill_triangle(&triangle((0, 0), (4, 0), (2, 4)), 6);
    other.fill_triangle(&triangle((2, 4), (4, 0), (0, 0)), 6);
    assert_eq!(one.slice(), other.slice());
}

#[test]
fn fill_bottom_flat_triangle_widens() {
    let mut fb = Framebuffer::new(6, 6);
    fb.fill_triangle(&triangle((2, 0), (0, 4), (4, 4)), 6);
    let mut expected = row(0, 2, 2);
    expected.extend(row(1, 2, 2));
    expected.extend(row(2, 1, 3));
    expected.extend(row(3, 1, 3));
    expected.extend(row(4, 0, 4));
    assert_eq!(painted(&fb, 6), expected);
}

/// The places of the rows given as (row, leftmost column, rightmost column).
fn rows(spans: &[(usize, usize, usize)]) -> Vec<(usize, usize)> {
    spans.iter().flat_map(|&(y, left, right)| row(y, left, right)).collect()
}

#[test]
fn fill_general_triangle_is_cut_at_the_middle_row() {
    let mut fb = Framebuffer::new(12, 12);
    // The long edge from (1,1) to (10,10) crosses the row of (2,8) at (8,8),
    // to the right of the middle vertex
    fb.fill_triangle(&triangle((1, 1), (2, 8), (10, 10)), 4);
    let expected = rows(&[
        (1, 1, 1),
        (2, 1, 2),
        (3, 1, 3),
        (4, 1, 4),
        (5, 2, 5),
        (6, 2, 6),
        (7, 2, 7),
        (8, 2, 8),
        (9, 5, 9),
        (10, 9, 10),
    ]);
    assert_eq!(painted(&fb, 4), expected);
}

#[test]
fn fill_triangle_with_the_cut_to_the_left() {
    let mut fb = Framebuffer::new(8, 12);
    // The long edge from (2,0) to (3,10) crosses the row of (5,4) at (2,4),
    // to the left of the middle vertex
    fb.fill_triangle(&triangle((2, 0), (5, 4), (3, 10)), 4);
    let expected = rows(&[
        (0, 2, 2),
        (1, 2, 3),
        (2, 2, 3),
        (3, 2, 4),
        (4, 2, 5),
        (5, 2, 5),
        (6, 2, 4),
        (7, 2, 4),
        (8, 3, 4),
        (9, 3, 3),
        (10, 3, 3),
    ]);
    assert_eq!(painted(&fb, 4), expected);
}

#[test]
fn fill_pairs_rows_in_stepping_order() {
    let mut fb = Framebuffer::new(8, 8);
    // The edge from (6,0) to (0,3) is stepped along x, from (0,3) upwards,
    // while the cut edge from (6,0) to (6,3) is stepped downwards: their rows
    // never meet, and only the lower half is painted
    fb.fill_triangle(&triangle((6, 0), (0, 3), (6, 6)), 4);
    assert_eq!(painted(&fb, 4), rows(&[(3, 0, 6), (4, 2, 6), (5, 4, 6), (6, 6, 6)]));
}

#[test]
fn fill_triangle_stays_in_the_bounding_box() {
    let triangles = [
        triangle((3, 2), (9, 5), (5, 10)),
        triangle((9, 2), (3, 5), (5, 10)),
        triangle((3, 3), (10, 3), (4, 9)),
        triangle((3, 9), (10, 9), (9, 2)),
        triangle((2, 2), (10, 3), (3, 4)),
        triangle((10, 2), (2, 3), (9, 4)),
        triangle((4, 4), (4, 4), (8, 8)),
        triangle((2, 2), (2, 10), (2, 6)),
    ];
    for t in triangles {
        let mut fb = Framebuffer::new(13, 13);
        fb.fill_triangle(&t, 1);
        let xs = [t.0.x, t.1.x, t.2.x];
        let ys = [t.0.y, t.1.y, t.2.y];
        let (x0, x1) = (*xs.iter().min().unwrap(), *xs.iter().max().unwrap());
        let (y0, y1) = (*ys.iter().min().unwrap(), *ys.iter().max().unwrap());
        for (x, y) in painted(&fb, 1) {
            assert!(x0 <= x && x <= x1 && y0 <= y && y <= y1);
        }
    }
}

#[test]
fn fill_triangle_of_no_height_paints_only_its_outline() {
    let flat = [
        triangle((1, 3), (4, 3), (8, 3)),
        triangle((8, 3), (1, 3), (4, 3)),
        triangle((4, 3), (4, 3), (8, 3)),
        triangle((1, 3), (8, 3), (8, 3)),
        triangle((5, 3), (5, 3), (5, 3)),
    ];
    for t in flat {
        let mut filled = Framebuffer::new(10, 6);
        let mut outlined = Framebuffer::new(10, 6);
        filled.fill_triangle(&t, 1);
        outlined.draw_triangle(&t, 1);
        for p in painted(&filled, 1) {
            assert_eq!(p.1, 3);
            assert!(painted(&outlined, 1).contains(&p));
        }
    }
    let mut fb = Framebuffer::new(10, 6);
    fb.fill_triangle(&triangle((1, 3), (4, 3), (8, 3)), 1);
    assert_eq!(painted(&fb, 1), row(3, 1, 4));
}

#[test]
fn fill_triangle_of_one_point_paints_nothing() {
    let mut fb = Framebuffer::new(4, 4);
    fb.fill_triangle(&triangle((2, 2), (2, 2), (2, 2)), 1);
    assert!(painted(&fb, 1).is_empty());
}

#[test]
fn fill_flat_triangles_by_name() {
    let mut top = Framebuffer::new(6, 6);
    top.fill_top_flat_triangle(&triangle((0, 0), (4, 0), (2, 4)), 6);
    let mut whole = Framebuffer::new(6, 6);
    whole.fill_triangle(&triangle((0, 0), (4, 0), (2, 4)), 6);
    assert_eq!(top.slice(), whole.slice());
    let mut bottom = Framebuffer::new(6, 6);
    bottom.fill_bottom_flat_triangle(&triangle((2, 0), (0, 4), (4, 4)), 6);
    assert_eq!(painted(&bottom, 6).len(), 1 + 1 + 3 + 3 + 5);
}

#[test]
fn fill_large_triangle() {
    let mut fb = Framebuffer::new(800, 600);
    let t = triangle((50, 50), (100, 400), (500, 500));
    fb.fill_triangle(&t, 0xFF00_7733);
    fb.draw_triangle(&t, 0xFFFF_FFFF);
    let filled = painted(&fb, 0xFF00_7733);
    assert!(!filled.is_empty());
    assert!(filled.iter().all(|&(x, y)| (50..=500).contains(&x) && (50..=500).contains(&y)));
    assert_eq!(fb.slice()[50 * 800 + 50], 0xFFFF_FFFF);
    assert_eq!(fb.slice()[500 * 800 + 500], 0xFFFF_FFFF);
    // A point well inside the triangle
    assert_eq!(fb.slice()[350 * 800 + 200], 0xFF00_7733);
}
