use std::cmp::Ordering;
use view3d::types2d::{Dimension2D, Triangle2d, Vec2D};
use view3d::util::approx::{ApproxFrom, ApproxInto};

fn corners(t: &Triangle2d<usize>) -> [(usize, usize); 3] {
    [(t.0.x, t.0.y), (t.1.x, t.1.y), (t.2.x, t.2.y)]
}

fn triangle(a: (usize, usize), b: (usize, usize), c: (usize, usize)) -> Triangle2d<usize> {
    Triangle2d(Vec2D::new(a.0, a.1), Vec2D::new(b.0, b.1), Vec2D::new(c.0, c.1))
}

#[test]
fn vec2d_new_keeps_coordinates() {
    let v = Vec2D::new(3usize, 7usize);
    assert_eq!(v.x, 3);
    assert_eq!(v.y, 7);
}

#[test]
fn vec2d_equality_is_by_coordinates() {
    assert!(Vec2D::new(1, 2) == Vec2D::new(1, 2));
    assert!(Vec2D::new(1, 2) != Vec2D::new(2, 1));
    assert!(Vec2D::new(1, 2) != Vec2D::new(1, 3));
}

#[test]
fn vec2d_adds_and_subtracts_by_coordinates() {
    let sum = Vec2D::new(1usize, 2usize) + Vec2D::new(10, 20);
    assert!(sum == Vec2D::new(11, 22));
    let difference = Vec2D::new(10i64, 20i64) - Vec2D::new(1, 25);
    assert!(difference == Vec2D::new(9, -5));
}

#[test]
fn dimensions_are_distinct() {
    assert!(Dimension2D::X != Dimension2D::Y);
    assert!(Dimension2D::X == Dimension2D::X);
}

#[test]
fn approx_from_self_is_identity() {
    let x: usize = ApproxFrom::approx_from(5usize);
    assert_eq!(x, 5);
    let y: i32 = (-3i32).approx();
    assert_eq!(y, -3);
}

#[test]
fn approx_widens_a_coordinate() {
    let wide: i128 = usize::MAX.approx();
    assert_eq!(wide, usize::MAX as i128);
    assert_eq!(<i128 as ApproxFrom<usize>>::approx_from(17), 17i128);
}

#[test]
fn sort_handles_all_six_orders() {
    let orders = [
        [(1, 0), (2, 0), (3, 0)],
        [(1, 0), (3, 0), (2, 0)],
        [(2, 0), (1, 0), (3, 0)],
        [(2, 0), (3, 0), (1, 0)],
        [(3, 0), (1, 0), (2, 0)],
        [(3, 0), (2, 0), (1, 0)],
    ];
    for o in orders {
        let mut t = triangle(o[0], o[1], o[2]);
        t.sort_vectors_by(|a, b| a.x.cmp(&b.x));
        assert_eq!(corners(&t), [(1, 0), (2, 0), (3, 0)]);
    }
}

#[test]
fn sort_is_idempotent() {
    let mut t = triangle((5, 1), (3, 2), (4, 0));
    t.sort_vectors_by(|a, b| a.x.cmp(&b.x));
    let once = corners(&t);
    t.sort_vectors_by(|a, b| a.x.cmp(&b.x));
    assert_eq!(corners(&t), once);
    assert_eq!(once, [(3, 2), (4, 0), (5, 1)]);
}

#[test]
fn sort_keeps_the_three_vertices() {
    let mut t = triangle((5, 1), (3, 2), (5, 1));
    t.sort_vectors_by(|a, b| a.y.cmp(&b.y));
    let mut got = corners(&t).to_vec();
    got.sort();
    assert_eq!(got, vec![(3, 2), (5, 1), (5, 1)]);
}

#[test]
fn sort_is_stable() {
    // All keys equal: nothing moves
    let mut t = triangle((9, 4), (1, 4), (5, 4));
    t.sort_vectors_by(|a, b| a.y.cmp(&b.y));
    assert_eq!(corners(&t), [(9, 4), (1, 4), (5, 4)]);
    // Two equal keys keep their order around the third
    let mut u = triangle((9, 4), (1, 2), (5, 4));
    u.sort_vectors_by(|a, b| a.y.cmp(&b.y));
    assert_eq!(corners(&u), [(1, 2), (9, 4), (5, 4)]);
    let mut v = triangle((9, 4), (5, 4), (1, 2));
    v.sort_vectors_by(|a, b| a.y.cmp(&b.y));
    assert_eq!(corners(&v), [(1, 2), (9, 4), (5, 4)]);
}

#[test]
fn sort_by_x_then_by_y_orders_rows_then_columns() {
    let mut t = triangle((7, 3), (2, 3), (4, 1));
    t.sort_vectors_by(|a, b| a.x.cmp(&b.x)).sort_vectors_by(|a, b| a.y.cmp(&b.y));
    assert_eq!(corners(&t), [(4, 1), (2, 3), (7, 3)]);
    let mut u = triangle((7, 3), (2, 3), (4, 3));
    u.sort_vectors_by(|a, b| a.x.cmp(&b.x)).sort_vectors_by(|a, b| a.y.cmp(&b.y));
    assert_eq!(corners(&u), [(2, 3), (4, 3), (7, 3)]);
}

#[test]
fn sort_goes_by_the_comparator_alone() {
    // A comparator that never answers "greater" leaves the triangle as it is
    let mut t = triangle((3, 0), (2, 0), (1, 0));
    t.sort_vectors_by(|_, _| Ordering::Less);
    assert_eq!(corners(&t), [(3, 0), (2, 0), (1, 0)]);
    // Descending order
    let mut u = triangle((1, 0), (3, 0), (2, 0));
    u.sort_vectors_by(|a, b| b.x.cmp(&a.x));
    assert_eq!(corners(&u), [(3, 0), (2, 0), (1, 0)]);
}

#[test]
fn sort_returns_the_triangle_itself() {
    let mut t = triangle((2, 0), (1, 0), (3, 0));
    let sorted = t.sort_vectors_by(|a, b| a.x.cmp(&b.x));
    sorted.0 = Vec2D::new(0, 9);
    assert_eq!(corners(&t), [(0, 9), (2, 0), (3, 0)]);
}
