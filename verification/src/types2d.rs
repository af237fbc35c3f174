use std::cmp::Ordering;
use std::mem::swap;
use std::ops::{Add, Sub};
use vstd::multiset::Multiset;
use vstd::prelude::*;
use vstd::std_specs::cmp::{PartialEqSpec, PartialEqSpecImpl};
use vstd::std_specs::ops::{AddSpec, AddSpecImpl, SubSpec, SubSpecImpl};

verus! {

/// One of the two axes of the plane.
#[derive(Clone, Copy, Debug, PartialEq, Eq, Structural)]
pub enum Dimension2D {
    X,
    Y,
}

/// A pair of coordinates.
#[derive(Clone, Copy, Debug)]
pub struct Vec2D<T> {
    pub x: T,
    pub y: T,
}

impl<T> Vec2D<T> {
    /// The pair with the coordinates `x` and `y`.
    pub fn new(x: T, y: T) -> (v: Self)
        ensures
            v.x == x,
            v.y == y,
    {
        Vec2D { x, y }
    }
}

impl View for Vec2D<usize> {
    type V = Vec2D<int>;

    /// The same point with unbounded coordinates.
    open spec fn view(&self) -> Vec2D<int> {
        Vec2D { x: self.x as int, y: self.y as int }
    }
}

impl<T: PartialEq> PartialEq for Vec2D<T> {
    fn eq(&self, rhs: &Self) -> (equal: bool) {
        self.x == rhs.x && self.y == rhs.y
    }
}

impl<T: PartialEq> PartialEqSpecImpl for Vec2D<T> {
    open spec fn obeys_eq_spec() -> bool {
        T::obeys_eq_spec()
    }

    open spec fn eq_spec(&self, rhs: &Self) -> bool {
        self.x.eq_spec(&rhs.x) && self.y.eq_spec(&rhs.y)
    }
}

impl<T: Add<Output = T>> Add for Vec2D<T> {
    type Output = Self;

    fn add(self, rhs: Self) -> (sum: Self) {
        Vec2D { x: self.x + rhs.x, y: self.y + rhs.y }
    }
}

impl<T: Add<Output = T>> AddSpecImpl for Vec2D<T> {
    open spec fn obeys_add_spec() -> bool {
        T::obeys_add_spec()
    }

    open spec fn add_req(self, rhs: Self) -> bool {
        self.x.add_req(rhs.x) && self.y.add_req(rhs.y)
    }

    open spec fn add_spec(self, rhs: Self) -> Self {
        Vec2D { x: self.x.add_spec(rhs.x), y: self.y.add_spec(rhs.y) }
    }
}

impl<T: Sub<Output = T>> Sub for Vec2D<T> {
    type Output = Self;

    fn sub(self, rhs: Self) -> (difference: Self) {
        Vec2D { x: self.x - rhs.x, y: self.y - rhs.y }
    }
}

impl<T: Sub<Output = T>> SubSpecImpl for Vec2D<T> {
    open spec fn obeys_sub_spec() -> bool {
        T::obeys_sub_spec()
    }

    open spec fn sub_req(self, rhs: Self) -> bool {
        self.x.sub_req(rhs.x) && self.y.sub_req(rhs.y)
    }

    open spec fn sub_spec(self, rhs: Self) -> Self {
        Vec2D { x: self.x.sub_spec(rhs.x), y: self.y.sub_spec(rhs.y) }
    }
}

/// Three vertices, in the order in which they were given.
#[derive(Clone, Copy, Debug)]
pub struct Triangle2d<T>(pub Vec2D<T>, pub Vec2D<T>, pub Vec2D<T>);

impl View for Triangle2d<usize> {
    type V = Triangle2d<int>;

    /// The same triangle with unbounded coordinates.
    open spec fn view(&self) -> Triangle2d<int> {
        Triangle2d(self.0@, self.1@, self.2@)
    }
}

impl<T> Triangle2d<T> {
    /// The order of the vertices after one pass of the fixed three-element sort,
    /// given which of the three comparisons came out "greater":
    /// `g01` for the first vertex against the second, `g12` for the second
    /// against the third, `g02` for the first against the third.
    pub open spec fn arranged(self, g01: bool, g12: bool, g02: bool) -> Self {
        if g01 {
            if g12 {
                Triangle2d(self.2, self.1, self.0)
            } else if g02 {
                Triangle2d(self.1, self.2, self.0)
            } else {
                Triangle2d(self.1, self.0, self.2)
            }
        } else if g12 {
            if g02 {
                Triangle2d(self.2, self.0, self.1)
            } else {
                Triangle2d(self.0, self.2, self.1)
            }
        } else {
            self
        }
    }

    /// The three vertices as a multiset.
    pub open spec fn vertices(self) -> Multiset<Vec2D<T>> {
        Multiset::empty().insert(self.0).insert(self.1).insert(self.2)
    }

    /// The vertices sorted by an integer key, as the three-element sort leaves
    /// them when the comparator orders by that key.
    pub open spec fn sorted_by_key(self, key: spec_fn(Vec2D<T>) -> int) -> Self {
        self.arranged(
            key(self.0) > key(self.1),
            key(self.1) > key(self.2),
            key(self.0) > key(self.2),
        )
    }

    /// The keys of the vertices do not decrease from first to last.
    pub open spec fn ordered_by_key(self, key: spec_fn(Vec2D<T>) -> int) -> bool {
        key(self.0) <= key(self.1) <= key(self.2)
    }

    /// Whatever the comparator answers, the sort only permutes the vertices.
    pub proof fn arranged_permutes(self, g01: bool, g12: bool, g02: bool)
        ensures
            self.arranged(g01, g12, g02).vertices() =~= self.vertices(),
    {
    }

    /// A triangle on which neither neighbouring pair compares "greater" is
    /// left as it is.
    pub proof fn arranged_keeps_ordered(self, g02: bool)
        ensures
            self.arranged(false, false, g02) == self,
    {
    }

    /// Sorting by a key leaves the keys in ascending order.
    pub proof fn sorted_by_key_orders(self, key: spec_fn(Vec2D<T>) -> int)
        ensures
            self.sorted_by_key(key).ordered_by_key(key),
    {
    }

    /// Sorting is idempotent: a triangle whose keys already ascend is left
    /// unchanged, so a second sort by the same key changes nothing.
    pub proof fn sorted_by_key_idempotent(self, key: spec_fn(Vec2D<T>) -> int)
        ensures
            self.ordered_by_key(key) ==> self.sorted_by_key(key) == self,
            self.sorted_by_key(key).sorted_by_key(key) == self.sorted_by_key(key),
    {
    }

    /// Sorting is stable: vertices with equal keys keep their order. Stated
    /// with a second key: if the triangle ascends in `minor` before it is
    /// sorted by `major`, it afterwards ascends in `major`, and in `minor`
    /// wherever two neighbours agree in `major`.
    pub proof fn sorted_by_key_stable(
        self,
        minor: spec_fn(Vec2D<T>) -> int,
        major: spec_fn(Vec2D<T>) -> int,
    )
        requires
            self.ordered_by_key(minor),
        ensures
            ({
                let s = self.sorted_by_key(major);
                &&& s.ordered_by_key(major)
                &&& major(s.0) == major(s.1) ==> minor(s.0) <= minor(s.1)
                &&& major(s.1) == major(s.2) ==> minor(s.1) <= minor(s.2)
            }),
    {
    }

    /// Sorts the three vertices in place with at most two swaps, by the
    /// answers of `compare` on the pairs (first, second), (second, third) and
    /// (first, third) of the vertices as they stood before the call.
    pub fn sort_vectors_by<F>(&mut self, mut compare: F) -> (sorted: &mut Self) where
        F: FnMut(&Vec2D<T>, &Vec2D<T>) -> Ordering,

        requires
            call_requires(compare, (&old(self).0, &old(self).1)),
            call_requires(compare, (&old(self).1, &old(self).2)),
            call_requires(compare, (&old(self).0, &old(self).2)),
        ensures
            exists|c01: Ordering, c12: Ordering, c02: Ordering|
                {
                    &&& call_ensures(compare, (&old(self).0, &old(self).1), c01)
                    &&& call_ensures(compare, (&old(self).1, &old(self).2), c12)
                    &&& call_ensures(compare, (&old(self).0, &old(self).2), c02)
                    &&& *sorted == #[trigger] old(self).arranged(
                        c01 is Greater,
                        c12 is Greater,
                        c02 is Greater,
                    )
                },
            sorted.vertices() == old(self).vertices(),
            *final(self) == *final(sorted),
    {
        let c01 = compare(&self.0, &self.1);
        let c12 = compare(&self.1, &self.2);
        let c02 = compare(&self.0, &self.2);
        let g01 = matches!(c01, Ordering::Greater);
        let g12 = matches!(c12, Ordering::Greater);
        let g02 = matches!(c02, Ordering::Greater);
        if g01 {
            if g12 {
                swap(&mut self.0, &mut self.2);
            } else {
                swap(&mut self.0, &mut self.1);
                if g02 {
                    swap(&mut self.1, &mut self.2);
                }
            }
        } else if g12 {
            swap(&mut self.1, &mut self.2);
            if g02 {
                swap(&mut self.0, &mut self.1);
            }
        }
        proof {
            old(self).arranged_permutes(g01, g12, g02);
        }
        assert(*self == old(self).arranged(c01 is Greater, c12 is Greater, c02 is Greater));
        self
    }
}

} // verus!
