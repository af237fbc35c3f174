use vstd::prelude::*;

verus! {

/// A conversion into `Self` from a value of `T` that stands for the same
/// number.
pub trait ApproxFrom<T>: Sized {
    /// The value of `Self` that stands for `x`.
    spec fn approx_from_spec(x: T) -> Self;

    fn approx_from(x: T) -> (converted: Self)
        ensures
            converted == Self::approx_from_spec(x),
    ;
}

/// Every type converts from itself, and the value stays as it is.
impl<T> ApproxFrom<T> for T {
    open spec fn approx_from_spec(x: T) -> T {
        x
    }

    fn approx_from(x: T) -> (converted: T) {
        x
    }
}

/// A coordinate converts into the wider signed type in which the error of a
/// line is kept, without loss.
impl ApproxFrom<usize> for i128 {
    open spec fn approx_from_spec(x: usize) -> i128 {
        x as i128
    }

    fn approx_from(x: usize) -> (converted: i128) {
        x as i128
    }
}

/// The conversion of `ApproxFrom`, seen from the value that is converted.
pub trait ApproxInto<T>: Sized {
    /// The value of `T` that stands for `self`.
    spec fn approx_spec(self) -> T;

    fn approx(self) -> (converted: T)
        ensures
            converted == self.approx_spec(),
    ;
}

/// Whatever a type converts from converts into it.
impl<A, B> ApproxInto<A> for B where A: ApproxFrom<B> {
    open spec fn approx_spec(self) -> A {
        A::approx_from_spec(self)
    }

    fn approx(self) -> (converted: A) {
        A::approx_from(self)
    }
}

} // verus!
