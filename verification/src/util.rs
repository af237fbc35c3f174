pub mod approx;
