pub mod buffer;
pub mod draw2d;
pub mod line;
pub mod scan;
pub mod types2d;
pub mod util;
