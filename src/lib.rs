//! A counter step, and the text exchange of a console prompt that applies it:
//! a line is read as a decimal `i32` and answered with the number and its successor.
pub mod decimal;
pub mod incrementer;
pub mod prompt;

pub use decimal::parse_number;
pub use incrementer::increment;
pub use prompt::{read_number, report};
