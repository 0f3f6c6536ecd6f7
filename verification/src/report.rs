pub mod common;
pub mod sliding;
pub mod today;
