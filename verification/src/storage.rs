pub mod activity;
pub mod category;
