pub mod config;
pub mod route;
pub mod schedule;
pub mod utils;
