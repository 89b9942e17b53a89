pub mod answer;
pub mod mobile;
pub mod questions;
pub mod ranking;
pub mod user;
