pub mod config;
pub mod copy;
pub mod plan;
pub mod render;
pub mod status;
