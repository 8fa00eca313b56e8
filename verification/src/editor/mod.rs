pub mod actions;
pub mod app;
pub mod graph;
pub mod properties;
