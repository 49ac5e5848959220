pub mod app;
pub mod tree;
