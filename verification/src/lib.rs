pub mod benchmark;
pub mod discovery;
pub mod graph;
pub mod interpolate;
pub mod selector;
pub mod strings;
pub mod value;
