//! Block-letter text art: a fixed five-row alphabet, and a renderer that draws
//! a text with one symbol for filled cells and another for empty ones.

pub mod alphabet;
pub mod config;
pub mod render;

pub use config::Config;
pub use render::run;
