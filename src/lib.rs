pub mod cli;
pub mod error;
pub mod names;
pub mod registry;
pub mod resolver;
pub mod state;
pub mod ui;
