//! A generic compiler driver. A catalog names file states and the operations
//! that turn a file of one state into a file of another; for a request the
//! driver plans a chain of operations and emits a Ninja build script that
//! runs them.

pub mod callbacks;
pub mod catalog;
pub mod cli;
pub mod config;
pub mod driver;
pub mod emitter;
pub mod order;
pub mod pathfind;
pub mod paths;
pub mod plan;
pub mod refs;
pub mod route;
pub mod run;
pub mod search;
pub mod tables;
pub mod text;

pub use driver::{Driver, DriverBuilder};
