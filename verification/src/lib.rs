//! A small build-pipeline library: task graphs, in-memory file sets ("vinyls"),
//! content revisioning, and the template and graph planners of its processors.
//! Everything here is pure; reading and writing files is left to the caller.

pub mod paths;
pub mod text;
pub mod vinyl;
pub mod template;
pub mod config;
pub mod processor;
pub mod aggregate;
pub mod task;
