//! Vendoring of packages from a local package cache into a self-contained
//! output tree: locating the best installed version of a package, planning
//! the copies of a dependency group, routing realms to directories and
//! deciding how a run proceeds and ends.
//!
//! The library works on names and plain values. Reading directories, copying
//! files and printing belong to the program around it.

pub mod cli;
pub mod commands;
pub mod config;
pub mod copier;
pub mod lockfile;
pub mod paths;
pub mod planner;
pub mod redirector;
pub mod report;
pub mod table;
pub mod text;
pub mod utils;
pub mod version;
