//! A time-tracking engine: a timeline of top-level blocks, a tree of nested
//! entries addressed by materialized paths, a registry of projects, colors and
//! tags, and the range and cursor queries over them.

pub mod auth;
pub mod blocks;
pub mod clock;
pub mod database;
pub mod entries;
pub mod errors;
pub mod models;
pub mod paths;
pub mod registry;
pub mod tags;
