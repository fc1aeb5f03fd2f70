//! Snapshot diffing for a simulated world of islands, towns, players and
//! alliances.
//!
//! A capture of the world is a [`model::DataTable`], read from the text of
//! the world data by [`world`] and [`parse`]. The validator in [`validate`]
//! admits only captures whose cross references resolve, the diff engine in
//! [`diff`] turns two admitted captures into change events, and the
//! coordinator in [`coordinator`] decides what the surrounding program has to
//! do next. The library itself neither fetches, stores nor serves anything.

pub mod ascending;
mod clock;
pub mod coordinator;
pub mod diff;
pub mod equality;
pub mod events;
pub mod messages;
pub mod model;
pub mod names;
pub mod parse;
pub mod text;
pub mod validate;
pub mod world;
