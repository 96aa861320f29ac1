//! Verified core of the driving-range visualiser: shot-data text parsing,
//! animation state, mesh and atlas layout, and the presentation choices.
pub mod text;
pub mod csv;
pub mod units;
pub mod relay;
pub mod animation;
pub mod meshes;
pub mod atlas;
pub mod presentation;
pub mod pixels;
pub mod cli;
