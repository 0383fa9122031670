//! Control and state-synchronization core for a fleet of scriptable robots.
//!
//! The crate models each robot's pose and the voxel world it reports,
//! provides the binary snapshot codec for that world, and drives the
//! request/response session a robot speaks over its socket.

pub mod api;
pub mod codec;
pub mod color;
pub mod direction;
pub mod registry;
pub mod session;
pub mod strutil;
pub mod turtle;
pub mod world;
