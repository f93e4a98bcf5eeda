//! Region allocation with generation-tagged handles, and deduplicating pools
//! of values and texts built on top of it.
//!
//! An [`Arena`] owns a fixed number of bytes and hands out aligned runs of
//! them by advancing a cursor; only the whole region can be reset. An
//! [`ArenaSlice`] is a typed handle of such a run: it owns nothing, and it
//! carries the generation of the arena at the time it was created, so that a
//! handle kept across a reset can be told from a live one. A
//! [`ValuePool`] and a [`StrPool`] store every distinct value once and answer
//! equal values with the same handle.
//!
//! What an arena holds is plain data ([`plain::Plain`]): values with a fixed
//! layout and an exact byte image. The modules `draw`, `env` and `platform`
//! build on the arena: meshes whose buffers live in it, input state that is
//! advanced by plain events, and what an operating system reports, read as
//! plain values.

pub mod arena;
pub mod draw;
pub mod env;
pub mod intern;
pub mod layout;
pub mod math;
pub mod plain;
pub mod platform;

pub use arena::{Arena, ArenaSlice, ArenaString};
pub use intern::{StrPool, ValuePool};
