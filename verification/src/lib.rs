//! Generational entity identities and their allocator.
//!
//! An [`entity::Entity`] names a slot of a table together with the generation
//! of that slot. [`entities::Entities`] hands identities out, at once or as
//! reservations that a later flush makes real, and takes live ones back, so
//! that a recycled slot never answers to an identity of an earlier
//! generation. [`window::ReservationWindow`] lets many callers reserve at the
//! same time. [`state::State`] is the allocator as mathematics, and [`laws`]
//! and [`trace`] hold what is proved of it.
//!
//! [`array`] is apart from the rest: it takes arrays of a fixed length apart
//! into their elements and puts them together again.

pub mod array;
pub mod entities;
pub mod entity;
pub mod laws;
pub mod lemmas;
pub mod slot;
pub mod state;
pub mod trace;
pub mod window;
