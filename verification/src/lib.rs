//! Event-roster relationship engine for a school-club administration system.
//!
//! The library keeps the many-to-many associations between people and events
//! (participants and prefects), computes the complement sets of people who
//! could still be added, groups people by cohort ("form"), and manages the
//! event lifecycle including the photo-deletion policy where the store row is
//! authoritative and the backing file is removed best-effort afterwards.
//!
//! All state lives in an in-memory [`store::Store`] whose invariants
//! (uniqueness of relations per (person, event) pair, referential integrity,
//! unique identifiers) are machine-checked. I/O — the web front end, the
//! clock, and the filesystem — stays outside; callers hand in plain values
//! and receive plain values back.

pub mod dates;
pub mod error;
pub mod lex;
pub mod model;
pub mod roster;
pub mod store;
pub mod summary;
