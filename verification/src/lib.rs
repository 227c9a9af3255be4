//! A small 2D sketch core: a generational point store and an iterative
//! constraint-relaxation solver.
//!
//! Points live in a slot arena keyed by opaque generational handles
//! ([`dat::ID`]), so a stale handle is told apart from a missing one.
//! Pairwise constraints (equal y, equal x, fixed distance) are kept in
//! declaration order and relaxed one sweep at a time: each sweep applies
//! every constraint's correction rule sequentially, so later constraints
//! see the corrections made earlier in the same sweep.
//!
//! Coordinates are integers in caller-chosen fixed-point units, bounded by
//! [`dat::COORD_LIMIT`], which keeps every correction rule exact and free
//! of overflow.

pub mod constrman;
pub mod dat;
pub mod num;
pub mod pointman;
