//! Outcome-resolution engine for a tabletop role-playing game assistant.
//!
//! The library turns raw dice samples into game-semantic results: it samples
//! dice, applies critical-threshold extremum selection and drop rules, derives
//! ability modifiers, resolves skill checks under advantage or disadvantage,
//! matches numeric results against range-indexed random tables, and keeps
//! bounded counters with overflow-reset semantics.  Every operation carries a
//! contract checked by Verus; the only unverified code is the thin boundary to
//! the process-wide random number generator and to `String::push`.

pub mod aggregate;
pub mod codec;
pub mod decimal;
pub mod dice;
pub mod entities;
pub mod errors;
pub mod outcome;
pub mod table;
pub mod text;

pub use aggregate::{Elements, TtrpgEntity};
pub use dice::{Boon, Roll};
pub use entities::{Attribute, Counter, Skill, SkillRollResult, Story};
pub use errors::EngineError;
pub use outcome::Outcome;
pub use table::Table;
