//! Verified core of a reactive block engine: calendar and schedule
//! arithmetic, the blocks' per-cycle state machines, block descriptors and
//! the registry, per-block pin and link bookkeeping, the engine's block
//! table and link checks, connector bookkeeping, and program save/load
//! planning.

pub mod calendar;
pub mod text;
pub mod schedule;
pub mod timers;
pub mod desc;
pub mod registry;
pub mod ids;
pub mod pins;
pub mod inputs;
pub mod connectors;
pub mod strings;
pub mod misc;
pub mod engine;
pub mod clock;
pub mod catalog;
pub mod program;
pub mod laws;
