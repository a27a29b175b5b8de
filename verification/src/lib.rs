//! Command handling, rig-control commands, group bookkeeping and pass
//! search for a satellite tracker, with their contracts proved by Verus.
pub mod commands;
pub mod groups;
pub mod json;
pub mod passes;
pub mod rigctl;
pub mod text;
pub mod tle;
