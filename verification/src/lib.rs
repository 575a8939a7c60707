//! The `bv` command-line surface: argv normalization, flag registry and
//! validation, help rendering and command routing, with Verus contracts.

pub mod text;
pub mod registry;
pub mod flags;
pub mod argv;
pub mod enums;
pub mod validation;
pub mod help;
pub mod robot;
pub mod cli;
pub mod dispatch;
pub mod recipes;
pub mod analysis;
pub mod agents;
pub mod next;
pub mod plan;
pub mod insights;
pub mod laws;
