//! Parser for short natural-language reminder commands.
//!
//! A command such as `remind me to call mom in 5 minutes` is turned into a
//! wait duration in whole seconds plus an action string, or a typed parse
//! error. The grammar recognises three word orders: duration-first
//! (`in <n> <unit> [to|that] <action>`), clock-time-first
//! (`at <HH:MM[:SS]> [to|that] <action>`) and action-first
//! (`<action> [in <n> <unit> | at <HH:MM[:SS]>]`).

pub mod clock;
pub mod laws;
pub mod numbers;
pub mod parser;
pub mod tokens;
