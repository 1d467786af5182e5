//! Checks that the inputs of a Nix flake follow one another as a set of rules
//! asks.
//!
//! A flake pins its dependencies in a lock graph. Each node of the graph has
//! inputs, and an input either names a node of its own or follows another
//! input. A follow rule says that every input of a given name must follow a
//! given name. This library holds the lock graph (`metadata`), the rules
//! (`config`), the check of the inputs of the root against the rules
//! (`commands`), the report on the outcomes (`report`), the steps by which
//! the inputs to fix are chosen (`selection`), the way from the address of a
//! flake to its file (`nix`) and the check that a text is a Nix expression
//! (`expression`).
//!
//! The library reads no file and asks no one: it works on values that its
//! caller hands to it.

pub mod commands;
pub mod config;
pub mod error;
pub mod expression;
pub mod lists;
pub mod metadata;
pub mod name_map;
pub mod nix;
pub mod order;
pub mod outcome;
pub mod report;
pub mod selection;
