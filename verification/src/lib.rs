//! The verified core of the `loi` toolchain: an in-memory virtual file
//! system, path and command parsing, output naming, configuration
//! resolution, diagnostics and symbol bookkeeping.
pub mod text;
pub mod fs;
pub mod registry;
pub mod command;
pub mod bundle;
pub mod symbol;
pub mod utter;
pub mod service;
pub mod config;
pub mod diagnostic;
pub mod lang;
pub mod lower;
pub mod display;
pub mod compiler;
pub mod order;
pub mod build_system;
