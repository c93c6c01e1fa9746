//! Orchestration core of a compiler test harness.
//!
//! The library turns a tree of on-disk test fixtures into an ordered suite of
//! test descriptors: it discovers fixture files, fans one fixture out into one
//! case per declared revision, computes stable display names and artifact
//! directories, records skip decisions, and sorts the finished suite.
//! Executing the cases is left to an external test engine.

pub mod cases;
pub mod config;
pub mod discovery;
pub mod mode;
pub mod paths;
pub mod suite;
