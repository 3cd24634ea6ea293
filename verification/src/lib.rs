//! Verified core of a command-line scaffolding tool for Django projects.
//!
//! The crate models the provisioning pipeline (an ordered, failure-aware
//! state machine) and implements the settings-file line patcher, the one
//! genuine algorithm of the tool.  All process and filesystem side effects
//! live outside the library; the library decides, the caller performs.

pub mod commands;
pub mod patch;
pub mod pipeline;
