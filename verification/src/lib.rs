//! Verified core of a read-only task-list dashboard.
//!
//! The library holds the logic that is worth proving: the content
//! fingerprint, status normalization, the derived statistics over a task
//! collection, the debounced reload scheduler, and the view-state
//! reconciliation that keeps the cursor valid across reloads.  Terminal
//! rendering, file reading and the filesystem watch live outside, in an
//! ordinary binary that drives this library.

pub mod fingerprint;
pub mod text;
pub mod display;
pub mod monitor;
pub mod tasks;
pub mod view;
