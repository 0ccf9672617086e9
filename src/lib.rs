//! A sensemaking store: versioned entities over an append-only content log,
//! link indices, default pointers, applet registration and method runs.

pub mod error;
pub mod entry;
pub mod ledger;
pub mod versioning;
pub mod paths;
pub mod pointer;
pub mod tray;
pub mod widgets;
pub mod compute;
pub mod method;
pub mod named;
pub mod applet;
pub mod resource_def;
pub mod assessment_control;
