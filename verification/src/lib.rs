//! Core of an interactive terminal menu for wireless peripherals.
//!
//! The library holds everything the tool decides and computes: the device
//! record and its rendering, the parsers that turn captured text from the
//! two external discovery commands into ordered device lists, the batch
//! report that isolates per-device failures, and the stage controller that
//! sequences discovery, selection and action phases. Spawning the external
//! commands and drawing the prompts stay outside, handing the library plain
//! text and taking plain values back.

pub mod batch;
pub mod device;
pub mod parse;
pub mod stage;
pub mod text;

pub use batch::{action_args, action_tokens, batch_report, failure_line};
pub use device::Device;
pub use parse::{available_devices, devices};
pub use stage::{Controller, Stage};
