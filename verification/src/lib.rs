//! V8 embedded in Ruby: the logic of the binding. The calls into the two engines
//! are made around it.

pub mod bigint;
pub mod dispatch;
pub mod error;
pub mod hex;
pub mod host;
pub mod identity;
pub mod import;
pub mod isolate;
pub mod jobs;
pub mod js_read;
pub mod js_round_trip;
pub mod layout;
pub mod number;
pub mod operations;
pub mod path;
pub mod plan;
pub mod platform;
pub mod procs;
pub mod rb_read;
pub mod rb_round_trip;
pub mod request;
pub mod snapshot;
pub mod stack;
pub mod stack_text;
pub mod state;
pub mod task;
pub mod text;
pub mod transfer;
pub mod value;
pub mod watchdog;
