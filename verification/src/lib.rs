//! A verified core for a declarative batch process runner.
//!
//! A configuration document declares an ordered list of batches; each batch is
//! a single command or a group of commands meant to run concurrently. This
//! crate holds the verified logic of that runner: the command data model, the
//! dispatch planning (which program is started, with which arguments, and
//! whether the caller waits for it), the report formatting, the run semantics
//! over a trace of process events, and the codec between the data model and
//! the configuration document's shapes. Starting processes, reading the
//! configuration file and the worker pool are the unverified shell around it.

pub mod codec;
pub mod command;
pub mod dispatch;
pub mod executor;

pub use codec::{DecodeError, Doc, Field};
pub use command::{Batch, CommandSpec};
pub use dispatch::Invocation;
pub use executor::{CmdEvent, CommandReport, ReportBody};
