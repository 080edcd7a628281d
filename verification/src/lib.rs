//! An in-memory collector of distributed-tracing spans: it reassembles the
//! spans it is given into traces, keeps a bounded working set of them, and
//! converts them for trace viewers.
//!
//! Spans are reported to a [`State`] in batches. The state merges each span
//! into the [`Trace`] of its trace id, whatever the order of arrival, and
//! keeps the traces in order of use: when it holds more traces than its
//! [`Config`] allows, or the traces take more memory than it allows, the
//! traces that were not used for the longest time leave.

pub mod hex;
pub mod jaeger;
pub mod json;
pub mod limiter;
pub mod lru;
pub mod names;
pub mod proto;
pub mod ranking;
pub mod size;
pub mod state;
pub mod state_proofs;
pub mod store;
pub mod tempo;
pub mod trace;
pub mod trace_proofs;

pub use crate::state::{Config, State};
pub use crate::store::Outcome;
pub use crate::trace::{SpanNode, SpanValue, Trace};
