//! An in-process event tracer: timestamped begin/end/complete and allocation
//! records, admitted into a bounded buffer and written out as a
//! Chrome-trace-compatible JSON document.
//!
//! Everything here works on plain values: the wall clock, the identity of the
//! calling thread and the byte sink are supplied by the caller.

pub mod clock;
pub mod lock;
pub mod session;
pub mod scope;
pub mod json;
pub mod serialize;
pub mod nesting;
