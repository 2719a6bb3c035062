//! A peer-to-peer fabric for running self-contained GPU compute programs:
//! the wire protocol, the tracker's membership rules, the peers' task queue,
//! result registry and work-stealing policy, and the dispatch planning of the
//! GPU runner.
pub mod networking;
pub mod dispatch;
pub mod tracker;
pub mod serialisable_program;
pub mod peer;
pub mod shader_bytes;
pub mod matrix;
