//! A reactive component core built on explicit message passing.
//!
//! Transmitters broadcast messages to responders registered through
//! receivers (`txrx`); a component folds incoming model messages into its
//! state and emits view messages (`component`), which a batching buffer
//! coalesces into one flush per scheduling tick. There is no diffing: every
//! update is an explicit, named message, so it is always plain where, when
//! and why the view changes.
//!
//! `msg` holds the message trait the graph fans out; `samples` holds worked
//! components (a click counter, a stateless forwarder, a multi-emit
//! cascade); `laws` states and proves the ordering, no-replay, branching and
//! batching guarantees over the same spec functions the executable
//! contracts use.

pub mod msg;
pub mod txrx;
pub mod component;
pub mod samples;
pub mod laws;

pub use msg::Message;
pub use txrx::{Hub, Transmitter, Receiver};
pub use component::{Component, GizmoComponent, Emitter, Subscriber};
