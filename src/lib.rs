//! A buffered multi-producer, single-consumer channel.
//!
//! Each `Sender` collects values in a private buffer and moves them to the
//! shared queue in one block once its threshold is reached, on `flush`, and
//! when it is dropped. The one `Receiver` swaps the whole shared queue into
//! its own buffer and hands values out from the front. The channel is closed
//! when no `Sender` is left and both queues are drained.
pub mod buffer;
pub mod chan;
pub mod model;
mod sync;

pub use buffer::Received;
pub use chan::{unbounded, unbounded_with_buffer, Receiver, Sender};
pub use sync::Shared;
