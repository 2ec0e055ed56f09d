//! A reconciliation engine for file-system change notifications.
//!
//! Raw notifications are buffered per path, deduplicated, stitched into
//! renames, and handed out in chronological batches once they are older
//! than the buffering window.
//!
//! - `notification`: the raw notifications that the engine takes in.
//! - `model`: what the engine holds and does, as mathematics.
//! - `processor`: the engine itself.
//! - `order`: the order of a batch.
//! - `file_cache`: file identities, and the resolvers that hold them.
//! - `events`: the events that consumers receive.
//! - `watcher`: from raw notifications to events, the errors that callers
//!   see, and the decisions around the engine.
//! - `filter`: which events are kept from the consumers.
//! - `order_laws`, `engine_laws`, `invariants`: what is proved of the order
//!   of a batch and of the engine as a whole.

pub mod engine_laws;
pub mod events;
pub mod file_cache;
pub mod filter;
pub mod invariants;
pub mod model;
pub mod notification;
pub mod order;
pub mod order_laws;
pub mod processor;
mod queues;
pub mod text;
pub mod watcher;
