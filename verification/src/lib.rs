//! A background filesystem-change monitor's verified core: the classifier
//! that filters raw change notifications down to the relevant files and maps
//! them to domain events, and the codec for the fixed payload shape in which
//! those events are published to the UI layer.
//!
//! The surrounding application owns the watch session: it registers a
//! recursive watch on one root directory with the OS-level change source,
//! bridges raw notifications over an ordered queue into one consumer thread,
//! and publishes each produced payload under the `fs:change` event name,
//! fire and forget. This crate holds everything that decides: which paths
//! matter, which change kinds map to which event, which path of a batched
//! notification is used, and what text is published.

pub mod classify;
pub mod codec;
pub mod event;

pub use classify::classify;
pub use classify::path_is_relevant;
pub use classify::process_all;
pub use classify::RawKind;
pub use classify::RawNotification;
pub use codec::parse_event;
pub use codec::serialize_event;
pub use event::EventView;
pub use event::FsEvent;
