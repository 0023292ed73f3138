//! Core of a multi-source, incremental text-completion engine.
//!
//! Given a snapshot of the cursor, the engine asks every enabled completion
//! provider for candidates, computes which bytes of each candidate match the
//! word the user has typed, and merges everything into one deterministically
//! ordered list. Providers run concurrently on the host side and may fail
//! individually; the merge tolerates per-provider failure and a newer request
//! always supersedes an older in-flight one.

pub mod border;
pub mod channel;
pub mod completion_item;
pub mod cursor;
pub mod matcher;
pub mod setup;
pub mod sources;

pub use channel::{Channel, ChannelState};
pub use completion_item::{ByteRange, CompletionItem, Completions};
pub use cursor::Cursor;
pub use sources::{CompletionSource, EmptyRegistry, SourceConfig, SourceError, Sources, ValidationError};
