//! A file-watching core: glob include/exclude filtering with brace expansion,
//! per-event command templates, debounce coalescing, and command resolution.
//!
//! The executable around this library feeds it plain values (paths as strings,
//! timestamps in milliseconds, a flag for whether a path still exists on disk)
//! and performs the actual file-system subscription and process spawning.

pub mod args;
pub mod coalesce;
pub mod event;
pub mod filter;
pub mod template;
pub mod text;
pub mod watcher;

pub use coalesce::EventCoalescer;
pub use event::CommandConfig;
pub use event::EventKind;
pub use event::ModifySubkind;
pub use event::RawEvent;
pub use filter::PatternFilter;
pub use template::TemplateContext;
pub use watcher::FileWatcher;
