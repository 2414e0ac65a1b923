//! Classification of filesystem entries and deterministic flattening of
//! directory trees, written without any I/O of its own.
//!
//! Every operation that has to look at the filesystem is a small state
//! machine: it hands out a [`Request`], the caller performs it and feeds the
//! [`Reply`] back into `step`, until the machine reports its outcome.

pub mod classify;
pub mod cmdbar;
pub mod compare;
pub mod dirtree;
pub mod error;
pub mod item;
pub mod media;
pub mod model;
pub mod order;
pub mod protocol;
pub mod resolve;
pub mod session;
pub mod tabbar;
pub mod text;
pub mod walk;

pub use classify::{classify, classify_child, Classifier};
pub use cmdbar::{CmdBar, CmdBarViewMode, CmdInfo};
pub use compare::{comparable, matching, Comparison};
pub use dirtree::{flatten, FlattenedDirTree, Flattener};
pub use error::{ErrorKind, IoFailure};
pub use item::{FSItem, FSItemType, Report};
pub use media::{detect, FileType, MediaTag, HEAD_LEN};
pub use protocol::{DirChild, Metadata, ObjectKind, Progress, Reply, Request, Stat};
pub use resolve::{resolve, Resolver, MAX_HOPS};
pub use session::{Action, App, Session, MAX_SESSIONS};
pub use tabbar::TabBar;
