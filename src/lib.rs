//! Models behind a file-browser side panel for a text editor: a lazily
//! expanded directory tree, the ordered list of open buffers and the
//! breadcrumb trail of the working directory. Each model is plain data that
//! the surrounding application feeds with directory listings and editor
//! notifications.
pub mod text;
pub mod path;
pub mod buffers;
pub mod crumbs;
pub mod tree;
pub mod browser;
pub mod theme;

pub use browser::{FileBrowserWidget, RowAction};
pub use buffers::{BufferEntry, BufferInfo, BufferList};
pub use crumbs::{Breadcrumbs, Crumb};
pub use tree::{Contents, DirTree, EntryKind, ListedEntry, Node, Reveal, level_rows};
