//! Bulk renaming of named items through one text document edited by hand.
//!
//! Each item becomes one line of the document: its content, then a tab and
//! a comment. The edited document is read back line by line, each line
//! paired with the item at the same position, and the items whose content
//! changed become the list of changes to apply.

pub mod args;
pub mod bulk_edit;
pub mod channel;
pub mod config;
pub mod error;
pub mod text;

pub use args::{ApplyArgs, ChannelFilterArgs, ConnectionArgs, IOMode};
pub use bulk_edit::{column_widths, Diff, Editor, TextEditableItem};
pub use channel::{
    collect_items, prepare_items, sort_channels, ChannelItem, ChannelKind, ChannelRecord,
};
pub use config::connection_settings;
pub use error::Error;
