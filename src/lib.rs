//! Stateful core of a modal terminal chat client: a timeline reconciler that
//! keeps each channel's history ordered and deduplicated, a UTF-8 input buffer
//! with byte and character cursors, a channel selector, a key-driven mode
//! controller and the per-frame view model.

pub mod cursor;
pub mod input;
pub mod selector;
pub mod state;
pub mod timeline;
pub mod view;

pub use cursor::cursor_cell;
pub use input::{InputBuffer, char_width};
pub use selector::ChannelSelector;
pub use state::{Action, AppState, Key, KeyPress, Mode};
pub use timeline::{Channel, Message, PendingEdit, TimelineEvent};
pub use view::{MessageLine, Snapshot};
