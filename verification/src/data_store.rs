//! Records, their kinds, and the store that holds them.

pub mod error;
pub mod group;
pub mod kind;
pub mod laws;
pub mod note;
pub mod record;
pub mod store;
pub mod todo;

pub use error::{LoadError, ParseError};
pub use kind::Kind;
pub use note::{Note, NoteView};
pub use record::{Record, RecordView, Storable};
pub use store::{Restored, Store};
pub use todo::{Todo, TodoView};
