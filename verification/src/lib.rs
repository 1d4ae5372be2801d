mod editor;
mod error;
mod input;
mod screen;

pub use editor::Editor;
pub use editor::EditorRow;
pub use error::Error;
pub use input::DummyInputSequences;
pub use input::InputSeq;
pub use input::InputSequences;
pub use input::KeySeq;
pub use input::is_escape_terminator;
pub use input::parse_bytes_as_usize;
pub use screen::Screen;
pub use screen::cpr_query_bytes;
pub use screen::get_cursor_pos;
