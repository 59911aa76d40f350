//! leap — a modeless, LEAP-driven editor in the spirit of the Canon Cat.
//!
//! This crate is the editor's core: the text buffer, the persistent edit log,
//! LEAP search sessions, the status/echo lines, the view model, the inline
//! calculator's grammar, the file finder's query logic and the
//! hold-to-confirm gesture. Terminal drawing, the database file and the
//! file-system walk live in the front-end program.

pub mod text;
pub mod rope;
pub mod echo;
pub mod input;
pub mod leap;
pub mod statusline;
pub mod view;
pub mod hold;
pub mod store;
pub mod buffer;
pub mod editor;
pub mod walk;
pub mod finder;
pub mod calc;
pub mod tutorial;
pub mod workspace;
