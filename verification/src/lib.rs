//! A modal text editor core: a Vim command grammar, a typed-command
//! debouncer, an editing state machine over a rope buffer, a natural
//! language command helper and syntax-highlight layout.

pub mod parser;
pub mod text;
pub mod debouncer;
pub mod buffer;
pub mod editor;
pub mod ai;
pub mod layout;
pub mod syntax;
pub mod keymap;
