//! Keyboard bindings for a modal editor: key tokens, a command registry,
//! a configuration document model, and the per-mode binding table.

pub mod commands;
pub mod document;
pub mod key;
pub mod key_map;
pub mod pairs;

pub use key::{parse_key, Key, KeyError};
pub use commands::{Command, CommandRegistry};
pub use document::Node;
pub use key_map::{KeyMap, KeyMapError};
