//! jetem: the verified core of a plugin-first terminal emulator — the cell grid
//! and its two screen buffers, the escape-sequence interpreter, command blocks,
//! text selection and search, the recall and panel widgets, keybinding chords,
//! the plugin registry, the pane layout tree, themes and framebuffer painting.

pub mod text;
pub mod cell;
pub mod grid;
pub mod screen;
pub mod block;
pub mod parser;
pub mod pane;
pub mod layout;
pub mod strmap;
pub mod keys;
pub mod plugin;
pub mod search;
pub mod selection;
pub mod recall;
pub mod panel;
pub mod theme;
pub mod render;
pub mod window;
pub mod config;
