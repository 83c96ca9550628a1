pub mod bindings;
pub mod color;
pub mod config;
pub mod event;
pub mod fonts;
pub mod input;
pub mod ipc;
pub mod keyboard;
pub mod kitty;
pub mod layout;
pub mod magic;
pub mod palette;
pub mod pty_io;
pub mod render;
pub mod scroll;
pub mod session;
pub mod terminal;
pub mod text;
pub mod text_map;
pub mod themes;
pub mod window;
