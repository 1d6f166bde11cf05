//! The rules of a system tray host: which trays there are, what their icons and menus are, and
//! how a bar, a command line client and a popup ask for them over a socket.
//!
//! The bus, the socket, the file system and the toolkit are outside. Each of them is told what
//! to do by a value, and answers with one.

pub mod client;
pub mod events;
pub mod icon;
pub mod icon_search;
pub mod listing;
pub mod menu;
pub mod number;
pub mod paths;
pub mod pixmap;
pub mod placement;
pub mod popup;
pub mod protocol;
pub mod registry;
pub mod text;
pub mod wire;
