//! Verified core of the termojinal terminal: the decisions of the escape
//! sequence handlers (CSI, OSC, DCS, ESC, C0 controls, SGR), the cursor
//! moves they make and the terminal state they compose into (saved
//! cursors, replies, keyboard flags, title, scroll count), printing into
//! a row of cells, the main and alternate screens, OSC 133 command
//! history, inline image protocols (Kitty graphics, iTerm2 inline images,
//! Sixel), soft fonts (DECDLD), the APC pre-scanner, the image store, and
//! the text utilities of the front end (tab titles, status bar values,
//! notifications, the daemon's replies).

pub mod apc;
pub mod codec;
pub mod color;
pub mod command;
pub mod control;
pub mod csi;
pub mod cursor;
pub mod dcs;
pub mod drcs;
pub mod history;
pub mod image_store;
pub mod ipc;
pub mod iterm2;
pub mod kitty;
pub mod notification;
pub mod osc;
pub mod path;
pub mod print;
pub mod process_info;
pub mod pty;
pub mod screen;
pub mod sgr;
pub mod sixel;
pub mod status_line;
pub mod tab_title;
pub mod terminal;
pub mod text;
pub mod width;

pub use image_store::{
    is_jpeg, is_png, DecodedImage, ImagePlacement, ImageStore, TerminalImage,
};
