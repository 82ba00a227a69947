//! A terminal emulator core: an ANSI escape-sequence parser, a scrollback
//! buffer of terminal characters, a tracker of character formats, and a
//! playback engine that feeds parsed output into the buffer.

pub mod colors;
pub mod fonts;
pub mod error;
pub mod term_char;
pub mod utf8;
pub mod params;
pub mod mode;
pub mod sgr;
pub mod osc_types;
pub mod output;
pub mod text;
pub mod vec_lemmas;
pub mod cursor;
pub mod buffer;
pub mod byte_buffer;
pub mod graphemes;
pub mod format_tracker;
pub mod emulator;
pub mod playback;
pub mod pty;
pub mod log;
pub mod args;
pub mod input;
pub mod layout;
pub mod render;
pub mod csi;
pub mod osc;
pub mod csi_commands;
pub mod ansi;
