//! A tray indicator for WSL2: whether it runs, its share of the CPU and of the
//! memory of the host, and Start, Restart and Shutdown from a menu.
//!
//! This library is what the program decides and computes. The window, the
//! registry, the process list and the clock are outside: what is read from
//! them comes in as plain values, and what is to be done goes out as such.
//!
//! * [`cli`] and [`duration`] read the command line, [`config`] the settings
//!   file.
//! * [`snapshot`] finds the VM in a snapshot of the process list, [`monitor`]
//!   turns one snapshot after the other into numbers.
//! * [`tray`] is the state machine of the program: messages, menu, jobs.
//!   [`label`] has the texts it shows, [`icon`] the picture.
//! * [`wsl`] and [`shell`] have the commands that are run, [`cmdline`] the
//!   command lines, [`registry`] the values that are read and written, [`log`]
//!   the lines of the log.
//! * [`memory`] and [`double`] make numbers readable, with [`natural`] for
//!   large ones; [`text`], [`lowercase`], [`utf16`], [`bytes`] and [`path`]
//!   are for characters, bytes and paths.

pub mod bytes;
pub mod cli;
pub mod cmdline;
pub mod config;
pub mod double;
pub mod duration;
pub mod icon;
pub mod label;
pub mod log;
pub mod lowercase;
pub mod memory;
pub mod monitor;
pub mod natural;
pub mod path;
pub mod registry;
pub mod shell;
pub mod snapshot;
pub mod text;
pub mod tray;
pub mod utf16;
pub mod wsl;
