//! Looks after the WSL distributions of a Windows machine: which there are, which
//! run, and how to start, stop and keep them running.
//!
//! The library decides and the caller acts: it runs the commands that are planned
//! here, and reports what came of them.
//!
//! - [`decode`] and [`listing`] read what `wsl.exe -l -v` prints, with the helpers
//!   of [`text`] and the states of [`state`].
//! - [`command`] holds the commands, [`tables`] the tasks and processes under way,
//!   and [`controller`] what is done with them.
//! - [`events`] answers the tray, the menu and the window; [`screen`] says what the
//!   window shows.
//! - [`icon`] draws the program's icon, with the arithmetic of [`binary`].

pub mod binary;
pub mod command;
pub mod controller;
pub mod decode;
pub mod events;
pub mod icon;
pub mod listing;
pub mod screen;
pub mod state;
pub mod tables;
pub mod text;
