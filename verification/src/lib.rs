//! regmsg: display and game-controller settings for REG Linux. The daemon's
//! command registry and commands, the replies to its requests, the Sway and
//! DRM backends' reading of the display, the display tool that works without
//! the daemon, the controller table, and the clients' handling of command
//! lines, each with its contract.
pub mod text;
pub mod config;
pub mod error;
pub mod controller;
pub mod screen;
pub mod server;
pub mod client;
pub mod standalone;
