//! The command side of the daemon: the registry that reads and dispatches
//! command lines, the commands the daemon offers, and the replies it sends.
pub mod command_registry;
pub mod command_handler;
pub mod commands;
pub mod response_handler;
pub mod session;
