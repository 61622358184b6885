//! Default settings of the daemon.
use vstd::prelude::*;

verus! {

/// The path of the daemon's socket.
pub const DEFAULT_SOCKET_PATH: &'static str = "/var/run/regmsgd.sock";

/// Where screenshots are saved.
pub const DEFAULT_SCREENSHOT_DIR: &'static str = "/userdata/screenshots";

/// The resolution limit used when none is given.
pub const DEFAULT_MAX_RESOLUTION: &'static str = "1920x1080";

/// The log file of the daemon.
pub const DEFAULT_LOG_PATH: &'static str = "/var/log/regmsg.log";

/// The socket of the Sway compositor.
pub const DEFAULT_SWAYSOCK_PATH: &'static str = "/var/run/sway-ipc.0.sock";

/// The game controller database files, searched in this order.
pub const GAMECONTROLLER_DB_PATH_USER: &'static str =
    "/userdata/system/configs/emulationstation/gamecontrollerdb.txt";

/// The system game controller database file.
pub const GAMECONTROLLER_DB_PATH_SYSTEM: &'static str = "/usr/share/emulationstation/gamecontrollerdb.txt";

} // verus!
