//! The data of the display backends and the operations that every backend
//! offers.
use crate::error::Result;
use vstd::prelude::*;

verus! {

/// A display mode.
#[derive(Debug, Clone)]
pub struct DisplayMode {
    pub width: u32,
    pub height: u32,
    pub refresh_rate: u32,
    pub name: String,
}

/// A display mode as plain values.
pub struct DisplayModeView {
    pub width: u32,
    pub height: u32,
    pub refresh_rate: u32,
    pub name: Seq<char>,
}

impl View for DisplayMode {
    type V = DisplayModeView;

    open spec fn view(&self) -> DisplayModeView {
        DisplayModeView {
            width: self.width,
            height: self.height,
            refresh_rate: self.refresh_rate,
            name: self.name@,
        }
    }
}

/// An output (a connector or a screen) of the display.
#[derive(Debug, Clone)]
pub struct DisplayOutput {
    pub name: String,
    pub modes: Vec<DisplayMode>,
    pub current_mode: Option<DisplayMode>,
    pub is_connected: bool,
    pub rotation: u32,
}

/// The parameters of a new display mode.
#[derive(Debug, Clone, Copy, PartialEq, Eq, Structural)]
pub struct ModeParams {
    pub width: u32,
    pub height: u32,
    pub refresh_rate: u32,
}

/// The parameters of a rotation.
#[derive(Debug, Clone, Copy, PartialEq, Eq, Structural)]
pub struct RotationParams {
    pub rotation: u32,
}

/// The operations of a display backend (Wayland, DRM/KMS, ...).
///
/// What a backend returns depends on the display it drives; nothing is
/// promised of it here.
pub trait DisplayBackend {
    /// Lists all the outputs of the display.
    fn list_outputs(&self) -> Result<Vec<DisplayOutput>>;

    /// Lists the modes of one output (of all, when none is named).
    fn list_modes(&self, screen: Option<&str>) -> Result<Vec<DisplayMode>>;

    /// The current mode of an output.
    fn current_mode(&self, screen: Option<&str>) -> Result<DisplayMode>;

    /// The current resolution of an output.
    fn current_resolution(&self, screen: Option<&str>) -> Result<(u32, u32)>;

    /// The current refresh rate of an output.
    fn current_refresh_rate(&self, screen: Option<&str>) -> Result<u32>;

    /// The current rotation of an output.
    fn current_rotation(&self, screen: Option<&str>) -> Result<u32>;

    /// Sets the mode of an output.
    fn set_mode(&self, screen: Option<&str>, mode: &ModeParams) -> Result<()>;

    /// Sets the rotation of an output.
    fn set_rotation(&self, screen: Option<&str>, rotation: &RotationParams) -> Result<()>;

    /// Lowers the resolution of an output to the largest within a limit.
    fn set_max_resolution(&self, screen: Option<&str>, max_resolution: Option<&str>) -> Result<()>;

    /// Takes a screenshot into a directory and returns the file's path.
    fn take_screenshot(&self, screenshot_dir: &str) -> Result<String>;

    /// Maps the touchscreen to the focused output.
    fn map_touchscreen(&self) -> Result<()>;

    /// The name of the backend.
    fn backend_name(&self) -> &'static str;
}

} // verus!
