use regmsg::error::RegmsgError;
use regmsg::screen::backend::{DisplayBackend, DisplayMode, DisplayOutput, ModeParams, RotationParams};
use regmsg::screen::kmsdrm::DrmBackend;
use regmsg::screen::parse_mode;
use regmsg::screen::wayland::WaylandBackend;

fn clone_error(e: &RegmsgError) -> RegmsgError {
    e.clone()
}

struct MockDrmBackend {
    list_outputs_result: Result<Vec<DisplayOutput>, RegmsgError>,
    list_modes_result: Result<Vec<DisplayMode>, RegmsgError>,
    current_mode_result: Result<DisplayMode, RegmsgError>,
    current_rotation_result: Result<u32, RegmsgError>,
}

impl MockDrmBackend {
    fn new() -> Self {
        Self {
            list_outputs_result: Ok(vec![]),
            list_modes_result: Ok(vec![]),
            current_mode_result: Err(RegmsgError::NotFound("Mock mode".to_string())),
            current_rotation_result: Ok(0),
        }
    }
}

impl DisplayBackend for MockDrmBackend {
    fn list_outputs(&self) -> Result<Vec<DisplayOutput>, RegmsgError> {
        match &self.list_outputs_result {
            Ok(outputs) => Ok(outputs.clone()),
            Err(e) => Err(clone_error(e)),
        }
    }

    fn list_modes(&self, _screen: Option<&str>) -> Result<Vec<DisplayMode>, RegmsgError> {
        match &self.list_modes_result {
            Ok(modes) => Ok(modes.clone()),
            Err(e) => Err(clone_error(e)),
        }
    }

    fn current_mode(&self, _screen: Option<&str>) -> Result<DisplayMode, RegmsgError> {
        match &self.current_mode_result {
            Ok(mode) => Ok(mode.clone()),
            Err(e) => Err(clone_error(e)),
        }
    }

    fn current_resolution(&self, _screen: Option<&str>) -> Result<(u32, u32), RegmsgError> {
        match self.current_mode(None) {
            Ok(mode) => Ok((mode.width, mode.height)),
            Err(e) => Err(e),
        }
    }

    fn current_refresh_rate(&self, _screen: Option<&str>) -> Result<u32, RegmsgError> {
        match self.current_mode(None) {
            Ok(mode) => Ok(mode.refresh_rate),
            Err(e) => Err(e),
        }
    }

    fn current_rotation(&self, _screen: Option<&str>) -> Result<u32, RegmsgError> {
        match &self.current_rotation_result {
            Ok(rotation) => Ok(*rotation),
            Err(e) => Err(clone_error(e)),
        }
    }

    fn set_mode(&self, _screen: Option<&str>, _mode: &ModeParams) -> Result<(), RegmsgError> {
        Ok(())
    }

    fn set_rotation(&self, _screen: Option<&str>, _rotation: &RotationParams) -> Result<(), RegmsgError> {
        Ok(())
    }

    fn set_max_resolution(&self, _screen: Option<&str>, _max_resolution: Option<&str>) -> Result<(), RegmsgError> {
        Ok(())
    }

    fn take_screenshot(&self, _screenshot_dir: &str) -> Result<String, RegmsgError> {
        Ok("/tmp/mock_screenshot.png".to_string())
    }

    fn map_touchscreen(&self) -> Result<(), RegmsgError> {
        Ok(())
    }

    fn backend_name(&self) -> &'static str {
        "MockDRM"
    }
}

struct MockWaylandBackend {
    inner: MockDrmBackend,
}

impl MockWaylandBackend {
    fn new() -> Self {
        Self { inner: MockDrmBackend::new() }
    }
}

impl DisplayBackend for MockWaylandBackend {
    fn list_outputs(&self) -> Result<Vec<DisplayOutput>, RegmsgError> {
        self.inner.list_outputs()
    }

    fn list_modes(&self, screen: Option<&str>) -> Result<Vec<DisplayMode>, RegmsgError> {
        self.inner.list_modes(screen)
    }

    fn current_mode(&self, screen: Option<&str>) -> Result<DisplayMode, RegmsgError> {
        self.inner.current_mode(screen)
    }

    fn current_resolution(&self, screen: Option<&str>) -> Result<(u32, u32), RegmsgError> {
        self.inner.current_resolution(screen)
    }

    fn current_refresh_rate(&self, screen: Option<&str>) -> Result<u32, RegmsgError> {
        self.inner.current_refresh_rate(screen)
    }

    fn current_rotation(&self, screen: Option<&str>) -> Result<u32, RegmsgError> {
        self.inner.current_rotation(screen)
    }

    fn set_mode(&self, screen: Option<&str>, mode: &ModeParams) -> Result<(), RegmsgError> {
        self.inner.set_mode(screen, mode)
    }

    fn set_rotation(&self, screen: Option<&str>, rotation: &RotationParams) -> Result<(), RegmsgError> {
        self.inner.set_rotation(screen, rotation)
    }

    fn set_max_resolution(&self, screen: Option<&str>, max_resolution: Option<&str>) -> Result<(), RegmsgError> {
        self.inner.set_max_resolution(screen, max_resolution)
    }

    fn take_screenshot(&self, screenshot_dir: &str) -> Result<String, RegmsgError> {
        self.inner.take_screenshot(screenshot_dir)
    }

    fn map_touchscreen(&self) -> Result<(), RegmsgError> {
        self.inner.map_touchscreen()
    }

    fn backend_name(&self) -> &'static str {
        "MockWayland"
    }
}

#[test]
fn test_drm_backend_creation() {
    let backend = DrmBackend::new();
    assert_eq!(backend.backend_name(), "KMS/DRM");
}

#[test]
fn test_wayland_backend_creation() {
    let backend = WaylandBackend::new();
    assert_eq!(backend.backend_name(), "Wayland");
}

#[test]
fn test_mock_drm_backend_functionality() {
    let mock_backend = MockDrmBackend::new();
    let outputs = mock_backend.list_outputs().unwrap();
    assert!(outputs.is_empty());
    let modes = mock_backend.list_modes(None).unwrap();
    assert!(modes.is_empty());
    let current_mode_result = mock_backend.current_mode(None);
    assert!(current_mode_result.is_err());
    let rotation = mock_backend.current_rotation(None).unwrap();
    assert_eq!(rotation, 0);
    assert_eq!(mock_backend.backend_name(), "MockDRM");
}

#[test]
fn test_mock_wayland_backend_functionality() {
    let mock_backend = MockWaylandBackend::new();
    let outputs = mock_backend.list_outputs().unwrap();
    assert!(outputs.is_empty());
    let modes = mock_backend.list_modes(None).unwrap();
    assert!(modes.is_empty());
    let current_mode_result = mock_backend.current_mode(None);
    assert!(current_mode_result.is_err());
    let rotation = mock_backend.current_rotation(None).unwrap();
    assert_eq!(rotation, 0);
    assert_eq!(mock_backend.backend_name(), "MockWayland");
}

#[test]
fn screen_tests_test_invalid_rotation() {
    let backend = MockDrmBackend::new();
    let result = regmsg::screen::set_rotation(&backend, None, "45");
    assert!(result.is_err());
    match result {
        Err(RegmsgError::InvalidArguments(_)) => assert!(true),
        _ => assert!(false, "Expected InvalidArguments error for invalid rotation"),
    }
}

#[test]
fn test_invalid_rotation_non_numeric() {
    let backend = MockDrmBackend::new();
    let result = regmsg::screen::set_rotation(&backend, None, "abc");
    assert!(result.is_err());
    match result {
        Err(RegmsgError::InvalidArguments(_)) => assert!(true),
        _ => assert!(false, "Expected InvalidArguments error for non-numeric rotation"),
    }
}

#[test]
fn test_invalid_mode_format() {
    let backend = MockDrmBackend::new();
    let result = regmsg::screen::set_mode(&backend, None, "invalid_mode");
    assert!(result.is_err());
    match result {
        Err(RegmsgError::InvalidArguments(_)) => assert!(true),
        _ => assert!(false, "Expected InvalidArguments error for invalid mode format"),
    }
}

#[test]
fn test_invalid_mode_format_special_chars() {
    let backend = MockDrmBackend::new();
    let result = regmsg::screen::set_mode(&backend, None, "1920x1080@60@");
    assert!(result.is_err());
    match result {
        Err(RegmsgError::InvalidArguments(_)) => assert!(true),
        _ => assert!(
            false,
            "Expected InvalidArguments error for invalid mode format with special chars"
        ),
    }
}

#[test]
fn test_mode_with_zero_values() {
    let result = parse_mode("0x0@0");
    assert!(result.is_ok());
    let mode_info = result.unwrap();
    assert_eq!(mode_info.width, 0);
    assert_eq!(mode_info.height, 0);
    assert_eq!(mode_info.vrefresh, 0);
}

#[test]
fn test_parse_mode_with_refresh_rate() {
    let mode_info = parse_mode("1920x1080@60").unwrap();
    assert_eq!(mode_info.width, 1920);
    assert_eq!(mode_info.height, 1080);
    assert_eq!(mode_info.vrefresh, 60);
}

#[test]
fn test_parse_mode_without_refresh_rate() {
    let mode_info = parse_mode("1920x1080").unwrap();
    assert_eq!(mode_info.width, 1920);
    assert_eq!(mode_info.height, 1080);
    assert_eq!(mode_info.vrefresh, 60);
}

#[test]
fn test_parse_mode_invalid_format() {
    let result = parse_mode("invalid_format");
    assert!(result.is_err());
    match result {
        Err(RegmsgError::InvalidArguments(_)) => assert!(true),
        _ => assert!(false, "Expected InvalidArguments error"),
    }
}

#[test]
fn test_parse_mode_only_width_and_height() {
    let result = parse_mode("800x600");
    assert!(result.is_ok());
    let mode_info = result.unwrap();
    assert_eq!(mode_info.width, 800);
    assert_eq!(mode_info.height, 600);
    assert_eq!(mode_info.vrefresh, 60);
}

#[test]
fn test_parse_mode_with_high_refresh_rate() {
    let result = parse_mode("1920x1080@144");
    assert!(result.is_ok());
    let mode_info = result.unwrap();
    assert_eq!(mode_info.width, 1920);
    assert_eq!(mode_info.height, 1080);
    assert_eq!(mode_info.vrefresh, 144);
}
