//! The screen functions: parsing the requests for display modes and
//! rotations, and putting what a display backend reports into text.
pub mod backend;
pub mod kmsdrm;
pub mod wayland;

use crate::config;
use crate::error::{RegmsgError, Result};
use crate::text::{
    chars_of, concat2, concat3, dec, is_prefix, join_with, parse_signed, parse_signed_chars,
    parse_u32, parse_unsigned, push_char, push_dec, push_str, sep_pred, split_on, split_pieces,
    string_of,
};
use backend::{DisplayBackend, DisplayMode, DisplayModeView, DisplayOutput, ModeParams, RotationParams};
use vstd::prelude::*;

verus! {

/// A parsed display mode: width and height in pixels, refresh rate in Hz.
#[derive(Debug)]
pub struct ModeInfo {
    pub width: i32,
    pub height: i32,
    pub vrefresh: i32,
}

/// The backend the screen functions drive.
#[derive(Debug, Clone, Copy, PartialEq, Eq, Structural)]
pub enum BackendKind {
    /// Sway, through its IPC socket.
    Wayland,
    /// The DRM device.
    Drm,
}

/// The choice of the backend for the screen functions.
pub struct ScreenService {}

impl ScreenService {
    /// The backend of the running system: Wayland when Sway's socket
    /// exists, else the DRM device; and whether `SWAYSOCK` must then be set
    /// to the socket's path (when Wayland is chosen and it is not set).
    pub fn default_backend(sway_socket_exists: bool, swaysock_set: bool) -> (r: (BackendKind, bool))
        ensures
            r.0 == (if sway_socket_exists {
                BackendKind::Wayland
            } else {
                BackendKind::Drm
            }),
            r.1 == (sway_socket_exists && !swaysock_set),
    {
        if sway_socket_exists {
            (BackendKind::Wayland, !swaysock_set)
        } else {
            (BackendKind::Drm, false)
        }
    }
}

/// Why a display mode string is refused.
pub enum ModeFault {
    /// Not of the form `WxH` or `WxH@R`.
    Format,
    /// The width is not an `i32`.
    Width,
    /// The height is not an `i32`.
    Height,
    /// The refresh rate is not an `i32`.
    Refresh,
}

/// The pieces of a mode string between `x` and `@`.
pub open spec fn mode_parts(s: Seq<char>) -> Seq<Seq<char>> {
    split_on(s, sep_pred(seq!['x', '@'], false))
}

/// A mode string read as width, height and refresh rate, the refresh rate
/// being 60 when it is left out.
pub open spec fn spec_parse_mode(s: Seq<char>) -> core::result::Result<(int, int, int), ModeFault> {
    let p = mode_parts(s);
    if p.len() < 2 || p.len() > 3 {
        Err(ModeFault::Format)
    } else if parse_signed(p[0], i32::MAX as int) is Err {
        Err(ModeFault::Width)
    } else if parse_signed(p[1], i32::MAX as int) is Err {
        Err(ModeFault::Height)
    } else if p.len() == 3 && parse_signed(p[2], i32::MAX as int) is Err {
        Err(ModeFault::Refresh)
    } else {
        Ok(
            (
                parse_signed(p[0], i32::MAX as int)->Ok_0,
                parse_signed(p[1], i32::MAX as int)->Ok_0,
                if p.len() == 3 {
                    parse_signed(p[2], i32::MAX as int)->Ok_0
                } else {
                    60
                },
            ),
        )
    }
}

/// The error that `parse_mode` returns for each fault.
pub open spec fn mode_fault_error(f: ModeFault, e: RegmsgError) -> bool {
    match f {
        ModeFault::Format => e matches RegmsgError::InvalidArguments(m) && m@
            == "Invalid mode format. Use 'WxH@R' or 'WxH'"@,
        ModeFault::Width => e matches RegmsgError::ParseError(m) && m@ == "Invalid width"@,
        ModeFault::Height => e matches RegmsgError::ParseError(m) && m@ == "Invalid height"@,
        ModeFault::Refresh => e matches RegmsgError::ParseError(m) && m@ == "Invalid refresh rate"@,
    }
}

/// What `parse_mode` returns for the string `s`.
pub open spec fn parse_mode_result(s: Seq<char>, r: Result<ModeInfo>) -> bool {
    match spec_parse_mode(s) {
        Ok((w, h, v)) => r matches Ok(m) && m.width == w && m.height == h && m.vrefresh == v,
        Err(f) => r matches Err(e) && mode_fault_error(f, e),
    }
}

/// Parses a display mode string `WxH@R` or `WxH` (the refresh rate is then
/// 60 Hz).
pub fn parse_mode(mode: &str) -> (r: Result<ModeInfo>)
    ensures
        parse_mode_result(mode@, r),
{
    let v = chars_of(mode);
    let mut seps: Vec<char> = Vec::new();
    seps.push('x');
    seps.push('@');
    proof {
        assert(seps@ =~= seq!['x', '@']);
    }
    let parts = split_pieces(&v, &seps, false);
    proof {
        assert(parts@.len() == mode_parts(mode@).len());
    }
    if parts.len() < 2 || parts.len() > 3 {
        return Err(
            RegmsgError::InvalidArguments(
                String::from_str("Invalid mode format. Use 'WxH@R' or 'WxH'"),
            ),
        );
    }
    proof {
        assert(parts@[0]@ == mode_parts(mode@)[0]);
        assert(parts@[1]@ == mode_parts(mode@)[1]);
        crate::text::lemma_parse_signed_bounds(mode_parts(mode@)[0], i32::MAX as int);
        crate::text::lemma_parse_signed_bounds(mode_parts(mode@)[1], i32::MAX as int);
    }
    let width = match parse_signed_chars(&parts[0], 0x7fff_ffff) {
        Ok(w) => w as i32,
        Err(_) => {
            return Err(RegmsgError::ParseError(String::from_str("Invalid width")));
        },
    };
    let height = match parse_signed_chars(&parts[1], 0x7fff_ffff) {
        Ok(h) => h as i32,
        Err(_) => {
            return Err(RegmsgError::ParseError(String::from_str("Invalid height")));
        },
    };
    let vrefresh = if parts.len() == 3 {
        proof {
            assert(parts@[2]@ == mode_parts(mode@)[2]);
            crate::text::lemma_parse_signed_bounds(mode_parts(mode@)[2], i32::MAX as int);
        }
        match parse_signed_chars(&parts[2], 0x7fff_ffff) {
            Ok(r) => r as i32,
            Err(_) => {
                return Err(RegmsgError::ParseError(String::from_str("Invalid refresh rate")));
            },
        }
    } else {
        60
    };
    Ok(ModeInfo { width, height, vrefresh })
}

// ---------------------------------------------------------------------------
// Text of the reports
// ---------------------------------------------------------------------------

/// One line of the mode list: `WxH@R:NAME WxH@RHz`.
pub open spec fn mode_line(m: DisplayModeView) -> Seq<char> {
    dec(m.width as nat) + "x"@ + dec(m.height as nat) + "@"@ + dec(m.refresh_rate as nat) + ":"@
        + m.name + " "@ + dec(m.width as nat) + "x"@ + dec(m.height as nat) + "@"@ + dec(
        m.refresh_rate as nat,
    ) + "Hz"@
}

/// The plain values of a sequence of modes.
pub open spec fn mode_views(ms: Seq<DisplayMode>) -> Seq<DisplayModeView> {
    ms.map_values(|m: DisplayMode| m@)
}

/// The mode list: one line per mode.
pub open spec fn modes_text(ms: Seq<DisplayModeView>) -> Seq<char> {
    join_with(ms.map_values(|m: DisplayModeView| mode_line(m)), '\n')
}

/// Appends the text `WxH` of a resolution.
fn push_resolution(s: &mut String, w: u32, h: u32)
    ensures
        final(s)@ == old(s)@ + dec(w as nat) + "x"@ + dec(h as nat),
{
    push_dec(s, w as u64);
    push_str(s, "x");
    push_dec(s, h as u64);
}

/// Appends the text `WxH@R` of a mode.
fn push_mode(s: &mut String, w: u32, h: u32, r: u32)
    ensures
        final(s)@ == old(s)@ + dec(w as nat) + "x"@ + dec(h as nat) + "@"@ + dec(r as nat),
{
    push_resolution(s, w, h);
    push_str(s, "@");
    push_dec(s, r as u64);
}

fn push_mode_line(s: &mut String, m: &DisplayMode)
    ensures
        final(s)@ == old(s)@ + mode_line(m@),
{
    push_mode(s, m.width, m.height, m.refresh_rate);
    push_str(s, ":");
    push_str(s, m.name.as_str());
    push_str(s, " ");
    push_mode(s, m.width, m.height, m.refresh_rate);
    push_str(s, "Hz");
    proof {
        assert(s@ =~= old(s)@ + mode_line(m@));
    }
}

/// The mode list of `modes`, one line per mode.
pub fn format_modes(modes: &Vec<DisplayMode>) -> (s: String)
    ensures
        s@ == modes_text(mode_views(modes@)),
{
    let ghost lines = mode_views(modes@).map_values(|m: DisplayModeView| mode_line(m));
    let mut s = String::new();
    let mut i: usize = 0;
    proof {
        assert(lines.take(0) =~= Seq::<Seq<char>>::empty());
    }
    while i < modes.len()
        invariant
            0 <= i <= modes.len(),
            lines == mode_views(modes@).map_values(|m: DisplayModeView| mode_line(m)),
            s@ == join_with(lines.take(i as int), '\n'),
        decreases modes.len() - i,
    {
        proof {
            assert(lines.take(i + 1).drop_last() =~= lines.take(i as int));
            assert(lines.take(i + 1).last() == mode_line(modes@[i as int]@));
        }
        let ghost before = s@;
        if i > 0 {
            push_char(&mut s, '\n');
        }
        push_mode_line(&mut s, &modes[i]);
        proof {
            if i == 0 {
                assert(lines.take(1) =~= seq![mode_line(modes@[0]@)]);
                assert(s@ =~= mode_line(modes@[0]@));
            }
        }
        i = i + 1;
    }
    proof {
        assert(lines.take(modes.len() as int) =~= lines);
    }
    s
}

/// The names of `outputs`, one per line.
pub open spec fn output_names_text(outputs: Seq<DisplayOutput>) -> Seq<char> {
    join_with(outputs.map_values(|o: DisplayOutput| o.name@), '\n')
}

/// The names of the outputs, one per line.
pub fn format_output_names(outputs: &Vec<DisplayOutput>) -> (s: String)
    ensures
        s@ == output_names_text(outputs@),
{
    let ghost names = outputs@.map_values(|o: DisplayOutput| o.name@);
    let mut s = String::new();
    let mut i: usize = 0;
    proof {
        assert(names.take(0) =~= Seq::<Seq<char>>::empty());
    }
    while i < outputs.len()
        invariant
            0 <= i <= outputs.len(),
            names == outputs@.map_values(|o: DisplayOutput| o.name@),
            s@ == join_with(names.take(i as int), '\n'),
        decreases outputs.len() - i,
    {
        proof {
            assert(names.take(i + 1).drop_last() =~= names.take(i as int));
            assert(names.take(i + 1).last() == outputs@[i as int].name@);
        }
        if i > 0 {
            push_char(&mut s, '\n');
        }
        push_str(&mut s, outputs[i].name.as_str());
        proof {
            if i == 0 {
                assert(names.take(1) =~= seq![outputs@[0].name@]);
                assert(s@ =~= outputs@[0].name@);
            }
        }
        i = i + 1;
    }
    proof {
        assert(names.take(outputs.len() as int) =~= names);
    }
    s
}

/// The report of a current mode: `WxH@R`.
pub fn mode_report(w: u32, h: u32, f: u32) -> (s: String)
    ensures
        s@ == mode_value_text(w, h, f),
{
    let mut s = String::new();
    push_mode(&mut s, w, h, f);
    proof {
        assert(s@ =~= mode_value_text(w, h, f));
    }
    s
}

/// The report of a current resolution: `WxH`.
pub fn resolution_report(w: u32, h: u32) -> (s: String)
    ensures
        s@ == dec(w as nat) + "x"@ + dec(h as nat),
{
    let mut s = String::new();
    push_resolution(&mut s, w, h);
    proof {
        assert(s@ =~= dec(w as nat) + "x"@ + dec(h as nat));
    }
    s
}

/// The report of a current refresh rate: `RHz`.
pub fn refresh_report(f: u32) -> (s: String)
    ensures
        s@ == dec(f as nat) + "Hz"@,
{
    let mut s = String::new();
    push_dec(&mut s, f as u64);
    push_str(&mut s, "Hz");
    proof {
        assert(s@ =~= dec(f as nat) + "Hz"@);
    }
    s
}

/// The first output that is connected and has a current mode.
pub open spec fn is_active(o: DisplayOutput) -> bool {
    o.is_connected && o.current_mode is Some
}

/// The name of the first active output, or "No active output".
pub open spec fn active_output_text(outputs: Seq<DisplayOutput>) -> Seq<char> {
    if exists|i: int| 0 <= i < outputs.len() && is_active(#[trigger] outputs[i]) {
        outputs[choose|i: int|
            0 <= i < outputs.len() && is_active(#[trigger] outputs[i]) && forall|j: int|
                0 <= j < i ==> !is_active(#[trigger] outputs[j])].name@
    } else {
        "No active output"@
    }
}

/// The name of the first output that is connected and has a current mode,
/// or "No active output".
pub fn active_output_name(outputs: &Vec<DisplayOutput>) -> (s: String)
    ensures
        s@ == active_output_text(outputs@),
{
    let mut i: usize = 0;
    while i < outputs.len()
        invariant
            0 <= i <= outputs.len(),
            forall|j: int| 0 <= j < i ==> !is_active(#[trigger] outputs@[j]),
        decreases outputs.len() - i,
    {
        if outputs[i].is_connected && outputs[i].current_mode.is_some() {
            proof {
                assert(is_active(outputs@[i as int]));
                let c = choose|k: int|
                    0 <= k < outputs@.len() && is_active(#[trigger] outputs@[k]) && forall|j: int|
                        0 <= j < k ==> !is_active(#[trigger] outputs@[j]);
                if c < i {
                } else if c > i {
                    assert(!is_active(outputs@[i as int]));
                }
            }
            return outputs[i].name.clone();
        }
        i = i + 1;
    }
    String::from_str("No active output")
}

// ---------------------------------------------------------------------------
// Requests
// ---------------------------------------------------------------------------

/// What a `setMode` request asks of the backend.
#[derive(Debug)]
pub enum ModeRequest {
    /// Lower the resolution to the largest within the given `WxH` limit.
    MaxResolution(String),
    /// Set the given mode.
    Mode(ModeParams),
}

/// `s` with every leading copy of `p` removed (`str::trim_start_matches`).
pub open spec fn trim_prefix_all(s: Seq<char>, p: Seq<char>) -> Seq<char>
    decreases s.len(),
{
    if p.len() > 0 && is_prefix(p, s) {
        trim_prefix_all(s.skip(p.len() as int), p)
    } else {
        s
    }
}

/// `s` with every leading copy of `p` removed.
pub fn trim_start_matches(s: &str, p: &str) -> (r: String)
    ensures
        r@ == trim_prefix_all(s@, p@),
{
    let v = chars_of(s);
    let pv = chars_of(p);
    let mut start: usize = 0;
    proof {
        assert(v@.skip(0) =~= v@);
    }
    while pv.len() > 0 && pv.len() <= v.len() - start && crate::text::starts_with_at(&v, start, &pv)
        invariant
            start <= v.len(),
            trim_prefix_all(s@, p@) == trim_prefix_all(v@.skip(start as int), p@),
            v@ == s@,
            pv@ == p@,
        decreases v.len() - start,
    {
        proof {
            assert(v@.skip(start as int).skip(pv.len() as int) =~= v@.skip(start + pv.len()));
        }
        start = start + pv.len();
    }
    proof {
        if pv.len() > 0 && pv.len() > v.len() - start {
            assert(!is_prefix(p@, v@.skip(start as int)));
        }
    }
    let mut out: Vec<char> = Vec::new();
    let mut k: usize = start;
    while k < v.len()
        invariant
            start <= k <= v.len(),
            out@ == v@.subrange(start as int, k as int),
        decreases v.len() - k,
    {
        out.push(v[k]);
        proof {
            assert(out@ =~= v@.subrange(start as int, k + 1));
        }
        k = k + 1;
    }
    proof {
        assert(out@ =~= v@.skip(start as int));
    }
    string_of(&out)
}

/// The parameters of a parsed mode (the values converted as `as u32` does).
pub open spec fn params_of(w: int, h: int, r: int) -> ModeParams {
    ModeParams { width: w as u32, height: h as u32, refresh_rate: r as u32 }
}

/// What a `setMode` request `s` asks: the resolution limit after the prefix
/// `max-`, or the parsed mode.
pub open spec fn mode_request_spec(s: Seq<char>, r: Result<ModeRequest>) -> bool {
    if is_prefix("max-"@, s) {
        r matches Ok(ModeRequest::MaxResolution(m)) && m@ == trim_prefix_all(s, "max-"@)
    } else {
        match spec_parse_mode(s) {
            Ok((w, h, v)) => r matches Ok(ModeRequest::Mode(p)) && p == params_of(w, h, v),
            Err(f) => r matches Err(e) && mode_fault_error(f, e),
        }
    }
}

/// Reads a `setMode` argument: `max-WxH` asks for the largest resolution
/// within `WxH`; anything else must be a mode `WxH@R` or `WxH`.
pub fn mode_request(mode: &str) -> (r: Result<ModeRequest>)
    ensures
        mode_request_spec(mode@, r),
{
    let v = chars_of(mode);
    let pv = chars_of("max-");
    if crate::text::starts_with(&v, &pv) {
        return Ok(ModeRequest::MaxResolution(trim_start_matches(mode, "max-")));
    }
    match parse_mode(mode) {
        Ok(m) => Ok(
            ModeRequest::Mode(
                ModeParams {
                    width: m.width as u32,
                    height: m.height as u32,
                    refresh_rate: m.vrefresh as u32,
                },
            ),
        ),
        Err(e) => Err(e),
    }
}

/// The rotations that can be set.
pub open spec fn is_allowed_rotation(r: int) -> bool {
    r == 0 || r == 90 || r == 180 || r == 270
}

/// What a `setRotation` argument `s` asks: the rotation if it is a number
/// among 0, 90, 180 and 270, else the error.
pub open spec fn rotation_request_spec(s: Seq<char>, r: Result<RotationParams>) -> bool {
    match parse_unsigned(s, u32::MAX as int) {
        Err(_) => r matches Err(RegmsgError::InvalidArguments(m)) && m@ == "Invalid rotation: '"@
            + s + "'. Must be a number"@,
        Ok(v) => if is_allowed_rotation(v) {
            r == Ok::<RotationParams, RegmsgError>(RotationParams { rotation: v as u32 })
        } else {
            r matches Err(RegmsgError::InvalidArguments(m)) && m@
                == "Rotation must be one of: 0, 90, 180, 270"@
        },
    }
}

/// Reads a rotation argument.
pub fn rotation_request(rotation: &str) -> (r: Result<RotationParams>)
    ensures
        rotation_request_spec(rotation@, r),
{
    proof {
        crate::text::lemma_parse_unsigned_bounds(rotation@, u32::MAX as int);
    }
    let value = match parse_u32(rotation) {
        Ok(v) => v,
        Err(_) => {
            return Err(
                RegmsgError::InvalidArguments(
                    concat3("Invalid rotation: '", rotation, "'. Must be a number"),
                ),
            );
        },
    };
    if !(value == 0 || value == 90 || value == 180 || value == 270) {
        return Err(
            RegmsgError::InvalidArguments(
                String::from_str("Rotation must be one of: 0, 90, 180, 270"),
            ),
        );
    }
    Ok(RotationParams { rotation: value })
}

// ---------------------------------------------------------------------------
// The screen functions
// ---------------------------------------------------------------------------

/// The text of a mode: `WxH@R`.
pub open spec fn mode_value_text(w: u32, h: u32, f: u32) -> Seq<char> {
    dec(w as nat) + "x"@ + dec(h as nat) + "@"@ + dec(f as nat)
}

/// A list of modes, one line each.
pub open spec fn is_modes_report(s: Seq<char>) -> bool {
    exists|ms: Seq<DisplayMode>| s == modes_text(mode_views(ms))
}

/// A list of output names, one line each.
pub open spec fn is_outputs_report(s: Seq<char>) -> bool {
    exists|os: Seq<DisplayOutput>| s == output_names_text(os)
}

/// The name of the first active output of some list, or "No active output".
pub open spec fn is_active_report(s: Seq<char>) -> bool {
    exists|os: Seq<DisplayOutput>| s == active_output_text(os)
}

/// A mode `WxH@R`.
pub open spec fn is_mode_report(s: Seq<char>) -> bool {
    exists|w: u32, h: u32, f: u32| s == mode_value_text(w, h, f)
}

/// A resolution `WxH`.
pub open spec fn is_resolution_report(s: Seq<char>) -> bool {
    exists|w: u32, h: u32| s == dec(w as nat) + "x"@ + dec(h as nat)
}

/// A refresh rate `RHz`.
pub open spec fn is_refresh_report(s: Seq<char>) -> bool {
    exists|f: u32| s == dec(f as nat) + "Hz"@
}

/// A rotation in degrees.
pub open spec fn is_rotation_report(s: Seq<char>) -> bool {
    exists|d: u32| s == dec(d as nat)
}

/// The same error, variant and texts.
pub open spec fn same_error(a: RegmsgError, b: RegmsgError) -> bool {
    match (a, b) {
        (RegmsgError::IoError(x), RegmsgError::IoError(y)) => x == y,
        (RegmsgError::BackendError { backend: b1, message: m1 }, RegmsgError::BackendError {
            backend: b2,
            message: m2,
        }) => b1@ == b2@ && m1@ == m2@,
        (RegmsgError::InvalidArguments(x), RegmsgError::InvalidArguments(y)) => x@ == y@,
        (RegmsgError::ConversionError(x), RegmsgError::ConversionError(y)) => x@ == y@,
        (RegmsgError::ParseError(x), RegmsgError::ParseError(y)) => x@ == y@,
        (RegmsgError::NotFound(x), RegmsgError::NotFound(y)) => x@ == y@,
        (RegmsgError::SystemError(x), RegmsgError::SystemError(y)) => x@ == y@,
        _ => false,
    }
}

/// Lists the modes of a screen (of all screens when none is named), one line
/// `WxH@R:NAME WxH@RHz` per mode.
pub fn list_modes<B: DisplayBackend>(backend: &B, screen: Option<&str>) -> (r: Result<String>)
    ensures
        r matches Ok(s) ==> is_modes_report(s@),
        exists|res: Result<Vec<DisplayMode>>|
            #[trigger] call_ensures(B::list_modes, (backend, screen), res) && match res {
                Ok(ms) => r matches Ok(s) && s@ == modes_text(mode_views(ms@)),
                Err(e) => r == Err::<String, RegmsgError>(e),
            },
{
    match backend.list_modes(screen) {
        Ok(modes) => {
            let s = format_modes(&modes);
            proof {
                assert(s@ == modes_text(mode_views(modes@)));
            }
            Ok(s)
        },
        Err(e) => Err(e),
    }
}

/// Lists the names of the outputs, one per line.
pub fn list_outputs<B: DisplayBackend>(backend: &B) -> (r: Result<String>)
    ensures
        r matches Ok(s) ==> is_outputs_report(s@),
        exists|res: Result<Vec<DisplayOutput>>|
            #[trigger] call_ensures(B::list_outputs, (backend,), res) && match res {
                Ok(os) => r matches Ok(s) && s@ == output_names_text(os@),
                Err(e) => r == Err::<String, RegmsgError>(e),
            },
{
    match backend.list_outputs() {
        Ok(outputs) => {
            let s = format_output_names(&outputs);
            proof {
                assert(s@ == output_names_text(outputs@));
            }
            Ok(s)
        },
        Err(e) => Err(e),
    }
}

/// The current mode of a screen as `WxH@R`.
pub fn current_mode<B: DisplayBackend>(backend: &B, screen: Option<&str>) -> (r: Result<String>)
    ensures
        r matches Ok(s) ==> is_mode_report(s@),
        exists|res: Result<DisplayMode>|
            #[trigger] call_ensures(B::current_mode, (backend, screen), res) && match res {
                Ok(m) => r matches Ok(s) && s@ == mode_value_text(m.width, m.height, m.refresh_rate),
                Err(e) => r == Err::<String, RegmsgError>(e),
            },
{
    match backend.current_mode(screen) {
        Ok(mode) => Ok(mode_report(mode.width, mode.height, mode.refresh_rate)),
        Err(e) => Err(e),
    }
}

/// The name of the first output that is connected and has a current mode,
/// or "No active output".
pub fn current_output<B: DisplayBackend>(backend: &B) -> (r: Result<String>)
    ensures
        r matches Ok(s) ==> is_active_report(s@),
        exists|res: Result<Vec<DisplayOutput>>|
            #[trigger] call_ensures(B::list_outputs, (backend,), res) && match res {
                Ok(os) => r matches Ok(s) && s@ == active_output_text(os@),
                Err(e) => r == Err::<String, RegmsgError>(e),
            },
{
    match backend.list_outputs() {
        Ok(outputs) => {
            let s = active_output_name(&outputs);
            proof {
                assert(s@ == active_output_text(outputs@));
            }
            Ok(s)
        },
        Err(e) => Err(e),
    }
}

/// The current resolution of a screen as `WxH`.
pub fn current_resolution<B: DisplayBackend>(backend: &B, screen: Option<&str>) -> (r: Result<
    String,
>)
    ensures
        r matches Ok(s) ==> is_resolution_report(s@),
        exists|res: Result<(u32, u32)>|
            #[trigger] call_ensures(B::current_resolution, (backend, screen), res) && match res {
                Ok((w, h)) => r matches Ok(s) && s@ == dec(w as nat) + "x"@ + dec(h as nat),
                Err(e) => r == Err::<String, RegmsgError>(e),
            },
{
    match backend.current_resolution(screen) {
        Ok((w, h)) => Ok(resolution_report(w, h)),
        Err(e) => Err(e),
    }
}

/// The current refresh rate of a screen as `RHz`.
pub fn current_refresh<B: DisplayBackend>(backend: &B, screen: Option<&str>) -> (r: Result<String>)
    ensures
        r matches Ok(s) ==> is_refresh_report(s@),
        exists|res: Result<u32>|
            #[trigger] call_ensures(B::current_refresh_rate, (backend, screen), res) && match res {
                Ok(f) => r matches Ok(s) && s@ == dec(f as nat) + "Hz"@,
                Err(e) => r == Err::<String, RegmsgError>(e),
            },
{
    match backend.current_refresh_rate(screen) {
        Ok(f) => Ok(refresh_report(f)),
        Err(e) => Err(e),
    }
}

/// The current rotation of a screen in degrees.
pub fn current_rotation<B: DisplayBackend>(backend: &B, screen: Option<&str>) -> (r: Result<
    String,
>)
    ensures
        r matches Ok(s) ==> is_rotation_report(s@),
        exists|res: Result<u32>|
            #[trigger] call_ensures(B::current_rotation, (backend, screen), res) && match res {
                Ok(d) => r matches Ok(s) && s@ == dec(d as nat),
                Err(e) => r == Err::<String, RegmsgError>(e),
            },
{
    match backend.current_rotation(screen) {
        Ok(d) => {
            let s = crate::text::dec_string(d as u64);
            proof {
                assert(s@ == dec(d as nat));
            }
            Ok(s)
        },
        Err(e) => Err(e),
    }
}

/// Sets the display mode of a screen: `max-WxH` lowers the resolution to the
/// largest within `WxH`, anything else must be a mode `WxH@R` or `WxH`.
/// A mode that does not parse is refused before the backend is asked.
pub fn set_mode<B: DisplayBackend>(backend: &B, screen: Option<&str>, mode: &str) -> (r: Result<
    (),
>)
    ensures
        forall|e: RegmsgError|
            #![trigger mode_request_spec(mode@, Err(e))]
            mode_request_spec(mode@, Err(e)) ==> (r matches Err(e2) && same_error(e, e2)),
        is_prefix("max-"@, mode@) ==> exists|m: &str|
            m@ == trim_prefix_all(mode@, "max-"@) && #[trigger] call_ensures(
                B::set_max_resolution,
                (backend, screen, Some(m)),
                r,
            ),
        !is_prefix("max-"@, mode@) ==> (spec_parse_mode(mode@) matches Ok((w, h, v))
            ==> call_ensures(B::set_mode, (backend, screen, &params_of(w, h, v)), r)),
{
    match mode_request(mode) {
        Ok(ModeRequest::MaxResolution(m)) => backend.set_max_resolution(screen, Some(m.as_str())),
        Ok(ModeRequest::Mode(p)) => backend.set_mode(screen, &p),
        Err(e) => {
            proof {
                lemma_mode_request_error_unique(mode@, e);
            }
            Err(e)
        },
    }
}

/// Two errors that a request allows are the same error.
proof fn lemma_mode_request_error_unique(s: Seq<char>, e: RegmsgError)
    requires
        mode_request_spec(s, Err(e)),
    ensures
        forall|e2: RegmsgError| mode_request_spec(s, Err(e2)) ==> same_error(e2, e),
{
}

/// Sets the mode of every output to the mode `WxH@R` or `WxH`.
pub fn set_output<B: DisplayBackend>(backend: &B, output: &str) -> (r: Result<()>)
    ensures
        spec_parse_mode(output@) matches Err(f) ==> (r matches Err(e) && mode_fault_error(f, e)),
        spec_parse_mode(output@) matches Ok((w, h, v)) ==> call_ensures(
            B::set_mode,
            (backend, None::<&str>, &params_of(w, h, v)),
            r,
        ),
{
    match parse_mode(output) {
        Ok(m) => {
            let p = ModeParams {
                width: m.width as u32,
                height: m.height as u32,
                refresh_rate: m.vrefresh as u32,
            };
            backend.set_mode(None, &p)
        },
        Err(e) => Err(e),
    }
}

/// Sets the rotation of a screen; only 0, 90, 180 and 270 are accepted, and
/// anything else is refused before the backend is asked.
pub fn set_rotation<B: DisplayBackend>(backend: &B, screen: Option<&str>, rotation: &str) -> (r:
    Result<()>)
    ensures
        parse_unsigned(rotation@, u32::MAX as int) is Err ==> (r matches Err(
            RegmsgError::InvalidArguments(m),
        ) && m@ == "Invalid rotation: '"@ + rotation@ + "'. Must be a number"@),
        parse_unsigned(rotation@, u32::MAX as int) matches Ok(v) && !is_allowed_rotation(v)
            ==> (r matches Err(RegmsgError::InvalidArguments(m)) && m@
            == "Rotation must be one of: 0, 90, 180, 270"@),
        match parse_unsigned(rotation@, u32::MAX as int) {
            Ok(v) => is_allowed_rotation(v) ==> call_ensures(
                B::set_rotation,
                (backend, screen, &RotationParams { rotation: v as u32 }),
                r,
            ),
            Err(_) => true,
        },
{
    match rotation_request(rotation) {
        Ok(p) => backend.set_rotation(screen, &p),
        Err(e) => Err(e),
    }
}

/// Takes a screenshot into the default screenshot directory: it succeeds
/// when the backend took it, and fails with the backend's error otherwise.
pub fn get_screenshot<B: DisplayBackend>(backend: &B) -> (r: Result<()>)
    ensures
        exists|res: Result<String>|
            #[trigger] call_ensures(B::take_screenshot, (backend, config::DEFAULT_SCREENSHOT_DIR), res)
                && match res {
                Ok(_) => r is Ok,
                Err(e) => r == Err::<(), RegmsgError>(e),
            },
{
    match backend.take_screenshot(config::DEFAULT_SCREENSHOT_DIR) {
        Ok(_) => Ok(()),
        Err(e) => Err(e),
    }
}

/// Maps the touchscreen to the focused output: the backend's result.
pub fn map_touch_screen<B: DisplayBackend>(backend: &B) -> (r: Result<()>)
    ensures
        call_ensures(B::map_touchscreen, (backend,), r),
{
    backend.map_touchscreen()
}

/// Lowers the resolution of a screen to the largest within 1920x1080: the
/// backend's result for that limit.
pub fn min_to_max_resolution<B: DisplayBackend>(backend: &B, screen: Option<&str>) -> (r: Result<
    (),
>)
    ensures
        call_ensures(
            B::set_max_resolution,
            (backend, screen, Some(config::DEFAULT_MAX_RESOLUTION)),
            r,
        ),
{
    backend.set_max_resolution(screen, Some(config::DEFAULT_MAX_RESOLUTION))
}

/// The name of the backend.
pub fn current_backend<B: DisplayBackend>(backend: &B) -> (r: Result<String>)
    ensures
        r is Ok,
        exists|n: &'static str|
            #[trigger] call_ensures(B::backend_name, (backend,), n) && (r matches Ok(s) && s@ == n@),
{
    Ok(String::from_str(backend.backend_name()))
}

// ---------------------------------------------------------------------------
// Laws
// ---------------------------------------------------------------------------

/// The mode that `current_mode` reports, `WxH@R`, is read back by
/// `parse_mode` (and so accepted by `set_mode`) as the same width, height
/// and refresh rate, when each fits an `i32`.
pub proof fn law_reported_mode_parses_back(w: u32, h: u32, f: u32)
    requires
        w <= i32::MAX,
        h <= i32::MAX,
        f <= i32::MAX,
    ensures
        spec_parse_mode(mode_value_text(w, h, f)) == Ok::<(int, int, int), ModeFault>(
            (w as int, h as int, f as int),
        ),
{
    reveal_strlit("x");
    reveal_strlit("@");
    let sep = sep_pred(seq!['x', '@'], false);
    let a = dec(w as nat);
    let b = dec(h as nat);
    let c = dec(f as nat);
    crate::text::lemma_dec_digits(w as nat);
    crate::text::lemma_dec_digits(h as nat);
    crate::text::lemma_dec_digits(f as nat);
    assert forall|i: int| 0 <= i < a.len() implies !sep(#[trigger] a[i]) by {
        assert(crate::text::is_digit(a[i]));
    }
    assert forall|i: int| 0 <= i < b.len() implies !sep(#[trigger] b[i]) by {
        assert(crate::text::is_digit(b[i]));
    }
    assert forall|i: int| 0 <= i < c.len() implies !sep(#[trigger] c[i]) by {
        assert(crate::text::is_digit(c[i]));
    }
    assert(sep('x'));
    assert(sep('@'));
    crate::text::lemma_split_without_sep(a, sep);
    crate::text::lemma_split_after_sep(a, 'x', b, sep);
    crate::text::lemma_split_after_sep(a.push('x') + b, '@', c, sep);
    assert(mode_value_text(w, h, f) =~= (a.push('x') + b).push('@') + c);
    assert(mode_parts(mode_value_text(w, h, f)) =~= seq![a, b, c]);
    crate::text::lemma_parse_dec(w as nat, i32::MAX as int);
    crate::text::lemma_parse_dec(h as nat, i32::MAX as int);
    crate::text::lemma_parse_dec(f as nat, i32::MAX as int);
}

} // verus!
