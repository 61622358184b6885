//! The Wayland (Sway) backend: what it makes of the outputs and inputs that
//! Sway reports, and the Sway commands it sends to change them.
use super::backend::{DisplayMode, DisplayModeView, DisplayOutput, ModeParams, RotationParams};
use super::mode_views;
use crate::error::{RegmsgError, Result};
use crate::text::{
    chars_of, concat2, dec, int_text, opt_view, push_dec, push_int, push_str, str_eq,
};
use vstd::prelude::*;

verus! {

/// A mode of a Sway output, as Sway reports it: the refresh rate in mHz,
/// and the same rate rounded to Hz.
#[derive(Debug, Clone, Copy)]
pub struct SwayMode {
    pub width: i32,
    pub height: i32,
    /// The refresh rate in mHz.
    pub refresh: i32,
    /// The refresh rate rounded to the nearest Hz.
    pub refresh_hz: u32,
}

/// A Sway output.
#[derive(Debug)]
pub struct SwayOutput {
    pub name: String,
    pub modes: Vec<SwayMode>,
    pub current_mode: Option<SwayMode>,
    pub focused: bool,
    pub transform: Option<String>,
}

/// A Sway input device.
#[derive(Debug)]
pub struct SwayInput {
    pub identifier: String,
    pub input_type: String,
}

/// The Wayland backend.
pub struct WaylandBackend;

impl WaylandBackend {
    /// A Wayland backend.
    pub fn new() -> (b: Self) {
        WaylandBackend
    }

    /// The name of the backend.
    pub fn backend_name(&self) -> (n: &'static str)
        ensures
            n@ == "Wayland"@,
    {
        "Wayland"
    }
}

/// An error of the Wayland backend.
pub open spec fn is_wayland_error(e: RegmsgError, m: Seq<char>) -> bool {
    e matches RegmsgError::BackendError { backend, message } && backend@ == "Wayland"@ && message@
        == m
}

/// An error of the Wayland backend with the given message.
pub fn wayland_error(message: String) -> (e: RegmsgError)
    ensures
        is_wayland_error(e, message@),
{
    RegmsgError::BackendError { backend: String::from_str("Wayland"), message }
}

/// The error of a failed connection to Sway.
pub fn connection_error(reason: &str) -> (e: RegmsgError)
    ensures
        is_wayland_error(e, "Failed to connect to Wayland/Sway: "@ + reason@),
{
    wayland_error(concat2("Failed to connect to Wayland/Sway: ", reason))
}

// ---------------------------------------------------------------------------
// Conversions
// ---------------------------------------------------------------------------

/// The refresh rate in Hz of a rate given in mHz (a rate under 1000 is
/// taken to be in Hz already).
pub open spec fn refresh_value(refresh: i32) -> int {
    if refresh >= 1000 {
        refresh / 1000
    } else {
        refresh as int
    }
}

/// The refresh rate of a mode in Hz, as text.
pub fn format_refresh(refresh: i32) -> (s: String)
    ensures
        s@ == int_text(refresh_value(refresh)),
{
    let v: i32 = if refresh >= 1000 {
        refresh / 1000
    } else {
        refresh
    };
    let mut s = String::new();
    push_int(&mut s, v as i64);
    proof {
        assert(Seq::<char>::empty() + int_text(v as int) =~= int_text(v as int));
    }
    s
}

/// The rotation that a Sway transform stands for.
pub open spec fn transform_degrees(t: Option<Seq<char>>) -> u32 {
    match t {
        Some(s) => if s == "90"@ || s == "90°"@ || s == "rotated-90"@ {
            90
        } else if s == "180"@ || s == "180°"@ || s == "rotated-180"@ {
            180
        } else if s == "270"@ || s == "270°"@ || s == "rotated-270"@ {
            270
        } else {
            0
        },
        None => 0,
    }
}

/// The plain value of an optional string.
pub open spec fn opt_string_view(o: Option<String>) -> Option<Seq<char>> {
    match o {
        Some(s) => Some(s@),
        None => None,
    }
}

/// The rotation that a Sway transform stands for.
pub fn transform_rotation(t: &Option<String>) -> (r: u32)
    ensures
        r == transform_degrees(opt_string_view(*t)),
{
    match t {
        None => 0,
        Some(s) => {
            let s = s.as_str();
            if str_eq(s, "90") || str_eq(s, "90°") || str_eq(s, "rotated-90") {
                90
            } else if str_eq(s, "180") || str_eq(s, "180°") || str_eq(s, "rotated-180") {
                180
            } else if str_eq(s, "270") || str_eq(s, "270°") || str_eq(s, "rotated-270") {
                270
            } else {
                0
            }
        },
    }
}

/// The name of a Sway mode: `WxH@RHz`, the rate rounded to Hz.
pub open spec fn sway_mode_name(m: SwayMode) -> Seq<char> {
    int_text(m.width as int) + "x"@ + int_text(m.height as int) + "@"@ + dec(m.refresh_hz as nat)
        + "Hz"@
}

/// A Sway mode as a display mode.
pub open spec fn converted_mode(m: SwayMode) -> DisplayModeView {
    DisplayModeView {
        width: m.width as u32,
        height: m.height as u32,
        refresh_rate: m.refresh_hz,
        name: sway_mode_name(m),
    }
}

/// A Sway mode as a display mode.
pub fn convert_mode(m: &SwayMode) -> (d: DisplayMode)
    ensures
        d@ == converted_mode(*m),
{
    let mut name = String::new();
    push_int(&mut name, m.width as i64);
    push_str(&mut name, "x");
    push_int(&mut name, m.height as i64);
    push_str(&mut name, "@");
    push_dec(&mut name, m.refresh_hz as u64);
    push_str(&mut name, "Hz");
    proof {
        assert(name@ =~= sway_mode_name(*m));
    }
    DisplayMode {
        width: m.width as u32,
        height: m.height as u32,
        refresh_rate: m.refresh_hz,
        name,
    }
}

/// The modes of a sequence of Sway modes, converted.
pub open spec fn converted_modes(ms: Seq<SwayMode>) -> Seq<DisplayModeView> {
    ms.map_values(|m: SwayMode| converted_mode(m))
}

/// Appends the converted modes of `ms` to `out`.
fn push_converted(out: &mut Vec<DisplayMode>, ms: &Vec<SwayMode>)
    ensures
        mode_views(final(out)@) == mode_views(old(out)@) + converted_modes(ms@),
{
    let mut i: usize = 0;
    while i < ms.len()
        invariant
            0 <= i <= ms.len(),
            mode_views(out@) == mode_views(old(out)@) + converted_modes(ms@.take(i as int)),
        decreases ms.len() - i,
    {
        let d = convert_mode(&ms[i]);
        let ghost before = out@;
        out.push(d);
        proof {
            assert(mode_views(out@) =~= mode_views(before).push(converted_mode(ms@[i as int])));
            assert(converted_modes(ms@.take(i + 1)) =~= converted_modes(ms@.take(i as int)).push(
                converted_mode(ms@[i as int]),
            ));
        }
        i = i + 1;
    }
    proof {
        assert(ms@.take(ms.len() as int) =~= ms@);
    }
}

/// A Sway output as a display output (always taken as connected).
pub fn convert_output(o: &SwayOutput) -> (d: DisplayOutput)
    ensures
        d.name@ == o.name@,
        mode_views(d.modes@) == converted_modes(o.modes@),
        match o.current_mode {
            Some(m) => d.current_mode matches Some(c) && c@ == converted_mode(m),
            None => d.current_mode is None,
        },
        d.is_connected,
        d.rotation == transform_degrees(opt_string_view(o.transform)),
{
    let mut modes: Vec<DisplayMode> = Vec::new();
    push_converted(&mut modes, &o.modes);
    proof {
        assert(mode_views(Seq::<DisplayMode>::empty()) =~= Seq::<DisplayModeView>::empty());
        assert(Seq::<DisplayModeView>::empty() + converted_modes(o.modes@) =~= converted_modes(
            o.modes@,
        ));
    }
    let current_mode = match &o.current_mode {
        Some(m) => Some(convert_mode(m)),
        None => None,
    };
    DisplayOutput {
        name: o.name.clone(),
        modes,
        current_mode,
        is_connected: true,
        rotation: transform_rotation(&o.transform),
    }
}

// ---------------------------------------------------------------------------
// Queries
// ---------------------------------------------------------------------------

/// A request about `screen` is about the output `o`: every output when no
/// screen is named, else the output of that name.
pub open spec fn selects(screen: Option<Seq<char>>, o: SwayOutput) -> bool {
    match screen {
        None => true,
        Some(s) => o.name@ == s,
    }
}

/// Whether a request about `screen` is about the output `o`.
pub(crate) fn is_selected(screen: Option<&str>, o: &SwayOutput) -> (r: bool)
    ensures
        r == selects(opt_view(screen), *o),
{
    match screen {
        None => true,
        Some(s) => str_eq(o.name.as_str(), s),
    }
}

/// The modes of the outputs a request is about, converted, in order.
pub open spec fn modes_of_outputs(os: Seq<SwayOutput>, screen: Option<Seq<char>>) -> Seq<
    DisplayModeView,
>
    decreases os.len(),
{
    if os.len() == 0 {
        Seq::empty()
    } else if selects(screen, os.last()) {
        modes_of_outputs(os.drop_last(), screen) + converted_modes(os.last().modes@)
    } else {
        modes_of_outputs(os.drop_last(), screen)
    }
}

/// The modes of the outputs a request about `screen` is about.
pub fn list_modes_of(outputs: &Vec<SwayOutput>, screen: Option<&str>) -> (ms: Vec<DisplayMode>)
    ensures
        mode_views(ms@) == modes_of_outputs(outputs@, opt_view(screen)),
{
    let mut ms: Vec<DisplayMode> = Vec::new();
    let mut i: usize = 0;
    proof {
        assert(outputs@.take(0) =~= Seq::<SwayOutput>::empty());
        assert(mode_views(ms@) =~= Seq::<DisplayModeView>::empty());
    }
    while i < outputs.len()
        invariant
            0 <= i <= outputs.len(),
            mode_views(ms@) == modes_of_outputs(outputs@.take(i as int), opt_view(screen)),
        decreases outputs.len() - i,
    {
        proof {
            assert(outputs@.take(i + 1).drop_last() =~= outputs@.take(i as int));
            assert(outputs@.take(i + 1).last() == outputs@[i as int]);
        }
        if is_selected(screen, &outputs[i]) {
            push_converted(&mut ms, &outputs[i].modes);
        }
        i = i + 1;
    }
    proof {
        assert(outputs@.take(outputs.len() as int) =~= outputs@);
    }
    ms
}

/// `d` is the Sway output `o` as a display output.
pub open spec fn converts(o: SwayOutput, d: DisplayOutput) -> bool {
    &&& d.name@ == o.name@
    &&& mode_views(d.modes@) == converted_modes(o.modes@)
    &&& match o.current_mode {
        Some(m) => d.current_mode matches Some(c) && c@ == converted_mode(m),
        None => d.current_mode is None,
    }
    &&& d.is_connected
    &&& d.rotation == transform_degrees(opt_string_view(o.transform))
}

/// All the Sway outputs as display outputs.
pub fn list_outputs_of(outputs: &Vec<SwayOutput>) -> (ds: Vec<DisplayOutput>)
    ensures
        ds@.len() == outputs@.len(),
        forall|i: int| 0 <= i < outputs@.len() ==> converts(outputs@[i], #[trigger] ds@[i]),
{
    let mut ds: Vec<DisplayOutput> = Vec::new();
    let mut i: usize = 0;
    while i < outputs.len()
        invariant
            0 <= i <= outputs.len(),
            ds@.len() == i,
            forall|j: int| 0 <= j < i ==> converts(outputs@[j], #[trigger] ds@[j]),
        decreases outputs.len() - i,
    {
        let d = convert_output(&outputs[i]);
        ds.push(d);
        i = i + 1;
    }
    ds
}

/// The current mode of the first output the request is about that has one.
pub open spec fn first_current(os: Seq<SwayOutput>, screen: Option<Seq<char>>) -> Option<SwayMode>
    decreases os.len(),
{
    if os.len() == 0 {
        None
    } else if selects(screen, os[0]) && os[0].current_mode is Some {
        os[0].current_mode
    } else {
        first_current(os.drop_first(), screen)
    }
}

/// The current mode of the first output a request about `screen` is about
/// that has one; an error when none has.
pub fn current_mode_of(outputs: &Vec<SwayOutput>, screen: Option<&str>) -> (r: Result<DisplayMode>)
    ensures
        match first_current(outputs@, opt_view(screen)) {
            Some(m) => r matches Ok(d) && d@ == converted_mode(m),
            None => r matches Err(RegmsgError::NotFound(t)) && t@ == "Current mode"@,
        },
{
    let mut i: usize = 0;
    proof {
        assert(outputs@.skip(0) =~= outputs@);
    }
    while i < outputs.len()
        invariant
            0 <= i <= outputs.len(),
            first_current(outputs@, opt_view(screen)) == first_current(
                outputs@.skip(i as int),
                opt_view(screen),
            ),
        decreases outputs.len() - i,
    {
        proof {
            assert(outputs@.skip(i as int)[0] == outputs@[i as int]);
            assert(outputs@.skip(i as int).drop_first() =~= outputs@.skip(i + 1));
        }
        if is_selected(screen, &outputs[i]) {
            match &outputs[i].current_mode {
                Some(m) => {
                    return Ok(convert_mode(m));
                },
                None => {},
            }
        }
        i = i + 1;
    }
    Err(RegmsgError::NotFound(String::from_str("Current mode")))
}

/// The first output the request is about.
pub open spec fn first_selected(os: Seq<SwayOutput>, screen: Option<Seq<char>>) -> Option<
    SwayOutput,
>
    decreases os.len(),
{
    if os.len() == 0 {
        None
    } else if selects(screen, os[0]) {
        Some(os[0])
    } else {
        first_selected(os.drop_first(), screen)
    }
}

/// The rotation of the first output a request about `screen` is about (0
/// when there is none).
pub fn rotation_of(outputs: &Vec<SwayOutput>, screen: Option<&str>) -> (r: u32)
    ensures
        r == match first_selected(outputs@, opt_view(screen)) {
            Some(o) => transform_degrees(opt_string_view(o.transform)),
            None => 0,
        },
{
    let mut i: usize = 0;
    proof {
        assert(outputs@.skip(0) =~= outputs@);
    }
    while i < outputs.len()
        invariant
            0 <= i <= outputs.len(),
            first_selected(outputs@, opt_view(screen)) == first_selected(
                outputs@.skip(i as int),
                opt_view(screen),
            ),
        decreases outputs.len() - i,
    {
        proof {
            assert(outputs@.skip(i as int)[0] == outputs@[i as int]);
            assert(outputs@.skip(i as int).drop_first() =~= outputs@.skip(i + 1));
        }
        if is_selected(screen, &outputs[i]) {
            return transform_rotation(&outputs[i].transform);
        }
        i = i + 1;
    }
    0
}

// ---------------------------------------------------------------------------
// Setting a mode
// ---------------------------------------------------------------------------

/// No later output has the name of the output at `i`.
pub open spec fn is_last_of_name(os: Seq<SwayOutput>, i: int) -> bool {
    forall|j: int| i < j < os.len() ==> (#[trigger] os[j]).name@ != os[i].name@
}

/// The outputs keyed by their name: of outputs with the same name, the last
/// one stands.
pub open spec fn by_output_name(os: Seq<SwayOutput>) -> Seq<SwayOutput>
    decreases os.len(),
{
    if os.len() == 0 {
        Seq::empty()
    } else if is_last_of_name(os, 0) {
        seq![os[0]] + by_output_name(os.drop_first())
    } else {
        by_output_name(os.drop_first())
    }
}

/// The output has a mode of the requested width and height.
pub open spec fn offers_size(o: SwayOutput, p: ModeParams) -> bool {
    exists|k: int|
        0 <= k < o.modes@.len() && (#[trigger] o.modes@[k]).width == p.width as i32
            && o.modes@[k].height == p.height as i32
}

/// The Sway command that sets the mode `p` on the output `name`.
pub open spec fn mode_command(name: Seq<char>, p: ModeParams) -> Seq<char> {
    "output "@ + name + " mode "@ + dec(p.width as nat) + "x"@ + dec(p.height as nat) + "@"@ + dec(
        p.refresh_rate as nat,
    ) + "Hz"@
}

/// The commands that set `p` on those of the outputs that offer its size.
pub open spec fn mode_commands(os: Seq<SwayOutput>, p: ModeParams) -> Seq<Seq<char>>
    decreases os.len(),
{
    if os.len() == 0 {
        Seq::empty()
    } else if offers_size(os[0], p) {
        seq![mode_command(os[0].name@, p)] + mode_commands(os.drop_first(), p)
    } else {
        mode_commands(os.drop_first(), p)
    }
}

/// The last output named `name`.
pub open spec fn last_named(os: Seq<SwayOutput>, name: Seq<char>) -> Option<SwayOutput>
    decreases os.len(),
{
    if os.len() == 0 {
        None
    } else if os.last().name@ == name {
        Some(os.last())
    } else {
        last_named(os.drop_last(), name)
    }
}

/// The plain values of a sequence of strings.
pub open spec fn string_views(v: Seq<String>) -> Seq<Seq<char>> {
    v.map_values(|s: String| s@)
}

/// The message of the error when the named screen does not offer the mode.
pub open spec fn mode_refusal(p: ModeParams) -> Seq<char> {
    "Failed to set mode "@ + dec(p.width as nat) + "x"@ + dec(p.height as nat) + "@"@ + dec(
        p.refresh_rate as nat,
    ) + "Hz for specified screen"@
}

/// Whether the output offers a mode of the requested width and height.
fn has_size(o: &SwayOutput, p: &ModeParams) -> (r: bool)
    ensures
        r == offers_size(*o, *p),
{
    let w = p.width as i32;
    let h = p.height as i32;
    let mut k: usize = 0;
    while k < o.modes.len()
        invariant
            0 <= k <= o.modes.len(),
            w == p.width as i32,
            h == p.height as i32,
            forall|j: int|
                0 <= j < k ==> !((#[trigger] o.modes@[j]).width == w && o.modes@[j].height == h),
        decreases o.modes.len() - k,
    {
        if o.modes[k].width == w && o.modes[k].height == h {
            return true;
        }
        k = k + 1;
    }
    false
}

/// The Sway command that sets the mode `p` on the output `name`.
fn make_mode_command(name: &str, p: &ModeParams) -> (c: String)
    ensures
        c@ == mode_command(name@, *p),
{
    let mut c = String::from_str("output ");
    push_str(&mut c, name);
    push_str(&mut c, " mode ");
    push_dec(&mut c, p.width as u64);
    push_str(&mut c, "x");
    push_dec(&mut c, p.height as u64);
    push_str(&mut c, "@");
    push_dec(&mut c, p.refresh_rate as u64);
    push_str(&mut c, "Hz");
    proof {
        assert(c@ =~= mode_command(name@, *p));
    }
    c
}

/// The Sway commands that set the mode `p` on the screen named `screen`, or
/// on every output when none is named; an output that does not offer the
/// mode's size is left alone. A named screen that does not exist, or that
/// does not offer the size, is an error. The outputs are taken by name, the
/// last of a name standing.
pub fn set_mode_commands(outputs: &Vec<SwayOutput>, screen: Option<&str>, p: &ModeParams) -> (r:
    Result<Vec<String>>)
    ensures
        match screen {
            None => r matches Ok(cs) && string_views(cs@) == mode_commands(
                by_output_name(outputs@),
                *p,
            ),
            Some(s) => match last_named(outputs@, s@) {
                None => r matches Err(RegmsgError::NotFound(m)) && m@ == "Screen '"@ + s@
                    + "' not found"@,
                Some(o) => if offers_size(o, *p) {
                    r matches Ok(cs) && string_views(cs@) == seq![mode_command(o.name@, *p)]
                } else {
                    r matches Err(e) && is_wayland_error(e, mode_refusal(*p))
                },
            },
        },
{
    match screen {
        Some(s) => {
            let mut i: usize = outputs.len();
            proof {
                assert(outputs@.take(outputs.len() as int) =~= outputs@);
            }
            while i > 0
                invariant
                    0 <= i <= outputs.len(),
                    screen == Some(s),
                    last_named(outputs@, s@) == last_named(outputs@.take(i as int), s@),
                decreases i,
            {
                proof {
                    assert(outputs@.take(i as int).drop_last() =~= outputs@.take(i - 1));
                    assert(outputs@.take(i as int).last() == outputs@[i - 1]);
                }
                if str_eq(outputs[i - 1].name.as_str(), s) {
                    let o = &outputs[i - 1];
                    if has_size(o, p) {
                        let mut cs: Vec<String> = Vec::new();
                        cs.push(make_mode_command(o.name.as_str(), p));
                        proof {
                            assert(string_views(cs@) =~= seq![mode_command(o.name@, *p)]);
                        }
                        return Ok(cs);
                    } else {
                        let mut m = String::from_str("Failed to set mode ");
                        push_dec(&mut m, p.width as u64);
                        push_str(&mut m, "x");
                        push_dec(&mut m, p.height as u64);
                        push_str(&mut m, "@");
                        push_dec(&mut m, p.refresh_rate as u64);
                        push_str(&mut m, "Hz for specified screen");
                        proof {
                            assert(m@ =~= mode_refusal(*p));
                        }
                        return Err(wayland_error(m));
                    }
                }
                i = i - 1;
            }
            proof {
                assert(outputs@.take(0) =~= Seq::<SwayOutput>::empty());
            }
            Err(RegmsgError::NotFound(concat3_str("Screen '", s, "' not found")))
        },
        None => {
            let mut cs: Vec<String> = Vec::new();
            let mut i: usize = 0;
            proof {
                assert(outputs@.skip(0) =~= outputs@);
            }
            while i < outputs.len()
                invariant
                    0 <= i <= outputs.len(),
                    string_views(cs@) + mode_commands(by_output_name(outputs@.skip(i as int)), *p)
                        == mode_commands(by_output_name(outputs@), *p),
                decreases outputs.len() - i,
            {
                let ghost rest = outputs@.skip(i as int);
                proof {
                    assert(rest[0] == outputs@[i as int]);
                    assert(rest.drop_first() =~= outputs@.skip(i + 1));
                }
                let mut last = true;
                let mut j: usize = i + 1;
                while j < outputs.len()
                    invariant
                        i < j <= outputs.len(),
                        rest == outputs@.skip(i as int),
                        last == forall|k: int| 0 < k < j - i ==> (#[trigger] rest[k]).name@ != rest[0].name@,
                    decreases outputs.len() - j,
                {
                    proof {
                        assert(rest[j - i] == outputs@[j as int]);
                    }
                    if str_eq(outputs[j].name.as_str(), outputs[i].name.as_str()) {
                        last = false;
                    }
                    j = j + 1;
                }
                proof {
                    assert(last == is_last_of_name(rest, 0));
                }
                let ghost before = cs@;
                if last && has_size(&outputs[i], p) {
                    cs.push(make_mode_command(outputs[i].name.as_str(), p));
                    proof {
                        assert(string_views(cs@) =~= string_views(before).push(
                            mode_command(rest[0].name@, *p),
                        ));
                        let bn = by_output_name(rest);
                        assert(bn == seq![rest[0]] + by_output_name(rest.drop_first()));
                        assert(bn[0] == rest[0]);
                        assert(bn.drop_first() =~= by_output_name(rest.drop_first()));
                        assert(mode_commands(bn, *p) == seq![mode_command(rest[0].name@, *p)]
                            + mode_commands(bn.drop_first(), *p));
                        assert(string_views(cs@) + mode_commands(by_output_name(rest.drop_first()), *p)
                            =~= string_views(before) + mode_commands(by_output_name(rest), *p));
                    }
                } else if last {
                    proof {
                        let bn = by_output_name(rest);
                        assert(bn == seq![rest[0]] + by_output_name(rest.drop_first()));
                        assert(bn[0] == rest[0]);
                        assert(bn.drop_first() =~= by_output_name(rest.drop_first()));
                        assert(mode_commands(bn, *p) == mode_commands(bn.drop_first(), *p));
                    }
                }
                i = i + 1;
            }
            proof {
                assert(outputs@.skip(outputs.len() as int) =~= Seq::<SwayOutput>::empty());
                assert(string_views(cs@) + Seq::<Seq<char>>::empty() =~= string_views(cs@));
            }
            Ok(cs)
        },
    }
}

/// The string `a`, `b` and `c` one after the other.
fn concat3_str(a: &str, b: &str, c: &str) -> (s: String)
    ensures
        s@ == a@ + b@ + c@,
{
    crate::text::concat3(a, b, c)
}

// ---------------------------------------------------------------------------
// Rotation
// ---------------------------------------------------------------------------

/// The outputs a request about `screen` is about, in order.
pub open spec fn selected_outputs(os: Seq<SwayOutput>, screen: Option<Seq<char>>) -> Seq<
    SwayOutput,
>
    decreases os.len(),
{
    if os.len() == 0 {
        Seq::empty()
    } else if selects(screen, os.last()) {
        selected_outputs(os.drop_last(), screen).push(os.last())
    } else {
        selected_outputs(os.drop_last(), screen)
    }
}

/// The Sway command that rotates the output `name`.
pub open spec fn rotation_command(name: Seq<char>, degrees: u32) -> Seq<char> {
    "output "@ + name + " transform "@ + dec(degrees as nat)
}

/// The Sway commands that rotate the outputs a request about `screen` is
/// about; a rotation other than 0, 90, 180 and 270 is refused.
pub fn rotation_commands(outputs: &Vec<SwayOutput>, screen: Option<&str>, rotation: &RotationParams) -> (r:
    Result<Vec<String>>)
    ensures
        super::is_allowed_rotation(rotation.rotation as int) ==> (r matches Ok(cs) && string_views(
            cs@,
        ) == selected_outputs(outputs@, opt_view(screen)).map_values(
            |o: SwayOutput| rotation_command(o.name@, rotation.rotation),
        )),
        !super::is_allowed_rotation(rotation.rotation as int) ==> (r matches Err(
            RegmsgError::InvalidArguments(m),
        ) && m@ == "Rotation must be one of: 0, 90, 180, 270"@),
{
    let d = rotation.rotation;
    if !(d == 0 || d == 90 || d == 180 || d == 270) {
        return Err(
            RegmsgError::InvalidArguments(String::from_str("Rotation must be one of: 0, 90, 180, 270")),
        );
    }
    let ghost f = |o: SwayOutput| rotation_command(o.name@, d);
    let mut cs: Vec<String> = Vec::new();
    let mut i: usize = 0;
    proof {
        assert(outputs@.take(0) =~= Seq::<SwayOutput>::empty());
        assert(string_views(cs@) =~= Seq::<Seq<char>>::empty());
    }
    while i < outputs.len()
        invariant
            0 <= i <= outputs.len(),
            f == (|o: SwayOutput| rotation_command(o.name@, d)),
            string_views(cs@) == selected_outputs(outputs@.take(i as int), opt_view(screen)).map_values(f),
        decreases outputs.len() - i,
    {
        proof {
            assert(outputs@.take(i + 1).drop_last() =~= outputs@.take(i as int));
            assert(outputs@.take(i + 1).last() == outputs@[i as int]);
        }
        let ghost before = cs@;
        if is_selected(screen, &outputs[i]) {
            let mut c = String::from_str("output ");
            push_str(&mut c, outputs[i].name.as_str());
            push_str(&mut c, " transform ");
            push_dec(&mut c, d as u64);
            cs.push(c);
            proof {
                let sel = selected_outputs(outputs@.take(i as int), opt_view(screen));
                assert(selected_outputs(outputs@.take(i + 1), opt_view(screen)) == sel.push(outputs@[i as int]));
                assert(sel.push(outputs@[i as int]).map_values(f) =~= sel.map_values(f).push(f(outputs@[i as int])));
                assert(string_views(cs@) =~= string_views(before).push(f(outputs@[i as int])));
            }
        }
        i = i + 1;
    }
    proof {
        assert(outputs@.take(outputs.len() as int) =~= outputs@);
    }
    Ok(cs)
}

// ---------------------------------------------------------------------------
// Lowering the resolution
// ---------------------------------------------------------------------------

/// The resolution limit of a request: `WxH`, both positive, or 1920x1080
/// when none is given.
pub open spec fn max_resolution_spec(max: Option<Seq<char>>, r: Result<(u32, u32)>) -> bool {
    match max {
        None => r matches Ok((w, h)) && w == 1920 && h == 1080,
        Some(res) => {
            let parts = crate::text::split_on(res, crate::text::sep_pred(seq!['x'], false));
            if parts.len() != 2 {
                r matches Err(RegmsgError::InvalidArguments(m)) && m@ == "Invalid resolution format: '"@
                    + res + "'. Expected 'WxH'"@
            } else {
                match (
                    crate::text::parse_unsigned(parts[0], u32::MAX as int),
                    crate::text::parse_unsigned(parts[1], u32::MAX as int),
                ) {
                    (Err(k), _) => r matches Err(RegmsgError::ParseError(m)) && m@
                        == "Failed to parse width: "@ + crate::text::int_error_text(k),
                    (Ok(_), Err(k)) => r matches Err(RegmsgError::ParseError(m)) && m@
                        == "Failed to parse height: "@ + crate::text::int_error_text(k),
                    (Ok(w), Ok(h)) => if w == 0 || h == 0 {
                        r matches Err(RegmsgError::InvalidArguments(m)) && m@
                            == "Resolution dimensions must be positive: "@ + dec(w as nat) + "x"@
                            + dec(h as nat)
                    } else {
                        r matches Ok((rw, rh)) && rw == w && rh == h
                    },
                }
            }
        },
    }
}

/// Reads the resolution limit `WxH` of a request (1920x1080 when none is
/// given).
pub fn parse_max_resolution(max_resolution: Option<&str>) -> (r: Result<(u32, u32)>)
    ensures
        max_resolution_spec(opt_view(max_resolution), r),
{
    let res = match max_resolution {
        None => {
            return Ok((1920, 1080));
        },
        Some(res) => res,
    };
    let v = chars_of(res);
    let mut seps: Vec<char> = Vec::new();
    seps.push('x');
    proof {
        assert(seps@ =~= seq!['x']);
    }
    let parts = crate::text::split_pieces(&v, &seps, false);
    if parts.len() != 2 {
        return Err(
            RegmsgError::InvalidArguments(
                crate::text::concat3("Invalid resolution format: '", res, "'. Expected 'WxH'"),
            ),
        );
    }
    proof {
        assert(parts@[0]@ == crate::text::split_on(res@, crate::text::sep_pred(seq!['x'], false))[0]);
        assert(parts@[1]@ == crate::text::split_on(res@, crate::text::sep_pred(seq!['x'], false))[1]);
        crate::text::lemma_parse_unsigned_bounds(parts@[0]@, u32::MAX as int);
        crate::text::lemma_parse_unsigned_bounds(parts@[1]@, u32::MAX as int);
    }
    let width = match crate::text::parse_unsigned_chars(&parts[0], 0xffff_ffff) {
        Ok(w) => w as u32,
        Err(k) => {
            let t = crate::text::int_error_message(k);
            return Err(RegmsgError::ParseError(concat2("Failed to parse width: ", t.as_str())));
        },
    };
    let height = match crate::text::parse_unsigned_chars(&parts[1], 0xffff_ffff) {
        Ok(h) => h as u32,
        Err(k) => {
            let t = crate::text::int_error_message(k);
            return Err(RegmsgError::ParseError(concat2("Failed to parse height: ", t.as_str())));
        },
    };
    if width == 0 || height == 0 {
        let mut m = String::from_str("Resolution dimensions must be positive: ");
        push_dec(&mut m, width as u64);
        push_str(&mut m, "x");
        push_dec(&mut m, height as u64);
        proof {
            assert(m@ =~= "Resolution dimensions must be positive: "@ + dec(width as nat) + "x"@ + dec(
                height as nat,
            ));
        }
        return Err(RegmsgError::InvalidArguments(m));
    }
    Ok((width, height))
}

/// The mode is within the limit `w` x `h`.
pub open spec fn fits(m: SwayMode, w: u32, h: u32) -> bool {
    (m.width as u32) <= w && (m.height as u32) <= h
}

/// The number of pixels of a mode.
pub open spec fn area(m: SwayMode) -> int {
    (m.width as u32) as int * (m.height as u32) as int
}

/// The position of the largest mode within the limit, the last one among
/// equally large ones.
pub open spec fn best_fit(ms: Seq<SwayMode>, w: u32, h: u32) -> Option<int>
    decreases ms.len(),
{
    if ms.len() == 0 {
        None
    } else {
        let b = best_fit(ms.drop_last(), w, h);
        let i = ms.len() - 1;
        if fits(ms[i], w, h) {
            match b {
                None => Some(i),
                Some(k) => if area(ms[i]) >= area(ms[k]) {
                    Some(i)
                } else {
                    Some(k)
                },
            }
        } else {
            b
        }
    }
}

/// The best fit is a position of a mode within the limit.
pub proof fn lemma_best_fit_bounds(ms: Seq<SwayMode>, w: u32, h: u32)
    ensures
        best_fit(ms, w, h) matches Some(k) ==> 0 <= k < ms.len() && fits(ms[k], w, h),
    decreases ms.len(),
{
    if ms.len() > 0 {
        lemma_best_fit_bounds(ms.drop_last(), w, h);
    }
}

/// A position as an integer.
pub open spec fn as_position(p: Option<usize>) -> Option<int> {
    match p {
        Some(k) => Some(k as int),
        None => None,
    }
}

/// The first focused output.
pub open spec fn first_focused(os: Seq<SwayOutput>) -> Option<SwayOutput>
    decreases os.len(),
{
    if os.len() == 0 {
        None
    } else if os[0].focused {
        Some(os[0])
    } else {
        first_focused(os.drop_first())
    }
}

/// The output whose resolution a request lowers: the first one of the named
/// screen, or the first focused one.
pub open spec fn max_target(os: Seq<SwayOutput>, screen: Option<Seq<char>>) -> Option<SwayOutput> {
    match screen {
        Some(_) => first_selected(os, screen),
        None => first_focused(os),
    }
}

/// The Sway command that sets the mode `m` on the output `name`.
pub open spec fn resolution_command(name: Seq<char>, m: SwayMode) -> Seq<char> {
    "output "@ + name + " mode "@ + int_text(m.width as int) + "x"@ + int_text(m.height as int) + "@"@
        + int_text(refresh_value(m.refresh)) + "Hz"@
}

/// The command that lowers the resolution of the target output to its
/// largest mode within the limit, if its current mode is over the limit and
/// it has a mode within the limit.
pub open spec fn max_resolution_plan(os: Seq<SwayOutput>, screen: Option<Seq<char>>, w: u32, h: u32) -> Option<
    Seq<char>,
> {
    match max_target(os, screen) {
        None => None,
        Some(o) => match o.current_mode {
            None => None,
            Some(c) => if fits(c, w, h) {
                None
            } else {
                match best_fit(o.modes@, w, h) {
                    None => None,
                    Some(k) => Some(resolution_command(o.name@, o.modes@[k])),
                }
            },
        },
    }
}

/// The position of the target output of a request.
pub(crate) fn find_target(outputs: &Vec<SwayOutput>, screen: Option<&str>) -> (r: Option<usize>)
    ensures
        match r {
            Some(i) => i < outputs@.len() && max_target(outputs@, opt_view(screen)) == Some(
                outputs@[i as int],
            ),
            None => max_target(outputs@, opt_view(screen)) is None,
        },
{
    let mut i: usize = 0;
    proof {
        assert(outputs@.skip(0) =~= outputs@);
    }
    while i < outputs.len()
        invariant
            0 <= i <= outputs.len(),
            max_target(outputs@, opt_view(screen)) == max_target(outputs@.skip(i as int), opt_view(screen)),
        decreases outputs.len() - i,
    {
        proof {
            assert(outputs@.skip(i as int)[0] == outputs@[i as int]);
            assert(outputs@.skip(i as int).drop_first() =~= outputs@.skip(i + 1));
        }
        let hit = match screen {
            Some(_) => is_selected(screen, &outputs[i]),
            None => outputs[i].focused,
        };
        if hit {
            return Some(i);
        }
        i = i + 1;
    }
    None
}

/// The Sway command that lowers the resolution of the named screen (or of
/// the focused output) to its largest mode within `max_width` x
/// `max_height`, the last of equally large ones; none when there is no such
/// output, when it has no current mode, when its current mode is already
/// within the limit, or when no mode is.
pub fn max_resolution_command(
    outputs: &Vec<SwayOutput>,
    screen: Option<&str>,
    max_width: u32,
    max_height: u32,
) -> (r: Option<String>)
    ensures
        match max_resolution_plan(outputs@, opt_view(screen), max_width, max_height) {
            Some(c) => r matches Some(s) && s@ == c,
            None => r is None,
        },
{
    let t = match find_target(outputs, screen) {
        None => {
            return None;
        },
        Some(t) => t,
    };
    let o = &outputs[t];
    let c = match &o.current_mode {
        None => {
            return None;
        },
        Some(c) => c,
    };
    if (c.width as u32) <= max_width && (c.height as u32) <= max_height {
        return None;
    }
    let mut best: Option<usize> = None;
    let mut best_area: u64 = 0;
    let mut i: usize = 0;
    proof {
        assert(o.modes@.take(0) =~= Seq::<SwayMode>::empty());
    }
    while i < o.modes.len()
        invariant
            0 <= i <= o.modes.len(),
            as_position(best) == best_fit(o.modes@.take(i as int), max_width, max_height),
            best matches Some(k) ==> k < i && best_area == area(o.modes@[k as int]),
        decreases o.modes.len() - i,
    {
        let ghost pre = o.modes@.take(i as int);
        proof {
            assert(o.modes@.take(i + 1).drop_last() =~= pre);
            assert(o.modes@.take(i + 1)[i as int] == o.modes@[i as int]);
            lemma_best_fit_bounds(pre, max_width, max_height);
            if let Some(k) = best {
                assert(pre[k as int] == o.modes@[k as int]);
            }
        }
        let m = &o.modes[i];
        if (m.width as u32) <= max_width && (m.height as u32) <= max_height {
            let aw: u64 = (m.width as u32) as u64;
            let ah: u64 = (m.height as u32) as u64;
            proof {
                assert(aw * ah <= u64::MAX) by (nonlinear_arith)
                    requires
                        aw <= u32::MAX,
                        ah <= u32::MAX,
                ;
            }
            let a: u64 = aw * ah;
            proof {
                assert(a == area(o.modes@[i as int]));
            }
            match best {
                None => {
                    best = Some(i);
                    best_area = a;
                },
                Some(_) => {
                    if a >= best_area {
                        best = Some(i);
                        best_area = a;
                    }
                },
            }
        }
        i = i + 1;
    }
    proof {
        assert(o.modes@.take(o.modes.len() as int) =~= o.modes@);
        lemma_best_fit_bounds(o.modes@, max_width, max_height);
    }
    match best {
        None => None,
        Some(k) => {
            let m = &o.modes[k];
            let mut s = String::from_str("output ");
            push_str(&mut s, o.name.as_str());
            push_str(&mut s, " mode ");
            push_int(&mut s, m.width as i64);
            push_str(&mut s, "x");
            push_int(&mut s, m.height as i64);
            push_str(&mut s, "@");
            let rate = format_refresh(m.refresh);
            push_str(&mut s, rate.as_str());
            push_str(&mut s, "Hz");
            proof {
                assert(s@ =~= resolution_command(o.name@, o.modes@[k as int]));
            }
            Some(s)
        },
    }
}

// ---------------------------------------------------------------------------
// Screenshots and the touchscreen
// ---------------------------------------------------------------------------

/// The first output that has a current mode.
pub open spec fn first_active(os: Seq<SwayOutput>) -> Option<SwayOutput>
    decreases os.len(),
{
    if os.len() == 0 {
        None
    } else if os[0].current_mode is Some {
        Some(os[0])
    } else {
        first_active(os.drop_first())
    }
}

/// The name of the output a screenshot is taken of: the first one with a
/// current mode.
pub fn screenshot_output(outputs: &Vec<SwayOutput>) -> (r: Result<String>)
    ensures
        match first_active(outputs@) {
            Some(o) => r matches Ok(n) && n@ == o.name@,
            None => r matches Err(RegmsgError::NotFound(m)) && m@ == "No active output found"@,
        },
{
    let mut i: usize = 0;
    proof {
        assert(outputs@.skip(0) =~= outputs@);
    }
    while i < outputs.len()
        invariant
            0 <= i <= outputs.len(),
            first_active(outputs@) == first_active(outputs@.skip(i as int)),
        decreases outputs.len() - i,
    {
        proof {
            assert(outputs@.skip(i as int)[0] == outputs@[i as int]);
            assert(outputs@.skip(i as int).drop_first() =~= outputs@.skip(i + 1));
        }
        if outputs[i].current_mode.is_some() {
            return Ok(outputs[i].name.clone());
        }
        i = i + 1;
    }
    Err(RegmsgError::NotFound(String::from_str("No active output found")))
}

/// The path of a screenshot taken at the time `stamp`, in `dir`.
pub fn screenshot_path(dir: &str, stamp: &str) -> (p: String)
    ensures
        p@ == dir@ + "/screenshot-"@ + stamp@ + ".png"@,
{
    let mut p = crate::text::concat3(dir, "/screenshot-", stamp);
    push_str(&mut p, ".png");
    p
}

/// The first touchscreen input.
pub open spec fn first_touch(ins: Seq<SwayInput>) -> Option<SwayInput>
    decreases ins.len(),
{
    if ins.len() == 0 {
        None
    } else if ins[0].input_type@ == "touch"@ {
        Some(ins[0])
    } else {
        first_touch(ins.drop_first())
    }
}

/// The identifier of the first touchscreen.
pub fn touchscreen_id(inputs: &Vec<SwayInput>) -> (r: Result<String>)
    ensures
        match first_touch(inputs@) {
            Some(t) => r matches Ok(n) && n@ == t.identifier@,
            None => r matches Err(RegmsgError::NotFound(m)) && m@ == "No touchscreen device found"@,
        },
{
    let mut i: usize = 0;
    proof {
        assert(inputs@.skip(0) =~= inputs@);
    }
    while i < inputs.len()
        invariant
            0 <= i <= inputs.len(),
            first_touch(inputs@) == first_touch(inputs@.skip(i as int)),
        decreases inputs.len() - i,
    {
        proof {
            assert(inputs@.skip(i as int)[0] == inputs@[i as int]);
            assert(inputs@.skip(i as int).drop_first() =~= inputs@.skip(i + 1));
        }
        if str_eq(inputs[i].input_type.as_str(), "touch") {
            return Ok(inputs[i].identifier.clone());
        }
        i = i + 1;
    }
    Err(RegmsgError::NotFound(String::from_str("No touchscreen device found")))
}

/// The name of the first focused output.
pub fn focused_output(outputs: &Vec<SwayOutput>) -> (r: Result<String>)
    ensures
        match first_focused(outputs@) {
            Some(o) => r matches Ok(n) && n@ == o.name@,
            None => r matches Err(RegmsgError::NotFound(m)) && m@ == "No focused output found"@,
        },
{
    let mut i: usize = 0;
    proof {
        assert(outputs@.skip(0) =~= outputs@);
    }
    while i < outputs.len()
        invariant
            0 <= i <= outputs.len(),
            first_focused(outputs@) == first_focused(outputs@.skip(i as int)),
        decreases outputs.len() - i,
    {
        proof {
            assert(outputs@.skip(i as int)[0] == outputs@[i as int]);
            assert(outputs@.skip(i as int).drop_first() =~= outputs@.skip(i + 1));
        }
        if outputs[i].focused {
            return Ok(outputs[i].name.clone());
        }
        i = i + 1;
    }
    Err(RegmsgError::NotFound(String::from_str("No focused output found")))
}

/// The Sway command that maps the touchscreen `id` to the output `output`.
pub fn touch_map_command(id: &str, output: &str) -> (c: String)
    ensures
        c@ == "input "@ + id@ + " map_to_output "@ + output@,
{
    let mut c = crate::text::concat3("input ", id, " map_to_output ");
    push_str(&mut c, output);
    c
}

// ---------------------------------------------------------------------------
// Laws
// ---------------------------------------------------------------------------

/// The mode chosen when the resolution is lowered is within the limit, no
/// mode within the limit is larger, and every later mode within the limit
/// is smaller; when none is chosen, no mode is within the limit.
pub proof fn law_best_fit_is_largest(ms: Seq<SwayMode>, w: u32, h: u32)
    ensures
        best_fit(ms, w, h) matches Some(k) ==> {
            &&& 0 <= k < ms.len()
            &&& fits(ms[k], w, h)
            &&& forall|j: int|
                0 <= j < ms.len() && fits(#[trigger] ms[j], w, h) ==> area(ms[j]) <= area(ms[k])
            &&& forall|j: int|
                k < j < ms.len() && fits(#[trigger] ms[j], w, h) ==> area(ms[j]) < area(ms[k])
        },
        best_fit(ms, w, h) is None ==> forall|j: int| 0 <= j < ms.len() ==> !fits(#[trigger] ms[j], w, h),
    decreases ms.len(),
{
    if ms.len() > 0 {
        let t = ms.drop_last();
        law_best_fit_is_largest(t, w, h);
        assert forall|j: int| 0 <= j < t.len() implies t[j] == ms[j] by {}
    }
}


/// The output at `i` is the one a request about `screen` lowers: the first
/// output of that name, or the first focused output when no screen is named.
pub(crate) proof fn lemma_target_at(os: Seq<SwayOutput>, screen: Option<Seq<char>>, i: int)
    requires
        0 <= i < os.len(),
        screen is None ==> os[i].focused && forall|j: int| 0 <= j < i ==> !(#[trigger] os[j]).focused,
        screen matches Some(n) ==> os[i].name@ == n && forall|j: int|
            0 <= j < i ==> (#[trigger] os[j]).name@ != n,
    ensures
        max_target(os, screen) == Some(os[i]),
    decreases i,
{
    if i > 0 {
        let t = os.drop_first();
        assert forall|j: int| 0 <= j < i - 1 implies #[trigger] t[j] == os[j + 1] by {}
        assert(t[i - 1] == os[i]);
        if screen is None {
            assert(!os[0].focused);
            assert forall|j: int| 0 <= j < i - 1 implies !(#[trigger] t[j]).focused by {
                assert(t[j] == os[j + 1]);
            }
        }
        if let Some(n) = screen {
            assert(os[0].name@ != n);
            assert forall|j: int| 0 <= j < i - 1 implies (#[trigger] t[j]).name@ != n by {
                assert(t[j] == os[j + 1]);
            }
        }
        lemma_target_at(t, screen, i - 1);
    }
}

/// Lowering the resolution of a screen (the first output of that name, or
/// the first focused output when no screen is named): when its current mode
/// is over the limit in width or in height and one of its modes is within
/// the limit in both, the command sets one of its modes within the limit
/// that no mode within the limit exceeds in pixels; when its current mode is
/// within the limit in both width and height, no command is made.
pub proof fn law_lowering_acts_on_modes_over_the_limit(
    os: Seq<SwayOutput>,
    screen: Option<Seq<char>>,
    w: u32,
    h: u32,
    i: int,
)
    requires
        0 <= i < os.len(),
        screen is None ==> os[i].focused && forall|j: int| 0 <= j < i ==> !(#[trigger] os[j]).focused,
        screen matches Some(n) ==> os[i].name@ == n && forall|j: int|
            0 <= j < i ==> (#[trigger] os[j]).name@ != n,
    ensures
        os[i].current_mode matches Some(c) && (c.width as u32) <= w && (c.height as u32) <= h
            ==> max_resolution_plan(os, screen, w, h) is None,
        os[i].current_mode matches Some(c) && !((c.width as u32) <= w && (c.height as u32) <= h)
            && (exists|j: int|
            #![trigger os[i].modes@[j]]
            0 <= j < os[i].modes@.len() && (os[i].modes@[j].width as u32) <= w
                && (os[i].modes@[j].height as u32) <= h) ==> exists|k: int|
            #![trigger os[i].modes@[k]]
            {
                &&& 0 <= k < os[i].modes@.len()
                &&& (os[i].modes@[k].width as u32) <= w
                &&& (os[i].modes@[k].height as u32) <= h
                &&& max_resolution_plan(os, screen, w, h) == Some(
                    "output "@ + os[i].name@ + " mode "@ + int_text(os[i].modes@[k].width as int)
                        + "x"@ + int_text(os[i].modes@[k].height as int) + "@"@ + int_text(
                        refresh_value(os[i].modes@[k].refresh),
                    ) + "Hz"@,
                )
                &&& forall|j: int|
                    #![trigger os[i].modes@[j]]
                    0 <= j < os[i].modes@.len() && (os[i].modes@[j].width as u32) <= w
                        && (os[i].modes@[j].height as u32) <= h ==> (os[i].modes@[j].width as u32)
                        as int * (os[i].modes@[j].height as u32) as int <= (
                    os[i].modes@[k].width as u32) as int * (os[i].modes@[k].height as u32) as int
            },
{
    lemma_target_at(os, screen, i);
    let o = os[i];
    law_best_fit_is_largest(o.modes@, w, h);
    if let Some(c) = o.current_mode {
        if !((c.width as u32) <= w && (c.height as u32) <= h) {
            if exists|j: int|
                #![trigger os[i].modes@[j]]
                0 <= j < os[i].modes@.len() && (os[i].modes@[j].width as u32) <= w
                    && (os[i].modes@[j].height as u32) <= h {
                let j = choose|j: int|
                    #![trigger os[i].modes@[j]]
                    0 <= j < os[i].modes@.len() && (os[i].modes@[j].width as u32) <= w
                        && (os[i].modes@[j].height as u32) <= h;
                assert(fits(o.modes@[j], w, h));
                let k = best_fit(o.modes@, w, h)->Some_0;
                assert(o.modes@[k] == os[i].modes@[k]);
                assert forall|j: int|
                    #![trigger os[i].modes@[j]]
                    0 <= j < os[i].modes@.len() && (os[i].modes@[j].width as u32) <= w
                        && (os[i].modes@[j].height as u32) <= h implies (os[i].modes@[j].width as u32)
                    as int * (os[i].modes@[j].height as u32) as int <= (
                os[i].modes@[k].width as u32) as int * (os[i].modes@[k].height as u32) as int by {
                    assert(fits(o.modes@[j], w, h));
                    assert(area(o.modes@[j]) <= area(o.modes@[k]));
                }
            }
        }
    }
}


/// A request about a named screen is about exactly the outputs of that
/// name, in order; a request about no screen is about every output.
pub proof fn law_selected_outputs_are_those_named(os: Seq<SwayOutput>, screen: Option<Seq<char>>)
    ensures
        screen is None ==> selected_outputs(os, screen) == os,
        screen matches Some(n) ==> selected_outputs(os, screen) == os.filter(
            |o: SwayOutput| o.name@ == n,
        ),
    decreases os.len(),
{
    if os.len() > 0 {
        law_selected_outputs_are_those_named(os.drop_last(), screen);
        if screen is None {
            assert(os.drop_last().push(os.last()) =~= os);
        }
        if let Some(n) = screen {
            reveal_with_fuel(Seq::filter, 1);
            assert(os.filter(|o: SwayOutput| o.name@ == n) == {
                let sub = os.drop_last().filter(|o: SwayOutput| o.name@ == n);
                if os.last().name@ == n {
                    sub.push(os.last())
                } else {
                    sub
                }
            });
        }
    } else {
        assert(os =~= Seq::<SwayOutput>::empty());
        if let Some(n) = screen {
            assert(os.filter(|o: SwayOutput| o.name@ == n) =~= Seq::<SwayOutput>::empty());
        }
    }
}

/// The output a mode is set on when a screen is named is an output of that
/// name (the last of them), and there is none only when no output has that
/// name.
pub proof fn law_mode_is_set_on_the_named_screen(os: Seq<SwayOutput>, n: Seq<char>)
    ensures
        last_named(os, n) matches Some(o) ==> o.name@ == n && exists|i: int|
            0 <= i < os.len() && os[i] == o && forall|j: int| i < j < os.len() ==> (#[trigger] os[j]).name@ != n,
        last_named(os, n) is None <==> forall|i: int| 0 <= i < os.len() ==> (#[trigger] os[i]).name@ != n,
    decreases os.len(),
{
    if os.len() > 0 {
        let t = os.drop_last();
        law_mode_is_set_on_the_named_screen(t, n);
        assert forall|i: int| 0 <= i < t.len() implies #[trigger] t[i] == os[i] by {}
        if os.last().name@ != n {
            if let Some(o) = last_named(t, n) {
                let i = choose|i: int|
                    0 <= i < t.len() && t[i] == o && forall|j: int| i < j < t.len() ==> (#[trigger] t[j]).name@ != n;
                assert(os[i] == o);
                assert forall|j: int| i < j < os.len() implies (#[trigger] os[j]).name@ != n by {
                    if j < t.len() {
                        assert(t[j] == os[j]);
                    }
                }
            }
            if last_named(t, n) is None {
                assert forall|i: int| 0 <= i < os.len() implies (#[trigger] os[i]).name@ != n by {
                    if i < t.len() {
                        assert(t[i] == os[i]);
                    }
                }
            }
        } else {
            assert(os[os.len() - 1].name@ == n);
        }
    }
}

/// The current mode reported for a request is the current mode of the first
/// output the request is about that has one; there is none only when no
/// such output has one.
pub proof fn law_current_mode_comes_from_the_named_screen(os: Seq<SwayOutput>, screen: Option<Seq<char>>)
    ensures
        first_current(os, screen) matches Some(m) ==> exists|i: int|
            0 <= i < os.len() && (#[trigger] os[i]).current_mode == Some(m) && (screen matches Some(n)
                ==> os[i].name@ == n) && forall|j: int|
                0 <= j < i ==> (#[trigger] os[j]).current_mode is None || (screen matches Some(n)
                    && os[j].name@ != n),
        first_current(os, screen) is None ==> forall|i: int|
            0 <= i < os.len() ==> (#[trigger] os[i]).current_mode is None || (screen matches Some(n)
                && os[i].name@ != n),
    decreases os.len(),
{
    if os.len() > 0 {
        let t = os.drop_first();
        law_current_mode_comes_from_the_named_screen(t, screen);
        assert forall|i: int| 0 <= i < t.len() implies #[trigger] t[i] == os[i + 1] by {}
        if selects(screen, os[0]) && os[0].current_mode is Some {
        } else {
            if let Some(m) = first_current(t, screen) {
                let i = choose|i: int|
                    0 <= i < t.len() && (#[trigger] t[i]).current_mode == Some(m) && (screen matches Some(n)
                        ==> t[i].name@ == n) && forall|j: int|
                        0 <= j < i ==> (#[trigger] t[j]).current_mode is None || (screen matches Some(
                            n,
                        ) && t[j].name@ != n);
                assert(os[i + 1] == t[i]);
                assert forall|j: int| 0 <= j < i + 1 implies (#[trigger] os[j]).current_mode is None || (
                screen matches Some(n) && os[j].name@ != n) by {
                    if j > 0 {
                        assert(os[j] == t[j - 1]);
                    }
                }
            } else {
                assert forall|i: int| 0 <= i < os.len() implies (#[trigger] os[i]).current_mode is None || (
                screen matches Some(n) && os[i].name@ != n) by {
                    if i > 0 {
                        assert(os[i] == t[i - 1]);
                    }
                }
            }
        }
    }
}

} // verus!
