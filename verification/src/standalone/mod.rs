//! The display tool that works without the daemon: the text of its reports
//! and the plans of its operations on the DRM device (here) and on Sway (in
//! `wayland`), made from what the device or Sway reports.
use crate::error::RegmsgError;
use crate::screen::kmsdrm::{chosen, Connector, DrmMode};
use crate::screen::{parse_mode, spec_parse_mode, trim_prefix_all, trim_start_matches, ModeFault};
use crate::text::is_prefix;
use crate::screen::wayland::string_views;
use crate::text::{dec, int_text, join_with, opt_view, push_char, push_dec, push_int, push_str, str_eq};
use vstd::prelude::*;

pub mod wayland;

verus! {

/// The pieces one after the other.
pub open spec fn concat_all(ps: Seq<Seq<char>>) -> Seq<char>
    decreases ps.len(),
{
    if ps.len() == 0 {
        Seq::empty()
    } else {
        concat_all(ps.drop_last()) + ps.last()
    }
}

/// A report made of pieces: the pieces one after the other, or `fallback`
/// when there is none.
pub open spec fn report_or(ps: Seq<Seq<char>>, fallback: Seq<char>) -> Seq<char> {
    if ps.len() == 0 {
        fallback
    } else {
        concat_all(ps)
    }
}

/// A report that fails when there is nothing to report: the text `text`
/// when `found`, else the error `error`.
pub open spec fn report_result(r: Result<String, String>, found: bool, text: Seq<char>, error: Seq<char>) -> bool {
    match r {
        Ok(t) => found && t@ == text,
        Err(m) => !found && m@ == error,
    }
}

/// Adding a piece adds its text at the end.
pub proof fn lemma_concat_push(ps: Seq<Seq<char>>, x: Seq<char>)
    ensures
        concat_all(ps.push(x)) == concat_all(ps) + x,
{
    assert(ps.push(x).drop_last() =~= ps);
}

/// One line of the tool's mode list: `WxH@R:INTERFACE WxH@RHz`.
pub open spec fn tool_mode_line(m: DrmMode, interface: Seq<char>) -> Seq<char> {
    dec(m.width as nat) + "x"@ + dec(m.height as nat) + "@"@ + dec(m.vrefresh as nat) + ":"@
        + interface + " "@ + dec(m.width as nat) + "x"@ + dec(m.height as nat) + "@"@ + dec(
        m.vrefresh as nat,
    ) + "Hz"@
}

/// The lines of the modes of the connectors a request about `screen` is
/// about, in order.
pub open spec fn tool_mode_lines(cs: Seq<Connector>, screen: Option<Seq<char>>) -> Seq<Seq<char>>
    decreases cs.len(),
{
    if cs.len() == 0 {
        Seq::empty()
    } else if chosen(screen, cs.last()) {
        tool_mode_lines(cs.drop_last(), screen) + cs.last().modes@.map_values(
            |m: DrmMode| tool_mode_line(m, cs.last().interface@),
        )
    } else {
        tool_mode_lines(cs.drop_last(), screen)
    }
}

/// Appends one line to a list of lines joined by new lines.
pub(crate) fn push_line(s: &mut String, first: bool, line: &str)
    ensures
        final(s)@ == if first {
            old(s)@ + line@
        } else {
            old(s)@.push('\n') + line@
        },
{
    if !first {
        push_char(s, '\n');
    }
    push_str(s, line);
}

/// The list of the modes of the connectors a request about `screen` is
/// about, one `WxH@R:INTERFACE WxH@RHz` line per mode; the error "No modes
/// found." when there is none.
pub fn drm_list_modes(connectors: &Vec<Connector>, screen: Option<&str>) -> (s: Result<String, String>)
    ensures
        report_result(
            s,
            tool_mode_lines(connectors@, opt_view(screen)).len() > 0,
            join_with(tool_mode_lines(connectors@, opt_view(screen)), '\n'),
            "No modes found."@,
        ),
{
    let ghost sel = opt_view(screen);
    let mut s = String::new();
    let mut first = true;
    let mut i: usize = 0;
    proof {
        assert(connectors@.take(0) =~= Seq::<Connector>::empty());
    }
    while i < connectors.len()
        invariant
            0 <= i <= connectors.len(),
            sel == opt_view(screen),
            first == (tool_mode_lines(connectors@.take(i as int), sel).len() == 0),
            s@ == join_with(tool_mode_lines(connectors@.take(i as int), sel), '\n'),
        decreases connectors.len() - i,
    {
        let c = &connectors[i];
        proof {
            assert(connectors@.take(i + 1).drop_last() =~= connectors@.take(i as int));
            assert(connectors@.take(i + 1).last() == connectors@[i as int]);
        }
        let chosen_here = match screen {
            None => true,
            Some(sc) => str_eq(c.interface.as_str(), sc),
        };
        let ghost base = tool_mode_lines(connectors@.take(i as int), sel);
        if chosen_here {
            let ghost f = |m: DrmMode| tool_mode_line(m, c.interface@);
            let mut k: usize = 0;
            proof {
                assert(base + c.modes@.take(0).map_values(f) =~= base);
            }
            while k < c.modes.len()
                invariant
                    0 <= k <= c.modes.len(),
                    f == (|m: DrmMode| tool_mode_line(m, c.interface@)),
                    first == ((base + c.modes@.take(k as int).map_values(f)).len() == 0),
                    s@ == join_with(base + c.modes@.take(k as int).map_values(f), '\n'),
                decreases c.modes.len() - k,
            {
                let m = &c.modes[k];
                let mut line = String::new();
                push_dec(&mut line, m.width as u64);
                push_str(&mut line, "x");
                push_dec(&mut line, m.height as u64);
                push_str(&mut line, "@");
                push_dec(&mut line, m.vrefresh as u64);
                push_str(&mut line, ":");
                push_str(&mut line, c.interface.as_str());
                push_str(&mut line, " ");
                push_dec(&mut line, m.width as u64);
                push_str(&mut line, "x");
                push_dec(&mut line, m.height as u64);
                push_str(&mut line, "@");
                push_dec(&mut line, m.vrefresh as u64);
                push_str(&mut line, "Hz");
                proof {
                    assert(line@ =~= f(*m));
                }
                let ghost prev = base + c.modes@.take(k as int).map_values(f);
                push_line(&mut s, first, line.as_str());
                proof {
                    let next = base + c.modes@.take(k + 1).map_values(f);
                    assert(c.modes@.take(k + 1).map_values(f) =~= c.modes@.take(k as int).map_values(f).push(f(*m)));
                    assert(next =~= prev.push(f(*m)));
                    assert(next.drop_last() =~= prev);
                    if first {
                        assert(next =~= seq![f(*m)]);
                    }
                }
                first = false;
                k = k + 1;
            }
            proof {
                assert(c.modes@.take(c.modes.len() as int) =~= c.modes@);
            }
        }
        i = i + 1;
    }
    proof {
        assert(connectors@.take(connectors.len() as int) =~= connectors@);
    }
    if first {
        Err(String::from_str("No modes found."))
    } else {
        Ok(s)
    }
}

/// The list of the interface names of all the connectors, one per line;
/// the error "No outputs found." when there is no connector.
pub fn drm_list_outputs(connectors: &Vec<Connector>) -> (s: Result<String, String>)
    ensures
        report_result(
            s,
            connectors@.len() > 0,
            join_with(connectors@.map_values(|c: Connector| c.interface@), '\n'),
            "No outputs found."@,
        ),
{
    let ghost names = connectors@.map_values(|c: Connector| c.interface@);
    let mut s = String::new();
    let mut i: usize = 0;
    proof {
        assert(names.take(0) =~= Seq::<Seq<char>>::empty());
    }
    while i < connectors.len()
        invariant
            0 <= i <= connectors.len(),
            names == connectors@.map_values(|c: Connector| c.interface@),
            s@ == join_with(names.take(i as int), '\n'),
        decreases connectors.len() - i,
    {
        proof {
            assert(names.take(i + 1).drop_last() =~= names.take(i as int));
            assert(names.take(i + 1).last() == connectors@[i as int].interface@);
        }
        push_line(&mut s, i == 0, connectors[i].interface.as_str());
        proof {
            if i == 0 {
                assert(names.take(1) =~= seq![connectors@[0].interface@]);
            }
        }
        i = i + 1;
    }
    proof {
        assert(names.take(connectors.len() as int) =~= names);
    }
    if connectors.len() == 0 {
        Err(String::from_str("No outputs found."))
    } else {
        Ok(s)
    }
}

/// Setting the output is not carried out at the DRM level; it succeeds.
pub fn drm_set_output(output: &str) -> (r: Result<(), String>)
    ensures
        r is Ok,
{
    Ok(())
}

/// Rotation is not carried out at the DRM level; it succeeds.
pub fn drm_set_rotation(screen: Option<&str>, rotation: &str) -> (r: Result<(), String>)
    ensures
        r is Ok,
{
    Ok(())
}

/// Screenshots are not taken at the DRM level; it succeeds.
pub fn drm_get_screenshot(screenshot_dir: &str) -> (r: Result<(), String>)
    ensures
        r is Ok,
{
    Ok(())
}

/// The number of pixels of a DRM mode.
pub open spec fn drm_pixels(m: DrmMode) -> int {
    m.width as int * m.height as int
}

/// The position of the largest mode (by pixels), the first of equally large
/// ones.
pub open spec fn largest_mode(ms: Seq<DrmMode>) -> Option<int>
    decreases ms.len(),
{
    if ms.len() == 0 {
        None
    } else {
        match largest_mode(ms.drop_last()) {
            None => Some(ms.len() - 1),
            Some(k) => if drm_pixels(ms.last()) > drm_pixels(ms[k]) {
                Some(ms.len() - 1)
            } else {
                Some(k)
            },
        }
    }
}

/// The largest mode is a mode of the sequence, and no mode is larger.
pub proof fn lemma_largest_mode(ms: Seq<DrmMode>)
    ensures
        ms.len() == 0 <==> largest_mode(ms) is None,
        largest_mode(ms) matches Some(k) ==> 0 <= k < ms.len() && forall|j: int|
            0 <= j < ms.len() ==> drm_pixels(#[trigger] ms[j]) <= drm_pixels(ms[k]),
    decreases ms.len(),
{
    if ms.len() > 0 {
        let t = ms.drop_last();
        lemma_largest_mode(t);
        assert forall|j: int| 0 <= j < t.len() implies t[j] == ms[j] by {}
    }
}

/// The text `WxH@R` of a DRM mode, as it is written down.
pub open spec fn drm_mode_record(m: DrmMode) -> Seq<char> {
    dec(m.width as nat) + "x"@ + dec(m.height as nat) + "@"@ + dec(m.vrefresh as nat)
}

/// The records of the largest modes of the connected connectors a request
/// about `screen` is about, in order (a connector without modes gives
/// none).
pub open spec fn max_records(cs: Seq<Connector>, screen: Option<Seq<char>>) -> Seq<Seq<char>>
    decreases cs.len(),
{
    if cs.len() == 0 {
        Seq::empty()
    } else {
        let pre = max_records(cs.drop_last(), screen);
        let c = cs.last();
        if chosen(screen, c) && c.connected {
            match largest_mode(c.modes@) {
                Some(k) => pre.push(drm_mode_record(c.modes@[k])),
                None => pre,
            }
        } else {
            pre
        }
    }
}

/// The position of the largest mode of a connector.
fn largest_mode_of(ms: &Vec<DrmMode>) -> (r: Option<usize>)
    ensures
        match r {
            Some(k) => largest_mode(ms@) == Some(k as int),
            None => largest_mode(ms@) is None,
        },
{
    let mut best: Option<usize> = None;
    let mut best_pixels: u64 = 0;
    let mut i: usize = 0;
    proof {
        assert(ms@.take(0) =~= Seq::<DrmMode>::empty());
    }
    while i < ms.len()
        invariant
            0 <= i <= ms.len(),
            match best {
                Some(k) => largest_mode(ms@.take(i as int)) == Some(k as int) && k < i
                    && best_pixels == drm_pixels(ms@[k as int]),
                None => largest_mode(ms@.take(i as int)) is None,
            },
        decreases ms.len() - i,
    {
        proof {
            assert(ms@.take(i + 1).drop_last() =~= ms@.take(i as int));
            assert(ms@.take(i + 1).last() == ms@[i as int]);
            if let Some(k) = best {
                assert(ms@.take(i as int)[k as int] == ms@[k as int]);
            }
        }
        let m = &ms[i];
        let w: u64 = m.width as u64;
        let h: u64 = m.height as u64;
        proof {
            assert(w * h <= 0xffff * 0xffff) by (nonlinear_arith)
                requires
                    w <= 0xffff,
                    h <= 0xffff,
            ;
        }
        let n: u64 = w * h;
        match best {
            None => {
                best = Some(i);
                best_pixels = n;
            },
            Some(_) => {
                if n > best_pixels {
                    best = Some(i);
                    best_pixels = n;
                }
            },
        }
        i = i + 1;
    }
    proof {
        assert(ms@.take(ms.len() as int) =~= ms@);
    }
    best
}

/// Setting the largest mode of the connected connectors a request about
/// `screen` is about: the records `WxH@R` to write, one for each such
/// connector with modes, in order; the error "No suitable resolution found"
/// when there is none. The limit `max_resolution` is not used.
pub fn drm_to_max_resolution(
    connectors: &Vec<Connector>,
    screen: Option<&str>,
    max_resolution: Option<String>,
) -> (r: Result<Vec<String>, String>)
    ensures
        match r {
            Ok(ws) => max_records(connectors@, opt_view(screen)).len() > 0 && string_views(ws@)
                == max_records(connectors@, opt_view(screen)),
            Err(m) => max_records(connectors@, opt_view(screen)).len() == 0 && m@
                == "No suitable resolution found"@,
        },
{
    let ghost sel = opt_view(screen);
    let mut ws: Vec<String> = Vec::new();
    let mut i: usize = 0;
    proof {
        assert(connectors@.take(0) =~= Seq::<Connector>::empty());
        assert(string_views(ws@) =~= Seq::<Seq<char>>::empty());
    }
    while i < connectors.len()
        invariant
            0 <= i <= connectors.len(),
            sel == opt_view(screen),
            string_views(ws@) == max_records(connectors@.take(i as int), sel),
        decreases connectors.len() - i,
    {
        let c = &connectors[i];
        proof {
            assert(connectors@.take(i + 1).drop_last() =~= connectors@.take(i as int));
            assert(connectors@.take(i + 1).last() == *c);
        }
        let picked = match screen {
            None => true,
            Some(sc) => str_eq(c.interface.as_str(), sc),
        };
        if picked && c.connected {
            match largest_mode_of(&c.modes) {
                Some(k) => {
                    proof {
                        lemma_largest_mode(c.modes@);
                    }
                    let m = &c.modes[k];
                    let mut w = String::new();
                    push_dec(&mut w, m.width as u64);
                    push_str(&mut w, "x");
                    push_dec(&mut w, m.height as u64);
                    push_str(&mut w, "@");
                    push_dec(&mut w, m.vrefresh as u64);
                    let ghost before = ws@;
                    ws.push(w);
                    proof {
                        assert(w@ =~= drm_mode_record(c.modes@[k as int]));
                        assert(string_views(ws@) =~= string_views(before).push(
                            drm_mode_record(c.modes@[k as int]),
                        ));
                    }
                },
                None => {},
            }
        }
        i = i + 1;
    }
    proof {
        assert(connectors@.take(connectors.len() as int) =~= connectors@);
    }
    if ws.len() == 0 {
        Err(String::from_str("No suitable resolution found"))
    } else {
        Ok(ws)
    }
}


// ---------------------------------------------------------------------------
// Reports on the current modes
// ---------------------------------------------------------------------------

/// A connector as the tool reads it for a report: its interface name,
/// whether it is connected, and the mode its CRTC shows, when it was read.
#[derive(Debug)]
pub struct ConnectorState {
    pub interface: String,
    pub connected: bool,
    pub current: Option<DrmMode>,
}

/// What a report on the connectors says.
#[derive(Debug, Clone, Copy)]
pub enum DrmReport {
    /// The current modes, `WxH@R`.
    Mode,
    /// The current resolutions, `WxH`.
    Resolution,
    /// The current refresh rates, `RHz`.
    Refresh,
    /// The names of the connected connectors.
    Output,
}

/// A request about `screen` is about the connector of interface `name`.
pub open spec fn picks(screen: Option<Seq<char>>, name: Seq<char>) -> bool {
    match screen {
        None => true,
        Some(s) => name == s,
    }
}

/// Whether the tool reads the current mode of a connector for a report on
/// `screen`: it does for the connected connectors the request is about.
pub fn drm_reads_current(screen: Option<&str>, interface: &str, connected: bool) -> (r: bool)
    ensures
        r == (connected && picks(opt_view(screen), interface@)),
{
    connected && match screen {
        None => true,
        Some(s) => str_eq(interface, s),
    }
}

/// What a report says of one connector, if anything: of a connected one,
/// its name, or the mode its CRTC shows in the form of the report.
pub open spec fn drm_piece(c: ConnectorState, kind: DrmReport) -> Option<Seq<char>> {
    if !c.connected {
        None
    } else {
        match kind {
            DrmReport::Output => Some(c.interface@),
            _ => match c.current {
                None => None,
                Some(m) => Some(
                    match kind {
                        DrmReport::Mode => dec(m.width as nat) + "x"@ + dec(m.height as nat) + "@"@
                            + dec(m.vrefresh as nat),
                        DrmReport::Resolution => dec(m.width as nat) + "x"@ + dec(m.height as nat),
                        _ => dec(m.vrefresh as nat) + "Hz"@,
                    },
                ),
            },
        }
    }
}

/// What a report about `screen` says of the connectors `cs`, in order.
pub open spec fn drm_pieces(cs: Seq<ConnectorState>, screen: Option<Seq<char>>, kind: DrmReport) -> Seq<
    Seq<char>,
>
    decreases cs.len(),
{
    if cs.len() == 0 {
        Seq::empty()
    } else {
        let pre = drm_pieces(cs.drop_last(), screen, kind);
        if picks(screen, cs.last().interface@) {
            match drm_piece(cs.last(), kind) {
                Some(p) => pre.push(p),
                None => pre,
            }
        } else {
            pre
        }
    }
}

/// The report of the given kind on the connectors a request about `screen`
/// is about, its pieces one after the other; the error `missing` when there
/// is none.
fn drm_report(states: &Vec<ConnectorState>, screen: Option<&str>, kind: DrmReport, missing: &str) -> (s:
    Result<String, String>)
    ensures
        report_result(
            s,
            drm_pieces(states@, opt_view(screen), kind).len() > 0,
            concat_all(drm_pieces(states@, opt_view(screen), kind)),
            missing@,
        ),
{
    let ghost sel = opt_view(screen);
    let mut s = String::new();
    let mut found = false;
    let mut i: usize = 0;
    proof {
        assert(states@.take(0) =~= Seq::<ConnectorState>::empty());
    }
    while i < states.len()
        invariant
            0 <= i <= states.len(),
            sel == opt_view(screen),
            s@ == concat_all(drm_pieces(states@.take(i as int), sel, kind)),
            found == (drm_pieces(states@.take(i as int), sel, kind).len() > 0),
        decreases states.len() - i,
    {
        let c = &states[i];
        let ghost pre = drm_pieces(states@.take(i as int), sel, kind);
        proof {
            assert(states@.take(i + 1).drop_last() =~= states@.take(i as int));
            assert(states@.take(i + 1).last() == *c);
        }
        let picked = match screen {
            None => true,
            Some(sc) => str_eq(c.interface.as_str(), sc),
        };
        if picked && c.connected {
            let ghost s0 = s@;
            match kind {
                DrmReport::Output => {
                    push_str(&mut s, c.interface.as_str());
                    found = true;
                },
                _ => match &c.current {
                    None => {},
                    Some(m) => {
                        match kind {
                            DrmReport::Mode => {
                                push_dec(&mut s, m.width as u64);
                                push_str(&mut s, "x");
                                push_dec(&mut s, m.height as u64);
                                push_str(&mut s, "@");
                                push_dec(&mut s, m.vrefresh as u64);
                            },
                            DrmReport::Resolution => {
                                push_dec(&mut s, m.width as u64);
                                push_str(&mut s, "x");
                                push_dec(&mut s, m.height as u64);
                            },
                            _ => {
                                push_dec(&mut s, m.vrefresh as u64);
                                push_str(&mut s, "Hz");
                            },
                        }
                        found = true;
                    },
                },
            }
            proof {
                match drm_piece(*c, kind) {
                    Some(p) => {
                        assert(s@ =~= s0 + p);
                        lemma_concat_push(pre, p);
                    },
                    None => {},
                }
            }
        }
        i = i + 1;
    }
    proof {
        assert(states@.take(states.len() as int) =~= states@);
    }
    if found {
        Ok(s)
    } else {
        Err(String::from_str(missing))
    }
}

/// The current modes `WxH@R` of the connected connectors a request about
/// `screen` is about, one after the other; the
/// error "No current mode found." when there is none.
pub fn drm_current_mode(states: &Vec<ConnectorState>, screen: Option<&str>) -> (s: Result<String, String>)
    ensures
        report_result(
            s,
            drm_pieces(states@, opt_view(screen), DrmReport::Mode).len() > 0,
            concat_all(drm_pieces(states@, opt_view(screen), DrmReport::Mode)),
            "No current mode found."@,
        ),
{
    drm_report(states, screen, DrmReport::Mode, "No current mode found.")
}

/// The names of the connected connectors, one after the other; the error
/// "No current output found." when none is connected.
pub fn drm_current_output(states: &Vec<ConnectorState>) -> (s: Result<String, String>)
    ensures
        report_result(
            s,
            drm_pieces(states@, None, DrmReport::Output).len() > 0,
            concat_all(drm_pieces(states@, None, DrmReport::Output)),
            "No current output found."@,
        ),
{
    drm_report(states, None, DrmReport::Output, "No current output found.")
}

/// The current resolutions `WxH` of the connected connectors a request
/// about `screen` is about, one after the other; the
/// error "No current resolution found." when there is none.
pub fn drm_current_resolution(states: &Vec<ConnectorState>, screen: Option<&str>) -> (s: Result<String, String>)
    ensures
        report_result(
            s,
            drm_pieces(states@, opt_view(screen), DrmReport::Resolution).len() > 0,
            concat_all(drm_pieces(states@, opt_view(screen), DrmReport::Resolution)),
            "No current resolution found."@,
        ),
{
    drm_report(states, screen, DrmReport::Resolution, "No current resolution found.")
}

/// The current refresh rates `RHz` of the connected connectors a request
/// about `screen` is about, one after the other; the
/// error "No current refresh rate found." when there is none.
pub fn drm_current_refresh(states: &Vec<ConnectorState>, screen: Option<&str>) -> (s: Result<String, String>)
    ensures
        report_result(
            s,
            drm_pieces(states@, opt_view(screen), DrmReport::Refresh).len() > 0,
            concat_all(drm_pieces(states@, opt_view(screen), DrmReport::Refresh)),
            "No current refresh rate found."@,
        ),
{
    drm_report(states, screen, DrmReport::Refresh, "No current refresh rate found.")
}

// ---------------------------------------------------------------------------
// Setting a mode
// ---------------------------------------------------------------------------

/// The connector has the mode: the same width and height as 16-bit values
/// and the same refresh rate as a 32-bit one.
pub open spec fn has_mode_of(c: Connector, w: i32, h: i32, r: i32) -> bool {
    exists|k: int|
        0 <= k < c.modes@.len() && (#[trigger] c.modes@[k]).width == w as u16 && c.modes@[k].height
            == h as u16 && c.modes@[k].vrefresh == r as u32
}

/// The text of a mode as the tool writes it down: `WxH@R`.
pub open spec fn drm_record(w: i32, h: i32, r: i32) -> Seq<char> {
    int_text(w as int) + "x"@ + int_text(h as int) + "@"@ + int_text(r as int)
}

/// Setting a mode on the connectors `cs` for a request about `screen`: the
/// records written, in order, and whether it then stops with "Mode not
/// found" at a connected connector the request is about that lacks the mode.
pub open spec fn drm_mode_plan(cs: Seq<Connector>, screen: Option<Seq<char>>, w: i32, h: i32, r: i32) -> (
    Seq<Seq<char>>,
    bool,
)
    decreases cs.len(),
{
    if cs.len() == 0 {
        (Seq::empty(), false)
    } else if chosen(screen, cs[0]) && cs[0].connected {
        if has_mode_of(cs[0], w, h, r) {
            let rest = drm_mode_plan(cs.drop_first(), screen, w, h, r);
            (seq![drm_record(w, h, r)] + rest.0, rest.1)
        } else {
            (Seq::empty(), true)
        }
    } else {
        drm_mode_plan(cs.drop_first(), screen, w, h, r)
    }
}

/// Whether the connector has the mode `w`x`h`@`r`.
fn connector_has_mode(c: &Connector, w: i32, h: i32, r: i32) -> (b: bool)
    ensures
        b == has_mode_of(*c, w, h, r),
{
    let w16 = w as u16;
    let h16 = h as u16;
    let r32 = r as u32;
    let mut k: usize = 0;
    while k < c.modes.len()
        invariant
            0 <= k <= c.modes.len(),
            w16 == w as u16,
            h16 == h as u16,
            r32 == r as u32,
            forall|j: int|
                0 <= j < k ==> !((#[trigger] c.modes@[j]).width == w16 && c.modes@[j].height == h16
                    && c.modes@[j].vrefresh == r32),
        decreases c.modes.len() - k,
    {
        if c.modes[k].width == w16 && c.modes[k].height == h16 && c.modes[k].vrefresh == r32 {
            return true;
        }
        k = k + 1;
    }
    false
}

/// Setting the mode `width`x`height`@`vrefresh` for a request about
/// `screen`: the records `WxH@R` to write, one for each connected connector
/// the request is about, in order, and whether it then stops with "Mode not
/// found" because such a connector lacks the mode.
pub fn drm_set_mode(
    connectors: &Vec<Connector>,
    screen: Option<&str>,
    width: i32,
    height: i32,
    vrefresh: i32,
) -> (r: (Vec<String>, bool))
    ensures
        (string_views(r.0@), r.1) == drm_mode_plan(
            connectors@,
            opt_view(screen),
            width,
            height,
            vrefresh,
        ),
{
    let ghost sel = opt_view(screen);
    let ghost plan = drm_mode_plan(connectors@, sel, width, height, vrefresh);
    let mut ws: Vec<String> = Vec::new();
    let mut i: usize = 0;
    proof {
        assert(connectors@.skip(0) =~= connectors@);
        assert(string_views(ws@) =~= Seq::<Seq<char>>::empty());
    }
    while i < connectors.len()
        invariant
            0 <= i <= connectors.len(),
            sel == opt_view(screen),
            plan == drm_mode_plan(connectors@, sel, width, height, vrefresh),
            plan.0 == string_views(ws@) + drm_mode_plan(
                connectors@.skip(i as int),
                sel,
                width,
                height,
                vrefresh,
            ).0,
            plan.1 == drm_mode_plan(connectors@.skip(i as int), sel, width, height, vrefresh).1,
        decreases connectors.len() - i,
    {
        let ghost rest = connectors@.skip(i as int);
        proof {
            assert(rest[0] == connectors@[i as int]);
            assert(rest.drop_first() =~= connectors@.skip(i + 1));
        }
        let c = &connectors[i];
        let picked = match screen {
            None => true,
            Some(s) => str_eq(c.interface.as_str(), s),
        };
        if picked && c.connected {
            if connector_has_mode(c, width, height, vrefresh) {
                let mut w = String::new();
                push_int(&mut w, width as i64);
                push_str(&mut w, "x");
                push_int(&mut w, height as i64);
                push_str(&mut w, "@");
                push_int(&mut w, vrefresh as i64);
                let ghost before = ws@;
                ws.push(w);
                proof {
                    assert(w@ =~= drm_record(width, height, vrefresh));
                    assert(string_views(ws@) =~= string_views(before).push(
                        drm_record(width, height, vrefresh),
                    ));
                    let tail = drm_mode_plan(rest.drop_first(), sel, width, height, vrefresh);
                    assert(drm_mode_plan(rest, sel, width, height, vrefresh).0 == seq![
                        drm_record(width, height, vrefresh),
                    ] + tail.0);
                    assert(string_views(ws@) + tail.0 =~= string_views(before) + (seq![
                        drm_record(width, height, vrefresh),
                    ] + tail.0));
                }
            } else {
                proof {
                    assert(drm_mode_plan(rest, sel, width, height, vrefresh) == (
                        Seq::<Seq<char>>::empty(),
                        true,
                    ));
                    assert(string_views(ws@) + Seq::<Seq<char>>::empty() =~= string_views(ws@));
                }
                return (ws, true);
            }
        }
        i = i + 1;
    }
    proof {
        assert(connectors@.skip(connectors.len() as int) =~= Seq::<Connector>::empty());
        assert(string_views(ws@) + Seq::<Seq<char>>::empty() =~= string_views(ws@));
    }
    (ws, false)
}

/// The backend the tool works on: `Wayland` when `WAYLAND_DISPLAY` is set,
/// else `KMS/DRM`.
pub fn detect_backend(wayland_display_set: bool) -> (s: String)
    ensures
        s@ == if wayland_display_set {
            "Wayland"@
        } else {
            "KMS/DRM"@
        },
{
    if wayland_display_set {
        String::from_str("Wayland")
    } else {
        String::from_str("KMS/DRM")
    }
}

/// What the tool's `setMode` argument asks for.
#[derive(Debug, PartialEq, Eq)]
pub enum ToolModeRequest {
    /// The largest resolution within the `WxH` limit that follows `max-`.
    MaxResolution(String),
    /// The mode `width`x`height`@`vrefresh`.
    Mode(i32, i32, i32),
}

/// The tool's message for a refused mode string.
pub open spec fn mode_fault_text(f: ModeFault) -> Seq<char> {
    match f {
        ModeFault::Format => "Invalid mode format. Use 'WxH@R' or 'WxH'"@,
        ModeFault::Width => "Invalid width"@,
        ModeFault::Height => "Invalid height"@,
        ModeFault::Refresh => "Invalid refresh rate"@,
    }
}

/// Reads the tool's `setMode` argument: `max-WxH` asks for the largest
/// resolution within `WxH` (every leading `max-` removed); anything else must
/// be a mode `WxH@R` or `WxH` (60 Hz), or the error says why it is not.
pub fn tool_mode_request(mode: &str) -> (r: Result<ToolModeRequest, String>)
    ensures
        is_prefix("max-"@, mode@) ==> (r matches Ok(ToolModeRequest::MaxResolution(m)) && m@
            == trim_prefix_all(mode@, "max-"@)),
        !is_prefix("max-"@, mode@) ==> match spec_parse_mode(mode@) {
            Ok((w, h, v)) => r == Ok::<ToolModeRequest, String>(
                ToolModeRequest::Mode(w as i32, h as i32, v as i32),
            ),
            Err(f) => r matches Err(e) && e@ == mode_fault_text(f),
        },
{
    let v = crate::text::chars_of(mode);
    let pv = crate::text::chars_of("max-");
    if crate::text::starts_with(&v, &pv) {
        return Ok(ToolModeRequest::MaxResolution(trim_start_matches(mode, "max-")));
    }
    match parse_mode(mode) {
        Ok(m) => Ok(ToolModeRequest::Mode(m.width, m.height, m.vrefresh)),
        Err(RegmsgError::InvalidArguments(m)) => Err(m),
        Err(RegmsgError::ParseError(m)) => Err(m),
        Err(e) => Err(e.message()),
    }
}


/// The tool setting a mode on the DRM device, connector by connector in
/// order: a connector that is not connected, or that is not the named
/// screen, is passed over; a connected connector that is the named screen
/// (or any, when no screen is named) gets the record `WxH@R` when it has a
/// mode of that width, height and refresh rate, and otherwise stops the
/// operation there with "Mode not found", nothing more being written.
pub proof fn law_tool_mode_written_on_connected_named_connectors(
    c: Connector,
    cs: Seq<Connector>,
    screen: Option<Seq<char>>,
    w: i32,
    h: i32,
    r: i32,
)
    ensures
        !c.connected ==> drm_mode_plan(seq![c] + cs, screen, w, h, r) == drm_mode_plan(cs, screen, w, h, r),
        screen matches Some(n) && c.interface@ != n ==> drm_mode_plan(seq![c] + cs, screen, w, h, r)
            == drm_mode_plan(cs, screen, w, h, r),
        c.connected && (screen matches Some(n) ==> c.interface@ == n) ==> if exists|k: int|
            0 <= k < c.modes@.len() && (#[trigger] c.modes@[k]).width == w as u16
                && c.modes@[k].height == h as u16 && c.modes@[k].vrefresh == r as u32 {
            drm_mode_plan(seq![c] + cs, screen, w, h, r) == (
                seq![int_text(w as int) + "x"@ + int_text(h as int) + "@"@ + int_text(r as int)]
                    + drm_mode_plan(cs, screen, w, h, r).0,
                drm_mode_plan(cs, screen, w, h, r).1,
            )
        } else {
            drm_mode_plan(seq![c] + cs, screen, w, h, r) == (Seq::<Seq<char>>::empty(), true)
        },
{
    let t = seq![c] + cs;
    assert(t.drop_first() =~= cs);
    assert(t[0] == c);
}

/// Lowering the resolution on the DRM device, connector by connector in
/// order: a connector that is not connected, that is not the named screen,
/// or that has no mode adds no record; a connected connector that is the
/// named screen (or any, when no screen is named) and has modes adds the
/// record of one of its modes that no mode of it exceeds in pixels.
pub proof fn law_tool_max_record_is_a_largest_mode(cs: Seq<Connector>, c: Connector, screen: Option<Seq<char>>)
    ensures
        !c.connected || (screen matches Some(n) && c.interface@ != n) || c.modes@.len() == 0
            ==> max_records(cs.push(c), screen) == max_records(cs, screen),
        c.connected && (screen matches Some(n) ==> c.interface@ == n) && c.modes@.len() > 0
            ==> exists|k: int|
            #![trigger c.modes@[k]]
            0 <= k < c.modes@.len() && max_records(cs.push(c), screen) == max_records(cs, screen).push(
                dec(c.modes@[k].width as nat) + "x"@ + dec(c.modes@[k].height as nat) + "@"@ + dec(
                    c.modes@[k].vrefresh as nat,
                ),
            ) && forall|j: int|
                #![trigger c.modes@[j]]
                0 <= j < c.modes@.len() ==> c.modes@[j].width as int * c.modes@[j].height as int
                    <= c.modes@[k].width as int * c.modes@[k].height as int,
{
    let t = cs.push(c);
    assert(t.drop_last() =~= cs);
    assert(t.last() == c);
    lemma_largest_mode(c.modes@);
    if c.connected && (screen matches Some(n) ==> c.interface@ == n) && c.modes@.len() > 0 {
        let k = largest_mode(c.modes@)->Some_0;
        assert forall|j: int|
            #![trigger c.modes@[j]]
            0 <= j < c.modes@.len() implies c.modes@[j].width as int * c.modes@[j].height as int
            <= c.modes@[k].width as int * c.modes@[k].height as int by {
            assert(drm_pixels(c.modes@[j]) <= drm_pixels(c.modes@[k]));
        }
    }
}

} // verus!
