//! The KMS/DRM backend: what it makes of the connectors that the DRM device
//! reports, the mode strings it writes, and its answers to what it does not
//! support.
use super::backend::{DisplayMode, DisplayModeView, DisplayOutput, ModeParams, RotationParams};
use super::mode_views;
use crate::error::{RegmsgError, Result};
use crate::text::{concat2, contains_seq, dec, is_prefix, opt_view, push_dec, push_str, str_eq};
use vstd::prelude::*;

verus! {

/// The file the mode that is set is written to.
pub const DRM_MODE_PATH: &'static str = "/var/run/drmMode";

/// A mode of a connector, as the DRM device reports it.
#[derive(Debug, Clone, Copy)]
pub struct DrmMode {
    pub width: u16,
    pub height: u16,
    pub vrefresh: u32,
}

/// A connector of the DRM device: its interface name, whether a display is
/// connected, and its modes.
#[derive(Debug)]
pub struct Connector {
    pub interface: String,
    pub connected: bool,
    pub modes: Vec<DrmMode>,
}

/// The KMS/DRM backend.
pub struct DrmBackend;

/// An error of the DRM backend.
pub open spec fn is_drm_error(e: RegmsgError, m: Seq<char>) -> bool {
    e matches RegmsgError::BackendError { backend, message } && backend@ == "DRM"@ && message@ == m
}

/// An error of the DRM backend with the given message.
pub fn drm_error(message: String) -> (e: RegmsgError)
    ensures
        is_drm_error(e, message@),
{
    RegmsgError::BackendError { backend: String::from_str("DRM"), message }
}

impl DrmBackend {
    /// A DRM backend.
    pub fn new() -> (b: Self) {
        DrmBackend
    }

    /// The name of the backend.
    pub fn backend_name(&self) -> (n: &'static str)
        ensures
            n@ == "KMS/DRM"@,
    {
        "KMS/DRM"
    }

    /// The rotation of a screen: the DRM level does not know it, so it is 0.
    pub fn current_rotation(&self, screen: Option<&str>) -> (r: Result<u32>)
        ensures
            r matches Ok(d) && d == 0,
    {
        Ok(0)
    }

    /// Rotation is not supported at the DRM level.
    pub fn set_rotation(&self, screen: Option<&str>, rotation: &RotationParams) -> (r: Result<()>)
        ensures
            r matches Err(e) && is_drm_error(e, "Rotation not supported at DRM level directly"@),
    {
        Err(drm_error(String::from_str("Rotation not supported at DRM level directly")))
    }

    /// Lowering the resolution is not done at the DRM level; it succeeds
    /// without a change.
    pub fn set_max_resolution(&self, screen: Option<&str>, max_resolution: Option<&str>) -> (r: Result<()>)
        ensures
            r is Ok,
    {
        Ok(())
    }

    /// Screenshots are not supported at the DRM level.
    pub fn take_screenshot(&self, screenshot_dir: &str) -> (r: Result<String>)
        ensures
            r matches Err(e) && is_drm_error(e, "Screenshot not supported at DRM level directly"@),
    {
        Err(drm_error(String::from_str("Screenshot not supported at DRM level directly")))
    }

    /// There is no touchscreen support at the DRM level; it succeeds
    /// without a change.
    pub fn map_touchscreen(&self) -> (r: Result<()>)
        ensures
            r is Ok,
    {
        Ok(())
    }
}

// ---------------------------------------------------------------------------
// Modes and outputs
// ---------------------------------------------------------------------------

/// The name of a DRM mode: `WxH@RHz`.
pub open spec fn drm_mode_name(m: DrmMode) -> Seq<char> {
    dec(m.width as nat) + "x"@ + dec(m.height as nat) + "@"@ + dec(m.vrefresh as nat) + "Hz"@
}

/// A DRM mode as a display mode.
pub open spec fn drm_mode_view(m: DrmMode) -> DisplayModeView {
    DisplayModeView {
        width: m.width as u32,
        height: m.height as u32,
        refresh_rate: m.vrefresh,
        name: drm_mode_name(m),
    }
}

/// A DRM mode as a display mode.
pub fn display_mode(m: &DrmMode) -> (d: DisplayMode)
    ensures
        d@ == drm_mode_view(*m),
{
    let mut name = String::new();
    push_dec(&mut name, m.width as u64);
    push_str(&mut name, "x");
    push_dec(&mut name, m.height as u64);
    push_str(&mut name, "@");
    push_dec(&mut name, m.vrefresh as u64);
    push_str(&mut name, "Hz");
    proof {
        assert(name@ =~= drm_mode_name(*m));
    }
    DisplayMode { width: m.width as u32, height: m.height as u32, refresh_rate: m.vrefresh, name }
}

/// The modes of a sequence of DRM modes, converted.
pub open spec fn drm_modes_view(ms: Seq<DrmMode>) -> Seq<DisplayModeView> {
    ms.map_values(|m: DrmMode| drm_mode_view(m))
}

/// Appends the modes of a connector, converted, to `out`.
fn push_connector_modes(out: &mut Vec<DisplayMode>, c: &Connector)
    ensures
        mode_views(final(out)@) == mode_views(old(out)@) + drm_modes_view(c.modes@),
{
    let mut i: usize = 0;
    proof {
        assert(mode_views(old(out)@) + drm_modes_view(c.modes@.take(0)) =~= mode_views(old(out)@));
    }
    while i < c.modes.len()
        invariant
            0 <= i <= c.modes.len(),
            mode_views(out@) == mode_views(old(out)@) + drm_modes_view(c.modes@.take(i as int)),
        decreases c.modes.len() - i,
    {
        let d = display_mode(&c.modes[i]);
        let ghost before = out@;
        out.push(d);
        proof {
            assert(mode_views(out@) =~= mode_views(before).push(drm_mode_view(c.modes@[i as int])));
            assert(drm_modes_view(c.modes@.take(i + 1)) =~= drm_modes_view(c.modes@.take(i as int)).push(
                drm_mode_view(c.modes@[i as int]),
            ));
        }
        i = i + 1;
    }
    proof {
        assert(c.modes@.take(c.modes.len() as int) =~= c.modes@);
    }
}

/// A request about `screen` is about the connector `c`: every connector
/// when no screen is named, else the one with that interface name.
pub open spec fn chosen(screen: Option<Seq<char>>, c: Connector) -> bool {
    match screen {
        None => true,
        Some(s) => c.interface@ == s,
    }
}

/// Whether a request about `screen` is about the connector `c`.
pub fn is_chosen(screen: Option<&str>, c: &Connector) -> (r: bool)
    ensures
        r == chosen(opt_view(screen), *c),
{
    match screen {
        None => true,
        Some(s) => str_eq(c.interface.as_str(), s),
    }
}

/// The modes of the connectors a request is about, in order.
pub open spec fn connector_modes_of(cs: Seq<Connector>, screen: Option<Seq<char>>) -> Seq<
    DisplayModeView,
>
    decreases cs.len(),
{
    if cs.len() == 0 {
        Seq::empty()
    } else if chosen(screen, cs.last()) {
        connector_modes_of(cs.drop_last(), screen) + drm_modes_view(cs.last().modes@)
    } else {
        connector_modes_of(cs.drop_last(), screen)
    }
}

/// The modes of the connectors a request about `screen` is about.
pub fn drm_modes(connectors: &Vec<Connector>, screen: Option<&str>) -> (ms: Vec<DisplayMode>)
    ensures
        mode_views(ms@) == connector_modes_of(connectors@, opt_view(screen)),
{
    let mut ms: Vec<DisplayMode> = Vec::new();
    let mut i: usize = 0;
    proof {
        assert(connectors@.take(0) =~= Seq::<Connector>::empty());
        assert(mode_views(ms@) =~= Seq::<DisplayModeView>::empty());
    }
    while i < connectors.len()
        invariant
            0 <= i <= connectors.len(),
            mode_views(ms@) == connector_modes_of(connectors@.take(i as int), opt_view(screen)),
        decreases connectors.len() - i,
    {
        proof {
            assert(connectors@.take(i + 1).drop_last() =~= connectors@.take(i as int));
            assert(connectors@.take(i + 1).last() == connectors@[i as int]);
        }
        if is_chosen(screen, &connectors[i]) {
            push_connector_modes(&mut ms, &connectors[i]);
        }
        i = i + 1;
    }
    proof {
        assert(connectors@.take(connectors.len() as int) =~= connectors@);
    }
    ms
}

/// `d` is the connector `c` as a display output: its name, its modes, no
/// current mode yet, its connection, and no rotation.
pub open spec fn lists_connector(c: Connector, d: DisplayOutput) -> bool {
    &&& d.name@ == c.interface@
    &&& mode_views(d.modes@) == drm_modes_view(c.modes@)
    &&& d.current_mode is None
    &&& d.is_connected == c.connected
    &&& d.rotation == 0
}

/// All the connectors as display outputs, without their current modes.
pub fn drm_outputs(connectors: &Vec<Connector>) -> (ds: Vec<DisplayOutput>)
    ensures
        ds@.len() == connectors@.len(),
        forall|i: int| 0 <= i < connectors@.len() ==> lists_connector(connectors@[i], #[trigger] ds@[i]),
{
    let mut ds: Vec<DisplayOutput> = Vec::new();
    let mut i: usize = 0;
    while i < connectors.len()
        invariant
            0 <= i <= connectors.len(),
            ds@.len() == i,
            forall|j: int| 0 <= j < i ==> lists_connector(connectors@[j], #[trigger] ds@[j]),
        decreases connectors.len() - i,
    {
        let c = &connectors[i];
        let mut modes: Vec<DisplayMode> = Vec::new();
        push_connector_modes(&mut modes, c);
        proof {
            assert(mode_views(Seq::<DisplayMode>::empty()) + drm_modes_view(c.modes@) =~= drm_modes_view(c.modes@));
        }
        ds.push(
            DisplayOutput {
                name: c.interface.clone(),
                modes,
                current_mode: None,
                is_connected: c.connected,
                rotation: 0,
            },
        );
        i = i + 1;
    }
    ds
}

/// The last mode found, if any.
pub open spec fn last_found(found: Seq<Option<DrmMode>>) -> Option<DrmMode>
    decreases found.len(),
{
    if found.len() == 0 {
        None
    } else if found.last() is Some {
        found.last()
    } else {
        last_found(found.drop_last())
    }
}

/// The current mode of a screen from the modes found on its connected
/// connectors, in order: the last one found stands; an error when none was.
pub fn latest_mode(found: &Vec<Option<DrmMode>>) -> (r: Result<DisplayMode>)
    ensures
        match last_found(found@) {
            Some(m) => r matches Ok(d) && d@ == drm_mode_view(m),
            None => r matches Err(RegmsgError::NotFound(t)) && t@ == "Current mode"@,
        },
{
    let mut i: usize = found.len();
    proof {
        assert(found@.take(found.len() as int) =~= found@);
    }
    while i > 0
        invariant
            0 <= i <= found.len(),
            last_found(found@) == last_found(found@.take(i as int)),
        decreases i,
    {
        proof {
            assert(found@.take(i as int).drop_last() =~= found@.take(i - 1));
            assert(found@.take(i as int).last() == found@[i - 1]);
        }
        match &found[i - 1] {
            Some(m) => {
                return Ok(display_mode(m));
            },
            None => {},
        }
        i = i - 1;
    }
    proof {
        assert(found@.take(0) =~= Seq::<Option<DrmMode>>::empty());
    }
    Err(RegmsgError::NotFound(String::from_str("Current mode")))
}

// ---------------------------------------------------------------------------
// Setting a mode
// ---------------------------------------------------------------------------

/// The connector offers the mode `p`: the same width and height (as 16-bit
/// values) and the same refresh rate.
pub open spec fn offers_mode(c: Connector, p: ModeParams) -> bool {
    exists|k: int|
        0 <= k < c.modes@.len() && (#[trigger] c.modes@[k]).width == p.width as u16
            && c.modes@[k].height == p.height as u16 && c.modes@[k].vrefresh == p.refresh_rate
}

/// A connector whose mode a request about `screen` sets: one it is about,
/// connected, whose name holds the screen's name, and that offers the mode.
pub open spec fn mode_target(screen: Option<Seq<char>>, c: Connector, p: ModeParams) -> bool {
    &&& chosen(screen, c)
    &&& c.connected
    &&& (screen matches Some(s) ==> contains_seq(c.interface@, s))
    &&& offers_mode(c, p)
}

/// The text of a mode as it is written down: `WxH@R`.
pub open spec fn mode_record(p: ModeParams) -> Seq<char> {
    dec(p.width as nat) + "x"@ + dec(p.height as nat) + "@"@ + dec(p.refresh_rate as nat)
}

/// The records written for the connectors whose mode is set, in order.
pub open spec fn mode_records(cs: Seq<Connector>, screen: Option<Seq<char>>, p: ModeParams) -> Seq<
    Seq<char>,
>
    decreases cs.len(),
{
    if cs.len() == 0 {
        Seq::empty()
    } else if mode_target(screen, cs.last(), p) {
        mode_records(cs.drop_last(), screen, p).push(mode_record(p))
    } else {
        mode_records(cs.drop_last(), screen, p)
    }
}

/// Whether the connector offers the mode `p`.
fn has_mode(c: &Connector, p: &ModeParams) -> (r: bool)
    ensures
        r == offers_mode(*c, *p),
{
    let w = p.width as u16;
    let h = p.height as u16;
    let mut k: usize = 0;
    while k < c.modes.len()
        invariant
            0 <= k <= c.modes.len(),
            w == p.width as u16,
            h == p.height as u16,
            forall|j: int|
                0 <= j < k ==> !((#[trigger] c.modes@[j]).width == w && c.modes@[j].height == h
                    && c.modes@[j].vrefresh == p.refresh_rate),
        decreases c.modes.len() - k,
    {
        if c.modes[k].width == w && c.modes[k].height == h && c.modes[k].vrefresh == p.refresh_rate {
            return true;
        }
        k = k + 1;
    }
    false
}

/// The records `WxH@R` to write for the mode `p`, one for each connected
/// connector that a request about `screen` is about and that offers the
/// mode.
pub fn drm_mode_writes(connectors: &Vec<Connector>, screen: Option<&str>, p: &ModeParams) -> (ws:
    Vec<String>)
    ensures
        ws@.map_values(|w: String| w@) == mode_records(connectors@, opt_view(screen), *p),
{
    let mut ws: Vec<String> = Vec::new();
    let mut i: usize = 0;
    proof {
        assert(connectors@.take(0) =~= Seq::<Connector>::empty());
        assert(ws@.map_values(|w: String| w@) =~= Seq::<Seq<char>>::empty());
    }
    while i < connectors.len()
        invariant
            0 <= i <= connectors.len(),
            ws@.map_values(|w: String| w@) == mode_records(
                connectors@.take(i as int),
                opt_view(screen),
                *p,
            ),
        decreases connectors.len() - i,
    {
        proof {
            assert(connectors@.take(i + 1).drop_last() =~= connectors@.take(i as int));
            assert(connectors@.take(i + 1).last() == connectors@[i as int]);
        }
        let c = &connectors[i];
        let named = match screen {
            None => true,
            Some(s) => {
                let iv = crate::text::chars_of(c.interface.as_str());
                let sv = crate::text::chars_of(s);
                crate::text::contains(&iv, &sv)
            },
        };
        if is_chosen(screen, c) && c.connected && named && has_mode(c, p) {
            let mut w = String::new();
            push_dec(&mut w, p.width as u64);
            push_str(&mut w, "x");
            push_dec(&mut w, p.height as u64);
            push_str(&mut w, "@");
            push_dec(&mut w, p.refresh_rate as u64);
            let ghost before = ws@;
            ws.push(w);
            proof {
                assert(w@ =~= mode_record(*p));
                assert(ws@.map_values(|w: String| w@) =~= before.map_values(|w: String| w@).push(
                    mode_record(*p),
                ));
            }
        }
        i = i + 1;
    }
    proof {
        assert(connectors@.take(connectors.len() as int) =~= connectors@);
    }
    ws
}

/// The error of a failed write of the mode record.
pub fn mode_write_error(reason: &str) -> (e: RegmsgError)
    ensures
        e matches RegmsgError::SystemError(m) && m@ == "Failed to write to DRM mode path: "@ + reason@,
{
    RegmsgError::SystemError(concat2("Failed to write to DRM mode path: ", reason))
}

// ---------------------------------------------------------------------------
// Choosing the device
// ---------------------------------------------------------------------------

/// A directory entry is a DRM card.
pub fn is_card_name(name: &str) -> (r: bool)
    ensures
        r == is_prefix("card"@, name@),
{
    let n = crate::text::chars_of(name);
    let p = crate::text::chars_of("card");
    crate::text::starts_with(&n, &p)
}

/// The card with the most connectors among the cards that could be opened
/// (`None` for the others), the first of equally good ones; a card without
/// connectors is never taken. Returns the card's position and its number of
/// connectors.
pub open spec fn best_card_of(counts: Seq<Option<usize>>) -> (Option<int>, nat)
    decreases counts.len(),
{
    if counts.len() == 0 {
        (None, 0)
    } else {
        let (b, m) = best_card_of(counts.drop_last());
        match counts.last() {
            Some(n) => if n > m {
                (Some(counts.len() - 1), n as nat)
            } else {
                (b, m)
            },
            None => (b, m),
        }
    }
}

/// The position of the card to use, from the numbers of connectors of the
/// cards in the order they were found (`None` for a card that could not be
/// opened or read).
pub fn best_card(counts: &Vec<Option<usize>>) -> (r: Option<usize>)
    ensures
        match r {
            Some(i) => best_card_of(counts@).0 == Some(i as int),
            None => best_card_of(counts@).0 is None,
        },
{
    let mut best: Option<usize> = None;
    let mut max: usize = 0;
    let mut i: usize = 0;
    proof {
        assert(counts@.take(0) =~= Seq::<Option<usize>>::empty());
    }
    while i < counts.len()
        invariant
            0 <= i <= counts.len(),
            best_card_of(counts@.take(i as int)).1 == max,
            match best {
                Some(k) => best_card_of(counts@.take(i as int)).0 == Some(k as int),
                None => best_card_of(counts@.take(i as int)).0 is None,
            },
        decreases counts.len() - i,
    {
        proof {
            assert(counts@.take(i + 1).drop_last() =~= counts@.take(i as int));
            assert(counts@.take(i + 1).last() == counts@[i as int]);
        }
        match counts[i] {
            Some(n) => {
                if n > max {
                    best = Some(i);
                    max = n;
                }
            },
            None => {},
        }
        i = i + 1;
    }
    proof {
        assert(counts@.take(counts.len() as int) =~= counts@);
    }
    best
}

/// The error when no DRM card could be used.
pub fn no_card_error() -> (e: RegmsgError)
    ensures
        e matches RegmsgError::SystemError(m) && m@ == "No DRM device found or accessible"@,
{
    RegmsgError::SystemError(String::from_str("No DRM device found or accessible"))
}


/// Setting a mode on the DRM device, connector by connector: a connector
/// that is not connected, or that is not the named screen, gets no record;
/// a connected connector that is the named screen (or any, when no screen is
/// named) and that has a mode of that width, height and refresh rate gets
/// one record `WxH@R`.
pub proof fn law_mode_is_written_for_connected_named_connectors(
    cs: Seq<Connector>,
    screen: Option<Seq<char>>,
    p: ModeParams,
    c: Connector,
)
    ensures
        !c.connected ==> mode_records(cs.push(c), screen, p) == mode_records(cs, screen, p),
        screen matches Some(n) && c.interface@ != n ==> mode_records(cs.push(c), screen, p)
            == mode_records(cs, screen, p),
        c.connected && (screen matches Some(n) ==> c.interface@ == n) && (exists|k: int|
            0 <= k < c.modes@.len() && (#[trigger] c.modes@[k]).width == p.width as u16
                && c.modes@[k].height == p.height as u16 && c.modes@[k].vrefresh == p.refresh_rate)
            ==> mode_records(cs.push(c), screen, p) == mode_records(cs, screen, p).push(
            dec(p.width as nat) + "x"@ + dec(p.height as nat) + "@"@ + dec(p.refresh_rate as nat),
        ),
{
    let t = cs.push(c);
    assert(t.drop_last() =~= cs);
    assert(t.last() == c);
    if let Some(n) = screen {
        if c.interface@ == n {
            assert(crate::text::occurs_at(c.interface@, n, 0)) by {
                assert(c.interface@.subrange(0, n.len() as int) =~= n);
            }
        }
    }
}

} // verus!
