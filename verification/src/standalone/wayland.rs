//! The display tool on Sway, without the daemon: the text of its reports
//! and the Sway commands of its operations, made from the outputs and inputs
//! that Sway reports.
use crate::config::DEFAULT_SCREENSHOT_DIR;
use super::{concat_all, lemma_concat_push, push_line, report_or, report_result};
use crate::screen::wayland::{
    by_output_name, first_active, first_focused, first_touch, is_last_of_name,
    is_selected, last_named, refresh_value, screenshot_output, screenshot_path, selected_outputs,
    touch_map_command, touchscreen_id, SwayInput, SwayMode, SwayOutput,
};
use crate::screen::wayland::{find_target, lemma_target_at, max_target};
use crate::text::{
    chars_of, concat2, int_error_message, int_error_text, lemma_parse_signed_bounds,
    parse_signed, parse_signed_chars, sep_pred, split_on, split_pieces,
};
use crate::text::{
    concat3, int_text, join_with, lemma_join_push, opt_view, pair_views, push_char, push_int,
    push_str, str_eq,
};
use vstd::prelude::*;

verus! {

// ---------------------------------------------------------------------------
// The text of a mode
// ---------------------------------------------------------------------------

/// `WxH` of a mode.
pub open spec fn size_text(m: SwayMode) -> Seq<char> {
    int_text(m.width as int) + "x"@ + int_text(m.height as int)
}

/// The rate of a mode in Hz, as text with its unit: `RHz`.
pub open spec fn rate_text(m: SwayMode) -> Seq<char> {
    int_text(refresh_value(m.refresh)) + "Hz"@
}

/// `WxH@R` of a mode, its rate in Hz.
pub open spec fn mode_text(m: SwayMode) -> Seq<char> {
    size_text(m) + "@"@ + rate_text(m)
}

/// A refresh rate in Hz, with its unit (`60Hz`): a rate of 1000 or more is
/// taken to be in mHz and divided by 1000, a smaller one is already in Hz.
pub fn format_refresh(refresh: i32) -> (s: String)
    ensures
        s@ == int_text(refresh_value(refresh)) + "Hz"@,
{
    let mut s = crate::screen::wayland::format_refresh(refresh);
    push_str(&mut s, "Hz");
    s
}

/// Appends `WxH` of a mode.
fn push_size(s: &mut String, m: &SwayMode)
    ensures
        final(s)@ == old(s)@ + size_text(*m),
{
    let ghost s0 = s@;
    push_int(s, m.width as i64);
    push_str(s, "x");
    push_int(s, m.height as i64);
    proof {
        assert(s@ =~= s0 + size_text(*m));
    }
}

/// Appends the rate of a mode in Hz.
fn push_rate(s: &mut String, m: &SwayMode)
    ensures
        final(s)@ == old(s)@ + rate_text(*m),
{
    let r = format_refresh(m.refresh);
    push_str(s, r.as_str());
}

/// Appends `WxH@R` of a mode.
fn push_mode_text(s: &mut String, m: &SwayMode)
    ensures
        final(s)@ == old(s)@ + mode_text(*m),
{
    let ghost s0 = s@;
    push_size(s, m);
    push_str(s, "@");
    push_rate(s, m);
    proof {
        assert(s@ =~= s0 + mode_text(*m));
    }
}

// ---------------------------------------------------------------------------
// Lists
// ---------------------------------------------------------------------------

/// One line of the mode list: `WxH@RHz:NAME WxH@RHz`.
pub open spec fn mode_line(m: SwayMode, name: Seq<char>) -> Seq<char> {
    mode_text(m) + ":"@ + name + " "@ + mode_text(m)
}

/// The lines of the modes of an output, joined by new lines.
pub open spec fn mode_block(o: SwayOutput) -> Seq<char> {
    join_with(o.modes@.map_values(|m: SwayMode| mode_line(m, o.name@)), '\n')
}

/// The lines of the modes of an output, joined by new lines.
fn mode_block_of(o: &SwayOutput) -> (b: String)
    ensures
        b@ == mode_block(*o),
{
    let ghost f = |m: SwayMode| mode_line(m, o.name@);
    let mut b = String::new();
    let mut k: usize = 0;
    proof {
        assert(o.modes@.take(0).map_values(f) =~= Seq::<Seq<char>>::empty());
    }
    while k < o.modes.len()
        invariant
            0 <= k <= o.modes.len(),
            f == (|m: SwayMode| mode_line(m, o.name@)),
            b@ == join_with(o.modes@.take(k as int).map_values(f), '\n'),
        decreases o.modes.len() - k,
    {
        let m = &o.modes[k];
        let mut line = String::new();
        push_mode_text(&mut line, m);
        push_str(&mut line, ":");
        push_str(&mut line, o.name.as_str());
        push_str(&mut line, " ");
        push_mode_text(&mut line, m);
        proof {
            assert(line@ =~= f(*m));
            assert(o.modes@.take(k + 1).map_values(f) =~= o.modes@.take(k as int).map_values(f).push(
                f(*m),
            ));
            lemma_join_push(o.modes@.take(k as int).map_values(f), f(*m), '\n');
        }
        push_line(&mut b, k == 0, line.as_str());
        k = k + 1;
    }
    proof {
        assert(o.modes@.take(o.modes.len() as int) =~= o.modes@);
    }
    b
}

/// The modes of the outputs a request about `screen` is about: for each
/// output, its lines `WxH@RHz:NAME WxH@RHz`, the outputs' blocks joined by
/// new lines; the error "No outputs found" when Sway reports no output.
pub fn wayland_list_modes(outputs: &Vec<SwayOutput>, screen: Option<&str>) -> (r: Result<
    String,
    String,
>)
    ensures
        outputs@.len() == 0 ==> (r matches Err(m) && m@ == "No outputs found"@),
        outputs@.len() > 0 ==> (r matches Ok(s) && s@ == join_with(
            selected_outputs(outputs@, opt_view(screen)).map_values(|o: SwayOutput| mode_block(o)),
            '\n',
        )),
{
    if outputs.len() == 0 {
        return Err(String::from_str("No outputs found"));
    }
    let ghost sel = opt_view(screen);
    let ghost g = |o: SwayOutput| mode_block(o);
    let mut s = String::new();
    let mut first = true;
    let mut i: usize = 0;
    proof {
        assert(outputs@.take(0) =~= Seq::<SwayOutput>::empty());
    }
    while i < outputs.len()
        invariant
            0 <= i <= outputs.len(),
            sel == opt_view(screen),
            g == (|o: SwayOutput| mode_block(o)),
            first == (selected_outputs(outputs@.take(i as int), sel).len() == 0),
            s@ == join_with(selected_outputs(outputs@.take(i as int), sel).map_values(g), '\n'),
        decreases outputs.len() - i,
    {
        let ghost pre = selected_outputs(outputs@.take(i as int), sel);
        proof {
            assert(outputs@.take(i + 1).drop_last() =~= outputs@.take(i as int));
            assert(outputs@.take(i + 1).last() == outputs@[i as int]);
        }
        if is_selected(screen, &outputs[i]) {
            let b = mode_block_of(&outputs[i]);
            proof {
                assert(selected_outputs(outputs@.take(i + 1), sel) == pre.push(outputs@[i as int]));
                assert(pre.push(outputs@[i as int]).map_values(g) =~= pre.map_values(g).push(
                    g(outputs@[i as int]),
                ));
                lemma_join_push(pre.map_values(g), b@, '\n');
            }
            push_line(&mut s, first, b.as_str());
            first = false;
        }
        i = i + 1;
    }
    proof {
        assert(outputs@.take(outputs.len() as int) =~= outputs@);
    }
    Ok(s)
}

/// The names of all the outputs, one per line.
pub fn wayland_list_outputs(outputs: &Vec<SwayOutput>) -> (s: String)
    ensures
        s@ == join_with(outputs@.map_values(|o: SwayOutput| o.name@), '\n'),
{
    let ghost names = outputs@.map_values(|o: SwayOutput| o.name@);
    let mut s = String::new();
    let mut i: usize = 0;
    proof {
        assert(names.take(0) =~= Seq::<Seq<char>>::empty());
    }
    while i < outputs.len()
        invariant
            0 <= i <= outputs.len(),
            names == outputs@.map_values(|o: SwayOutput| o.name@),
            s@ == join_with(names.take(i as int), '\n'),
        decreases outputs.len() - i,
    {
        proof {
            assert(names.take(i + 1) =~= names.take(i as int).push(outputs@[i as int].name@));
            lemma_join_push(names.take(i as int), outputs@[i as int].name@, '\n');
        }
        push_line(&mut s, i == 0, outputs[i].name.as_str());
        i = i + 1;
    }
    proof {
        assert(names.take(outputs.len() as int) =~= names);
    }
    s
}

// ---------------------------------------------------------------------------
// Reports on the current modes
// ---------------------------------------------------------------------------

/// What a report says of an output whose current mode is `m`: its name when
/// the report is of names, else `WxH@R` of the mode.
pub open spec fn current_piece(o: SwayOutput, m: SwayMode, names: bool) -> Seq<char> {
    if names {
        o.name@
    } else {
        mode_text(m)
    }
}

/// What a report says of the outputs `os`, one piece for each output that
/// has a current mode.
pub open spec fn current_pieces(os: Seq<SwayOutput>, names: bool) -> Seq<Seq<char>>
    decreases os.len(),
{
    if os.len() == 0 {
        Seq::empty()
    } else {
        match os.last().current_mode {
            Some(m) => current_pieces(os.drop_last(), names).push(current_piece(os.last(), m, names)),
            None => current_pieces(os.drop_last(), names),
        }
    }
}

/// A request about no screen in particular is about every output.
proof fn lemma_select_all(os: Seq<SwayOutput>)
    ensures
        selected_outputs(os, None) == os,
    decreases os.len(),
{
    if os.len() > 0 {
        lemma_select_all(os.drop_last());
        assert(os.drop_last().push(os.last()) =~= os);
    }
}

/// The pieces of a current-mode report on the outputs a request about
/// `screen` is about, one after the other, and whether there is any.
fn current_report(outputs: &Vec<SwayOutput>, screen: Option<&str>, names: bool) -> (r: (
    String,
    bool,
))
    ensures
        r.0@ == concat_all(current_pieces(selected_outputs(outputs@, opt_view(screen)), names)),
        r.1 == (current_pieces(selected_outputs(outputs@, opt_view(screen)), names).len() > 0),
{
    let ghost sel = opt_view(screen);
    let mut s = String::new();
    let mut found = false;
    let mut i: usize = 0;
    proof {
        assert(outputs@.take(0) =~= Seq::<SwayOutput>::empty());
    }
    while i < outputs.len()
        invariant
            0 <= i <= outputs.len(),
            sel == opt_view(screen),
            s@ == concat_all(current_pieces(selected_outputs(outputs@.take(i as int), sel), names)),
            found == (current_pieces(selected_outputs(outputs@.take(i as int), sel), names).len()
                > 0),
        decreases outputs.len() - i,
    {
        let ghost pre = selected_outputs(outputs@.take(i as int), sel);
        proof {
            assert(outputs@.take(i + 1).drop_last() =~= outputs@.take(i as int));
            assert(outputs@.take(i + 1).last() == outputs@[i as int]);
        }
        let o = &outputs[i];
        if is_selected(screen, o) {
            proof {
                assert(selected_outputs(outputs@.take(i + 1), sel) == pre.push(*o));
                assert(pre.push(*o).drop_last() =~= pre);
                assert(pre.push(*o).last() == *o);
            }
            match &o.current_mode {
                Some(m) => {
                    let ghost s0 = s@;
                    if names {
                        push_str(&mut s, o.name.as_str());
                    } else {
                        push_mode_text(&mut s, m);
                    }
                    found = true;
                    proof {
                        let ps = current_pieces(pre, names);
                        assert(current_pieces(pre.push(*o), names) == ps.push(
                            current_piece(*o, *m, names),
                        ));
                        lemma_concat_push(ps, current_piece(*o, *m, names));
                    }
                },
                None => {},
            }
        } else {
            proof {
                assert(selected_outputs(outputs@.take(i + 1), sel) == pre);
            }
        }
        i = i + 1;
    }
    proof {
        assert(outputs@.take(outputs.len() as int) =~= outputs@);
    }
    (s, found)
}

/// The current modes `WxH@R` of the outputs a request about `screen` is
/// about, one after the other, or "No current mode found.".
pub fn wayland_current_mode(outputs: &Vec<SwayOutput>, screen: Option<&str>) -> (s: String)
    ensures
        s@ == report_or(
            current_pieces(selected_outputs(outputs@, opt_view(screen)), false),
            "No current mode found."@,
        ),
{
    let (s, found) = current_report(outputs, screen, false);
    if found {
        s
    } else {
        String::from_str("No current mode found.")
    }
}

/// The names of the outputs that have a current mode, one after the other;
/// the error "No current output found." when none has one.
pub fn wayland_current_output(outputs: &Vec<SwayOutput>) -> (r: Result<String, String>)
    ensures
        report_result(
            r,
            current_pieces(outputs@, true).len() > 0,
            concat_all(current_pieces(outputs@, true)),
            "No current output found."@,
        ),
{
    proof {
        lemma_select_all(outputs@);
    }
    let (s, found) = current_report(outputs, None, true);
    if found {
        Ok(s)
    } else {
        Err(String::from_str("No current output found."))
    }
}

/// What a spaced report says of the output at `i` of `os`: the size (or the
/// rate, when `rates`) of its current mode, followed by a new line unless it
/// is the last output; nothing for an output without a current mode.
pub open spec fn spaced_piece(os: Seq<SwayOutput>, i: int, rates: bool) -> Seq<char> {
    match os[i].current_mode {
        Some(m) => {
            let t = if rates {
                rate_text(m)
            } else {
                size_text(m)
            };
            if i < os.len() - 1 {
                t.push('\n')
            } else {
                t
            }
        },
        None => Seq::empty(),
    }
}

/// What a spaced report says of each of the outputs `os`.
pub open spec fn spaced_pieces(os: Seq<SwayOutput>, rates: bool) -> Seq<Seq<char>> {
    Seq::new(os.len(), |i: int| spaced_piece(os, i, rates))
}

/// Some output of `os` has a current mode.
pub open spec fn has_current(os: Seq<SwayOutput>) -> bool {
    exists|i: int| 0 <= i < os.len() && (#[trigger] os[i]).current_mode is Some
}

/// The positions of the outputs a request about `screen` is about.
fn selected_positions(outputs: &Vec<SwayOutput>, screen: Option<&str>) -> (v: Vec<usize>)
    ensures
        v@.len() == selected_outputs(outputs@, opt_view(screen)).len(),
        forall|j: int|
            0 <= j < v@.len() ==> (#[trigger] v@[j]) < outputs@.len() && outputs@[v@[j] as int]
                == selected_outputs(outputs@, opt_view(screen))[j],
{
    let ghost sel = opt_view(screen);
    let mut v: Vec<usize> = Vec::new();
    let mut i: usize = 0;
    proof {
        assert(outputs@.take(0) =~= Seq::<SwayOutput>::empty());
    }
    while i < outputs.len()
        invariant
            0 <= i <= outputs.len(),
            sel == opt_view(screen),
            v@.len() == selected_outputs(outputs@.take(i as int), sel).len(),
            forall|j: int|
                0 <= j < v@.len() ==> (#[trigger] v@[j]) < i && outputs@[v@[j] as int]
                    == selected_outputs(outputs@.take(i as int), sel)[j],
        decreases outputs.len() - i,
    {
        let ghost pre = selected_outputs(outputs@.take(i as int), sel);
        proof {
            assert(outputs@.take(i + 1).drop_last() =~= outputs@.take(i as int));
            assert(outputs@.take(i + 1).last() == outputs@[i as int]);
        }
        if is_selected(screen, &outputs[i]) {
            let ghost v0 = v@;
            v.push(i);
            proof {
                let post = selected_outputs(outputs@.take(i + 1), sel);
                assert(post == pre.push(outputs@[i as int]));
                assert forall|j: int| 0 <= j < v@.len() implies (#[trigger] v@[j]) < i + 1
                    && outputs@[v@[j] as int] == post[j] by {
                    if j < v0.len() {
                        assert(v@[j] == v0[j]);
                    }
                }
            }
        } else {
            proof {
                assert(selected_outputs(outputs@.take(i + 1), sel) == pre);
            }
        }
        i = i + 1;
    }
    proof {
        assert(outputs@.take(outputs.len() as int) =~= outputs@);
    }
    v
}

/// The pieces of a spaced report on the outputs a request about `screen` is
/// about, one after the other, and whether any output has a current mode.
fn spaced_report(outputs: &Vec<SwayOutput>, screen: Option<&str>, rates: bool) -> (r: (
    String,
    bool,
))
    ensures
        r.0@ == concat_all(spaced_pieces(selected_outputs(outputs@, opt_view(screen)), rates)),
        r.1 == has_current(selected_outputs(outputs@, opt_view(screen))),
{
    let ghost fl = selected_outputs(outputs@, opt_view(screen));
    let idx = selected_positions(outputs, screen);
    let total = idx.len();
    let mut s = String::new();
    let mut found = false;
    let mut j: usize = 0;
    proof {
        assert(spaced_pieces(fl, rates).take(0) =~= Seq::<Seq<char>>::empty());
    }
    while j < total
        invariant
            0 <= j <= total,
            total == idx@.len(),
            fl.len() == total,
            forall|t: int|
                0 <= t < idx@.len() ==> (#[trigger] idx@[t]) < outputs@.len() && outputs@[idx@[t] as int]
                    == fl[t],
            s@ == concat_all(spaced_pieces(fl, rates).take(j as int)),
            found == exists|t: int| 0 <= t < j && (#[trigger] fl[t]).current_mode is Some,
        decreases total - j,
    {
        let o = &outputs[idx[j]];
        proof {
            assert(outputs@[idx@[j as int] as int] == fl[j as int]);
        }
        let ghost s0 = s@;
        match &o.current_mode {
            Some(m) => {
                if rates {
                    push_rate(&mut s, m);
                } else {
                    push_size(&mut s, m);
                }
                if j + 1 < total {
                    push_char(&mut s, '\n');
                }
                found = true;
            },
            None => {},
        }
        proof {
            let ps = spaced_pieces(fl, rates);
            assert(ps.take(j + 1) =~= ps.take(j as int).push(spaced_piece(fl, j as int, rates)));
            lemma_concat_push(ps.take(j as int), spaced_piece(fl, j as int, rates));
            assert(s@ =~= s0 + spaced_piece(fl, j as int, rates));
        }
        j = j + 1;
    }
    proof {
        assert(spaced_pieces(fl, rates).take(total as int) =~= spaced_pieces(fl, rates));
    }
    (s, found)
}

/// The current resolutions `WxH` of the outputs a request about `screen` is
/// about, each followed by a new line unless its output is the last of
/// them, or "No current resolution found.".
pub fn wayland_current_resolution(outputs: &Vec<SwayOutput>, screen: Option<&str>) -> (s: String)
    ensures
        s@ == if has_current(selected_outputs(outputs@, opt_view(screen))) {
            concat_all(spaced_pieces(selected_outputs(outputs@, opt_view(screen)), false))
        } else {
            "No current resolution found."@
        },
{
    let (s, found) = spaced_report(outputs, screen, false);
    if found {
        s
    } else {
        String::from_str("No current resolution found.")
    }
}

/// The current refresh rates `RHz` of the outputs a request about `screen`
/// is about, each followed by a new line unless its output is the last of
/// them, or "No current refresh rate found."; the error "No outputs found"
/// when Sway reports no output.
pub fn wayland_current_refresh(outputs: &Vec<SwayOutput>, screen: Option<&str>) -> (r: Result<
    String,
    String,
>)
    ensures
        outputs@.len() == 0 ==> (r matches Err(m) && m@ == "No outputs found"@),
        outputs@.len() > 0 ==> (r matches Ok(s) && s@ == if has_current(
            selected_outputs(outputs@, opt_view(screen)),
        ) {
            concat_all(spaced_pieces(selected_outputs(outputs@, opt_view(screen)), true))
        } else {
            "No current refresh rate found."@
        }),
{
    if outputs.len() == 0 {
        return Err(String::from_str("No outputs found"));
    }
    let (s, found) = spaced_report(outputs, screen, true);
    if found {
        Ok(s)
    } else {
        Ok(String::from_str("No current refresh rate found."))
    }
}

// ---------------------------------------------------------------------------
// Setting a mode, an output, a rotation
// ---------------------------------------------------------------------------

/// The output has a mode of width `w` and height `h`.
pub open spec fn offers(o: SwayOutput, w: i32, h: i32) -> bool {
    exists|k: int|
        0 <= k < o.modes@.len() && (#[trigger] o.modes@[k]).width == w && o.modes@[k].height == h
}

/// The Sway command that sets the mode `WxH@R` on the output `name`.
pub open spec fn mode_command(name: Seq<char>, w: i32, h: i32, r: i32) -> Seq<char> {
    "output "@ + name + " mode "@ + int_text(w as int) + "x"@ + int_text(h as int) + "@"@
        + int_text(r as int) + "Hz"@
}

/// The outputs `os` that offer the size of the mode, in order, each with
/// the command that sets the mode on it.
pub open spec fn mode_commands(os: Seq<SwayOutput>, w: i32, h: i32, r: i32) -> Seq<
    (Seq<char>, Seq<char>),
>
    decreases os.len(),
{
    if os.len() == 0 {
        Seq::empty()
    } else if offers(os[0], w, h) {
        seq![(os[0].name@, mode_command(os[0].name@, w, h, r))] + mode_commands(os.drop_first(), w, h, r)
    } else {
        mode_commands(os.drop_first(), w, h, r)
    }
}

/// The message of the error when the named screen does not offer the mode.
pub open spec fn mode_refusal(w: i32, h: i32, r: i32) -> Seq<char> {
    "Failed to set mode "@ + int_text(w as int) + "x"@ + int_text(h as int) + "@"@ + int_text(
        r as int,
    ) + "Hz for specified screen"@
}

/// Whether the output has a mode of width `w` and height `h`.
fn has_size(o: &SwayOutput, w: i32, h: i32) -> (r: bool)
    ensures
        r == offers(*o, w, h),
{
    let mut k: usize = 0;
    while k < o.modes.len()
        invariant
            0 <= k <= o.modes.len(),
            forall|j: int|
                0 <= j < k ==> !((#[trigger] o.modes@[j]).width == w && o.modes@[j].height == h),
        decreases o.modes.len() - k,
    {
        if o.modes[k].width == w && o.modes[k].height == h {
            return true;
        }
        k = k + 1;
    }
    false
}

/// The Sway command that sets the mode `WxH@R` on the output `name`.
fn make_mode_command(name: &str, w: i32, h: i32, r: i32) -> (c: String)
    ensures
        c@ == mode_command(name@, w, h, r),
{
    let mut c = String::from_str("output ");
    push_str(&mut c, name);
    push_str(&mut c, " mode ");
    push_int(&mut c, w as i64);
    push_str(&mut c, "x");
    push_int(&mut c, h as i64);
    push_str(&mut c, "@");
    push_int(&mut c, r as i64);
    push_str(&mut c, "Hz");
    proof {
        assert(c@ =~= mode_command(name@, w, h, r));
    }
    c
}

/// The outputs whose mode is set to `width`x`height`@`vrefresh`, each with
/// the Sway command that sets it: the screen named `screen`, or every output
/// when none is named, the outputs taken by name (the last of a name
/// standing); an output without a mode of that size is left alone. A named
/// screen that does not exist, or that has no mode of that size, is an
/// error.
pub fn wayland_set_mode(
    outputs: &Vec<SwayOutput>,
    screen: Option<&str>,
    width: i32,
    height: i32,
    vrefresh: i32,
) -> (r: Result<Vec<(String, String)>, String>)
    ensures
        match screen {
            None => r matches Ok(cs) && pair_views(cs@) == mode_commands(
                by_output_name(outputs@),
                width,
                height,
                vrefresh,
            ),
            Some(s) => match last_named(outputs@, s@) {
                None => r matches Err(m) && m@ == "Screen '"@ + s@ + "' not found"@,
                Some(o) => if offers(o, width, height) {
                    r matches Ok(cs) && pair_views(cs@) == seq![
                        (o.name@, mode_command(o.name@, width, height, vrefresh)),
                    ]
                } else {
                    r matches Err(m) && m@ == mode_refusal(width, height, vrefresh)
                },
            },
        },
{
    match screen {
        Some(s) => {
            let mut i: usize = outputs.len();
            proof {
                assert(outputs@.take(outputs.len() as int) =~= outputs@);
            }
            while i > 0
                invariant
                    0 <= i <= outputs.len(),
                    screen == Some(s),
                    last_named(outputs@, s@) == last_named(outputs@.take(i as int), s@),
                decreases i,
            {
                proof {
                    assert(outputs@.take(i as int).drop_last() =~= outputs@.take(i - 1));
                    assert(outputs@.take(i as int).last() == outputs@[i - 1]);
                }
                if str_eq(outputs[i - 1].name.as_str(), s) {
                    let o = &outputs[i - 1];
                    if has_size(o, width, height) {
                        let mut cs: Vec<(String, String)> = Vec::new();
                        cs.push(
                            (
                                o.name.clone(),
                                make_mode_command(o.name.as_str(), width, height, vrefresh),
                            ),
                        );
                        proof {
                            assert(pair_views(cs@) =~= seq![
                                (o.name@, mode_command(o.name@, width, height, vrefresh)),
                            ]);
                        }
                        return Ok(cs);
                    } else {
                        let mut m = String::from_str("Failed to set mode ");
                        push_int(&mut m, width as i64);
                        push_str(&mut m, "x");
                        push_int(&mut m, height as i64);
                        push_str(&mut m, "@");
                        push_int(&mut m, vrefresh as i64);
                        push_str(&mut m, "Hz for specified screen");
                        proof {
                            assert(m@ =~= mode_refusal(width, height, vrefresh));
                        }
                        return Err(m);
                    }
                }
                i = i - 1;
            }
            proof {
                assert(outputs@.take(0) =~= Seq::<SwayOutput>::empty());
            }
            Err(concat3("Screen '", s, "' not found"))
        },
        None => {
            let mut cs: Vec<(String, String)> = Vec::new();
            let mut i: usize = 0;
            proof {
                assert(outputs@.skip(0) =~= outputs@);
            }
            while i < outputs.len()
                invariant
                    0 <= i <= outputs.len(),
                    pair_views(cs@) + mode_commands(
                        by_output_name(outputs@.skip(i as int)),
                        width,
                        height,
                        vrefresh,
                    ) == mode_commands(by_output_name(outputs@), width, height, vrefresh),
                decreases outputs.len() - i,
            {
                let ghost rest = outputs@.skip(i as int);
                proof {
                    assert(rest[0] == outputs@[i as int]);
                    assert(rest.drop_first() =~= outputs@.skip(i + 1));
                }
                let mut last = true;
                let mut j: usize = i + 1;
                while j < outputs.len()
                    invariant
                        i < j <= outputs.len(),
                        rest == outputs@.skip(i as int),
                        last == forall|k: int|
                            0 < k < j - i ==> (#[trigger] rest[k]).name@ != rest[0].name@,
                    decreases outputs.len() - j,
                {
                    proof {
                        assert(rest[j - i] == outputs@[j as int]);
                    }
                    if str_eq(outputs[j].name.as_str(), outputs[i].name.as_str()) {
                        last = false;
                    }
                    j = j + 1;
                }
                proof {
                    assert(last == is_last_of_name(rest, 0));
                }
                let ghost before = cs@;
                if last && has_size(&outputs[i], width, height) {
                    cs.push(
                        (
                            outputs[i].name.clone(),
                            make_mode_command(outputs[i].name.as_str(), width, height, vrefresh),
                        ),
                    );
                    proof {
                        assert(pair_views(cs@) =~= pair_views(before).push(
                            (rest[0].name@, mode_command(rest[0].name@, width, height, vrefresh)),
                        ));
                        let bn = by_output_name(rest);
                        assert(bn == seq![rest[0]] + by_output_name(rest.drop_first()));
                        assert(bn[0] == rest[0]);
                        assert(bn.drop_first() =~= by_output_name(rest.drop_first()));
                        assert(mode_commands(bn, width, height, vrefresh) == seq![
                            (rest[0].name@, mode_command(rest[0].name@, width, height, vrefresh)),
                        ] + mode_commands(bn.drop_first(), width, height, vrefresh));
                        assert(pair_views(cs@) + mode_commands(
                            by_output_name(rest.drop_first()),
                            width,
                            height,
                            vrefresh,
                        ) =~= pair_views(before) + mode_commands(
                            by_output_name(rest),
                            width,
                            height,
                            vrefresh,
                        ));
                    }
                } else if last {
                    proof {
                        let bn = by_output_name(rest);
                        assert(bn == seq![rest[0]] + by_output_name(rest.drop_first()));
                        assert(bn[0] == rest[0]);
                        assert(bn.drop_first() =~= by_output_name(rest.drop_first()));
                        assert(mode_commands(bn, width, height, vrefresh) == mode_commands(
                            bn.drop_first(),
                            width,
                            height,
                            vrefresh,
                        ));
                    }
                }
                i = i + 1;
            }
            proof {
                assert(outputs@.skip(outputs.len() as int) =~= Seq::<SwayOutput>::empty());
                assert(pair_views(cs@) + Seq::<(Seq<char>, Seq<char>)>::empty() =~= pair_views(cs@));
            }
            Ok(cs)
        },
    }
}

/// The Sway command that enables the output named `output`; an output that
/// does not exist is an error.
pub fn wayland_set_output(outputs: &Vec<SwayOutput>, output: &str) -> (r: Result<String, String>)
    ensures
        (exists|k: int| 0 <= k < outputs@.len() && (#[trigger] outputs@[k]).name@ == output@) ==> (r matches Ok(
            c,
        ) && c@ == "output "@ + output@ + " enable"@),
        !(exists|k: int| 0 <= k < outputs@.len() && (#[trigger] outputs@[k]).name@ == output@) ==> (r matches Err(
            m,
        ) && m@ == "Output '"@ + output@ + "' not found"@),
{
    let mut i: usize = 0;
    while i < outputs.len()
        invariant
            0 <= i <= outputs.len(),
            forall|k: int| 0 <= k < i ==> (#[trigger] outputs@[k]).name@ != output@,
        decreases outputs.len() - i,
    {
        if str_eq(outputs[i].name.as_str(), output) {
            return Ok(concat3("output ", output, " enable"));
        }
        i = i + 1;
    }
    Err(concat3("Output '", output, "' not found"))
}

/// The rotations the tool accepts.
pub open spec fn valid_rotation(r: Seq<char>) -> bool {
    r == "0"@ || r == "90"@ || r == "180"@ || r == "270"@
}

/// The Sway command that rotates the output `name`.
pub open spec fn transform_command(name: Seq<char>, rotation: Seq<char>) -> Seq<char> {
    "output "@ + name + " transform "@ + rotation
}

/// The outputs a request about `screen` is about, each with the Sway
/// command that rotates it; a rotation other than "0", "90", "180" and
/// "270" is refused.
pub fn wayland_set_rotation(outputs: &Vec<SwayOutput>, screen: Option<&str>, rotation: &str) -> (r:
    Result<Vec<(String, String)>, String>)
    ensures
        valid_rotation(rotation@) ==> (r matches Ok(cs) && pair_views(cs@) == selected_outputs(
            outputs@,
            opt_view(screen),
        ).map_values(|o: SwayOutput| (o.name@, transform_command(o.name@, rotation@)))),
        !valid_rotation(rotation@) ==> (r matches Err(m) && m@ == "Invalid rotation: '"@ + rotation@
            + "'. Valid options are: [\"0\", \"90\", \"180\", \"270\"]"@),
{
    if !(str_eq(rotation, "0") || str_eq(rotation, "90") || str_eq(rotation, "180") || str_eq(
        rotation,
        "270",
    )) {
        return Err(
            concat3(
                "Invalid rotation: '",
                rotation,
                "'. Valid options are: [\"0\", \"90\", \"180\", \"270\"]",
            ),
        );
    }
    let ghost sel = opt_view(screen);
    let ghost f = |o: SwayOutput| (o.name@, transform_command(o.name@, rotation@));
    let mut cs: Vec<(String, String)> = Vec::new();
    let mut i: usize = 0;
    proof {
        assert(outputs@.take(0) =~= Seq::<SwayOutput>::empty());
        assert(pair_views(cs@) =~= Seq::<(Seq<char>, Seq<char>)>::empty());
    }
    while i < outputs.len()
        invariant
            0 <= i <= outputs.len(),
            sel == opt_view(screen),
            f == (|o: SwayOutput| (o.name@, transform_command(o.name@, rotation@))),
            pair_views(cs@) == selected_outputs(outputs@.take(i as int), sel).map_values(f),
        decreases outputs.len() - i,
    {
        proof {
            assert(outputs@.take(i + 1).drop_last() =~= outputs@.take(i as int));
            assert(outputs@.take(i + 1).last() == outputs@[i as int]);
        }
        let ghost before = cs@;
        if is_selected(screen, &outputs[i]) {
            let mut c = concat3("output ", outputs[i].name.as_str(), " transform ");
            push_str(&mut c, rotation);
            cs.push((outputs[i].name.clone(), c));
            proof {
                let pre = selected_outputs(outputs@.take(i as int), sel);
                assert(selected_outputs(outputs@.take(i + 1), sel) == pre.push(outputs@[i as int]));
                assert(pre.push(outputs@[i as int]).map_values(f) =~= pre.map_values(f).push(
                    f(outputs@[i as int]),
                ));
                assert(pair_views(cs@) =~= pair_views(before).push(f(outputs@[i as int])));
            }
        }
        i = i + 1;
    }
    proof {
        assert(outputs@.take(outputs.len() as int) =~= outputs@);
    }
    Ok(cs)
}

// ---------------------------------------------------------------------------
// Screenshots and the touchscreen
// ---------------------------------------------------------------------------

/// The output a screenshot is taken of (the first one with a current mode)
/// and the file it goes to, in the screenshot directory, named after the time
/// `stamp`; no active output is an error.
pub fn wayland_get_screenshot(outputs: &Vec<SwayOutput>, stamp: &str) -> (r: Result<
    (String, String),
    String,
>)
    ensures
        match first_active(outputs@) {
            Some(o) => r matches Ok((n, p)) && n@ == o.name@ && p@ == DEFAULT_SCREENSHOT_DIR@
                + "/screenshot-"@ + stamp@ + ".png"@,
            None => r matches Err(m) && m@ == "No active output found"@,
        },
{
    match screenshot_output(outputs) {
        Ok(n) => Ok((n, screenshot_path(DEFAULT_SCREENSHOT_DIR, stamp))),
        Err(_) => Err(String::from_str("No active output found")),
    }
}

/// The identifier of the first touchscreen; none is an error.
pub fn wayland_touchscreen(inputs: &Vec<SwayInput>) -> (r: Result<String, String>)
    ensures
        match first_touch(inputs@) {
            Some(t) => r matches Ok(n) && n@ == t.identifier@,
            None => r matches Err(m) && m@ == "No touchscreen device found"@,
        },
{
    match touchscreen_id(inputs) {
        Ok(n) => Ok(n),
        Err(_) => Err(String::from_str("No touchscreen device found")),
    }
}

/// The focused output and the Sway command that maps the touchscreen
/// `touchscreen` to it; no focused output is an error.
pub fn wayland_map_touch_screen(touchscreen: &str, outputs: &Vec<SwayOutput>) -> (r: Result<
    (String, String),
    String,
>)
    ensures
        match first_focused(outputs@) {
            Some(o) => r matches Ok((n, c)) && n@ == o.name@ && c@ == "input "@ + touchscreen@
                + " map_to_output "@ + o.name@,
            None => r matches Err(m) && m@ == "No focused output found"@,
        },
{
    let mut i: usize = 0;
    proof {
        assert(outputs@.skip(0) =~= outputs@);
    }
    while i < outputs.len()
        invariant
            0 <= i <= outputs.len(),
            first_focused(outputs@) == first_focused(outputs@.skip(i as int)),
        decreases outputs.len() - i,
    {
        proof {
            assert(outputs@.skip(i as int)[0] == outputs@[i as int]);
            assert(outputs@.skip(i as int).drop_first() =~= outputs@.skip(i + 1));
        }
        if outputs[i].focused {
            return Ok(
                (outputs[i].name.clone(), touch_map_command(touchscreen, outputs[i].name.as_str())),
            );
        }
        i = i + 1;
    }
    Err(String::from_str("No focused output found"))
}

// ---------------------------------------------------------------------------
// Lowering the resolution
// ---------------------------------------------------------------------------

/// The resolution limit of a request: `WxH`, both read as `i32` and both
/// positive, or 1920x1080 when none is given.
pub open spec fn limit_spec(max: Option<Seq<char>>, r: Result<(i32, i32), String>) -> bool {
    match max {
        None => r matches Ok((w, h)) && w == 1920 && h == 1080,
        Some(res) => {
            let parts = split_on(res, sep_pred(seq!['x'], false));
            if parts.len() != 2 {
                r matches Err(m) && m@ == "Invalid resolution format: '"@ + res + "'. Expected 'WxH'"@
            } else {
                match (
                    parse_signed(parts[0], i32::MAX as int),
                    parse_signed(parts[1], i32::MAX as int),
                ) {
                    (Err(k), _) => r matches Err(m) && m@ == "Failed to parse width: "@
                        + int_error_text(k),
                    (Ok(_), Err(k)) => r matches Err(m) && m@ == "Failed to parse height: "@
                        + int_error_text(k),
                    (Ok(w), Ok(h)) => if w <= 0 || h <= 0 {
                        r matches Err(m) && m@ == "Resolution dimensions must be positive: "@
                            + int_text(w) + "x"@ + int_text(h)
                    } else {
                        r matches Ok((rw, rh)) && rw == w && rh == h
                    },
                }
            }
        },
    }
}

/// Reads the resolution limit `WxH` of a request (1920x1080 when none is
/// given).
pub fn wayland_max_limit(max_resolution: Option<&str>) -> (r: Result<(i32, i32), String>)
    ensures
        limit_spec(opt_view(max_resolution), r),
{
    let res = match max_resolution {
        None => {
            return Ok((1920, 1080));
        },
        Some(res) => res,
    };
    let v = chars_of(res);
    let mut seps: Vec<char> = Vec::new();
    seps.push('x');
    proof {
        assert(seps@ =~= seq!['x']);
    }
    let parts = split_pieces(&v, &seps, false);
    if parts.len() != 2 {
        return Err(concat3("Invalid resolution format: '", res, "'. Expected 'WxH'"));
    }
    proof {
        assert(parts@[0]@ == split_on(res@, sep_pred(seq!['x'], false))[0]);
        assert(parts@[1]@ == split_on(res@, sep_pred(seq!['x'], false))[1]);
        lemma_parse_signed_bounds(parts@[0]@, i32::MAX as int);
        lemma_parse_signed_bounds(parts@[1]@, i32::MAX as int);
    }
    let width = match parse_signed_chars(&parts[0], 0x7fff_ffff) {
        Ok(w) => w as i32,
        Err(k) => {
            let t = int_error_message(k);
            return Err(concat2("Failed to parse width: ", t.as_str()));
        },
    };
    let height = match parse_signed_chars(&parts[1], 0x7fff_ffff) {
        Ok(h) => h as i32,
        Err(k) => {
            let t = int_error_message(k);
            return Err(concat2("Failed to parse height: ", t.as_str()));
        },
    };
    if width <= 0 || height <= 0 {
        let mut m = String::from_str("Resolution dimensions must be positive: ");
        push_int(&mut m, width as i64);
        push_str(&mut m, "x");
        push_int(&mut m, height as i64);
        proof {
            assert(m@ =~= "Resolution dimensions must be positive: "@ + int_text(width as int) + "x"@
                + int_text(height as int));
        }
        return Err(m);
    }
    Ok((width, height))
}

/// The mode is within the limit `w` x `h`.
pub open spec fn within(m: SwayMode, w: i32, h: i32) -> bool {
    m.width <= w && m.height <= h
}

/// The number of pixels of a mode.
pub open spec fn pixels(m: SwayMode) -> int {
    m.width as int * m.height as int
}

/// The position of the largest mode within the limit, the first one among
/// equally large ones.
pub open spec fn first_largest(ms: Seq<SwayMode>, w: i32, h: i32) -> Option<int>
    decreases ms.len(),
{
    if ms.len() == 0 {
        None
    } else {
        let b = first_largest(ms.drop_last(), w, h);
        if within(ms.last(), w, h) {
            match b {
                None => Some(ms.len() - 1),
                Some(k) => if pixels(ms.last()) > pixels(ms[k]) {
                    Some(ms.len() - 1)
                } else {
                    b
                },
            }
        } else {
            b
        }
    }
}

/// The largest mode within the limit is a mode of the sequence.
proof fn lemma_first_largest_bounds(ms: Seq<SwayMode>, w: i32, h: i32)
    ensures
        first_largest(ms, w, h) matches Some(k) ==> 0 <= k < ms.len() && within(ms[k], w, h),
    decreases ms.len(),
{
    if ms.len() > 0 {
        lemma_first_largest_bounds(ms.drop_last(), w, h);
    }
}

/// The Sway command that sets the mode `m` on the output `name`.
pub open spec fn limit_command(name: Seq<char>, m: SwayMode) -> Seq<char> {
    "output "@ + name + " mode "@ + size_text(m) + "@"@ + rate_text(m)
}

/// The target output (the named screen, else the focused output) and the
/// command that lowers its resolution to its largest mode within the limit,
/// if its current mode is over the limit and it has a mode within it.
pub open spec fn limit_plan(os: Seq<SwayOutput>, screen: Option<Seq<char>>, w: i32, h: i32) -> Option<
    (Seq<char>, Seq<char>),
> {
    match max_target(os, screen) {
        None => None,
        Some(o) => match o.current_mode {
            None => None,
            Some(c) => if within(c, w, h) {
                None
            } else {
                match first_largest(o.modes@, w, h) {
                    None => None,
                    Some(k) => Some((o.name@, limit_command(o.name@, o.modes@[k]))),
                }
            },
        },
    }
}

/// The number of pixels of a mode.
fn pixel_count(m: &SwayMode) -> (n: i64)
    ensures
        n == pixels(*m),
{
    let a = m.width as i64;
    let b = m.height as i64;
    proof {
        assert(-0x4000_0000_0000_0000 <= a * b <= 0x4000_0000_0000_0000) by (nonlinear_arith)
            requires
                -0x8000_0000 <= a <= 0x8000_0000,
                -0x8000_0000 <= b <= 0x8000_0000,
        ;
    }
    a * b
}

/// The output whose resolution is lowered (the named screen, or the focused
/// output) and the Sway command that sets its largest mode within
/// `max_width` x `max_height`, the first of equally large ones; none when
/// there is no such output, when it has no current mode, when its current
/// mode is already within the limit, or when no mode is.
pub fn wayland_min_to_max_resolution(
    outputs: &Vec<SwayOutput>,
    screen: Option<&str>,
    max_width: i32,
    max_height: i32,
) -> (r: Option<(String, String)>)
    ensures
        match r {
            Some((n, c)) => limit_plan(outputs@, opt_view(screen), max_width, max_height) == Some(
                (n@, c@),
            ),
            None => limit_plan(outputs@, opt_view(screen), max_width, max_height) is None,
        },
{
    let t = match find_target(outputs, screen) {
        None => {
            return None;
        },
        Some(t) => t,
    };
    let o = &outputs[t];
    let c = match &o.current_mode {
        None => {
            return None;
        },
        Some(c) => c,
    };
    if c.width <= max_width && c.height <= max_height {
        return None;
    }
    let mut best: Option<usize> = None;
    let mut best_pixels: i64 = 0;
    let mut i: usize = 0;
    proof {
        assert(o.modes@.take(0) =~= Seq::<SwayMode>::empty());
    }
    while i < o.modes.len()
        invariant
            0 <= i <= o.modes.len(),
            as_position(best) == first_largest(o.modes@.take(i as int), max_width, max_height),
            best matches Some(k) ==> k < i && best_pixels == pixels(o.modes@[k as int]),
        decreases o.modes.len() - i,
    {
        let ghost pre = o.modes@.take(i as int);
        proof {
            assert(o.modes@.take(i + 1).drop_last() =~= pre);
            assert(o.modes@.take(i + 1).last() == o.modes@[i as int]);
            lemma_first_largest_bounds(pre, max_width, max_height);
            if let Some(k) = best {
                assert(pre[k as int] == o.modes@[k as int]);
            }
        }
        let m = &o.modes[i];
        if m.width <= max_width && m.height <= max_height {
            let n = pixel_count(m);
            match best {
                None => {
                    best = Some(i);
                    best_pixels = n;
                },
                Some(_) => {
                    if n > best_pixels {
                        best = Some(i);
                        best_pixels = n;
                    }
                },
            }
        }
        i = i + 1;
    }
    proof {
        assert(o.modes@.take(o.modes.len() as int) =~= o.modes@);
        lemma_first_largest_bounds(o.modes@, max_width, max_height);
    }
    match best {
        None => None,
        Some(k) => {
            let m = &o.modes[k];
            let mut s = String::from_str("output ");
            push_str(&mut s, o.name.as_str());
            push_str(&mut s, " mode ");
            push_size(&mut s, m);
            push_str(&mut s, "@");
            push_rate(&mut s, m);
            proof {
                assert(s@ =~= limit_command(o.name@, o.modes@[k as int]));
            }
            Some((o.name.clone(), s))
        },
    }
}

/// A position held in an `Option<usize>`, as an integer.
pub open spec fn as_position(p: Option<usize>) -> Option<int> {
    match p {
        Some(k) => Some(k as int),
        None => None,
    }
}

/// The mode chosen when the tool lowers the resolution is within the limit,
/// no mode within the limit is larger, and every earlier mode within the
/// limit is smaller; when none is chosen, no mode is within the limit.
pub proof fn law_first_largest_is_largest(ms: Seq<SwayMode>, w: i32, h: i32)
    ensures
        first_largest(ms, w, h) matches Some(k) ==> {
            &&& 0 <= k < ms.len()
            &&& within(ms[k], w, h)
            &&& forall|j: int|
                0 <= j < ms.len() && within(#[trigger] ms[j], w, h) ==> pixels(ms[j]) <= pixels(
                    ms[k],
                )
            &&& forall|j: int|
                0 <= j < k && within(#[trigger] ms[j], w, h) ==> pixels(ms[j]) < pixels(ms[k])
        },
        first_largest(ms, w, h) is None ==> forall|j: int|
            0 <= j < ms.len() ==> !within(#[trigger] ms[j], w, h),
    decreases ms.len(),
{
    if ms.len() > 0 {
        let t = ms.drop_last();
        law_first_largest_is_largest(t, w, h);
        assert forall|j: int| 0 <= j < t.len() implies t[j] == ms[j] by {}
    }
}


/// The tool lowering the resolution of a screen (the first output of that
/// name, or the first focused output when no screen is named): when its
/// current mode is over the limit in width or in height and one of its modes
/// is within the limit in both, it names that output and sets one of its
/// modes within the limit that no mode within the limit exceeds in pixels;
/// when its current mode is within the limit in both width and height, it
/// does nothing.
pub proof fn law_tool_lowering_acts_on_modes_over_the_limit(
    os: Seq<SwayOutput>,
    screen: Option<Seq<char>>,
    w: i32,
    h: i32,
    i: int,
)
    requires
        0 <= i < os.len(),
        screen is None ==> os[i].focused && forall|j: int| 0 <= j < i ==> !(#[trigger] os[j]).focused,
        screen matches Some(n) ==> os[i].name@ == n && forall|j: int|
            0 <= j < i ==> (#[trigger] os[j]).name@ != n,
    ensures
        os[i].current_mode matches Some(c) && c.width <= w && c.height <= h ==> limit_plan(
            os,
            screen,
            w,
            h,
        ) is None,
        os[i].current_mode matches Some(c) && !(c.width <= w && c.height <= h) && (exists|j: int|
            #![trigger os[i].modes@[j]]
            0 <= j < os[i].modes@.len() && os[i].modes@[j].width <= w && os[i].modes@[j].height
                <= h) ==> exists|k: int|
            #![trigger os[i].modes@[k]]
            {
                &&& 0 <= k < os[i].modes@.len()
                &&& os[i].modes@[k].width <= w
                &&& os[i].modes@[k].height <= h
                &&& limit_plan(os, screen, w, h) == Some(
                    (
                        os[i].name@,
                        "output "@ + os[i].name@ + " mode "@ + int_text(os[i].modes@[k].width as int)
                            + "x"@ + int_text(os[i].modes@[k].height as int) + "@"@ + int_text(
                            refresh_value(os[i].modes@[k].refresh),
                        ) + "Hz"@,
                    ),
                )
                &&& forall|j: int|
                    #![trigger os[i].modes@[j]]
                    0 <= j < os[i].modes@.len() && os[i].modes@[j].width <= w
                        && os[i].modes@[j].height <= h ==> os[i].modes@[j].width as int
                        * os[i].modes@[j].height as int <= os[i].modes@[k].width as int
                        * os[i].modes@[k].height as int
            },
{
    lemma_target_at(os, screen, i);
    let o = os[i];
    law_first_largest_is_largest(o.modes@, w, h);
    if let Some(c) = o.current_mode {
        if !(c.width <= w && c.height <= h) {
            if exists|j: int|
                #![trigger os[i].modes@[j]]
                0 <= j < os[i].modes@.len() && os[i].modes@[j].width <= w && os[i].modes@[j].height
                    <= h {
                let j = choose|j: int|
                    #![trigger os[i].modes@[j]]
                    0 <= j < os[i].modes@.len() && os[i].modes@[j].width <= w
                        && os[i].modes@[j].height <= h;
                assert(within(o.modes@[j], w, h));
                let k = first_largest(o.modes@, w, h)->Some_0;
                let m = o.modes@[k];
                assert(o.modes@[k] == os[i].modes@[k]);
                assert(limit_command(o.name@, m) =~= "output "@ + o.name@ + " mode "@ + int_text(
                    m.width as int,
                ) + "x"@ + int_text(m.height as int) + "@"@ + int_text(refresh_value(m.refresh))
                    + "Hz"@);
                assert forall|j: int|
                    #![trigger os[i].modes@[j]]
                    0 <= j < os[i].modes@.len() && os[i].modes@[j].width <= w
                        && os[i].modes@[j].height <= h implies os[i].modes@[j].width as int
                    * os[i].modes@[j].height as int <= os[i].modes@[k].width as int
                    * os[i].modes@[k].height as int by {
                    assert(within(o.modes@[j], w, h));
                    assert(pixels(o.modes@[j]) <= pixels(o.modes@[k]));
                }
            }
        }
    }
}

} // verus!
