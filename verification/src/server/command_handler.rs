//! A fixed dispatcher of the screen commands: the command line names one of
//! the screen operations, which are handed in as functions, and the reply is
//! made from what the operation returned.
pub use super::command_registry::{CommandError, CommandResult};
use super::command_registry::lifted;
use crate::text::{concat2, contains_seq, push_str, replace_first, replace_first_str, split_whitespace, words};
use vstd::prelude::*;

verus! {

/// The reply of an operation that returns nothing: `msg` when it succeeded,
/// its message as an execution error when it failed.
pub open spec fn unit_lifted(out: Result<(), String>, msg: Seq<char>, r: CommandResult) -> bool {
    match out {
        Ok(_) => r matches Ok(s) && s@ == msg,
        Err(m) => r == Err::<String, CommandError>(CommandError::ExecutionError(m)),
    }
}

/// The success reply of an operation with an argument: the template with
/// its first `{}` replaced by the argument, or the template, a space and the
/// argument when it holds no `{}`.
pub open spec fn filled_template(template: Seq<char>, arg: Seq<char>) -> Seq<char> {
    if contains_seq(template, "{}"@) {
        replace_first(template, "{}"@, arg)
    } else {
        template + " "@ + arg
    }
}

/// Runs an operation that returns the reply.
fn execute_command_with_result<F: FnOnce() -> Result<String, String>>(f: F) -> (r: CommandResult)
    requires
        call_requires(f, ()),
    ensures
        exists|out: Result<String, String>| call_ensures(f, (), out) && lifted(out, r),
{
    let out = f();
    let ghost o = out;
    let r = match out {
        Ok(s) => Ok(s),
        Err(m) => Err(CommandError::ExecutionError(m)),
    };
    proof {
        assert(lifted(o, r));
    }
    r
}

/// Runs an operation that returns nothing; the reply is `success_msg`.
fn execute_command_with_unit_result<F: FnOnce() -> Result<(), String>>(
    f: F,
    success_msg: &str,
) -> (r: CommandResult)
    requires
        call_requires(f, ()),
    ensures
        exists|out: Result<(), String>| call_ensures(f, (), out) && unit_lifted(out, success_msg@, r),
{
    let out = f();
    let ghost o = out;
    let r = match out {
        Ok(_) => Ok(String::from_str(success_msg)),
        Err(m) => Err(CommandError::ExecutionError(m)),
    };
    proof {
        assert(unit_lifted(o, success_msg@, r));
    }
    r
}

/// Runs an operation on a non-empty argument; the reply fills the template
/// with the argument.
fn execute_command_with_arg_result<F: FnOnce(&str) -> Result<(), String>>(
    f: F,
    arg: &str,
    success_format_template: &str,
    cmd_name: &str,
) -> (r: CommandResult)
    requires
        arg@.len() > 0 ==> call_requires(f, (arg,)),
    ensures
        arg@.len() == 0 ==> (r matches Err(CommandError::InvalidArguments(m)) && m@ == cmd_name@
            + " requires an argument"@),
        arg@.len() > 0 ==> exists|out: Result<(), String>|
            call_ensures(f, (arg,), out) && unit_lifted(
                out,
                filled_template(success_format_template@, arg@),
                r,
            ),
{
    let arg_chars = crate::text::chars_of(arg);
    if arg_chars.len() == 0 {
        return Err(CommandError::InvalidArguments(concat2(cmd_name, " requires an argument")));
    }
    let out = f(arg);
    let ghost o = out;
    let r = match out {
        Ok(_) => {
            let t = crate::text::chars_of(success_format_template);
            let hole = crate::text::chars_of("{}");
            if crate::text::contains(&t, &hole) {
                Ok(replace_first_str(success_format_template, "{}", arg))
            } else {
                let mut s = String::from_str(success_format_template);
                push_str(&mut s, " ");
                push_str(&mut s, arg);
                Ok(s)
            }
        },
        Err(m) => Err(CommandError::ExecutionError(m)),
    };
    proof {
        assert(unit_lifted(o, filled_template(success_format_template@, arg@), r));
    }
    r
}

/// A template that ends in its only `{}` is filled by putting the argument
/// in place of the `{}`.
pub proof fn lemma_fill_final_hole(prefix: Seq<char>, arg: Seq<char>)
    requires
        forall|i: int| 0 <= i < prefix.len() ==> prefix[i] != '{',
    ensures
        filled_template(prefix + "{}"@, arg) == prefix + arg,
{
    reveal_strlit("{}");
    let p = "{}"@;
    let t = prefix + p;
    let n = prefix.len() as int;
    assert(t.subrange(n, n + 2) =~= p);
    assert(crate::text::occurs_at(t, p, n));
    assert forall|j: int| 0 <= j < n implies !crate::text::occurs_at(t, p, j) by {
        if crate::text::occurs_at(t, p, j) {
            assert(t.subrange(j, j + 2)[0] == t[j]);
            assert(t[j] == prefix[j]);
        }
    }
    let c = crate::text::first_occurrence(t, p);
    assert(crate::text::occurs_at(t, p, c));
    assert(forall|j: int| 0 <= j < c ==> !crate::text::occurs_at(t, p, j));
    assert(c == n) by {
        if c > n {
            assert(!crate::text::occurs_at(t, p, n));
        }
    }
    assert(t.take(n) =~= prefix);
    assert(t.skip(n + 2) =~= Seq::<char>::empty());
    assert(t.take(n) + arg + t.skip(n + 2) =~= prefix + arg);
}

/// The reply to an empty command line.
pub open spec fn refused_as_empty(r: CommandResult) -> bool {
    r matches Err(CommandError::EmptyCommand)
}

/// The reply to a command line that names no known command.
pub open spec fn refused_as_unknown(r: CommandResult, line: Seq<char>) -> bool {
    r matches Err(CommandError::UnknownCommand(c)) && c@ == line
}

/// The command word of a command line (empty when the line has no word).
pub open spec fn command_word(cmdline: Seq<char>) -> Seq<char> {
    if words(cmdline).len() == 0 {
        Seq::empty()
    } else {
        words(cmdline)[0]
    }
}

/// Carries out a command line with the given screen operations.
///
/// The queries reply with what the operation returns, on no particular
/// screen; `getScreenshot`, `mapTouchScreen` and `minTomaxResolution` reply
/// with a fixed text; `setMode`, `setOutput` and `setRotation` take exactly
/// one argument and reply with it. An empty line is refused, and any other
/// line is refused as unknown, the whole line quoted.
pub fn handle_command<LM, LO, CM, CO, CRS, CRT, CRF, CB, SM, SO, SR, GS, MT, MX>(
    cmdline: &str,
    list_modes: LM,
    list_outputs: LO,
    current_mode: CM,
    current_output: CO,
    current_resolution: CRS,
    current_rotation: CRT,
    current_refresh: CRF,
    current_backend: CB,
    set_mode: SM,
    set_output: SO,
    set_rotation: SR,
    get_screenshot: GS,
    map_touch_screen: MT,
    min_to_max_resolution: MX,
) -> (r: CommandResult) where
    LM: Fn(Option<&str>) -> Result<String, String>,
    LO: Fn() -> Result<String, String>,
    CM: Fn(Option<&str>) -> Result<String, String>,
    CO: Fn() -> Result<String, String>,
    CRS: Fn(Option<&str>) -> Result<String, String>,
    CRT: Fn(Option<&str>) -> Result<String, String>,
    CRF: Fn(Option<&str>) -> Result<String, String>,
    CB: Fn() -> Result<String, String>,
    SM: Fn(Option<&str>, &str) -> Result<(), String>,
    SO: Fn(&str) -> Result<(), String>,
    SR: Fn(Option<&str>, &str) -> Result<(), String>,
    GS: Fn() -> Result<(), String>,
    MT: Fn() -> Result<(), String>,
    MX: Fn(Option<&str>) -> Result<(), String>,

    requires
        call_requires(list_modes, (None::<&str>,)),
        call_requires(list_outputs, ()),
        call_requires(current_mode, (None::<&str>,)),
        call_requires(current_output, ()),
        call_requires(current_resolution, (None::<&str>,)),
        call_requires(current_rotation, (None::<&str>,)),
        call_requires(current_refresh, (None::<&str>,)),
        call_requires(current_backend, ()),
        forall|a: &str| call_requires(set_mode, (None::<&str>, a)),
        forall|a: &str| call_requires(set_output, (a,)),
        forall|a: &str| call_requires(set_rotation, (None::<&str>, a)),
        call_requires(get_screenshot, ()),
        call_requires(map_touch_screen, ()),
        call_requires(min_to_max_resolution, (None::<&str>,)),
    ensures
        ({
            let cmd = command_word(cmdline@);
            let nargs = words(cmdline@).len() - 1;
            let arg = words(cmdline@)[1];
            if cmd == "listModes"@ {
                exists|out: Result<String, String>|
                    call_ensures(list_modes, (None::<&str>,), out) && lifted(out, r)
            } else if cmd == "listOutputs"@ {
                exists|out: Result<String, String>| call_ensures(list_outputs, (), out) && lifted(out, r)
            } else if cmd == "currentMode"@ {
                exists|out: Result<String, String>|
                    call_ensures(current_mode, (None::<&str>,), out) && lifted(out, r)
            } else if cmd == "currentOutput"@ {
                exists|out: Result<String, String>|
                    call_ensures(current_output, (), out) && lifted(out, r)
            } else if cmd == "currentResolution"@ {
                exists|out: Result<String, String>|
                    call_ensures(current_resolution, (None::<&str>,), out) && lifted(out, r)
            } else if cmd == "currentRotation"@ {
                exists|out: Result<String, String>|
                    call_ensures(current_rotation, (None::<&str>,), out) && lifted(out, r)
            } else if cmd == "currentRefresh"@ {
                exists|out: Result<String, String>|
                    call_ensures(current_refresh, (None::<&str>,), out) && lifted(out, r)
            } else if cmd == "currentBackend"@ {
                exists|out: Result<String, String>|
                    call_ensures(current_backend, (), out) && lifted(out, r)
            } else if cmd == "getScreenshot"@ {
                exists|out: Result<(), String>|
                    call_ensures(get_screenshot, (), out) && unit_lifted(out, "Screenshot taken"@, r)
            } else if cmd == "mapTouchScreen"@ {
                exists|out: Result<(), String>|
                    call_ensures(map_touch_screen, (), out) && unit_lifted(
                        out,
                        "Touchscreen mapped"@,
                        r,
                    )
            } else if cmd == "minTomaxResolution"@ {
                exists|out: Result<(), String>|
                    call_ensures(min_to_max_resolution, (None::<&str>,), out) && unit_lifted(
                        out,
                        "Resolution set to max"@,
                        r,
                    )
            } else if cmd == "setMode"@ && nargs == 1 {
                exists|a: &str, out: Result<(), String>|
                    a@ == arg && call_ensures(set_mode, (None::<&str>, a), out) && unit_lifted(
                        out,
                        "Mode set to "@ + arg,
                        r,
                    )
            } else if cmd == "setOutput"@ && nargs == 1 {
                exists|a: &str, out: Result<(), String>|
                    a@ == arg && call_ensures(set_output, (a,), out) && unit_lifted(
                        out,
                        "Output set to "@ + arg,
                        r,
                    )
            } else if cmd == "setRotation"@ && nargs == 1 {
                exists|a: &str, out: Result<(), String>|
                    a@ == arg && call_ensures(set_rotation, (None::<&str>, a), out) && unit_lifted(
                        out,
                        "Rotation set to "@ + arg,
                        r,
                    )
            } else if cmd.len() == 0 {
                refused_as_empty(r)
            } else {
                refused_as_unknown(r, cmdline@)
            }
        }),
{
    let parts = split_whitespace(cmdline);
    let ghost w = words(cmdline@);
    proof {
        crate::text::lemma_words_nonempty(cmdline@);
        assert(parts@.len() == w.len());
        if parts@.len() > 0 {
            assert(parts@[0]@ == w[0]);
        }
        if parts@.len() > 1 {
            assert(parts@[1]@ == w[1]);
        }
    }
    let cmd: &str = if parts.len() == 0 {
        ""
    } else {
        parts[0].as_str()
    };
    proof {
        reveal_strlit("");
        assert(cmd@ == command_word(cmdline@));
    }
    let nargs = if parts.len() == 0 {
        0
    } else {
        parts.len() - 1
    };
    let one = nargs == 1;
    if crate::text::str_eq(cmd, "listModes") {
        execute_command_with_result(
            (|| -> (o: Result<String, String>)
                requires
                    call_requires(list_modes, (None::<&str>,)),
                ensures
                    call_ensures(list_modes, (None::<&str>,), o),
                { list_modes(None) }),
        )
    } else if crate::text::str_eq(cmd, "listOutputs") {
        execute_command_with_result(
            (|| -> (o: Result<String, String>)
                requires
                    call_requires(list_outputs, ()),
                ensures
                    call_ensures(list_outputs, (), o),
                { list_outputs() }),
        )
    } else if crate::text::str_eq(cmd, "currentMode") {
        execute_command_with_result(
            (|| -> (o: Result<String, String>)
                requires
                    call_requires(current_mode, (None::<&str>,)),
                ensures
                    call_ensures(current_mode, (None::<&str>,), o),
                { current_mode(None) }),
        )
    } else if crate::text::str_eq(cmd, "currentOutput") {
        execute_command_with_result(
            (|| -> (o: Result<String, String>)
                requires
                    call_requires(current_output, ()),
                ensures
                    call_ensures(current_output, (), o),
                { current_output() }),
        )
    } else if crate::text::str_eq(cmd, "currentResolution") {
        execute_command_with_result(
            (|| -> (o: Result<String, String>)
                requires
                    call_requires(current_resolution, (None::<&str>,)),
                ensures
                    call_ensures(current_resolution, (None::<&str>,), o),
                { current_resolution(None) }),
        )
    } else if crate::text::str_eq(cmd, "currentRotation") {
        execute_command_with_result(
            (|| -> (o: Result<String, String>)
                requires
                    call_requires(current_rotation, (None::<&str>,)),
                ensures
                    call_ensures(current_rotation, (None::<&str>,), o),
                { current_rotation(None) }),
        )
    } else if crate::text::str_eq(cmd, "currentRefresh") {
        execute_command_with_result(
            (|| -> (o: Result<String, String>)
                requires
                    call_requires(current_refresh, (None::<&str>,)),
                ensures
                    call_ensures(current_refresh, (None::<&str>,), o),
                { current_refresh(None) }),
        )
    } else if crate::text::str_eq(cmd, "currentBackend") {
        execute_command_with_result(
            (|| -> (o: Result<String, String>)
                requires
                    call_requires(current_backend, ()),
                ensures
                    call_ensures(current_backend, (), o),
                { current_backend() }),
        )
    } else if crate::text::str_eq(cmd, "getScreenshot") {
        execute_command_with_unit_result(
            (|| -> (o: Result<(), String>)
                requires
                    call_requires(get_screenshot, ()),
                ensures
                    call_ensures(get_screenshot, (), o),
                { get_screenshot() }),
            "Screenshot taken",
        )
    } else if crate::text::str_eq(cmd, "mapTouchScreen") {
        execute_command_with_unit_result(
            (|| -> (o: Result<(), String>)
                requires
                    call_requires(map_touch_screen, ()),
                ensures
                    call_ensures(map_touch_screen, (), o),
                { map_touch_screen() }),
            "Touchscreen mapped",
        )
    } else if crate::text::str_eq(cmd, "minTomaxResolution") {
        execute_command_with_unit_result(
            (|| -> (o: Result<(), String>)
                requires
                    call_requires(min_to_max_resolution, (None::<&str>,)),
                ensures
                    call_ensures(min_to_max_resolution, (None::<&str>,), o),
                { min_to_max_resolution(None) }),
            "Resolution set to max",
        )
    } else if crate::text::str_eq(cmd, "setMode") && one {
        let a = parts[1].as_str();
        let r = execute_command_with_arg_result(
            (|arg: &str| -> (o: Result<(), String>)
                requires
                    call_requires(set_mode, (None::<&str>, arg)),
                ensures
                    call_ensures(set_mode, (None::<&str>, arg), o),
                { set_mode(None, arg) }),
            a,
            "Mode set to {}",
            "setMode",
        );
        proof {
            reveal_strlit("Mode set to {}");
            reveal_strlit("Mode set to ");
            reveal_strlit("{}");
            assert("Mode set to {}"@ =~= "Mode set to "@ + "{}"@);
            lemma_fill_final_hole("Mode set to "@, a@);
        }
        r
    } else if crate::text::str_eq(cmd, "setOutput") && one {
        let a = parts[1].as_str();
        let r = execute_command_with_arg_result(
            (|arg: &str| -> (o: Result<(), String>)
                requires
                    call_requires(set_output, (arg,)),
                ensures
                    call_ensures(set_output, (arg,), o),
                { set_output(arg) }),
            a,
            "Output set to {}",
            "setOutput",
        );
        proof {
            reveal_strlit("Output set to {}");
            reveal_strlit("Output set to ");
            reveal_strlit("{}");
            assert("Output set to {}"@ =~= "Output set to "@ + "{}"@);
            lemma_fill_final_hole("Output set to "@, a@);
        }
        r
    } else if crate::text::str_eq(cmd, "setRotation") && one {
        let a = parts[1].as_str();
        let r = execute_command_with_arg_result(
            (|arg: &str| -> (o: Result<(), String>)
                requires
                    call_requires(set_rotation, (None::<&str>, arg)),
                ensures
                    call_ensures(set_rotation, (None::<&str>, arg), o),
                { set_rotation(None, arg) }),
            a,
            "Rotation set to {}",
            "setRotation",
        );
        proof {
            reveal_strlit("Rotation set to {}");
            reveal_strlit("Rotation set to ");
            reveal_strlit("{}");
            assert("Rotation set to {}"@ =~= "Rotation set to "@ + "{}"@);
            lemma_fill_final_hole("Rotation set to "@, a@);
        }
        r
    } else if parts.len() == 0 {
        Err(CommandError::EmptyCommand)
    } else {
        proof {
            crate::text::lemma_words_nonempty(cmdline@);
            assert(w[0].len() > 0);
        }
        Err(CommandError::UnknownCommand(String::from_str(cmdline)))
    }
}

} // verus!
