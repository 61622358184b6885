//! The clients of the daemon: the interactive shell's reading of a line, its
//! classification of replies, and the request line that the command-line
//! client sends.
use crate::text::{concat3, is_prefix, join_with, push_char, push_str, starts_with, str_eq, trim, trim_ws};
use vstd::prelude::*;

verus! {

/// What the shell does with a line it read.
#[derive(Debug)]
pub enum ShellStep {
    /// Nothing: the line is blank.
    Skip,
    /// Leave the shell.
    Exit,
    /// Show the help.
    Help,
    /// Clear the screen.
    Clear,
    /// Send this command to the daemon.
    Send(String),
}

/// What `str::to_lowercase` makes of a string (Unicode's lowercase mapping,
/// which is not written out here).
pub uninterp spec fn lowercase(s: Seq<char>) -> Seq<char>;

/// A string in lowercase, by `str::to_lowercase`: the claim is only that the
/// result is `lowercase` of the string's characters, the same for the same
/// characters.
#[verifier::external_body]
fn to_lowercase(s: &str) -> (r: String)
    ensures
        r@ == lowercase(s@),
{
    s.to_lowercase()
}

/// What the shell does with the command `cmd` (a line without its
/// surrounding white space) whose lowercase form is `low`: an empty command
/// is skipped; `exit`, `quit` and `q` leave, `help`, `h` and `?` show the
/// help and `clear` clears the screen; any other command is sent as it is.
pub open spec fn shell_action_spec(cmd: Seq<char>, low: Seq<char>, r: ShellStep) -> bool {
    if cmd.len() == 0 {
        r is Skip
    } else if low == "exit"@ || low == "quit"@ || low == "q"@ {
        r is Exit
    } else if low == "help"@ || low == "h"@ || low == "?"@ {
        r is Help
    } else if low == "clear"@ {
        r is Clear
    } else {
        r matches ShellStep::Send(c) && c@ == cmd
    }
}

/// What the shell does with the line `line`: the action for the line without
/// its surrounding white space, whose case is ignored.
pub open spec fn shell_step_spec(line: Seq<char>, r: ShellStep) -> bool {
    shell_action_spec(trim_ws(line), lowercase(trim_ws(trim_ws(line))), r)
}

/// What the shell does with the command `cmd` whose lowercase form is `low`.
pub fn shell_action(cmd: &str, low: &str) -> (r: ShellStep)
    ensures
        shell_action_spec(cmd@, low@, r),
{
    if str_eq(cmd, "") {
        proof {
            reveal_strlit("");
        }
        return ShellStep::Skip;
    }
    proof {
        reveal_strlit("");
        if cmd@.len() == 0 {
            assert(cmd@ =~= ""@);
        }
    }
    if str_eq(low, "exit") || str_eq(low, "quit") || str_eq(low, "q") {
        ShellStep::Exit
    } else if str_eq(low, "help") || str_eq(low, "h") || str_eq(low, "?") {
        ShellStep::Help
    } else if str_eq(low, "clear") {
        ShellStep::Clear
    } else {
        ShellStep::Send(String::from_str(cmd))
    }
}

/// What the shell does with a line it read.
pub fn shell_step(line: &str) -> (r: ShellStep)
    ensures
        shell_step_spec(line@, r),
{
    let cmd = trim(line);
    let again = trim(cmd.as_str());
    let low = to_lowercase(again.as_str());
    shell_action(cmd.as_str(), low.as_str())
}

/// A reply of the daemon that reports an error.
pub open spec fn is_error_reply(text: Seq<char>) -> bool {
    is_prefix("Error:"@, text) || is_prefix("Err:"@, text)
}

/// Whether a reply of the daemon reports an error.
pub fn reply_is_error(text: &str) -> (r: bool)
    ensures
        r == is_error_reply(text@),
{
    let t = crate::text::chars_of(text);
    let e1 = crate::text::chars_of("Error:");
    let e2 = crate::text::chars_of("Err:");
    starts_with(&t, &e1) || starts_with(&t, &e2)
}

/// The shell's prompt: the host name in brackets.
pub fn prompt(hostname: &str) -> (p: String)
    ensures
        p@ == "["@ + hostname@ + "]> "@,
{
    concat3("[", hostname, "]> ")
}

/// A request of the command-line client.
#[derive(Debug)]
pub enum CliCommand {
    ListModes,
    ListOutputs,
    CurrentMode,
    CurrentOutput,
    CurrentResolution,
    CurrentRotation,
    CurrentRefresh,
    CurrentBackend,
    SetMode(String),
    SetOutput(String),
    SetRotation(String),
    GetScreenshot,
    MapTouchScreen,
    MinToMaxResolution,
}

/// The command line of a request, before its screen and extra arguments.
pub open spec fn request_head(c: CliCommand) -> Seq<char> {
    match c {
        CliCommand::ListModes => "listModes"@,
        CliCommand::ListOutputs => "listOutputs"@,
        CliCommand::CurrentMode => "currentMode"@,
        CliCommand::CurrentOutput => "currentOutput"@,
        CliCommand::CurrentResolution => "currentResolution"@,
        CliCommand::CurrentRotation => "currentRotation"@,
        CliCommand::CurrentRefresh => "currentRefresh"@,
        CliCommand::CurrentBackend => "currentBackend"@,
        CliCommand::SetMode(m) => "setMode "@ + m@,
        CliCommand::SetOutput(o) => "setOutput "@ + o@,
        CliCommand::SetRotation(r) => "setRotation "@ + r@,
        CliCommand::GetScreenshot => "getScreenshot"@,
        CliCommand::MapTouchScreen => "mapTouchScreen"@,
        CliCommand::MinToMaxResolution => "minToMaxResolution"@,
    }
}

/// The command line that the client sends: the request, then
/// ` --screen SCREEN` when a screen is given, then a space and the extra
/// arguments joined by spaces when there are any.
pub open spec fn request_text(c: CliCommand, screen: Option<Seq<char>>, args: Seq<Seq<char>>) -> Seq<
    char,
> {
    request_head(c) + match screen {
        Some(s) => " --screen "@ + s,
        None => Seq::empty(),
    } + if args.len() > 0 {
        seq![' '] + join_with(args, ' ')
    } else {
        Seq::empty()
    }
}

/// The command line that the client sends for a request.
pub fn request_line(c: &CliCommand, screen: Option<&str>, args: &Vec<String>) -> (line: String)
    ensures
        line@ == request_text(*c, crate::text::opt_view(screen), args@.map_values(|a: String| a@)),
{
    let mut msg = String::new();
    match c {
        CliCommand::ListModes => push_str(&mut msg, "listModes"),
        CliCommand::ListOutputs => push_str(&mut msg, "listOutputs"),
        CliCommand::CurrentMode => push_str(&mut msg, "currentMode"),
        CliCommand::CurrentOutput => push_str(&mut msg, "currentOutput"),
        CliCommand::CurrentResolution => push_str(&mut msg, "currentResolution"),
        CliCommand::CurrentRotation => push_str(&mut msg, "currentRotation"),
        CliCommand::CurrentRefresh => push_str(&mut msg, "currentRefresh"),
        CliCommand::CurrentBackend => push_str(&mut msg, "currentBackend"),
        CliCommand::SetMode(m) => {
            push_str(&mut msg, "setMode ");
            push_str(&mut msg, m.as_str());
        },
        CliCommand::SetOutput(o) => {
            push_str(&mut msg, "setOutput ");
            push_str(&mut msg, o.as_str());
        },
        CliCommand::SetRotation(r) => {
            push_str(&mut msg, "setRotation ");
            push_str(&mut msg, r.as_str());
        },
        CliCommand::GetScreenshot => push_str(&mut msg, "getScreenshot"),
        CliCommand::MapTouchScreen => push_str(&mut msg, "mapTouchScreen"),
        CliCommand::MinToMaxResolution => push_str(&mut msg, "minToMaxResolution"),
    }
    proof {
        assert(msg@ =~= request_head(*c));
    }
    let ghost head = msg@;
    match screen {
        Some(s) => {
            push_str(&mut msg, " --screen ");
            push_str(&mut msg, s);
        },
        None => {},
    }
    let ghost with_screen = msg@;
    let ghost ws = args@.map_values(|a: String| a@);
    if args.len() > 0 {
        push_char(&mut msg, ' ');
        let mut i: usize = 0;
        proof {
            assert(ws.take(0) =~= Seq::<Seq<char>>::empty());
        }
        while i < args.len()
            invariant
                0 <= i <= args.len(),
                ws == args@.map_values(|a: String| a@),
                msg@ == with_screen + seq![' '] + join_with(ws.take(i as int), ' '),
            decreases args.len() - i,
        {
            proof {
                assert(ws.take(i + 1).drop_last() =~= ws.take(i as int));
                assert(ws.take(i + 1).last() == args@[i as int]@);
            }
            let ghost before = msg@;
            if i > 0 {
                push_char(&mut msg, ' ');
            }
            push_str(&mut msg, args[i].as_str());
            proof {
                if i == 0 {
                    assert(ws.take(1) =~= seq![args@[0]@]);
                }
                assert(msg@ =~= with_screen + seq![' '] + join_with(ws.take(i + 1), ' '));
            }
            i = i + 1;
        }
        proof {
            assert(ws.take(args.len() as int) =~= ws);
        }
    }
    proof {
        assert(msg@ =~= request_text(*c, crate::text::opt_view(screen), ws));
    }
    msg
}

/// The command and the arguments of an invocation of the simple client: the
/// first word is the command, the others its arguments; none without words.
pub fn split_invocation(words: Vec<String>) -> (r: Option<(String, Vec<String>)>)
    ensures
        words@.len() == 0 ==> r is None,
        words@.len() > 0 ==> (r matches Some((c, rest)) && c@ == words@[0]@ && rest@.map_values(
            |a: String| a@,
        ) == words@.drop_first().map_values(|a: String| a@)),
{
    let mut words = words;
    if words.len() == 0 {
        return None;
    }
    let ghost all = words@;
    let c = words.remove(0);
    proof {
        assert(words@ =~= all.drop_first());
    }
    Some((c, words))
}


/// The line `t` starts with the word `n` (followed by a space or by nothing),
/// and `n` is the name of one of the daemon's commands.
pub open spec fn names_daemon_command(t: Seq<char>, n: Seq<char>) -> bool {
    &&& n.len() <= t.len()
    &&& t.take(n.len() as int) == n
    &&& (t.len() == n.len() || t[n.len() as int] == ' ')
    &&& crate::server::commands::daemon_names().contains(n)
}

/// The first word of a line, followed by a space or by nothing, and the
/// position of that word among the daemon's command names.
proof fn lemma_word_head(n: Seq<char>, t: Seq<char>, k: int)
    requires
        0 <= k < 18,
        crate::server::commands::daemon_names()[k] == n,
        n.len() <= t.len(),
        t.take(n.len() as int) == n,
        t.len() == n.len() || t[n.len() as int] == ' ',
    ensures
        names_daemon_command(t, n),
{
    assert(crate::server::commands::daemon_names().len() == 18);
}

/// The line the command-line client sends for a command starts with the
/// name of the daemon command of the same name (`listModes` for
/// `ListModes`, and so on), whatever the screen and extra arguments.
pub proof fn law_request_names_its_command(c: CliCommand, screen: Option<Seq<char>>, args: Seq<Seq<char>>)
    ensures
        c is ListModes ==> names_daemon_command(request_text(c, screen, args), "listModes"@),
        c is ListOutputs ==> names_daemon_command(request_text(c, screen, args), "listOutputs"@),
        c is CurrentMode ==> names_daemon_command(request_text(c, screen, args), "currentMode"@),
        c is CurrentOutput ==> names_daemon_command(request_text(c, screen, args), "currentOutput"@),
        c is CurrentResolution ==> names_daemon_command(request_text(c, screen, args), "currentResolution"@),
        c is CurrentRotation ==> names_daemon_command(request_text(c, screen, args), "currentRotation"@),
        c is CurrentRefresh ==> names_daemon_command(request_text(c, screen, args), "currentRefresh"@),
        c is CurrentBackend ==> names_daemon_command(request_text(c, screen, args), "currentBackend"@),
        c is SetMode ==> names_daemon_command(request_text(c, screen, args), "setMode"@),
        c is SetOutput ==> names_daemon_command(request_text(c, screen, args), "setOutput"@),
        c is SetRotation ==> names_daemon_command(request_text(c, screen, args), "setRotation"@),
        c is GetScreenshot ==> names_daemon_command(request_text(c, screen, args), "getScreenshot"@),
        c is MapTouchScreen ==> names_daemon_command(request_text(c, screen, args), "mapTouchScreen"@),
        c is MinToMaxResolution ==> names_daemon_command(request_text(c, screen, args), "minToMaxResolution"@),
{
    reveal_strlit("listModes");
    reveal_strlit("listOutputs");
    reveal_strlit("currentMode");
    reveal_strlit("currentOutput");
    reveal_strlit("currentResolution");
    reveal_strlit("currentRotation");
    reveal_strlit("currentRefresh");
    reveal_strlit("currentBackend");
    reveal_strlit("setMode");
    reveal_strlit("setOutput");
    reveal_strlit("setRotation");
    reveal_strlit("getScreenshot");
    reveal_strlit("mapTouchScreen");
    reveal_strlit("minToMaxResolution");
    reveal_strlit(" --screen ");
    reveal_strlit("setMode ");
    reveal_strlit("setOutput ");
    reveal_strlit("setRotation ");
    let t = request_text(c, screen, args);
    let hd = request_head(c);
    let rest = t.skip(hd.len() as int);
    assert(t.take(hd.len() as int) =~= hd);
    assert(rest.len() == 0 || rest[0] == ' ');
    match c {
        CliCommand::ListModes => {
            lemma_word_head("listModes"@, request_text(c, screen, args), 5);
        },
        CliCommand::ListOutputs => {
            lemma_word_head("listOutputs"@, request_text(c, screen, args), 0);
        },
        CliCommand::CurrentMode => {
            lemma_word_head("currentMode"@, request_text(c, screen, args), 6);
        },
        CliCommand::CurrentOutput => {
            lemma_word_head("currentOutput"@, request_text(c, screen, args), 1);
        },
        CliCommand::CurrentResolution => {
            lemma_word_head("currentResolution"@, request_text(c, screen, args), 7);
        },
        CliCommand::CurrentRotation => {
            lemma_word_head("currentRotation"@, request_text(c, screen, args), 8);
        },
        CliCommand::CurrentRefresh => {
            lemma_word_head("currentRefresh"@, request_text(c, screen, args), 9);
        },
        CliCommand::CurrentBackend => {
            lemma_word_head("currentBackend"@, request_text(c, screen, args), 2);
        },
        CliCommand::SetMode(x) => {
            assert(t.take(7) =~= hd.take(7));
            assert(hd.take(7) =~= "setMode"@);
            assert(t[7] == hd[7]);
            lemma_word_head("setMode"@, t, 11);
        },
        CliCommand::SetOutput(x) => {
            assert(t.take(9) =~= hd.take(9));
            assert(hd.take(9) =~= "setOutput"@);
            assert(t[9] == hd[9]);
            lemma_word_head("setOutput"@, t, 12);
        },
        CliCommand::SetRotation(x) => {
            assert(t.take(11) =~= hd.take(11));
            assert(hd.take(11) =~= "setRotation"@);
            assert(t[11] == hd[11]);
            lemma_word_head("setRotation"@, t, 13);
        },
        CliCommand::GetScreenshot => {
            lemma_word_head("getScreenshot"@, request_text(c, screen, args), 3);
        },
        CliCommand::MapTouchScreen => {
            lemma_word_head("mapTouchScreen"@, request_text(c, screen, args), 4);
        },
        CliCommand::MinToMaxResolution => {
            lemma_word_head("minToMaxResolution"@, request_text(c, screen, args), 10);
        },
    }
}

} // verus!
