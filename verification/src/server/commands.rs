//! The commands of the daemon: each name, its description, the number of
//! arguments it takes and what it does with the display backend and the
//! controller table.
use super::command_handler::unit_lifted;
use super::command_registry::{
    arity_fits, by_name, catalog, catalog_text, executed_text, first_arg, listing, missing_argument,
    position, runnable, second_arg, set_text, CommandError, CommandHandler, CommandRegistry,
    CommandResult,
};
use crate::error::{error_text, RegmsgError};
use crate::screen;
use crate::config::{DEFAULT_MAX_RESOLUTION, DEFAULT_SCREENSHOT_DIR};
use crate::screen::backend::{DisplayBackend, DisplayMode, DisplayOutput, RotationParams};
use crate::screen::{
    is_active_report, is_mode_report, is_modes_report, is_outputs_report, is_refresh_report,
    is_allowed_rotation, is_resolution_report, is_rotation_report, mode_fault_error,
    mode_request_spec, active_output_text, mode_value_text, modes_text, mode_views,
    output_names_text, params_of, same_error, spec_parse_mode, trim_prefix_all, ModeFault,
};
use crate::text::{
    concat2, concat3, dec, is_prefix, pair_views, parse_unsigned, parse_usize, str_eq, trim, trim_ws,
};
use vstd::prelude::*;

verus! {

/// What a daemon command does.
pub enum Action {
    /// Replies with the list of the commands (held here).
    ListCommands(String),
    ListOutputs,
    CurrentOutput,
    CurrentBackend,
    GetScreenshot,
    MapTouchScreen,
    ListModes,
    CurrentMode,
    CurrentResolution,
    CurrentRotation,
    CurrentRefresh,
    MinToMaxResolution,
    SetMode,
    SetOutput,
    SetRotation,
    AddController,
    RemoveController,
    GetController,
}

/// The operations on the controller table that the controller commands use:
/// adding a controller by index and GUID, removing the controllers with a
/// GUID, and the table as JSON.
pub struct ControllerOps<A, R, J> where
    A: Fn(usize, &str) -> Result<(), String>,
    R: Fn(&str) -> Result<(), String>,
    J: Fn() -> Result<String, String>,
 {
    pub add: A,
    pub remove: R,
    pub json: J,
}

impl<A, R, J> ControllerOps<A, R, J> where
    A: Fn(usize, &str) -> Result<(), String>,
    R: Fn(&str) -> Result<(), String>,
    J: Fn() -> Result<String, String>,
 {
    /// The operations can be called with any arguments.
    pub open spec fn ready(&self) -> bool {
        &&& forall|i: usize, g: &str| call_requires(self.add, (i, g))
        &&& forall|g: &str| call_requires(self.remove, (g,))
        &&& call_requires(self.json, ())
    }
}

/// A command of the daemon.
pub struct DaemonCommand<'a, B, A, R, J> where
    B: DisplayBackend,
    A: Fn(usize, &str) -> Result<(), String>,
    R: Fn(&str) -> Result<(), String>,
    J: Fn() -> Result<String, String>,
 {
    pub action: Action,
    pub description: String,
    pub backend: &'a B,
    pub controllers: &'a ControllerOps<A, R, J>,
}

/// The number of arguments each command takes (`None`: any number).
pub open spec fn action_arity(a: Action) -> Option<usize> {
    match a {
        Action::ListCommands(_) => Some(0),
        Action::ListOutputs => Some(0),
        Action::CurrentOutput => Some(0),
        Action::CurrentBackend => Some(0),
        Action::GetScreenshot => Some(0),
        Action::MapTouchScreen => Some(0),
        Action::GetController => Some(0),
        Action::SetOutput => Some(1),
        Action::AddController => Some(2),
        Action::RemoveController => Some(1),
        _ => None,
    }
}

/// A reply made from a screen function's result: a text for which `p`
/// holds, or the function's error as an execution error.
pub open spec fn screen_reply(r: CommandResult, p: spec_fn(Seq<char>) -> bool) -> bool {
    match r {
        Ok(s) => p(s@),
        Err(e) => e is ExecutionError,
    }
}

/// The reply to a backend operation that failed with `e`: an execution
/// error with the error's text (of an I/O error, its text is not given).
pub open spec fn execution_failure(r: CommandResult, e: RegmsgError) -> bool {
    r matches Err(CommandError::ExecutionError(m)) && (!(e is IoError) ==> m@ == error_text(e))
}

/// The reply to a backend operation that returns nothing of use: `msg` when
/// it succeeded, its error otherwise.
pub open spec fn unit_outcome<T>(x: crate::error::Result<T>, r: CommandResult, msg: Seq<char>) -> bool {
    match x {
        Ok(_) => r matches Ok(s) && s@ == msg,
        Err(e) => execution_failure(r, e),
    }
}

/// The execution error with the text `m`.
pub open spec fn fails_with(r: CommandResult, m: Seq<char>) -> bool {
    r matches Err(CommandError::ExecutionError(t)) && t@ == m
}

/// The text of the error that a mode string's fault gives.
pub open spec fn mode_fault_text(f: ModeFault) -> Seq<char> {
    match f {
        ModeFault::Format => "Invalid arguments: Invalid mode format. Use 'WxH@R' or 'WxH'"@,
        ModeFault::Width => "Parse error: Invalid width"@,
        ModeFault::Height => "Parse error: Invalid height"@,
        ModeFault::Refresh => "Parse error: Invalid refresh rate"@,
    }
}

/// The rotations that `setRotation` lets through.
pub open spec fn is_rotation_word(v: Seq<char>) -> bool {
    v == "0"@ || v == "90"@ || v == "180"@ || v == "270"@
}

/// The reply of `setRotation` to a value that is not a rotation.
pub open spec fn rotation_refusal(v: Seq<char>) -> Seq<char> {
    "Invalid rotation: '"@ + v + "'. Valid options are: 0, 90, 180, 270"@
}

/// The reply of `addController` to an index that is not a number.
pub open spec fn index_refusal(i: Seq<char>) -> Seq<char> {
    "Invalid index: "@ + i + ". Index must be a positive integer."@
}

/// The reply of `getController` to the JSON of the table.
pub open spec fn controllers_text(json: Seq<char>) -> Seq<char> {
    if json == "{}"@ {
        "No controllers configured"@
    } else {
        json
    }
}

impl<'a, B, A, R, J> DaemonCommand<'a, B, A, R, J> where
    B: DisplayBackend,
    A: Fn(usize, &str) -> Result<(), String>,
    R: Fn(&str) -> Result<(), String>,
    J: Fn() -> Result<String, String>,
 {
    /// What the command replies to `args`.
    pub open spec fn reply(&self, args: &[&str], r: CommandResult) -> bool {
        match self.action {
            Action::ListCommands(t) => r matches Ok(s) && s@ == t@,
            Action::ListOutputs => {
                &&& screen_reply(r, |s: Seq<char>| is_outputs_report(s))
                &&& exists|x: crate::error::Result<Vec<DisplayOutput>>|
                    #[trigger] call_ensures(B::list_outputs, (self.backend,), x) && match x {
                        Ok(os) => r matches Ok(s) && s@ == output_names_text(os@),
                        Err(e) => execution_failure(r, e),
                    }
            },
            Action::CurrentOutput => {
                &&& screen_reply(r, |s: Seq<char>| is_active_report(s))
                &&& exists|x: crate::error::Result<Vec<DisplayOutput>>|
                    #[trigger] call_ensures(B::list_outputs, (self.backend,), x) && match x {
                        Ok(os) => r matches Ok(s) && s@ == active_output_text(os@),
                        Err(e) => execution_failure(r, e),
                    }
            },
            Action::CurrentBackend => {
                &&& r is Ok
                &&& exists|n: &'static str|
                    #[trigger] call_ensures(B::backend_name, (self.backend,), n) && (r matches Ok(
                        s,
                    ) && s@ == n@)
            },
            Action::GetScreenshot => {
                &&& screen_reply(r, |s: Seq<char>| s == "Screenshot taken"@)
                &&& exists|x: crate::error::Result<String>|
                    #[trigger] call_ensures(
                        B::take_screenshot,
                        (self.backend, DEFAULT_SCREENSHOT_DIR),
                        x,
                    ) && unit_outcome(x, r, "Screenshot taken"@)
            },
            Action::MapTouchScreen => {
                &&& screen_reply(r, |s: Seq<char>| s == "Touchscreen mapped"@)
                &&& exists|x: crate::error::Result<()>|
                    #[trigger] call_ensures(B::map_touchscreen, (self.backend,), x) && unit_outcome(
                        x,
                        r,
                        "Touchscreen mapped"@,
                    )
            },
            Action::ListModes => {
                &&& screen_reply(r, |s: Seq<char>| is_modes_report(s))
                &&& exists|x: crate::error::Result<Vec<DisplayMode>>|
                    #[trigger] call_ensures(B::list_modes, (self.backend, first_arg(args)), x) && match x {
                        Ok(ms) => r matches Ok(s) && s@ == modes_text(mode_views(ms@)),
                        Err(e) => execution_failure(r, e),
                    }
            },
            Action::CurrentMode => {
                &&& screen_reply(r, |s: Seq<char>| is_mode_report(s))
                &&& exists|x: crate::error::Result<DisplayMode>|
                    #[trigger] call_ensures(B::current_mode, (self.backend, first_arg(args)), x) && match x {
                        Ok(m) => r matches Ok(s) && s@ == mode_value_text(m.width, m.height, m.refresh_rate),
                        Err(e) => execution_failure(r, e),
                    }
            },
            Action::CurrentResolution => {
                &&& screen_reply(r, |s: Seq<char>| is_resolution_report(s))
                &&& exists|x: crate::error::Result<(u32, u32)>|
                    #[trigger] call_ensures(B::current_resolution, (self.backend, first_arg(args)), x) && match x {
                        Ok((w, h)) => r matches Ok(s) && s@ == dec(w as nat) + "x"@ + dec(h as nat),
                        Err(e) => execution_failure(r, e),
                    }
            },
            Action::CurrentRotation => {
                &&& screen_reply(r, |s: Seq<char>| is_rotation_report(s))
                &&& exists|x: crate::error::Result<u32>|
                    #[trigger] call_ensures(B::current_rotation, (self.backend, first_arg(args)), x) && match x {
                        Ok(d) => r matches Ok(s) && s@ == dec(d as nat),
                        Err(e) => execution_failure(r, e),
                    }
            },
            Action::CurrentRefresh => {
                &&& screen_reply(r, |s: Seq<char>| is_refresh_report(s))
                &&& exists|x: crate::error::Result<u32>|
                    #[trigger] call_ensures(B::current_refresh_rate, (self.backend, first_arg(args)), x) && match x {
                        Ok(f) => r matches Ok(s) && s@ == dec(f as nat) + "Hz"@,
                        Err(e) => execution_failure(r, e),
                    }
            },
            Action::MinToMaxResolution => {
                &&& screen_reply(r, |s: Seq<char>| s == "Resolution set to maximum"@)
                &&& exists|x: crate::error::Result<()>|
                    #[trigger] call_ensures(
                        B::set_max_resolution,
                        (self.backend, first_arg(args), Some(DEFAULT_MAX_RESOLUTION)),
                        x,
                    ) && unit_outcome(x, r, "Resolution set to maximum"@)
            },
            Action::SetMode => if args@.len() == 0 {
                missing_argument(r)
            } else {
                &&& forall|e: RegmsgError|
                    #![trigger mode_request_spec(args@[0]@, Err(e))]
                    mode_request_spec(args@[0]@, Err(e)) ==> fails_with(r, error_text(e))
                &&& screen_reply(r, |s: Seq<char>| s == set_text(args@[0]@))
                &&& is_prefix("max-"@, args@[0]@) ==> exists|m: &str, x: crate::error::Result<()>|
                    m@ == trim_prefix_all(args@[0]@, "max-"@) && #[trigger] call_ensures(
                        B::set_max_resolution,
                        (self.backend, second_arg(args), Some(m)),
                        x,
                    ) && unit_outcome(x, r, set_text(args@[0]@))
                &&& !is_prefix("max-"@, args@[0]@) ==> match spec_parse_mode(args@[0]@) {
                    Ok((w, h, v)) => exists|x: crate::error::Result<()>|
                        #[trigger] call_ensures(
                            B::set_mode,
                            (self.backend, second_arg(args), &params_of(w, h, v)),
                            x,
                        ) && unit_outcome(x, r, set_text(args@[0]@)),
                    Err(_) => true,
                }
            },
            Action::SetRotation => if args@.len() == 0 {
                missing_argument(r)
            } else if !is_rotation_word(args@[0]@) {
                fails_with(r, rotation_refusal(args@[0]@))
            } else {
                &&& screen_reply(r, |s: Seq<char>| s == set_text(args@[0]@))
                &&& match parse_unsigned(args@[0]@, u32::MAX as int) {
                    Ok(v) => is_allowed_rotation(v) ==> exists|x: crate::error::Result<()>|
                        #[trigger] call_ensures(
                            B::set_rotation,
                            (self.backend, second_arg(args), &RotationParams { rotation: v as u32 }),
                            x,
                        ) && unit_outcome(x, r, set_text(args@[0]@)),
                    Err(_) => true,
                }
            },
            Action::SetOutput => {
                &&& spec_parse_mode(args@[0]@) matches Err(f) ==> fails_with(r, mode_fault_text(f))
                &&& screen_reply(r, |s: Seq<char>| s == executed_text("setOutput"@))
                &&& match spec_parse_mode(args@[0]@) {
                    Ok((w, h, v)) => exists|x: crate::error::Result<()>|
                        #[trigger] call_ensures(
                            B::set_mode,
                            (self.backend, None::<&str>, &params_of(w, h, v)),
                            x,
                        ) && unit_outcome(x, r, executed_text("setOutput"@)),
                    Err(_) => true,
                }
            },
            Action::AddController => {
                let i = trim_ws(args@[0]@);
                let g = trim_ws(args@[1]@);
                match parse_unsigned(i, usize::MAX as int) {
                    Err(_) => fails_with(r, index_refusal(i)),
                    Ok(n) => if g.len() == 0 {
                        fails_with(r, "GUID cannot be empty."@)
                    } else {
                        exists|gs: &str, out: Result<(), String>|
                            gs@ == g && #[trigger] call_ensures(
                                self.controllers.add,
                                (n as usize, gs),
                                out,
                            ) && unit_lifted(out, executed_text("addController"@), r)
                    },
                }
            },
            Action::RemoveController => {
                let g = trim_ws(args@[0]@);
                if g.len() == 0 {
                    fails_with(r, "GUID cannot be empty."@)
                } else {
                    exists|gs: &str, out: Result<(), String>|
                        gs@ == g && call_ensures(self.controllers.remove, (gs,), out)
                            && unit_lifted(out, executed_text("removeController"@), r)
                }
            },
            Action::GetController => exists|out: Result<String, String>|
                call_ensures(self.controllers.json, (), out) && match out {
                    Ok(j) => r matches Ok(s) && s@ == controllers_text(j@),
                    Err(m) => r == Err::<String, CommandError>(CommandError::ExecutionError(m)),
                },
        }
    }
}

/// The reply made from a screen function's text result.
fn text_reply(res: crate::error::Result<String>) -> (r: CommandResult)
    ensures
        res matches Ok(s) ==> (r matches Ok(t) && t@ == s@),
        res matches Err(e) ==> (r matches Err(CommandError::ExecutionError(m)) && (!(e is IoError)
            ==> m@ == error_text(e))),
{
    match res {
        Ok(s) => Ok(s),
        Err(e) => Err(CommandError::ExecutionError(e.message())),
    }
}

/// The reply made from a screen function that returns nothing: `msg` when
/// it succeeded.
fn unit_reply(res: crate::error::Result<()>, msg: &str) -> (r: CommandResult)
    ensures
        res is Ok ==> (r matches Ok(t) && t@ == msg@),
        res matches Err(e) ==> (r matches Err(CommandError::ExecutionError(m)) && (!(e is IoError)
            ==> m@ == error_text(e))),
{
    match res {
        Ok(_) => Ok(String::from_str(msg)),
        Err(e) => Err(CommandError::ExecutionError(e.message())),
    }
}

impl<'a, B, A, R, J> CommandHandler for DaemonCommand<'a, B, A, R, J> where
    B: DisplayBackend,
    A: Fn(usize, &str) -> Result<(), String>,
    R: Fn(&str) -> Result<(), String>,
    J: Fn() -> Result<String, String>,
 {
    open spec fn describes(&self) -> Seq<char> {
        self.description@
    }

    open spec fn arity(&self) -> Option<usize> {
        action_arity(self.action)
    }

    open spec fn ready(&self, args: &[&str]) -> bool {
        arity_fits(action_arity(self.action), args@.len() as int) && self.controllers.ready()
    }

    open spec fn answers(&self, args: &[&str], r: CommandResult) -> bool {
        self.reply(args, r)
    }

    fn execute(&self, args: &[&str]) -> (r: CommandResult) {
        match &self.action {
            Action::ListCommands(t) => {
                Ok(t.clone())
            },
            Action::ListOutputs => {
                text_reply(screen::list_outputs(self.backend))
            },
            Action::CurrentOutput => {
                text_reply(screen::current_output(self.backend))
            },
            Action::CurrentBackend => {
                text_reply(screen::current_backend(self.backend))
            },
            Action::GetScreenshot => {
                unit_reply(screen::get_screenshot(self.backend), "Screenshot taken")
            },
            Action::MapTouchScreen => {
                unit_reply(screen::map_touch_screen(self.backend), "Touchscreen mapped")
            },
            Action::ListModes => {
                text_reply(screen::list_modes(self.backend, screen_of(args)))
            },
            Action::CurrentMode => {
                text_reply(screen::current_mode(self.backend, screen_of(args)))
            },
            Action::CurrentResolution => {
                text_reply(screen::current_resolution(self.backend, screen_of(args)))
            },
            Action::CurrentRotation => {
                text_reply(screen::current_rotation(self.backend, screen_of(args)))
            },
            Action::CurrentRefresh => {
                text_reply(screen::current_refresh(self.backend, screen_of(args)))
            },
            Action::MinToMaxResolution => {
                unit_reply(screen::min_to_max_resolution(self.backend, screen_of(args)), "Resolution set to maximum")
            },
            Action::SetMode => {
                if args.len() == 0 {
                    return Err(
                        CommandError::InvalidArguments(String::from_str("Missing required argument")),
                    );
                }
                let value = args[0];
                let res = screen::set_mode(self.backend, target_of(args), value);
                let ghost e0 = res;
                let r = setter_reply(res, value);
                proof {
                    assert forall|e: RegmsgError|
                        #![trigger mode_request_spec(args@[0]@, Err(e))]
                        mode_request_spec(args@[0]@, Err(e)) implies fails_with(r, error_text(e)) by {
                        lemma_same_error_text(e, e0->Err_0);
                    }
                }
                r
            },
            Action::SetRotation => {
                if args.len() == 0 {
                    return Err(
                        CommandError::InvalidArguments(String::from_str("Missing required argument")),
                    );
                }
                let value = args[0];
                if !(str_eq(value, "0") || str_eq(value, "90") || str_eq(value, "180") || str_eq(
                    value,
                    "270",
                )) {
                    return Err(
                        CommandError::ExecutionError(
                            concat3("Invalid rotation: '", value, "'. Valid options are: 0, 90, 180, 270"),
                        ),
                    );
                }
                setter_reply(screen::set_rotation(self.backend, target_of(args), value), value)
            },
            Action::SetOutput => {
                let res = screen::set_output(self.backend, args[0]);
                let ghost e0 = res;
                let r = unit_reply(res, "setOutput executed successfully");
                proof {
                    reveal_strlit("setOutput executed successfully");
                    reveal_strlit("setOutput");
                    reveal_strlit(" executed successfully");
                    assert("setOutput executed successfully"@ =~= executed_text("setOutput"@));
                    if let Err(f) = spec_parse_mode(args@[0]@) {
                        lemma_mode_fault_text(f, e0->Err_0);
                    }
                }
                r
            },
            Action::AddController => {
                let index_str = trim(args[0]);
                let guid = trim(args[1]);
                let index = match parse_usize(index_str.as_str()) {
                    Ok(i) => i,
                    Err(_) => {
                        return Err(
                            CommandError::ExecutionError(
                                concat3(
                                    "Invalid index: ",
                                    index_str.as_str(),
                                    ". Index must be a positive integer.",
                                ),
                            ),
                        );
                    },
                };
                if str_eq(guid.as_str(), "") {
                    proof {
                        reveal_strlit("");
                    }
                    return Err(CommandError::ExecutionError(String::from_str("GUID cannot be empty.")));
                }
                proof {
                    reveal_strlit("");
                    if guid@.len() == 0 {
                        assert(guid@ =~= ""@);
                    }
                }
                let g = guid.as_str();
                let out = (self.controllers.add)(index, g);
                let ghost o = out;
                let r = match out {
                    Ok(_) => Ok(String::from_str("addController executed successfully")),
                    Err(m) => Err(CommandError::ExecutionError(m)),
                };
                proof {
                    reveal_strlit("addController executed successfully");
                    reveal_strlit("addController");
                    reveal_strlit(" executed successfully");
                    assert("addController executed successfully"@ =~= executed_text("addController"@));
                    assert(unit_lifted(o, executed_text("addController"@), r));
                }
                r
            },
            Action::RemoveController => {
                if args.len() != 1 {
                    return Err(
                        CommandError::ExecutionError(
                            String::from_str("Expected exactly 1 controller GUID."),
                        ),
                    );
                }
                let guid = trim(args[0]);
                if str_eq(guid.as_str(), "") {
                    proof {
                        reveal_strlit("");
                    }
                    return Err(CommandError::ExecutionError(String::from_str("GUID cannot be empty.")));
                }
                proof {
                    reveal_strlit("");
                    if guid@.len() == 0 {
                        assert(guid@ =~= ""@);
                    }
                }
                let g = guid.as_str();
                let out = (self.controllers.remove)(g);
                let ghost o = out;
                let r = match out {
                    Ok(_) => Ok(String::from_str("removeController executed successfully")),
                    Err(m) => Err(CommandError::ExecutionError(m)),
                };
                proof {
                    reveal_strlit("removeController executed successfully");
                    reveal_strlit("removeController");
                    reveal_strlit(" executed successfully");
                    assert("removeController executed successfully"@ =~= executed_text(
                        "removeController"@,
                    ));
                    assert(unit_lifted(o, executed_text("removeController"@), r));
                }
                r
            },
            Action::GetController => {
                match (self.controllers.json)() {
                    Ok(j) => {
                        if str_eq(j.as_str(), "{}") {
                            Ok(String::from_str("No controllers configured"))
                        } else {
                            Ok(j)
                        }
                    },
                    Err(m) => Err(CommandError::ExecutionError(m)),
                }
            },
        }
    }

    fn description(&self) -> (d: &str) {
        self.description.as_str()
    }

    fn expected_args(&self) -> (n: Option<usize>) {
        match &self.action {
            Action::ListCommands(_) => Some(0),
            Action::ListOutputs => Some(0),
            Action::CurrentOutput => Some(0),
            Action::CurrentBackend => Some(0),
            Action::GetScreenshot => Some(0),
            Action::MapTouchScreen => Some(0),
            Action::GetController => Some(0),
            Action::SetOutput => Some(1),
            Action::AddController => Some(2),
            Action::RemoveController => Some(1),
            _ => None,
        }
    }
}

/// The screen a screen command is about: its first argument, if any.
fn screen_of<'b>(args: &[&'b str]) -> (s: Option<&'b str>)
    ensures
        s == first_arg(args),
{
    if args.len() == 0 {
        None
    } else {
        Some(args[0])
    }
}

/// The screen a setter changes: its second argument, if any.
fn target_of<'b>(args: &[&'b str]) -> (s: Option<&'b str>)
    ensures
        s == second_arg(args),
{
    if args.len() > 1 {
        Some(args[1])
    } else {
        None
    }
}

/// The reply of a setter from the screen function's result.
fn setter_reply(res: crate::error::Result<()>, value: &str) -> (r: CommandResult)
    ensures
        res is Ok ==> (r matches Ok(t) && t@ == set_text(value@)),
        res matches Err(e) ==> (r matches Err(CommandError::ExecutionError(m)) && (!(e is IoError)
            ==> m@ == error_text(e))),
{
    match res {
        Ok(_) => Ok(concat2("Set to ", value)),
        Err(e) => Err(CommandError::ExecutionError(e.message())),
    }
}

/// Two errors that are the same error have the same text.
proof fn lemma_same_error_text(e: RegmsgError, e2: RegmsgError)
    requires
        same_error(e, e2),
    ensures
        error_text(e) == error_text(e2),
        e is IoError <==> e2 is IoError,
{
}

/// The error that a mode fault gives has the fault's text.
proof fn lemma_mode_fault_text(f: ModeFault, e: RegmsgError)
    requires
        mode_fault_error(f, e),
    ensures
        error_text(e) == mode_fault_text(f),
        !(e is IoError),
{
    reveal_strlit("Invalid arguments: ");
    reveal_strlit("Invalid mode format. Use 'WxH@R' or 'WxH'");
    reveal_strlit("Invalid arguments: Invalid mode format. Use 'WxH@R' or 'WxH'");
    reveal_strlit("Parse error: ");
    reveal_strlit("Invalid width");
    reveal_strlit("Parse error: Invalid width");
    reveal_strlit("Invalid height");
    reveal_strlit("Parse error: Invalid height");
    reveal_strlit("Invalid refresh rate");
    reveal_strlit("Parse error: Invalid refresh rate");
    match f {
        ModeFault::Format => {
            assert("Invalid arguments: Invalid mode format. Use 'WxH@R' or 'WxH'"@ =~= "Invalid arguments: "@
                + "Invalid mode format. Use 'WxH@R' or 'WxH'"@);
        },
        ModeFault::Width => {
            assert("Parse error: Invalid width"@ =~= "Parse error: "@ + "Invalid width"@);
        },
        ModeFault::Height => {
            assert("Parse error: Invalid height"@ =~= "Parse error: "@ + "Invalid height"@);
        },
        ModeFault::Refresh => {
            assert("Parse error: Invalid refresh rate"@ =~= "Parse error: "@ + "Invalid refresh rate"@);
        },
    }
}

// ---------------------------------------------------------------------------
// The table of the daemon's commands
// ---------------------------------------------------------------------------

/// The names of the daemon's commands, in the order they are registered.
pub open spec fn daemon_names() -> Seq<Seq<char>> {
    seq![
        "listOutputs"@,
        "currentOutput"@,
        "currentBackend"@,
        "getScreenshot"@,
        "mapTouchScreen"@,
        "listModes"@,
        "currentMode"@,
        "currentResolution"@,
        "currentRotation"@,
        "currentRefresh"@,
        "minToMaxResolution"@,
        "setMode"@,
        "setOutput"@,
        "setRotation"@,
        "addController"@,
        "removeController"@,
        "getController"@,
        "listCommands"@,
    ]
}

/// The descriptions of the daemon's commands, in the same order.
pub open spec fn daemon_descriptions() -> Seq<Seq<char>> {
    seq![
        "List all available display outputs"@,
        "Displays the current output (e.g., HDMI, VGA)"@,
        "Displays the current window system"@,
        "Takes a screenshot of the current screen"@,
        "Maps the touchscreen to the correct display"@,
        "Lists all available outputs (e.g., HDMI, VGA)"@,
        "Displays the current display mode for the specified screen"@,
        "Displays the current resolution for the specified screen"@,
        "Displays the current screen rotation for the specified screen"@,
        "Displays the current refresh rate for the specified screen"@,
        "Sets the screen resolution to the maximum supported resolution"@,
        "Sets the display mode for the specified screen (e.g., 1920x1080@60)"@,
        "Sets the output resolution and refresh rate (e.g., WxH@R or WxH)"@,
        "Sets the screen rotation for the specified screen (0, 90, 180, 270)"@,
        "Adds controller to the system by index and GUID"@,
        "Remove controller. Specify 1 GUID to remove a specific controller"@,
        "Get all controller configurations"@,
        "List all available commands"@,
    ]
}

/// What the daemon's commands do, in the same order, but for the last one,
/// `listCommands`, which holds the list of the commands.
pub open spec fn daemon_actions() -> Seq<Action> {
    seq![
        Action::ListOutputs,
        Action::CurrentOutput,
        Action::CurrentBackend,
        Action::GetScreenshot,
        Action::MapTouchScreen,
        Action::ListModes,
        Action::CurrentMode,
        Action::CurrentResolution,
        Action::CurrentRotation,
        Action::CurrentRefresh,
        Action::MinToMaxResolution,
        Action::SetMode,
        Action::SetOutput,
        Action::SetRotation,
        Action::AddController,
        Action::RemoveController,
        Action::GetController,
    ]
}

/// The names of the daemon's commands are distinct.
pub proof fn lemma_daemon_names_distinct()
    ensures
        forall|i: int, j: int|
            0 <= i < j < 18 ==> #[trigger] daemon_names()[i] != #[trigger] daemon_names()[j],
{
    reveal_strlit("listOutputs");
    reveal_strlit("currentOutput");
    reveal_strlit("currentBackend");
    reveal_strlit("getScreenshot");
    reveal_strlit("mapTouchScreen");
    reveal_strlit("listModes");
    reveal_strlit("currentMode");
    reveal_strlit("currentResolution");
    reveal_strlit("currentRotation");
    reveal_strlit("currentRefresh");
    reveal_strlit("minToMaxResolution");
    reveal_strlit("setMode");
    reveal_strlit("setOutput");
    reveal_strlit("setRotation");
    reveal_strlit("addController");
    reveal_strlit("removeController");
    reveal_strlit("getController");
    reveal_strlit("listCommands");
    let n = daemon_names();
    assert forall|i: int, j: int| 0 <= i < j < 18 implies n[i] != n[j] by {
        if n[i] == n[j] {
            assert(n[i].len() == n[j].len());
            assert(n[i][0] == n[j][0]);
            assert(n[i][3] == n[j][3]);
            assert(n[i][7] == n[j][7]);
        }
    }
}

/// The name of the `i`-th command.
fn name_at(i: usize) -> (n: &'static str)
    requires
        i < 18,
    ensures
        n@ == daemon_names()[i as int],
{
    match i {
        0 => "listOutputs",
        1 => "currentOutput",
        2 => "currentBackend",
        3 => "getScreenshot",
        4 => "mapTouchScreen",
        5 => "listModes",
        6 => "currentMode",
        7 => "currentResolution",
        8 => "currentRotation",
        9 => "currentRefresh",
        10 => "minToMaxResolution",
        11 => "setMode",
        12 => "setOutput",
        13 => "setRotation",
        14 => "addController",
        15 => "removeController",
        16 => "getController",
        _ => "listCommands",
    }
}

/// The description of the `i`-th command.
fn description_at(i: usize) -> (d: &'static str)
    requires
        i < 18,
    ensures
        d@ == daemon_descriptions()[i as int],
{
    match i {
        0 => "List all available display outputs",
        1 => "Displays the current output (e.g., HDMI, VGA)",
        2 => "Displays the current window system",
        3 => "Takes a screenshot of the current screen",
        4 => "Maps the touchscreen to the correct display",
        5 => "Lists all available outputs (e.g., HDMI, VGA)",
        6 => "Displays the current display mode for the specified screen",
        7 => "Displays the current resolution for the specified screen",
        8 => "Displays the current screen rotation for the specified screen",
        9 => "Displays the current refresh rate for the specified screen",
        10 => "Sets the screen resolution to the maximum supported resolution",
        11 => "Sets the display mode for the specified screen (e.g., 1920x1080@60)",
        12 => "Sets the output resolution and refresh rate (e.g., WxH@R or WxH)",
        13 => "Sets the screen rotation for the specified screen (0, 90, 180, 270)",
        14 => "Adds controller to the system by index and GUID",
        15 => "Remove controller. Specify 1 GUID to remove a specific controller",
        16 => "Get all controller configurations",
        _ => "List all available commands",
    }
}

/// What the `i`-th command does.
fn action_at(i: usize) -> (a: Action)
    requires
        i < 17,
    ensures
        a == daemon_actions()[i as int],
{
    match i {
        0 => Action::ListOutputs,
        1 => Action::CurrentOutput,
        2 => Action::CurrentBackend,
        3 => Action::GetScreenshot,
        4 => Action::MapTouchScreen,
        5 => Action::ListModes,
        6 => Action::CurrentMode,
        7 => Action::CurrentResolution,
        8 => Action::CurrentRotation,
        9 => Action::CurrentRefresh,
        10 => Action::MinToMaxResolution,
        11 => Action::SetMode,
        12 => Action::SetOutput,
        13 => Action::SetRotation,
        14 => Action::AddController,
        15 => Action::RemoveController,
        _ => Action::GetController,
    }
}

/// The registry of the daemon's commands: the commands of the table, in its
/// order, on the given backend and controller operations, `listCommands`
/// holding the list of them all.
pub open spec fn is_daemon_registry<'a, B, A, R, J>(
    s: Seq<(Seq<char>, Box<DaemonCommand<'a, B, A, R, J>>)>,
    backend: &'a B,
    controllers: &'a ControllerOps<A, R, J>,
) -> bool where
    B: DisplayBackend,
    A: Fn(usize, &str) -> Result<(), String>,
    R: Fn(&str) -> Result<(), String>,
    J: Fn() -> Result<String, String>,
 {
    &&& super::command_registry::distinct_names(s)
    &&& s.len() == 18
    &&& forall|i: int|
        0 <= i < 18 ==> {
            &&& (#[trigger] s[i]).0 == daemon_names()[i]
            &&& s[i].1.description@ == daemon_descriptions()[i]
            &&& s[i].1.backend == backend
            &&& s[i].1.controllers == controllers
        }
    &&& forall|i: int| 0 <= i < 17 ==> (#[trigger] s[i]).1.action == daemon_actions()[i]
    &&& s[17].1.action matches Action::ListCommands(t) && t@ == catalog_text(by_name(listing(s)))
}

/// Registers a new command.
fn enroll<'a, B, A, R, J>(
    reg: &mut CommandRegistry<DaemonCommand<'a, B, A, R, J>>,
    name: &str,
    description: &str,
    action: Action,
    backend: &'a B,
    controllers: &'a ControllerOps<A, R, J>,
) where
    B: DisplayBackend,
    A: Fn(usize, &str) -> Result<(), String>,
    R: Fn(&str) -> Result<(), String>,
    J: Fn() -> Result<String, String>,

    requires
        old(reg).wf(),
        controllers.ready(),
        position(old(reg)@, name@) is None,
    ensures
        final(reg).wf(),
        final(reg)@.len() == old(reg)@.len() + 1,
        forall|i: int| 0 <= i < old(reg)@.len() ==> final(reg)@[i] == old(reg)@[i],
        final(reg)@.last().0 == name@,
        final(reg)@.last().1.action == action,
        final(reg)@.last().1.description@ == description@,
        final(reg)@.last().1.backend == backend,
        final(reg)@.last().1.controllers == controllers,
{
    let cmd = DaemonCommand { action, description: String::from_str(description), backend, controllers };
    reg.register(name, Box::new(cmd));
}

/// The registry of all the daemon's commands, run on `backend` and on the
/// controller table through `controllers`. `listCommands` replies with the
/// list of all of them, itself included.
pub fn init_commands<'a, B, A, R, J>(
    backend: &'a B,
    controllers: &'a ControllerOps<A, R, J>,
) -> (reg: CommandRegistry<DaemonCommand<'a, B, A, R, J>>) where
    B: DisplayBackend,
    A: Fn(usize, &str) -> Result<(), String>,
    R: Fn(&str) -> Result<(), String>,
    J: Fn() -> Result<String, String>,

    requires
        controllers.ready(),
    ensures
        reg.wf(),
        is_daemon_registry(reg@, backend, controllers),
{
    let mut reg: CommandRegistry<DaemonCommand<'a, B, A, R, J>> = CommandRegistry::empty();
    proof {
        lemma_daemon_names_distinct();
    }
    let mut i: usize = 0;
    while i < 17
        invariant
            0 <= i <= 17,
            reg.wf(),
            controllers.ready(),
            reg@.len() == i,
            forall|j: int, k: int|
                0 <= j < k < 18 ==> #[trigger] daemon_names()[j] != #[trigger] daemon_names()[k],
            forall|j: int|
                0 <= j < i ==> {
                    &&& (#[trigger] reg@[j]).0 == daemon_names()[j]
                    &&& reg@[j].1.description@ == daemon_descriptions()[j]
                    &&& reg@[j].1.backend == backend
                    &&& reg@[j].1.controllers == controllers
                    &&& reg@[j].1.action == daemon_actions()[j]
                },
        decreases 17 - i,
    {
        let name = name_at(i);
        proof {
            assert forall|j: int| 0 <= j < reg@.len() implies (#[trigger] reg@[j]).0 != name@ by {
                assert(daemon_names()[j] != daemon_names()[i as int]);
            }
        }
        enroll(&mut reg, name, description_at(i), action_at(i), backend, controllers);
        i = i + 1;
    }
    let mut pairs = reg.listing_pairs();
    let ghost before = reg@;
    let ghost last = ("listCommands"@, "List all available commands"@);
    pairs.push((String::from_str("listCommands"), String::from_str("List all available commands")));
    proof {
        assert(pair_views(pairs@) =~= listing(before).push(last));
    }
    let text = catalog(pairs);
    proof {
        assert(daemon_names()[17] == "listCommands"@);
        assert forall|j: int| 0 <= j < reg@.len() implies (#[trigger] reg@[j]).0 != "listCommands"@ by {
            assert(daemon_names()[j] != daemon_names()[17]);
        }
    }
    let ghost t = text;
    enroll(
        &mut reg,
        "listCommands",
        "List all available commands",
        Action::ListCommands(text),
        backend,
        controllers,
    );
    proof {
        assert(listing(reg@) =~= listing(before).push(last));
        assert(reg@[17].1.action == Action::ListCommands(t));
    }
    reg
}

// ---------------------------------------------------------------------------
// Laws
// ---------------------------------------------------------------------------

/// The entry of a command of the table is found under its name.
proof fn lemma_daemon_position<'a, B, A, R, J>(
    s: Seq<(Seq<char>, Box<DaemonCommand<'a, B, A, R, J>>)>,
    backend: &'a B,
    controllers: &'a ControllerOps<A, R, J>,
    k: int,
) where
    B: DisplayBackend,
    A: Fn(usize, &str) -> Result<(), String>,
    R: Fn(&str) -> Result<(), String>,
    J: Fn() -> Result<String, String>,

    requires
        is_daemon_registry(s, backend, controllers),
        0 <= k < 18,
    ensures
        position(s, daemon_names()[k]) == Some(k),
{
    assert(s[k].0 == daemon_names()[k]);
    let c = choose|i: int| 0 <= i < s.len() && (#[trigger] s[i]).0 == daemon_names()[k];
    if c != k {
        if c < k {
            assert(s[c].0 != s[k].0);
        } else {
            assert(s[k].0 != s[c].0);
        }
    }
}

/// A rotation other than 0, 90, 180 and 270 is refused by `setRotation`,
/// with the list of the valid ones, before the display is asked anything.
pub proof fn law_invalid_rotation_is_refused<'a, B, A, R, J>(
    s: Seq<(Seq<char>, Box<DaemonCommand<'a, B, A, R, J>>)>,
    backend: &'a B,
    controllers: &'a ControllerOps<A, R, J>,
    line: Seq<char>,
    r: CommandResult,
) where
    B: DisplayBackend,
    A: Fn(usize, &str) -> Result<(), String>,
    R: Fn(&str) -> Result<(), String>,
    J: Fn() -> Result<String, String>,

    requires
        is_daemon_registry(s, backend, controllers),
        crate::text::words(line).len() >= 2,
        crate::text::words(line)[0] == "setRotation"@,
        !is_rotation_word(crate::text::words(line)[1]),
        super::command_registry::dispatch(s, crate::text::words(line), r),
    ensures
        fails_with(r, rotation_refusal(crate::text::words(line)[1])),
{
    let w = crate::text::words(line);
    lemma_daemon_position(s, backend, controllers, 13);
    assert(daemon_names()[13] == "setRotation"@);
    assert(position(s, w[0]) == Some(13int));
    assert(s[13].1.action == Action::SetRotation);
    assert(action_arity(s[13].1.action) is None);
    assert(exists|a: &[&str]|
        super::command_registry::arg_views(a@) == w.drop_first() && #[trigger] s[13].1.answers(a, r));
    let a = choose|a: &[&str]|
        super::command_registry::arg_views(a@) == w.drop_first() && #[trigger] s[13].1.answers(a, r);
    assert(super::command_registry::arg_views(a@).len() == a@.len());
    assert(a@.len() >= 1);
    assert(a@[0]@ == super::command_registry::arg_views(a@)[0]);
    assert(a@[0]@ == w[1]);
}

/// `listCommands` replies with the list of all the commands, itself
/// included, ordered by name.
pub proof fn law_list_commands_lists_all<'a, B, A, R, J>(
    s: Seq<(Seq<char>, Box<DaemonCommand<'a, B, A, R, J>>)>,
    backend: &'a B,
    controllers: &'a ControllerOps<A, R, J>,
    line: Seq<char>,
    r: CommandResult,
) where
    B: DisplayBackend,
    A: Fn(usize, &str) -> Result<(), String>,
    R: Fn(&str) -> Result<(), String>,
    J: Fn() -> Result<String, String>,

    requires
        is_daemon_registry(s, backend, controllers),
        crate::text::words(line) == seq!["listCommands"@],
        super::command_registry::dispatch(s, crate::text::words(line), r),
    ensures
        r matches Ok(t) && t@ == catalog_text(by_name(listing(s))),
{
    let w = crate::text::words(line);
    lemma_daemon_position(s, backend, controllers, 17);
    assert(daemon_names()[17] == "listCommands"@);
    assert(position(s, w[0]) == Some(17int));
    let a = choose|a: &[&str]|
        super::command_registry::arg_views(a@) == w.drop_first() && #[trigger] s[17].1.answers(a, r);
}


/// The arguments of a command line, as the handler gets them: the screen
/// argument is the second word of the line, and the setters' screen the third.
proof fn lemma_arg_screens<'b>(a: &[&'b str], w: Seq<Seq<char>>)
    requires
        w.len() >= 1,
        super::command_registry::arg_views(a@) == w.drop_first(),
    ensures
        a@.len() == w.len() - 1,
        crate::text::opt_view(first_arg(a)) == (if w.len() > 1 { Some(w[1]) } else { None }),
        crate::text::opt_view(second_arg(a)) == (if w.len() > 2 { Some(w[2]) } else { None }),
        w.len() > 1 ==> a@[0]@ == w[1],
{
    assert(super::command_registry::arg_views(a@).len() == a@.len());
    if w.len() > 1 {
        assert(a@[0]@ == super::command_registry::arg_views(a@)[0]);
    }
    if w.len() > 2 {
        assert(a@[1]@ == super::command_registry::arg_views(a@)[1]);
    }
}

/// The daemon's command at `k`, asked with the words of `line` after its
/// name, gives `r`, with arguments that are those words.
proof fn lemma_daemon_answer<'a, B, A, R, J>(
    s: Seq<(Seq<char>, Box<DaemonCommand<'a, B, A, R, J>>)>,
    backend: &'a B,
    controllers: &'a ControllerOps<A, R, J>,
    line: Seq<char>,
    r: CommandResult,
    k: int,
) -> (a: &'a [&'a str]) where
    B: DisplayBackend,
    A: Fn(usize, &str) -> Result<(), String>,
    R: Fn(&str) -> Result<(), String>,
    J: Fn() -> Result<String, String>,

    requires
        is_daemon_registry(s, backend, controllers),
        0 <= k < 17,
        crate::text::words(line).len() >= 1,
        crate::text::words(line)[0] == daemon_names()[k],
        arity_fits(action_arity(daemon_actions()[k]), crate::text::words(line).len() - 1),
        super::command_registry::dispatch(s, crate::text::words(line), r),
    ensures
        super::command_registry::arg_views(a@) == crate::text::words(line).drop_first(),
        s[k].1.reply(a, r),
        s[k].1.backend == backend,
        s[k].1.controllers == controllers,
        s[k].1.action == daemon_actions()[k],
        a@.len() == crate::text::words(line).len() - 1,
        crate::text::opt_view(first_arg(a)) == (if crate::text::words(line).len() > 1 { Some(crate::text::words(line)[1]) } else { None }),
        crate::text::opt_view(second_arg(a)) == (if crate::text::words(line).len() > 2 { Some(crate::text::words(line)[2]) } else { None }),
        crate::text::words(line).len() > 1 ==> a@[0]@ == crate::text::words(line)[1],
{
    let w = crate::text::words(line);
    lemma_daemon_position(s, backend, controllers, k);
    assert(position(s, w[0]) == Some(k));
    assert(s[k].1.action == daemon_actions()[k]);
    let a = choose|a: &'a [&'a str]|
        super::command_registry::arg_views(a@) == w.drop_first() && #[trigger] s[k].1.answers(a, r);
    lemma_arg_screens(a, w);
    a
}

/// The daemon's display queries (`listModes`, `currentMode`,
/// `currentResolution`, `currentRotation`, `currentRefresh`) and
/// `minToMaxResolution` ask the backend about the screen named by the word
/// after the command, or about no screen in particular when there is none,
/// and reply with what the backend answered.
pub proof fn law_screen_queries_ask_about_the_named_screen<'a, B, A, R, J>(
    s: Seq<(Seq<char>, Box<DaemonCommand<'a, B, A, R, J>>)>,
    backend: &'a B,
    controllers: &'a ControllerOps<A, R, J>,
    line: Seq<char>,
    r: CommandResult,
) where
    B: DisplayBackend,
    A: Fn(usize, &str) -> Result<(), String>,
    R: Fn(&str) -> Result<(), String>,
    J: Fn() -> Result<String, String>,

    requires
        is_daemon_registry(s, backend, controllers),
        crate::text::words(line).len() >= 1,
        super::command_registry::dispatch(s, crate::text::words(line), r),
    ensures
        crate::text::words(line)[0] == "listModes"@ ==> exists|scr: Option<&str>, x: crate::error::Result<Vec<DisplayMode>>|
            #[trigger] call_ensures(B::list_modes, (backend, scr), x) && crate::text::opt_view(scr) == (if crate::text::words(line).len() > 1 { Some(crate::text::words(line)[1]) } else { None }) && match x {
                Ok(ms) => r matches Ok(t) && t@ == modes_text(mode_views(ms@)),
                Err(e) => execution_failure(r, e),
            },
        crate::text::words(line)[0] == "currentMode"@ ==> exists|scr: Option<&str>, x: crate::error::Result<DisplayMode>|
            #[trigger] call_ensures(B::current_mode, (backend, scr), x) && crate::text::opt_view(scr) == (if crate::text::words(line).len() > 1 { Some(crate::text::words(line)[1]) } else { None }) && match x {
                Ok(m) => r matches Ok(t) && t@ == mode_value_text(m.width, m.height, m.refresh_rate),
                Err(e) => execution_failure(r, e),
            },
        crate::text::words(line)[0] == "currentResolution"@ ==> exists|scr: Option<&str>, x: crate::error::Result<(u32, u32)>|
            #[trigger] call_ensures(B::current_resolution, (backend, scr), x) && crate::text::opt_view(scr) == (if crate::text::words(line).len() > 1 { Some(crate::text::words(line)[1]) } else { None }) && match x {
                Ok((wd, ht)) => r matches Ok(t) && t@ == dec(wd as nat) + "x"@ + dec(ht as nat),
                Err(e) => execution_failure(r, e),
            },
        crate::text::words(line)[0] == "currentRotation"@ ==> exists|scr: Option<&str>, x: crate::error::Result<u32>|
            #[trigger] call_ensures(B::current_rotation, (backend, scr), x) && crate::text::opt_view(scr) == (if crate::text::words(line).len() > 1 { Some(crate::text::words(line)[1]) } else { None }) && match x {
                Ok(d) => r matches Ok(t) && t@ == dec(d as nat),
                Err(e) => execution_failure(r, e),
            },
        crate::text::words(line)[0] == "currentRefresh"@ ==> exists|scr: Option<&str>, x: crate::error::Result<u32>|
            #[trigger] call_ensures(B::current_refresh_rate, (backend, scr), x) && crate::text::opt_view(scr) == (if crate::text::words(line).len() > 1 { Some(crate::text::words(line)[1]) } else { None }) && match x {
                Ok(f) => r matches Ok(t) && t@ == dec(f as nat) + "Hz"@,
                Err(e) => execution_failure(r, e),
            },
        crate::text::words(line)[0] == "minToMaxResolution"@ ==> exists|scr: Option<&str>, x: crate::error::Result<()>|
            #[trigger] call_ensures(B::set_max_resolution, (backend, scr, Some(DEFAULT_MAX_RESOLUTION)), x)
                && crate::text::opt_view(scr) == (if crate::text::words(line).len() > 1 { Some(crate::text::words(line)[1]) } else { None }) && unit_outcome(x, r, "Resolution set to maximum"@),
{
    let w = crate::text::words(line);
    if w[0] == "listModes"@ {
        let a = lemma_daemon_answer(s, backend, controllers, line, r, 5);
        assert(s[5].1.action == Action::ListModes);
    }
    if w[0] == "currentMode"@ {
        let a = lemma_daemon_answer(s, backend, controllers, line, r, 6);
        assert(s[6].1.action == Action::CurrentMode);
    }
    if w[0] == "currentResolution"@ {
        let a = lemma_daemon_answer(s, backend, controllers, line, r, 7);
        assert(s[7].1.action == Action::CurrentResolution);
    }
    if w[0] == "currentRotation"@ {
        let a = lemma_daemon_answer(s, backend, controllers, line, r, 8);
        assert(s[8].1.action == Action::CurrentRotation);
    }
    if w[0] == "currentRefresh"@ {
        let a = lemma_daemon_answer(s, backend, controllers, line, r, 9);
        assert(s[9].1.action == Action::CurrentRefresh);
    }
    if w[0] == "minToMaxResolution"@ {
        let a = lemma_daemon_answer(s, backend, controllers, line, r, 10);
        assert(s[10].1.action == Action::MinToMaxResolution);
    }
}


/// The four rotation words read as numbers.
proof fn lemma_rotation_word_value(v: Seq<char>)
    requires
        v == "0"@ || v == "90"@ || v == "180"@ || v == "270"@,
    ensures
        parse_unsigned(v, u32::MAX as int) matches Ok(n) && is_allowed_rotation(n) && (v == "0"@
            ==> n == 0) && (v == "90"@ ==> n == 90) && (v == "180"@ ==> n == 180) && (v == "270"@
            ==> n == 270),
{
    reveal_strlit("0");
    reveal_strlit("90");
    reveal_strlit("180");
    reveal_strlit("270");
    let m = u32::MAX as int;
    let k = crate::text::IntErrorKind::PosOverflow;
    assert(seq!['0'].drop_last() =~= Seq::<char>::empty());
    assert(seq!['9'].drop_last() =~= Seq::<char>::empty());
    assert(seq!['1'].drop_last() =~= Seq::<char>::empty());
    assert(seq!['2'].drop_last() =~= Seq::<char>::empty());
    assert(seq!['9', '0'].drop_last() =~= seq!['9']);
    assert(seq!['1', '8'].drop_last() =~= seq!['1']);
    assert(seq!['2', '7'].drop_last() =~= seq!['2']);
    assert(seq!['1', '8', '0'].drop_last() =~= seq!['1', '8']);
    assert(seq!['2', '7', '0'].drop_last() =~= seq!['2', '7']);
    assert(crate::text::is_digit('0') && crate::text::digit_val('0') == 0);
    assert(crate::text::scan_digits(Seq::<char>::empty(), m, k) == Ok::<int, crate::text::IntErrorKind>(0));
    assert(crate::text::scan_digits(seq!['0'], m, k) == Ok::<int, crate::text::IntErrorKind>(0));
    assert(crate::text::scan_digits(seq!['9'], m, k) == Ok::<int, crate::text::IntErrorKind>(9));
    assert(crate::text::scan_digits(seq!['1'], m, k) == Ok::<int, crate::text::IntErrorKind>(1));
    assert(crate::text::scan_digits(seq!['2'], m, k) == Ok::<int, crate::text::IntErrorKind>(2));
    assert(crate::text::scan_digits(seq!['9', '0'], m, k) == Ok::<int, crate::text::IntErrorKind>(90));
    assert(crate::text::scan_digits(seq!['1', '8'], m, k) == Ok::<int, crate::text::IntErrorKind>(18));
    assert(crate::text::scan_digits(seq!['2', '7'], m, k) == Ok::<int, crate::text::IntErrorKind>(27));
    assert(crate::text::scan_digits(seq!['1', '8', '0'], m, k) == Ok::<int, crate::text::IntErrorKind>(180));
    assert(crate::text::scan_digits(seq!['2', '7', '0'], m, k) == Ok::<int, crate::text::IntErrorKind>(270));
    if v == "0"@ {
        assert(v =~= seq!['0']);
    }
    if v == "90"@ {
        assert(v =~= seq!['9', '0']);
    }
    if v == "180"@ {
        assert(v =~= seq!['1', '8', '0']);
    }
    if v == "270"@ {
        assert(v =~= seq!['2', '7', '0']);
    }
}

/// `setRotation` with 0, 90, 180 or 270 asks the backend to rotate the
/// screen named by the word after the value (no screen in particular when
/// there is none) to that many degrees, and replies `Set to VALUE` when the
/// backend did it, or the backend's error.
pub proof fn law_valid_rotation_reaches_the_backend<'a, B, A, R, J>(
    s: Seq<(Seq<char>, Box<DaemonCommand<'a, B, A, R, J>>)>,
    backend: &'a B,
    controllers: &'a ControllerOps<A, R, J>,
    line: Seq<char>,
    r: CommandResult,
) where
    B: DisplayBackend,
    A: Fn(usize, &str) -> Result<(), String>,
    R: Fn(&str) -> Result<(), String>,
    J: Fn() -> Result<String, String>,
    requires
        is_daemon_registry(s, backend, controllers),
        crate::text::words(line).len() >= 2,
        crate::text::words(line)[0] == "setRotation"@,
        crate::text::words(line)[1] == "0"@ || crate::text::words(line)[1] == "90"@ || crate::text::words(line)[1] == "180"@ || crate::text::words(line)[1] == "270"@,
        super::command_registry::dispatch(s, crate::text::words(line), r),
    ensures
        exists|scr: Option<&str>, n: u32, x: crate::error::Result<()>|
            #[trigger] call_ensures(B::set_rotation, (backend, scr, &RotationParams { rotation: n }), x)
                && crate::text::opt_view(scr) == (if crate::text::words(line).len() > 2 { Some(crate::text::words(line)[2]) } else { None }) && (crate::text::words(line)[1] == "0"@ ==> n == 0) && (crate::text::words(line)[1] == "90"@ ==> n == 90)
                && (crate::text::words(line)[1] == "180"@ ==> n == 180) && (crate::text::words(line)[1] == "270"@ ==> n == 270)
                && unit_outcome(x, r, "Set to "@ + crate::text::words(line)[1]),
{
    let w = crate::text::words(line);
    let a = lemma_daemon_answer(s, backend, controllers, line, r, 13);
    assert(s[13].1.action == Action::SetRotation);
    reveal_strlit("0");
    reveal_strlit("90");
    reveal_strlit("180");
    reveal_strlit("270");
    lemma_rotation_word_value(w[1]);
    assert(is_rotation_word(w[1]));
}

/// `setMode VALUE [SCREEN]` asks the backend about the screen named by the
/// word after the value (no screen in particular when there is none): for a
/// value `max-WxH`, to lower its resolution within the limit after `max-`;
/// for a mode, to set that mode; and replies `Set to VALUE` when the backend
/// did it, or the backend's error.
pub proof fn law_set_mode_acts_on_the_named_screen<'a, B, A, R, J>(
    s: Seq<(Seq<char>, Box<DaemonCommand<'a, B, A, R, J>>)>,
    backend: &'a B,
    controllers: &'a ControllerOps<A, R, J>,
    line: Seq<char>,
    r: CommandResult,
) where
    B: DisplayBackend,
    A: Fn(usize, &str) -> Result<(), String>,
    R: Fn(&str) -> Result<(), String>,
    J: Fn() -> Result<String, String>,
    requires
        is_daemon_registry(s, backend, controllers),
        crate::text::words(line).len() >= 2,
        crate::text::words(line)[0] == "setMode"@,
        super::command_registry::dispatch(s, crate::text::words(line), r),
    ensures
        is_prefix("max-"@, crate::text::words(line)[1]) ==> exists|scr: Option<&str>, m: &str, x: crate::error::Result<()>|
            #[trigger] call_ensures(B::set_max_resolution, (backend, scr, Some(m)), x) && crate::text::opt_view(scr) == (if crate::text::words(line).len() > 2 { Some(crate::text::words(line)[2]) } else { None })
                && m@ == trim_prefix_all(crate::text::words(line)[1], "max-"@) && unit_outcome(x, r, "Set to "@ + crate::text::words(line)[1]),
        !is_prefix("max-"@, crate::text::words(line)[1]) && spec_parse_mode(crate::text::words(line)[1]) is Ok ==> exists|
            scr: Option<&str>,
            x: crate::error::Result<()>,
        |
            #[trigger] call_ensures(
                B::set_mode,
                (
                    backend,
                    scr,
                    &params_of(
                        spec_parse_mode(crate::text::words(line)[1])->Ok_0.0,
                        spec_parse_mode(crate::text::words(line)[1])->Ok_0.1,
                        spec_parse_mode(crate::text::words(line)[1])->Ok_0.2,
                    ),
                ),
                x,
            ) && crate::text::opt_view(scr) == (if crate::text::words(line).len() > 2 { Some(crate::text::words(line)[2]) } else { None }) && unit_outcome(x, r, "Set to "@ + crate::text::words(line)[1]),
{
    let w = crate::text::words(line);
    let a = lemma_daemon_answer(s, backend, controllers, line, r, 11);
    assert(s[11].1.action == Action::SetMode);
}


/// `setOutput MODE` asks the backend to set the mode it reads on every
/// output (no screen in particular), and replies that it was executed when
/// the backend did it, or with the backend's error.
pub proof fn law_set_output_sets_the_mode_everywhere<'a, B, A, R, J>(
    s: Seq<(Seq<char>, Box<DaemonCommand<'a, B, A, R, J>>)>,
    backend: &'a B,
    controllers: &'a ControllerOps<A, R, J>,
    line: Seq<char>,
    r: CommandResult,
) where
    B: DisplayBackend,
    A: Fn(usize, &str) -> Result<(), String>,
    R: Fn(&str) -> Result<(), String>,
    J: Fn() -> Result<String, String>,
    requires
        is_daemon_registry(s, backend, controllers),
        crate::text::words(line).len() == 2,
        crate::text::words(line)[0] == "setOutput"@,
        spec_parse_mode(crate::text::words(line)[1]) is Ok,
        super::command_registry::dispatch(s, crate::text::words(line), r),
    ensures
        exists|x: crate::error::Result<()>|
            #[trigger] call_ensures(
                B::set_mode,
                (
                    backend,
                    None::<&str>,
                    &params_of(
                        spec_parse_mode(crate::text::words(line)[1])->Ok_0.0,
                        spec_parse_mode(crate::text::words(line)[1])->Ok_0.1,
                        spec_parse_mode(crate::text::words(line)[1])->Ok_0.2,
                    ),
                ),
                x,
            ) && unit_outcome(x, r, "setOutput executed successfully"@),
{
    let a = lemma_daemon_answer(s, backend, controllers, line, r, 12);
    assert(s[12].1.action == Action::SetOutput);
    reveal_strlit("setOutput");
    reveal_strlit(" executed successfully");
    reveal_strlit("setOutput executed successfully");
    assert(executed_text("setOutput"@) =~= "setOutput executed successfully"@);
}

/// `addController INDEX GUID` with a number and a GUID asks the controller
/// table to add the controller with that GUID at that index, and
/// `removeController GUID` asks it to remove the controllers with that GUID;
/// each replies that it was executed when the table did it, or with the
/// table's error.
pub proof fn law_controller_commands_pass_their_arguments<'a, B, A, R, J>(
    s: Seq<(Seq<char>, Box<DaemonCommand<'a, B, A, R, J>>)>,
    backend: &'a B,
    controllers: &'a ControllerOps<A, R, J>,
    line: Seq<char>,
    r: CommandResult,
) where
    B: DisplayBackend,
    A: Fn(usize, &str) -> Result<(), String>,
    R: Fn(&str) -> Result<(), String>,
    J: Fn() -> Result<String, String>,
    requires
        is_daemon_registry(s, backend, controllers),
        super::command_registry::dispatch(s, crate::text::words(line), r),
    ensures
        crate::text::words(line).len() == 3 && crate::text::words(line)[0] == "addController"@ && parse_unsigned(trim_ws(crate::text::words(line)[1]), usize::MAX as int)
            is Ok && trim_ws(crate::text::words(line)[2]).len() > 0 ==> exists|g: &str, out: Result<(), String>|
            #[trigger] call_ensures(
                controllers.add,
                (parse_unsigned(trim_ws(crate::text::words(line)[1]), usize::MAX as int)->Ok_0 as usize, g),
                out,
            ) && g@ == trim_ws(crate::text::words(line)[2]) && unit_lifted(out, "addController executed successfully"@, r),
        crate::text::words(line).len() == 2 && crate::text::words(line)[0] == "removeController"@ && trim_ws(crate::text::words(line)[1]).len() > 0 ==> exists|
            g: &str,
            out: Result<(), String>,
        | #[trigger] call_ensures(controllers.remove, (g,), out) && g@ == trim_ws(crate::text::words(line)[1]) && unit_lifted(
            out,
            "removeController executed successfully"@,
            r,
        ),
{
    let w = crate::text::words(line);
    reveal_strlit("addController");
    reveal_strlit("removeController");
    reveal_strlit(" executed successfully");
    reveal_strlit("addController executed successfully");
    reveal_strlit("removeController executed successfully");
    assert(executed_text("addController"@) =~= "addController executed successfully"@);
    assert(executed_text("removeController"@) =~= "removeController executed successfully"@);
    if w.len() == 3 && w[0] == "addController"@ {
        let a = lemma_daemon_answer(s, backend, controllers, line, r, 14);
        assert(s[14].1.action == Action::AddController);
        assert(a@[1]@ == w[2]) by {
            assert(super::command_registry::arg_views(a@)[1] == w.drop_first()[1]);
        }
    }
    if w.len() == 2 && w[0] == "removeController"@ && trim_ws(w[1]).len() > 0 {
        let a = lemma_daemon_answer(s, backend, controllers, line, r, 15);
        assert(s[15].1.action == Action::RemoveController);
    }
}

} // verus!
