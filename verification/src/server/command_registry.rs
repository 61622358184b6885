//! The command registry: named command handlers, the reading of a command
//! line into a command and its arguments, the check of the number of
//! arguments, and the listing of the commands.
use crate::text::{
    chars_of, concat2, dec, join_with, pair_views, push_char, push_dec, push_str, seq_lt, str_eq,
    str_lt, split_whitespace, words,
};
use vstd::prelude::*;

verus! {

// ---------------------------------------------------------------------------
// Errors and results
// ---------------------------------------------------------------------------

/// Why a command line was not carried out.
#[derive(Debug)]
pub enum CommandError {
    /// The command got the wrong arguments.
    InvalidArguments(String),
    /// No command has this name.
    UnknownCommand(String),
    /// The command ran and failed with this message.
    ExecutionError(String),
    /// The command line holds no word.
    EmptyCommand,
}

/// The text of a command error.
pub open spec fn command_error_text(e: CommandError) -> Seq<char> {
    match e {
        CommandError::InvalidArguments(m) => "Invalid arguments: "@ + m@,
        CommandError::UnknownCommand(c) => "Unknown command: "@ + c@,
        CommandError::ExecutionError(m) => "Execution error: "@ + m@,
        CommandError::EmptyCommand => "Empty command"@,
    }
}

impl CommandError {
    /// The text of the error.
    pub fn message(&self) -> (s: String)
        ensures
            s@ == command_error_text(*self),
    {
        match self {
            CommandError::InvalidArguments(m) => concat2("Invalid arguments: ", m.as_str()),
            CommandError::UnknownCommand(c) => concat2("Unknown command: ", c.as_str()),
            CommandError::ExecutionError(m) => concat2("Execution error: ", m.as_str()),
            CommandError::EmptyCommand => String::from_str("Empty command"),
        }
    }
}

/// The result of a command: its reply, or why it failed.
pub type CommandResult = Result<String, CommandError>;

/// The reply of a command made from what its function returned: the text
/// itself, or an execution error with the message.
pub open spec fn lifted(out: Result<String, String>, r: CommandResult) -> bool {
    match out {
        Ok(s) => r == Ok::<String, CommandError>(s),
        Err(m) => r == Err::<String, CommandError>(CommandError::ExecutionError(m)),
    }
}

/// The plain values of the arguments.
pub open spec fn arg_views(a: Seq<&str>) -> Seq<Seq<char>> {
    a.map_values(|x: &str| x@)
}

// ---------------------------------------------------------------------------
// Handlers
// ---------------------------------------------------------------------------

/// A command that the registry can run.
pub trait CommandHandler {
    /// The description of the command.
    spec fn describes(&self) -> Seq<char>;

    /// The number of arguments the command takes, if it is fixed.
    spec fn arity(&self) -> Option<usize>;

    /// The command can be run with the arguments `args`.
    spec fn ready(&self, args: &[&str]) -> bool;

    /// `r` is a possible reply of the command to the arguments `args`.
    spec fn answers(&self, args: &[&str], r: CommandResult) -> bool;

    /// Runs the command with the given arguments.
    fn execute(&self, args: &[&str]) -> (r: CommandResult)
        requires
            self.ready(args),
        ensures
            self.answers(args, r),
    ;

    /// The description of the command.
    fn description(&self) -> (d: &str)
        ensures
            d@ == self.describes(),
    ;

    /// The number of arguments the command takes (`None`: any number).
    fn expected_args(&self) -> (n: Option<usize>)
        ensures
            n == self.arity(),
    ;
}

/// A command without arguments whose function returns the reply.
pub struct SimpleCommand<F: Fn() -> Result<String, String>> {
    pub description: String,
    pub executor: F,
}

impl<F: Fn() -> Result<String, String>> CommandHandler for SimpleCommand<F> {
    open spec fn describes(&self) -> Seq<char> {
        self.description@
    }

    open spec fn arity(&self) -> Option<usize> {
        Some(0)
    }

    open spec fn ready(&self, args: &[&str]) -> bool {
        call_requires(self.executor, ())
    }

    open spec fn answers(&self, args: &[&str], r: CommandResult) -> bool {
        exists|out: Result<String, String>| call_ensures(self.executor, (), out) && lifted(out, r)
    }

    fn execute(&self, args: &[&str]) -> (r: CommandResult) {
        let out = (self.executor)();
        let ghost o = out;
        let r = match out {
            Ok(s) => Ok(s),
            Err(m) => Err(CommandError::ExecutionError(m)),
        };
        proof {
            assert(call_ensures(self.executor, (), o) && lifted(o, r));
        }
        r
    }

    fn description(&self) -> (d: &str) {
        self.description.as_str()
    }

    fn expected_args(&self) -> (n: Option<usize>) {
        Some(0)
    }
}

/// The reply of a command that takes a fixed number of arguments and
/// succeeded: `NAME executed successfully`.
pub open spec fn executed_text(name: Seq<char>) -> Seq<char> {
    name + " executed successfully"@
}

/// A command with a fixed number of arguments; its function returns nothing
/// and the reply names the command.
pub struct ArgCommand<F: Fn(&[&str]) -> Result<(), String>> {
    pub name: String,
    pub description: String,
    pub expected_args: usize,
    pub executor: F,
}

impl<F: Fn(&[&str]) -> Result<(), String>> CommandHandler for ArgCommand<F> {
    open spec fn describes(&self) -> Seq<char> {
        self.description@
    }

    open spec fn arity(&self) -> Option<usize> {
        Some(self.expected_args)
    }

    open spec fn ready(&self, args: &[&str]) -> bool {
        call_requires(self.executor, (args,))
    }

    open spec fn answers(&self, args: &[&str], r: CommandResult) -> bool {
        exists|out: Result<(), String>|
            call_ensures(self.executor, (args,), out) && match out {
                Ok(_) => r matches Ok(s) && s@ == executed_text(self.name@),
                Err(m) => r == Err::<String, CommandError>(CommandError::ExecutionError(m)),
            }
    }

    fn execute(&self, args: &[&str]) -> (r: CommandResult) {
        let out = (self.executor)(args);
        let ghost o = out;
        match out {
            Ok(_) => Ok(concat2(self.name.as_str(), " executed successfully")),
            Err(m) => Err(CommandError::ExecutionError(m)),
        }
    }

    fn description(&self) -> (d: &str) {
        self.description.as_str()
    }

    fn expected_args(&self) -> (n: Option<usize>) {
        Some(self.expected_args)
    }
}

/// The screen a screen command is asked about: its first argument, if any.
pub open spec fn first_arg<'a>(args: &[&'a str]) -> Option<&'a str> {
    if args@.len() == 0 {
        None
    } else {
        Some(args@[0])
    }
}

/// A command about a screen, named by its optional first argument.
pub struct ScreenCommand<F: Fn(Option<&str>) -> Result<String, String>> {
    pub description: String,
    pub executor: F,
}

impl<F: Fn(Option<&str>) -> Result<String, String>> CommandHandler for ScreenCommand<F> {
    open spec fn describes(&self) -> Seq<char> {
        self.description@
    }

    open spec fn arity(&self) -> Option<usize> {
        None
    }

    open spec fn ready(&self, args: &[&str]) -> bool {
        call_requires(self.executor, (first_arg(args),))
    }

    open spec fn answers(&self, args: &[&str], r: CommandResult) -> bool {
        exists|out: Result<String, String>|
            call_ensures(self.executor, (first_arg(args),), out) && lifted(out, r)
    }

    fn execute(&self, args: &[&str]) -> (r: CommandResult) {
        let screen = if args.len() == 0 {
            None
        } else {
            Some(args[0])
        };
        let out = (self.executor)(screen);
        let ghost o = out;
        let r = match out {
            Ok(s) => Ok(s),
            Err(m) => Err(CommandError::ExecutionError(m)),
        };
        proof {
            assert(call_ensures(self.executor, (first_arg(args),), o) && lifted(o, r));
        }
        r
    }

    fn description(&self) -> (d: &str) {
        self.description.as_str()
    }

    fn expected_args(&self) -> (n: Option<usize>) {
        None
    }
}

/// The screen a setter is asked to change: its optional second argument.
pub open spec fn second_arg<'a>(args: &[&'a str]) -> Option<&'a str> {
    if args@.len() > 1 {
        Some(args@[1])
    } else {
        None
    }
}

/// The reply of a setter that succeeded: `Set to VALUE`.
pub open spec fn set_text(value: Seq<char>) -> Seq<char> {
    "Set to "@ + value
}

/// The error of a setter called without a value.
pub open spec fn missing_argument(r: CommandResult) -> bool {
    r matches Err(CommandError::InvalidArguments(m)) && m@ == "Missing required argument"@
}

/// A command that sets a value (its first argument) on a screen (its
/// optional second argument).
pub struct ScreenSetterCommand<F: Fn(Option<&str>, &str) -> Result<(), String>> {
    pub description: String,
    pub executor: F,
}

impl<F: Fn(Option<&str>, &str) -> Result<(), String>> CommandHandler for ScreenSetterCommand<F> {
    open spec fn describes(&self) -> Seq<char> {
        self.description@
    }

    open spec fn arity(&self) -> Option<usize> {
        None
    }

    open spec fn ready(&self, args: &[&str]) -> bool {
        args@.len() > 0 ==> call_requires(self.executor, (second_arg(args), args@[0]))
    }

    open spec fn answers(&self, args: &[&str], r: CommandResult) -> bool {
        if args@.len() == 0 {
            missing_argument(r)
        } else {
            exists|out: Result<(), String>|
                call_ensures(self.executor, (second_arg(args), args@[0]), out) && match out {
                    Ok(_) => r matches Ok(s) && s@ == set_text(args@[0]@),
                    Err(m) => r == Err::<String, CommandError>(CommandError::ExecutionError(m)),
                }
        }
    }

    fn execute(&self, args: &[&str]) -> (r: CommandResult) {
        if args.len() == 0 {
            return Err(CommandError::InvalidArguments(String::from_str("Missing required argument")));
        }
        let value = args[0];
        let screen = if args.len() > 1 {
            Some(args[1])
        } else {
            None
        };
        let out = (self.executor)(screen, value);
        let ghost o = out;
        match out {
            Ok(_) => Ok(concat2("Set to ", value)),
            Err(m) => Err(CommandError::ExecutionError(m)),
        }
    }

    fn description(&self) -> (d: &str) {
        self.description.as_str()
    }

    fn expected_args(&self) -> (n: Option<usize>) {
        None
    }
}

/// A handler for a command without arguments.
pub fn simple_command<F: Fn() -> Result<String, String>>(
    name: &str,
    description: &str,
    executor: F,
) -> (h: Box<SimpleCommand<F>>)
    ensures
        h.description@ == description@,
        h.executor == executor,
{
    Box::new(SimpleCommand { description: String::from_str(description), executor })
}

/// A handler for a command with a fixed number of arguments.
pub fn arg_command<F: Fn(&[&str]) -> Result<(), String>>(
    name: &str,
    description: &str,
    expected_args: usize,
    executor: F,
) -> (h: Box<ArgCommand<F>>)
    ensures
        h.name@ == name@,
        h.description@ == description@,
        h.expected_args == expected_args,
        h.executor == executor,
{
    Box::new(
        ArgCommand {
            name: String::from_str(name),
            description: String::from_str(description),
            expected_args,
            executor,
        },
    )
}

/// A handler for a command about an optional screen.
pub fn screen_command<F: Fn(Option<&str>) -> Result<String, String>>(
    description: &str,
    executor: F,
) -> (h: Box<ScreenCommand<F>>)
    ensures
        h.description@ == description@,
        h.executor == executor,
{
    Box::new(ScreenCommand { description: String::from_str(description), executor })
}

/// A handler for a command that sets a value on an optional screen.
pub fn screen_setter_command<F: Fn(Option<&str>, &str) -> Result<(), String>>(
    description: &str,
    executor: F,
) -> (h: Box<ScreenSetterCommand<F>>)
    ensures
        h.description@ == description@,
        h.executor == executor,
{
    Box::new(ScreenSetterCommand { description: String::from_str(description), executor })
}

// ---------------------------------------------------------------------------
// Listing
// ---------------------------------------------------------------------------

/// The position of the first entry whose name comes first.
pub open spec fn first_least(s: Seq<(Seq<char>, Seq<char>)>) -> int
    decreases s.len(),
{
    if s.len() <= 1 {
        0
    } else {
        let m = first_least(s.drop_last());
        if seq_lt(s.last().0, s[m].0) {
            s.len() - 1
        } else {
            m
        }
    }
}

/// The position of the first least entry is a position of the sequence.
pub proof fn lemma_first_least_bounds(s: Seq<(Seq<char>, Seq<char>)>)
    requires
        s.len() > 0,
    ensures
        0 <= first_least(s) < s.len(),
    decreases s.len(),
{
    if s.len() > 1 {
        lemma_first_least_bounds(s.drop_last());
    }
}

/// The entries ordered by name: the first least one, then the rest ordered
/// by name.
pub open spec fn by_name(s: Seq<(Seq<char>, Seq<char>)>) -> Seq<(Seq<char>, Seq<char>)>
    decreases s.len(),
{
    if s.len() == 0 {
        Seq::empty()
    } else {
        let m = first_least(s);
        proof {
            lemma_first_least_bounds(s);
        }
        seq![s[m]] + by_name(s.remove(m))
    }
}

/// One line of the command list: `NAME: DESCRIPTION`.
pub open spec fn catalog_line(p: (Seq<char>, Seq<char>)) -> Seq<char> {
    p.0 + ": "@ + p.1
}

/// The lines of the given entries, one per line.
pub open spec fn catalog_text(s: Seq<(Seq<char>, Seq<char>)>) -> Seq<char> {
    join_with(s.map_values(|p: (Seq<char>, Seq<char>)| catalog_line(p)), '\n')
}

/// The position of the first entry with the least name.
fn least_index(v: &Vec<(String, String)>) -> (m: usize)
    requires
        v.len() > 0,
    ensures
        m == first_least(pair_views(v@)),
        m < v.len(),
{
    let ghost ps = pair_views(v@);
    let mut m: usize = 0;
    let mut i: usize = 1;
    while i < v.len()
        invariant
            1 <= i <= v.len(),
            ps == pair_views(v@),
            m < i,
            m == first_least(ps.take(i as int)),
        decreases v.len() - i,
    {
        proof {
            assert(ps.take(i + 1).drop_last() =~= ps.take(i as int));
            assert(ps.take(i + 1).last() == ps[i as int]);
            assert(ps.take(i + 1)[m as int] == ps[m as int]);
        }
        if str_lt(v[i].0.as_str(), v[m].0.as_str()) {
            m = i;
        }
        i = i + 1;
    }
    proof {
        assert(ps.take(v.len() as int) =~= ps);
    }
    m
}

/// The list of the given (name, description) pairs ordered by name, one
/// `NAME: DESCRIPTION` line each.
pub fn catalog(pairs: Vec<(String, String)>) -> (s: String)
    ensures
        s@ == catalog_text(by_name(pair_views(pairs@))),
{
    let ghost total = by_name(pair_views(pairs@));
    let mut rest = pairs;
    let mut s = String::new();
    let mut first = true;
    let ghost mut lines: Seq<(Seq<char>, Seq<char>)> = Seq::empty();
    while rest.len() > 0
        invariant
            total == lines + by_name(pair_views(rest@)),
            first == (lines.len() == 0),
            s@ == catalog_text(lines),
        decreases rest.len(),
    {
        let ghost before = pair_views(rest@);
        let m = least_index(&rest);
        let p = rest.remove(m);
        proof {
            assert(pair_views(rest@) =~= before.remove(m as int));
            assert(before[m as int] == (p.0@, p.1@));
            assert(by_name(before) == seq![before[m as int]] + by_name(before.remove(m as int)));
        }
        let ghost old_lines = lines;
        if !first {
            push_char(&mut s, '\n');
        }
        push_str(&mut s, p.0.as_str());
        push_str(&mut s, ": ");
        push_str(&mut s, p.1.as_str());
        proof {
            lines = old_lines.push((p.0@, p.1@));
            assert(lines + by_name(pair_views(rest@)) =~= old_lines + (seq![before[m as int]]
                + by_name(before.remove(m as int))));
            let ls = lines.map_values(|q: (Seq<char>, Seq<char>)| catalog_line(q));
            assert(ls.drop_last() =~= old_lines.map_values(
                |q: (Seq<char>, Seq<char>)| catalog_line(q),
            ));
            if first {
                assert(ls =~= seq![catalog_line((p.0@, p.1@))]);
            }
        }
        first = false;
    }
    proof {
        assert(lines + by_name(pair_views(rest@)) =~= lines);
    }
    s
}

// ---------------------------------------------------------------------------
// The registry
// ---------------------------------------------------------------------------

/// The commands, each under its own name.
pub struct CommandRegistry<H: ?Sized> {
    commands: Vec<(String, Box<H>)>,
}

impl<H: ?Sized> View for CommandRegistry<H> {
    type V = Seq<(Seq<char>, Box<H>)>;

    closed spec fn view(&self) -> Seq<(Seq<char>, Box<H>)> {
        self.commands@.map_values(|e: (String, Box<H>)| (e.0@, e.1))
    }
}

/// `len` arguments are as many as a command of arity `n` takes.
pub open spec fn arity_fits(n: Option<usize>, len: int) -> bool {
    match n {
        Some(k) => len == k,
        None => true,
    }
}

/// The handler can be run with any argument list whose length it takes.
pub open spec fn runnable<H: ?Sized + CommandHandler>(h: Box<H>) -> bool {
    forall|a: &[&str]| arity_fits(h.arity(), a@.len() as int) ==> #[trigger] h.ready(a)
}

/// The names of the entries are distinct.
pub open spec fn distinct_names<H: ?Sized>(s: Seq<(Seq<char>, Box<H>)>) -> bool {
    forall|i: int, j: int| 0 <= i < j < s.len() ==> (#[trigger] s[i]).0 != (#[trigger] s[j]).0
}

/// The position of the entry named `name`, if there is one.
pub open spec fn position<H: ?Sized>(s: Seq<(Seq<char>, Box<H>)>, name: Seq<char>) -> Option<int> {
    if exists|i: int| 0 <= i < s.len() && (#[trigger] s[i]).0 == name {
        Some(choose|i: int| 0 <= i < s.len() && (#[trigger] s[i]).0 == name)
    } else {
        None
    }
}

/// The (name, description) pairs of the entries.
pub open spec fn listing<H: ?Sized + CommandHandler>(s: Seq<(Seq<char>, Box<H>)>) -> Seq<
    (Seq<char>, Seq<char>),
> {
    s.map_values(|e: (Seq<char>, Box<H>)| (e.0, e.1.describes()))
}

/// The error of a command called with the wrong number of arguments.
pub open spec fn arity_error(cmd: Seq<char>, expected: usize, got: nat, r: CommandResult) -> bool {
    r matches Err(CommandError::InvalidArguments(m)) && m@ == cmd + " expects "@ + dec(
        expected as nat,
    ) + " arguments, got "@ + dec(got)
}

/// What the registry `s` replies to a command line whose words are `w`.
pub open spec fn dispatch<H: ?Sized + CommandHandler>(
    s: Seq<(Seq<char>, Box<H>)>,
    w: Seq<Seq<char>>,
    r: CommandResult,
) -> bool {
    if w.len() == 0 {
        r matches Err(CommandError::EmptyCommand)
    } else {
        match position(s, w[0]) {
            None => r matches Err(CommandError::UnknownCommand(c)) && c@ == w[0],
            Some(i) => match s[i].1.arity() {
                Some(n) if n != w.len() - 1 => arity_error(w[0], n, (w.len() - 1) as nat, r),
                _ => exists|a: &[&str]|
                    arg_views(a@) == w.drop_first() && #[trigger] s[i].1.answers(a, r),
            },
        }
    }
}

impl CommandRegistry<dyn CommandHandler> {
    /// An empty registry of commands of any kind.
    pub fn new() -> (r: Self)
        ensures
            r@ == Seq::<(Seq<char>, Box<dyn CommandHandler>)>::empty(),
            r.wf(),
    {
        let r = CommandRegistry { commands: Vec::new() };
        proof {
            assert(r@ =~= Seq::<(Seq<char>, Box<dyn CommandHandler>)>::empty());
        }
        r
    }
}

impl<H: ?Sized + CommandHandler> CommandRegistry<H> {
    /// The names are distinct and every command can be run with any number
    /// of arguments that it takes.
    pub open spec fn wf(&self) -> bool {
        &&& distinct_names(self@)
        &&& forall|i: int| 0 <= i < self@.len() ==> runnable(#[trigger] self@[i].1)
    }

    /// An empty registry.
    pub fn empty() -> (r: Self)
        ensures
            r@ == Seq::<(Seq<char>, Box<H>)>::empty(),
            r.wf(),
    {
        let r = CommandRegistry { commands: Vec::new() };
        proof {
            assert(r@ =~= Seq::<(Seq<char>, Box<H>)>::empty());
        }
        r
    }

    /// The position of the command named `name`.
    fn find(&self, name: &str) -> (r: Option<usize>)
        ensures
            match r {
                Some(i) => i < self@.len() && self@[i as int].0 == name@,
                None => position(self@, name@) is None,
            },
    {
        let mut i: usize = 0;
        while i < self.commands.len()
            invariant
                0 <= i <= self.commands.len(),
                self@.len() == self.commands.len(),
                forall|j: int| 0 <= j < i ==> (#[trigger] self@[j]).0 != name@,
            decreases self.commands.len() - i,
        {
            proof {
                assert(self@[i as int].0 == self.commands@[i as int].0@);
            }
            if str_eq(self.commands[i].0.as_str(), name) {
                return Some(i);
            }
            i = i + 1;
        }
        None
    }

    /// Registers a command under `name`, in place of the command of that
    /// name if there is one.
    pub fn register(&mut self, name: &str, handler: Box<H>)
        requires
            old(self).wf(),
            runnable(handler),
        ensures
            final(self).wf(),
            match position(old(self)@, name@) {
                Some(i) => final(self)@ == old(self)@.update(i, (name@, handler)),
                None => final(self)@ == old(self)@.push((name@, handler)),
            },
    {
        let ghost h = handler;
        match self.find(name) {
            Some(i) => {
                let ghost before = self.commands@;
                self.commands.set(i, (String::from_str(name), handler));
                proof {
                    assert(self@ =~= old(self)@.update(i as int, (name@, h)));
                    assert(distinct_names(old(self)@));
                    assert(position(old(self)@, name@) == Some(i as int)) by {
                        let c = choose|k: int| 0 <= k < old(self)@.len() && (#[trigger] old(self)@[k]).0 == name@;
                        if c != i as int {
                            if c < i as int {
                                assert(old(self)@[c].0 != old(self)@[i as int].0);
                            } else {
                                assert(old(self)@[i as int].0 != old(self)@[c].0);
                            }
                        }
                    }
                }
            },
            None => {
                self.commands.push((String::from_str(name), handler));
                proof {
                    assert(self@ =~= old(self)@.push((name@, h)));
                    assert forall|j: int| 0 <= j < old(self)@.len() implies (#[trigger] old(self)@[j]).0 != name@ by {
                        if old(self)@[j].0 == name@ {
                            assert(exists|k: int| 0 <= k < old(self)@.len() && (#[trigger] old(self)@[k]).0 == name@);
                        }
                    }
                }
            },
        }
    }

    /// Reads a command line: its first word names the command, the others
    /// are the arguments. An empty line, an unknown name and a wrong number of
    /// arguments are refused; otherwise the command runs.
    pub fn handle(&self, cmdline: &str) -> (r: CommandResult)
        requires
            self.wf(),
        ensures
            dispatch(self@, words(cmdline@), r),
    {
        let parts = split_whitespace(cmdline);
        let ghost w = words(cmdline@);
        proof {
            assert(parts@.len() == w.len());
        }
        if parts.len() == 0 {
            return Err(CommandError::EmptyCommand);
        }
        let cmd = parts[0].as_str();
        proof {
            assert(cmd@ == w[0]);
        }
        match self.find(cmd) {
            None => Err(CommandError::UnknownCommand(String::from_str(cmd))),
            Some(i) => {
                proof {
                    assert(position(self@, w[0]) == Some(i as int)) by {
                        let c = choose|k: int| 0 <= k < self@.len() && (#[trigger] self@[k]).0 == w[0];
                        if c != i as int {
                            if c < i as int {
                                assert(self@[c].0 != self@[i as int].0);
                            } else {
                                assert(self@[i as int].0 != self@[c].0);
                            }
                        }
                    }
                    assert(self@[i as int].1 == self.commands@[i as int].1);
                }
                let handler = &self.commands[i].1;
                let got = parts.len() - 1;
                match handler.expected_args() {
                    Some(n) => {
                        if n != got {
                            let mut m = String::from_str(cmd);
                            push_str(&mut m, " expects ");
                            push_dec(&mut m, n as u64);
                            push_str(&mut m, " arguments, got ");
                            push_dec(&mut m, got as u64);
                            return Err(CommandError::InvalidArguments(m));
                        }
                    },
                    None => {},
                }
                let mut args: Vec<&str> = Vec::new();
                let mut k: usize = 1;
                while k < parts.len()
                    invariant
                        1 <= k <= parts.len(),
                        parts@.map_values(|x: String| x@) == w,
                        arg_views(args@) == w.subrange(1, k as int),
                    decreases parts.len() - k,
                {
                    let x = parts[k].as_str();
                    let ghost before = args@;
                    args.push(x);
                    proof {
                        assert(w[k as int] == parts@[k as int]@);
                        assert(x@ == w[k as int]);
                        assert(arg_views(args@) =~= arg_views(before).push(x@));
                        assert(arg_views(args@) =~= w.subrange(1, k + 1));
                    }
                    k = k + 1;
                }
                let a = args.as_slice();
                proof {
                    assert(w.subrange(1, w.len() as int) =~= w.drop_first());
                }
                let r = handler.execute(a);
                proof {
                    assert(arg_views(a@) == w.drop_first() && self@[i as int].1.answers(a, r));
                }
                r
            },
        }
    }

    /// The (name, description) pairs of the commands, in the registry's order.
    pub(crate) fn listing_pairs(&self) -> (pairs: Vec<(String, String)>)
        ensures
            pair_views(pairs@) == listing(self@),
    {
        let mut pairs: Vec<(String, String)> = Vec::new();
        let mut i: usize = 0;
        while i < self.commands.len()
            invariant
                0 <= i <= self.commands.len(),
                self@.len() == self.commands.len(),
                pair_views(pairs@) == listing(self@).take(i as int),
            decreases self.commands.len() - i,
        {
            let name = self.commands[i].0.clone();
            let d = String::from_str(self.commands[i].1.description());
            let ghost before = pairs@;
            let ghost item = (name@, d@);
            proof {
                assert(self@[i as int] == (self.commands@[i as int].0@, self.commands@[i as int].1));
                assert(listing(self@)[i as int] == item);
            }
            pairs.push((name, d));
            proof {
                assert(pair_views(pairs@) =~= pair_views(before).push(item));
                assert(pair_views(pairs@) =~= listing(self@).take(i + 1));
            }
            i = i + 1;
        }
        proof {
            assert(listing(self@).take(i as int) =~= listing(self@));
        }
        pairs
    }

    /// The commands ordered by name, one `NAME: DESCRIPTION` line each.
    pub fn list_commands(&self) -> (s: String)
        ensures
            s@ == catalog_text(by_name(listing(self@))),
    {
        catalog(self.listing_pairs())
    }
}

// ---------------------------------------------------------------------------
// Laws
// ---------------------------------------------------------------------------

/// The registry's reading of a registration: `h` in place of the command
/// named `name`, or added after the others.
pub open spec fn registered<H: ?Sized>(s: Seq<(Seq<char>, Box<H>)>, name: Seq<char>, h: Box<H>) -> Seq<
    (Seq<char>, Box<H>),
> {
    match position(s, name) {
        Some(i) => s.update(i, (name, h)),
        None => s.push((name, h)),
    }
}

/// A command registered under a name is the command found under that name
/// afterwards, and the names stay distinct.
pub proof fn law_registered_command_is_found<H: ?Sized>(
    s: Seq<(Seq<char>, Box<H>)>,
    name: Seq<char>,
    h: Box<H>,
)
    requires
        distinct_names(s),
    ensures
        distinct_names(registered(s, name, h)),
        position(registered(s, name, h), name) matches Some(i) && registered(s, name, h)[i] == (
            name,
            h,
        ),
{
    let s2 = registered(s, name, h);
    match position(s, name) {
        Some(i) => {
            let c = choose|k: int| 0 <= k < s.len() && (#[trigger] s[k]).0 == name;
            assert(s2[c].0 == name);
            assert forall|a: int, b: int| 0 <= a < b < s2.len() implies (#[trigger] s2[a]).0
                != (#[trigger] s2[b]).0 by {
                if a == c {
                    assert(s[b].0 != s[c].0);
                } else if b == c {
                    assert(s[a].0 != s[c].0);
                }
            }
            let d = choose|k: int| 0 <= k < s2.len() && (#[trigger] s2[k]).0 == name;
            if d != c {
                if d < c {
                    assert(s2[d].0 != s2[c].0);
                } else {
                    assert(s2[c].0 != s2[d].0);
                }
            }
        },
        None => {
            assert(s2[s.len() as int].0 == name);
            assert forall|a: int, b: int| 0 <= a < b < s2.len() implies (#[trigger] s2[a]).0
                != (#[trigger] s2[b]).0 by {
                if b == s.len() {
                    assert(!(0 <= a < s.len() && s[a].0 == name));
                }
            }
            let d = choose|k: int| 0 <= k < s2.len() && (#[trigger] s2[k]).0 == name;
            if d != s.len() {
                assert(s[d].0 == name);
            }
        },
    }
}

/// No entry's name comes before the name of the first least entry.
pub proof fn lemma_first_least_is_least(s: Seq<(Seq<char>, Seq<char>)>)
    requires
        s.len() > 0,
    ensures
        forall|k: int| 0 <= k < s.len() ==> !seq_lt(#[trigger] s[k].0, s[first_least(s)].0),
    decreases s.len(),
{
    if s.len() > 1 {
        let t = s.drop_last();
        lemma_first_least_is_least(t);
        lemma_first_least_bounds(t);
        let m = first_least(t);
        assert(t[m] == s[m]);
        let last = s.len() - 1;
        if seq_lt(s[last].0, s[m].0) {
            assert forall|k: int| 0 <= k < s.len() implies !seq_lt(#[trigger] s[k].0, s[last].0) by {
                if k == last {
                    crate::text::lemma_seq_lt_irreflexive(s[k].0);
                } else if seq_lt(s[k].0, s[last].0) {
                    assert(t[k] == s[k]);
                    crate::text::lemma_seq_lt_transitive(s[k].0, s[last].0, s[m].0);
                }
            }
        } else {
            assert forall|k: int| 0 <= k < s.len() implies !seq_lt(#[trigger] s[k].0, s[m].0) by {
                if k < last {
                    assert(t[k] == s[k]);
                }
            }
        }
    } else {
        crate::text::lemma_seq_lt_irreflexive(s[0].0);
    }
}

/// The names of a sequence of (name, description) pairs are distinct.
pub open spec fn distinct_pair_names(s: Seq<(Seq<char>, Seq<char>)>) -> bool {
    forall|i: int, j: int| 0 <= i < j < s.len() ==> (#[trigger] s[i]).0 != (#[trigger] s[j]).0
}

/// The list of the commands holds every command once, ordered by name:
/// each name comes before the next one.
pub proof fn law_listing_is_sorted(s: Seq<(Seq<char>, Seq<char>)>)
    requires
        distinct_pair_names(s),
    ensures
        by_name(s).len() == s.len(),
        by_name(s).to_multiset() == s.to_multiset(),
        forall|i: int, j: int|
            0 <= i < j < s.len() ==> seq_lt(#[trigger] by_name(s)[i].0, #[trigger] by_name(s)[j].0),
    decreases s.len(),
{
    broadcast use vstd::multiset::group_multiset_axioms;
    if s.len() == 0 {
        broadcast use vstd::seq_lib::group_to_multiset_ensures;
        assert(by_name(s) =~= s);
    } else {
        lemma_first_least_bounds(s);
        lemma_first_least_is_least(s);
        let m = first_least(s);
        let rest = s.remove(m);
        assert(distinct_pair_names(rest)) by {
            assert forall|i: int, j: int| 0 <= i < j < rest.len() implies (#[trigger] rest[i]).0
                != (#[trigger] rest[j]).0 by {
                let a = if i < m { i } else { i + 1 };
                let b = if j < m { j } else { j + 1 };
                assert(rest[i] == s[a]);
                assert(rest[j] == s[b]);
            }
        }
        law_listing_is_sorted(rest);
        let b = by_name(s);
        let br = by_name(rest);
        assert(b == seq![s[m]] + br);
        assert(b.to_multiset() =~= s.to_multiset()) by {
            broadcast use vstd::seq_lib::group_to_multiset_ensures;
            vstd::seq_lib::lemma_multiset_commutative(seq![s[m]], br);
            assert(br + seq![s[m]] =~= br.push(s[m]));
            assert(rest.to_multiset() =~= s.to_multiset().remove(s[m]));
            assert(s.contains(s[m]));
            vstd::seq_lib::to_multiset_contains(s, s[m]);
        }
        assert forall|i: int, j: int| 0 <= i < j < s.len() implies seq_lt(#[trigger] b[i].0, #[trigger] b[j].0) by {
            if i == 0 {
                assert(br.contains(br[j - 1]));
                vstd::seq_lib::to_multiset_contains(br, br[j - 1]);
                vstd::seq_lib::to_multiset_contains(rest, br[j - 1]);
                assert(rest.contains(br[j - 1]));
                let k = choose|k: int| 0 <= k < rest.len() && rest[k] == br[j - 1];
                let a = if k < m { k } else { k + 1 };
                assert(rest[k] == s[a]);
                assert(a != m);
                assert(s[a].0 != s[m].0) by {
                    if a < m {
                        assert(s[a].0 != s[m].0);
                    } else {
                        assert(s[m].0 != s[a].0);
                    }
                }
                assert(!seq_lt(s[a].0, s[m].0));
                crate::text::lemma_seq_lt_total(s[m].0, s[a].0);
            } else {
                assert(b[i] == br[i - 1]);
                assert(b[j] == br[j - 1]);
            }
        }
    }
}

} // verus!
