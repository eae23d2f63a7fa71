//! Pseudo-terminal descriptions: sizes, the process to start, exit
//! statuses and errors, and the checks made before the platform is asked
//! for a terminal.
use vstd::prelude::*;
use vstd::string::StringExecFns;
use crate::text::push_str;
use crate::api::PaneLaunchSpec;

verus! {

/// The size of a terminal in cells, and in pixels where known.
#[derive(Clone, Copy, Debug, PartialEq, Eq, Structural)]
pub struct PtySize {
    pub columns: u16,
    pub rows: u16,
    pub pixel_width: u16,
    pub pixel_height: u16,
}

impl PtySize {
    /// A size of `columns` by `rows` cells, with no pixel size.
    pub fn new(columns: u16, rows: u16) -> (r: Self)
        ensures
            r == (PtySize { columns, rows, pixel_width: 0, pixel_height: 0 }),
    {
        PtySize { columns, rows, pixel_width: 0, pixel_height: 0 }
    }
}

impl Default for PtySize {
    /// Eighty columns by twenty-four rows.
    fn default() -> (r: Self)
        ensures
            r == (PtySize { columns: 80, rows: 24, pixel_width: 0, pixel_height: 0 }),
    {
        PtySize::new(80, 24)
    }
}

/// How a process ended: its exit code, and the signal that ended it, if
/// any.
#[derive(Clone, Debug, PartialEq, Eq)]
pub struct PtyExitStatus {
    pub code: u32,
    pub signal: Option<String>,
}

/// A failed terminal operation: what was being done, and what went wrong.
#[derive(Debug, PartialEq, Eq)]
pub struct PtyError {
    operation: String,
    message: String,
}

impl PtyError {
    /// What was being done.
    pub closed spec fn spec_operation(&self) -> Seq<char> {
        self.operation@
    }

    /// What went wrong.
    pub closed spec fn spec_message(&self) -> Seq<char> {
        self.message@
    }

    /// An error of `operation` with `message`.
    pub fn new(operation: &str, message: &str) -> (r: Self)
        ensures
            r.spec_operation() == operation@,
            r.spec_message() == message@,
    {
        PtyError { operation: operation.to_owned(), message: message.to_owned() }
    }

    /// What was being done.
    pub fn operation(&self) -> (r: &str)
        ensures
            r@ == self.spec_operation(),
    {
        self.operation.as_str()
    }

    /// What went wrong.
    pub fn message(&self) -> (r: &str)
        ensures
            r@ == self.spec_message(),
    {
        self.message.as_str()
    }

    /// The error as one line: the operation, a colon, and the message.
    pub fn to_text(&self) -> (r: String)
        ensures
            r@ == self.spec_operation() + ": "@ + self.spec_message(),
    {
        let mut out = self.operation.clone();
        push_str(&mut out, ": ");
        push_str(&mut out, self.message.as_str());
        out
    }
}

/// A running process in a terminal, as the platform provides it.
pub trait PtySession: Send {
    /// The process id, where the platform reports one.
    fn process_id(&self) -> Option<u32>;

    /// Writes input to the terminal.
    fn write(&mut self, data: &[u8]) -> Result<(), PtyError>;

    /// Changes the terminal's size.
    fn resize(&mut self, size: PtySize) -> Result<(), PtyError>;

    /// The exit status, if the process has ended.
    fn try_wait(&mut self) -> Result<Option<PtyExitStatus>, PtyError>;

    /// Waits for the process to end.
    fn wait(&mut self) -> Result<PtyExitStatus, PtyError>;

    /// Ends the process.
    fn kill(&mut self) -> Result<(), PtyError>;
}

/// The platform's own pseudo-terminals.
#[derive(Clone, Copy, Debug, Default, PartialEq, Eq)]
pub struct NativePty;

/// Whether a terminal of `size` can be opened: it needs at least one
/// column and one row.
pub open spec fn usable_size(size: PtySize) -> bool {
    size.columns != 0 && size.rows != 0
}

impl NativePty {
    /// Checks a size before `operation` asks the platform for it: a size
    /// without columns or rows is refused.
    pub fn check_size(operation: &str, size: PtySize) -> (r: Result<(), PtyError>)
        ensures
            r is Ok <==> usable_size(size),
            r matches Err(e) ==> e.spec_operation() == operation@ && e.spec_message()
                == "terminal dimensions must be non-zero"@,
    {
        if size.columns == 0 || size.rows == 0 {
            return Err(PtyError::new(operation, "terminal dimensions must be non-zero"));
        }
        Ok(())
    }
}

/// The process a terminal starts: a program with arguments, or the
/// platform's default shell, with a working directory and changes to the
/// environment.
#[derive(Clone, Debug, PartialEq, Eq)]
pub struct PtyCommand {
    /// The program, or none for the default shell.
    pub program: Option<String>,
    pub args: Vec<String>,
    pub cwd: Option<String>,
    /// Variables to set, or to remove where the value is none; one entry
    /// per variable.
    pub environment: Vec<(String, Option<String>)>,
}

/// `env` with `key` bound to `value`: the entry of the key replaced, or a
/// new one added at the end.
pub open spec fn env_with(env: Seq<(Seq<char>, Option<Seq<char>>)>, key: Seq<char>, value: Option<Seq<char>>) -> Seq<
    (Seq<char>, Option<Seq<char>>),
> {
    if exists|i: int| 0 <= i < env.len() && (#[trigger] env[i]).0 == key {
        env.update(choose|i: int| 0 <= i < env.len() && (#[trigger] env[i]).0 == key, (key, value))
    } else {
        env.push((key, value))
    }
}

/// The view of an optional string.
pub open spec fn opt_view(o: Option<String>) -> Option<Seq<char>> {
    match o {
        Some(v) => Some(v@),
        None => None,
    }
}

impl PtyCommand {
    /// The environment changes, by their views.
    pub open spec fn env_view(&self) -> Seq<(Seq<char>, Option<Seq<char>>)> {
        self.environment@.map_values(|e: (String, Option<String>)| (e.0@, opt_view(e.1)))
    }

    /// The keys are distinct.
    pub open spec fn wf(&self) -> bool {
        forall|i: int, j: int|
            0 <= i < j < self.env_view().len() ==> (#[trigger] self.env_view()[i]).0 != (
            #[trigger] self.env_view()[j]).0
    }

    /// Runs `program`.
    pub fn new(program: &str) -> (r: Self)
        ensures
            r.wf(),
            r.program matches Some(p) && p@ == program@,
            r.args@.len() == 0,
            r.cwd is None,
            r.environment@.len() == 0,
    {
        let r = PtyCommand {
            program: Some(program.to_owned()),
            args: Vec::new(),
            cwd: None,
            environment: Vec::new(),
        };
        proof {
            assert(r.env_view().len() == 0);
        }
        r
    }

    /// Runs the platform's default shell.
    pub fn default_shell() -> (r: Self)
        ensures
            r.wf(),
            r.program is None,
            r.args@.len() == 0,
            r.cwd is None,
            r.environment@.len() == 0,
    {
        let r = PtyCommand { program: None, args: Vec::new(), cwd: None, environment: Vec::new() };
        proof {
            assert(r.env_view().len() == 0);
        }
        r
    }

    /// Adds an argument. The default shell takes none.
    pub fn arg(&mut self, arg: &str)
        requires
            old(self).program is Some,
        ensures
            final(self).program == old(self).program,
            final(self).args@.map_values(|a: String| a@) == old(self).args@.map_values(
                |a: String| a@,
            ).push(arg@),
            final(self).cwd == old(self).cwd,
            final(self).environment == old(self).environment,
    {
        let ghost before = self.args@;
        self.args.push(arg.to_owned());
        proof {
            assert(self.args@.map_values(|a: String| a@) =~= before.map_values(|a: String| a@).push(
                arg@,
            ));
        }
    }

    /// Starts the process in `path`.
    pub fn cwd(&mut self, path: &str)
        ensures
            final(self).cwd matches Some(c) && c@ == path@,
            final(self).program == old(self).program,
            final(self).args == old(self).args,
            final(self).environment == old(self).environment,
    {
        self.cwd = Some(path.to_owned());
    }

    fn bind(&mut self, key: &str, value: Option<String>)
        requires
            old(self).wf(),
        ensures
            final(self).wf(),
            final(self).env_view() == env_with(old(self).env_view(), key@, opt_view(value)),
            final(self).program == old(self).program,
            final(self).args == old(self).args,
            final(self).cwd == old(self).cwd,
    {
        let ghost es = self.env_view();
        let ghost vv = opt_view(value);
        let key_text = key.to_owned();
        let mut i: usize = 0;
        while i < self.environment.len()
            invariant
                es == self.env_view(),
                es == old(self).env_view(),
                self.program == old(self).program,
                self.args == old(self).args,
                self.cwd == old(self).cwd,
                vv == opt_view(value),
                forall|a: int, b: int|
                    0 <= a < b < es.len() ==> (#[trigger] es[a]).0 != (#[trigger] es[b]).0,
                i <= es.len(),
                key_text@ == key@,
                forall|j: int| 0 <= j < i ==> (#[trigger] es[j]).0 != key@,
            decreases es.len() - i,
        {
            assert(es[i as int].0 == self.environment@[i as int].0@);
            if self.environment[i].0 == key_text {
                proof {
                    assert(es[i as int].0 == key@);
                    assert forall|j: int| 0 <= j < es.len() && (#[trigger] es[j]).0 == key@ implies j
                        == i by {
                        if j != i {
                            if j < i {
                            } else {
                                assert(es[i as int].0 != es[j].0);
                            }
                        }
                    }
                }
                self.environment.set(i, (key_text, value));
                proof {
                    let ns = self.env_view();
                    assert(ns =~= es.update(i as int, (key@, vv)));
                    assert forall|a: int, b: int| 0 <= a < b < ns.len() implies (
                    #[trigger] ns[a]).0 != (#[trigger] ns[b]).0 by {
                        if a != i && b != i {
                            assert(ns[a] == es[a]);
                            assert(ns[b] == es[b]);
                        } else if a == i {
                            assert(ns[b] == es[b]);
                        } else {
                            assert(ns[a] == es[a]);
                        }
                    }
                }
                return ;
            }
            i = i + 1;
        }
        self.environment.push((key_text, value));
        proof {
            let ns = self.env_view();
            assert(ns =~= es.push((key@, vv)));
            assert forall|a: int, b: int| 0 <= a < b < ns.len() implies (#[trigger] ns[a]).0 != (
            #[trigger] ns[b]).0 by {
                if b < es.len() {
                    assert(ns[a] == es[a]);
                    assert(ns[b] == es[b]);
                } else {
                    assert(ns[a] == es[a]);
                }
            }
        }
    }

    /// Sets the variable `key` to `value` for the process.
    pub fn env(&mut self, key: &str, value: &str)
        requires
            old(self).wf(),
        ensures
            final(self).wf(),
            final(self).env_view() == env_with(old(self).env_view(), key@, Some(value@)),
            final(self).program == old(self).program,
            final(self).args == old(self).args,
            final(self).cwd == old(self).cwd,
    {
        self.bind(key, Some(value.to_owned()));
    }

    /// Removes the variable `key` from the process's environment.
    pub fn env_remove(&mut self, key: &str)
        requires
            old(self).wf(),
        ensures
            final(self).wf(),
            final(self).env_view() == env_with(old(self).env_view(), key@, None),
            final(self).program == old(self).program,
            final(self).args == old(self).args,
            final(self).cwd == old(self).cwd,
    {
        self.bind(key, None);
    }
}

/// `env` after binding each of `bindings` in turn.
pub open spec fn env_apply(
    env: Seq<(Seq<char>, Option<Seq<char>>)>,
    bindings: Seq<(Seq<char>, Option<Seq<char>>)>,
) -> Seq<(Seq<char>, Option<Seq<char>>)>
    decreases bindings.len(),
{
    if bindings.len() == 0 {
        env
    } else {
        env_with(env_apply(env, bindings.drop_last()), bindings.last().0, bindings.last().1)
    }
}

/// Variables by which an outer terminal identifies itself to the programs
/// it runs; a pane removes them, so that programs do not mistake this
/// terminal for the outer one.
pub open spec fn outer_terminal_variables() -> Seq<Seq<char>> {
    seq![
        "ITERM_SESSION_ID"@,
        "KITTY_LISTEN_ON"@,
        "KITTY_WINDOW_ID"@,
        "KONSOLE_DBUS_SERVICE"@,
        "KONSOLE_DBUS_SESSION"@,
        "KONSOLE_VERSION"@,
        "LC_TERMINAL"@,
        "LC_TERMINAL_VERSION"@,
        "TMUX"@,
        "TMUX_PANE"@,
        "WEZTERM_EXECUTABLE"@,
        "WEZTERM_PANE"@,
        "WT_SESSION"@,
    ]
}

/// The environment changes of a pane: those of its launch, then the
/// terminal's own identity, then the removal of outer terminals' variables.
pub open spec fn launch_bindings(launch_env: Seq<(Seq<char>, Option<Seq<char>>)>, version: Seq<char>) -> Seq<
    (Seq<char>, Option<Seq<char>>),
> {
    launch_env + seq![
        ("TERM"@, Some("xterm-256color"@)),
        ("TERM_PROGRAM"@, Some("toyoterm"@)),
        ("TERM_PROGRAM_VERSION"@, Some(version)),
    ] + outer_terminal_variables().map_values(|key: Seq<char>| (key, None::<Seq<char>>))
}

fn outer_terminal_variable(k: usize) -> (r: &'static str)
    requires
        k < 13,
    ensures
        r@ == outer_terminal_variables()[k as int],
{
    if k == 0 {
        "ITERM_SESSION_ID"
    } else if k == 1 {
        "KITTY_LISTEN_ON"
    } else if k == 2 {
        "KITTY_WINDOW_ID"
    } else if k == 3 {
        "KONSOLE_DBUS_SERVICE"
    } else if k == 4 {
        "KONSOLE_DBUS_SESSION"
    } else if k == 5 {
        "KONSOLE_VERSION"
    } else if k == 6 {
        "LC_TERMINAL"
    } else if k == 7 {
        "LC_TERMINAL_VERSION"
    } else if k == 8 {
        "TMUX"
    } else if k == 9 {
        "TMUX_PANE"
    } else if k == 10 {
        "WEZTERM_EXECUTABLE"
    } else if k == 11 {
        "WEZTERM_PANE"
    } else {
        "WT_SESSION"
    }
}

/// The process of a new pane: the launch's program, else the configured
/// shell, else the platform's default shell; the launch's arguments,
/// directory and environment; and the terminal's identity in place of any
/// outer terminal's. The default shell takes no arguments.
pub fn pty_command_for_launch(default_shell: Option<&str>, launch: Option<&PaneLaunchSpec>, version: &str) -> (r:
    PtyCommand)
    requires
        launch matches Some(l) ==> (l.program is None && default_shell is None ==> l.args@.len() == 0),
    ensures
        r.wf(),
        opt_view(r.program) == launch_program(default_shell, launch),
        r.args@.map_values(|a: String| a@) == match launch {
            Some(l) => l.args@.map_values(|a: String| a@),
            None => Seq::<Seq<char>>::empty(),
        },
        opt_view(r.cwd) == match launch {
            Some(l) => opt_view(l.cwd),
            None => None,
        },
        r.env_view() == env_apply(
            Seq::empty(),
            launch_bindings(
                match launch {
                    Some(l) => l.environment@.map_values(
                        |e: (String, Option<String>)| (e.0@, opt_view(e.1)),
                    ),
                    None => Seq::empty(),
                },
                version@,
            ),
        ),
{
    let program: Option<&str> = match launch {
        Some(l) => match &l.program {
            Some(p) => Some(p.as_str()),
            None => default_shell,
        },
        None => default_shell,
    };
    let mut command = match program {
        Some(shell) => PtyCommand::new(shell),
        None => PtyCommand::default_shell(),
    };
    let ghost launch_env = match launch {
        Some(l) => l.environment@.map_values(|e: (String, Option<String>)| (e.0@, opt_view(e.1))),
        None => Seq::<(Seq<char>, Option<Seq<char>>)>::empty(),
    };
    let ghost all = launch_bindings(launch_env, version@);
    proof {
        assert(command.env_view() =~= Seq::<(Seq<char>, Option<Seq<char>>)>::empty());
        assert(launch_env.len() + 16 == all.len());
        assert(all.take(0) =~= Seq::<(Seq<char>, Option<Seq<char>>)>::empty());
        assert(command.args@.map_values(|a: String| a@) =~= Seq::<Seq<char>>::empty());
    }
    let ghost mut applied: int = 0;
    match launch {
        Some(l) => {
            let mut i: usize = 0;
            proof {
                assert(l.args@.take(0).map_values(|a: String| a@) =~= Seq::<Seq<char>>::empty());
            }
            while i < l.args.len()
                invariant
                    i <= l.args@.len(),
                    command.program is Some || l.args@.len() == 0,
                    opt_view(command.program) == text_opt(program),
                    command.args@.map_values(|a: String| a@) == l.args@.take(i as int).map_values(
                        |a: String| a@,
                    ),
                    command.cwd is None,
                    command.environment@.len() == 0,
                    command.wf(),
                decreases l.args@.len() - i,
            {
                command.arg(l.args[i].as_str());
                proof {
                    assert(l.args@.take(i + 1).map_values(|a: String| a@) =~= l.args@.take(
                        i as int,
                    ).map_values(|a: String| a@).push(l.args@[i as int]@));
                }
                i = i + 1;
            }
            proof {
                assert(l.args@.take(i as int) =~= l.args@);
                assert(command.env_view() =~= Seq::<(Seq<char>, Option<Seq<char>>)>::empty());
            }
            match &l.cwd {
                Some(c) => command.cwd(c.as_str()),
                None => {},
            }
            let mut j: usize = 0;
            while j < l.environment.len()
                invariant
                    j <= l.environment@.len(),
                    applied == j,
                    launch_env == l.environment@.map_values(
                        |e: (String, Option<String>)| (e.0@, opt_view(e.1)),
                    ),
                    all == launch_bindings(launch_env, version@),
                    launch_env.len() + 16 == all.len(),
                    command.wf(),
                    command.env_view() == env_apply(Seq::empty(), all.take(applied)),
                    opt_view(command.program) == text_opt(program),
                    command.args@.map_values(|a: String| a@) == l.args@.map_values(|a: String| a@),
                    opt_view(command.cwd) == opt_view(l.cwd),
                decreases l.environment@.len() - j,
            {
                proof {
                    assert(all.take(j + 1).drop_last() =~= all.take(j as int));
                    assert(all[j as int] == launch_env[j as int]);
                }
                let key = l.environment[j].0.as_str();
                match &l.environment[j].1 {
                    Some(value) => command.env(key, value.as_str()),
                    None => command.env_remove(key),
                }
                j = j + 1;
                proof {
                    applied = applied + 1;
                }
            }
        },
        None => {},
    }
    proof {
        assert(launch_env.len() == applied);
        assert(command.env_view() == env_apply(Seq::empty(), all.take(applied)));
    }
    command.env("TERM", "xterm-256color");
    proof {
        assert(all.take(applied + 1).drop_last() =~= all.take(applied));
        assert(all[applied] == ("TERM"@, Some("xterm-256color"@)));
        applied = applied + 1;
        assert(command.env_view() == env_apply(Seq::empty(), all.take(applied)));
    }
    command.env("TERM_PROGRAM", "toyoterm");
    proof {
        assert(all.take(applied + 1).drop_last() =~= all.take(applied));
        assert(all[applied] == ("TERM_PROGRAM"@, Some("toyoterm"@)));
        applied = applied + 1;
        assert(command.env_view() == env_apply(Seq::empty(), all.take(applied)));
    }
    command.env("TERM_PROGRAM_VERSION", version);
    proof {
        assert(all.take(applied + 1).drop_last() =~= all.take(applied));
        assert(all[applied] == ("TERM_PROGRAM_VERSION"@, Some(version@)));
        applied = applied + 1;
        assert(command.env_view() == env_apply(Seq::empty(), all.take(applied)));
    }
    let ghost args_view = command.args@.map_values(|a: String| a@);
    let ghost cwd_view = opt_view(command.cwd);
    let mut k: usize = 0;
    while k < 13
        invariant
            k <= 13,
            applied == launch_env.len() + 3 + k,
            all == launch_bindings(launch_env, version@),
            launch_env.len() + 16 == all.len(),
            command.wf(),
            command.env_view() == env_apply(Seq::empty(), all.take(applied)),
            opt_view(command.program) == text_opt(program),
            command.args@.map_values(|a: String| a@) == args_view,
            opt_view(command.cwd) == cwd_view,
        decreases 13 - k,
    {
        let key = outer_terminal_variable(k);
        command.env_remove(key);
        proof {
            assert(all.take(applied + 1).drop_last() =~= all.take(applied));
            assert(all[applied] == (outer_terminal_variables()[k as int], None::<Seq<char>>));
            applied = applied + 1;
        }
        k = k + 1;
    }
    proof {
        assert(all.take(applied) =~= all);
    }
    command
}

/// The view of an optional string slice.
pub open spec fn text_opt(p: Option<&str>) -> Option<Seq<char>> {
    match p {
        Some(s) => Some(s@),
        None => None,
    }
}

/// The program a pane runs: the launch's, else the configured shell.
pub open spec fn launch_program(default_shell: Option<&str>, launch: Option<&PaneLaunchSpec>) -> Option<
    Seq<char>,
> {
    match launch {
        Some(l) => match l.program {
            Some(p) => Some(p@),
            None => text_opt(default_shell),
        },
        None => text_opt(default_shell),
    }
}

} // verus!
