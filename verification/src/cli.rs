//! The command line: options of the GUI, the subcommands of the
//! `toyoterm` program, and the shells that shell integration supports.
use vstd::prelude::*;
use vstd::string::StrSliceExecFns;
use vstd::string::StringExecFns;
use crate::api::{PaneId, PaneLaunchSpec, SplitDirection};
use crate::keys::ascii_lower;
use crate::text::{push_str, same_text, starts_with_text};

verus! {

/// A failure to start or run the GUI, with its message.
#[derive(Clone, Debug, PartialEq, Eq)]
pub struct AppError(pub String);

impl AppError {
    /// The message.
    pub fn message(&self) -> (r: &str)
        ensures
            r@ == self.0@,
    {
        self.0.as_str()
    }
}

/// How the GUI starts: the configuration file, the first pane's process,
/// and the window's title and application id.
#[derive(Clone, Debug, Default, PartialEq)]
pub struct GuiOptions {
    pub config_path: Option<String>,
    pub initial_pane: Option<PaneLaunchSpec>,
    pub title: Option<String>,
    pub app_id: Option<String>,
}

/// The process of the first pane, by views.
pub struct LaunchView {
    pub program: Option<Seq<char>>,
    pub args: Seq<Seq<char>>,
    pub cwd: Option<Seq<char>>,
    pub environment_len: nat,
}

/// GUI options, by views.
pub struct GuiView {
    pub config_path: Option<Seq<char>>,
    pub title: Option<Seq<char>>,
    pub app_id: Option<Seq<char>>,
    pub launch: Option<LaunchView>,
}

/// The view of an optional string.
pub open spec fn opt_text(o: Option<String>) -> Option<Seq<char>> {
    match o {
        Some(s) => Some(s@),
        None => None,
    }
}

/// The views of strings.
pub open spec fn texts(v: Seq<String>) -> Seq<Seq<char>> {
    v.map_values(|s: String| s@)
}

impl GuiOptions {
    /// The options by views.
    pub open spec fn view(&self) -> GuiView {
        GuiView {
            config_path: opt_text(self.config_path),
            title: opt_text(self.title),
            app_id: opt_text(self.app_id),
            launch: match self.initial_pane {
                Some(launch) => Some(
                    LaunchView {
                        program: opt_text(launch.program),
                        args: texts(launch.args@),
                        cwd: opt_text(launch.cwd),
                        environment_len: launch.environment@.len(),
                    },
                ),
                None => None,
            },
        }
    }
}

/// No options given.
pub open spec fn no_options() -> GuiView {
    GuiView { config_path: None, title: None, app_id: None, launch: None }
}

/// `options` with the first pane started in `cwd`.
pub open spec fn with_cwd(options: GuiView, cwd: Seq<char>) -> GuiView {
    GuiView {
        launch: Some(
            match options.launch {
                Some(launch) => LaunchView { cwd: Some(cwd), ..launch },
                None => LaunchView {
                    program: None,
                    args: Seq::empty(),
                    cwd: Some(cwd),
                    environment_len: 0,
                },
            },
        ),
        ..options
    }
}

/// What follows `prefix` in `argument`, where `argument` begins with it.
pub open spec fn begins_with(argument: Seq<char>, prefix: Seq<char>) -> bool {
    prefix.len() <= argument.len() && argument.take(prefix.len() as int) == prefix
}

/// The options that `args` give after `options`: each option and its
/// value in turn; a command ends the arguments.
pub open spec fn gui_parse(args: Seq<Seq<char>>, options: GuiView) -> Result<GuiView, Seq<char>>
    decreases args.len(),
{
    if args.len() == 0 {
        Ok(options)
    } else {
        let a = args[0];
        let rest = args.drop_first();
        let has_value = rest.len() > 0 && rest[0].len() > 0;
        if a == "--config"@ {
            if has_value {
                gui_parse(rest.drop_first(), GuiView { config_path: Some(rest[0]), ..options })
            } else {
                Err("--config requires a path"@)
            }
        } else if a == "--title"@ {
            if has_value {
                gui_parse(rest.drop_first(), GuiView { title: Some(rest[0]), ..options })
            } else {
                Err("--title requires a value"@)
            }
        } else if a == "--app-id"@ {
            if has_value {
                gui_parse(rest.drop_first(), GuiView { app_id: Some(rest[0]), ..options })
            } else {
                Err("--app-id requires a value"@)
            }
        } else if a == "--working-directory"@ || a == "--dir"@ {
            if has_value {
                gui_parse(rest.drop_first(), with_cwd(options, rest[0]))
            } else {
                Err(a + " requires a value"@)
            }
        } else if a == "-e"@ || a == "--execute"@ || a == "--"@ {
            if rest.len() == 0 {
                Err(a + " requires a command"@)
            } else {
                Ok(
                    GuiView {
                        launch: Some(
                            LaunchView {
                                program: Some(rest[0]),
                                args: rest.drop_first(),
                                cwd: match options.launch {
                                    Some(launch) => launch.cwd,
                                    None => None,
                                },
                                environment_len: 0,
                            },
                        ),
                        ..options
                    },
                )
            }
        } else if begins_with(a, "--config="@) {
            let value = a.skip(9);
            if value.len() > 0 {
                gui_parse(rest, GuiView { config_path: Some(value), ..options })
            } else {
                Err("--config requires a value"@)
            }
        } else if begins_with(a, "--title="@) {
            let value = a.skip(8);
            if value.len() > 0 {
                gui_parse(rest, GuiView { title: Some(value), ..options })
            } else {
                Err("--title requires a value"@)
            }
        } else if begins_with(a, "--app-id="@) {
            let value = a.skip(9);
            if value.len() > 0 {
                gui_parse(rest, GuiView { app_id: Some(value), ..options })
            } else {
                Err("--app-id requires a value"@)
            }
        } else if begins_with(a, "--working-directory="@) {
            let value = a.skip(20);
            if value.len() > 0 {
                gui_parse(rest, with_cwd(options, value))
            } else {
                Err("--working-directory requires a value"@)
            }
        } else if begins_with(a, "--dir="@) {
            let value = a.skip(6);
            if value.len() > 0 {
                gui_parse(rest, with_cwd(options, value))
            } else {
                Err("--dir requires a value"@)
            }
        } else {
            Err("unexpected GUI argument `"@ + a + "`"@)
        }
    }
}

/// Whether `argument` is one of the GUI's options.
pub open spec fn gui_option(argument: Seq<char>) -> bool {
    ||| argument == "--config"@
    ||| argument == "--title"@
    ||| argument == "--app-id"@
    ||| argument == "--working-directory"@
    ||| argument == "--dir"@
    ||| argument == "-e"@
    ||| argument == "--execute"@
    ||| argument == "--"@
    ||| begins_with(argument, "--config="@)
    ||| begins_with(argument, "--title="@)
    ||| begins_with(argument, "--app-id="@)
    ||| begins_with(argument, "--working-directory="@)
    ||| begins_with(argument, "--dir="@)
}

/// Whether `argument` starts the GUI's options.
pub fn is_gui_option(argument: &str) -> (r: bool)
    ensures
        r == gui_option(argument@),
{
    same_text(argument, "--config") || same_text(argument, "--title") || same_text(
        argument,
        "--app-id",
    ) || same_text(argument, "--working-directory") || same_text(argument, "--dir") || same_text(
        argument,
        "-e",
    ) || same_text(argument, "--execute") || same_text(argument, "--") || starts_with_text(
        argument,
        "--config=",
    ) || starts_with_text(argument, "--title=") || starts_with_text(argument, "--app-id=")
        || starts_with_text(argument, "--working-directory=") || starts_with_text(argument, "--dir=")
}

fn set_launch_cwd(options: &mut GuiOptions, cwd: String)
    ensures
        final(options).view() == with_cwd(old(options).view(), cwd@),
{
    let launch = match options.initial_pane.take() {
        Some(launch) => PaneLaunchSpec { cwd: Some(cwd), ..launch },
        None => PaneLaunchSpec {
            program: None,
            args: Vec::new(),
            cwd: Some(cwd),
            environment: Vec::new(),
        },
    };
    options.initial_pane = Some(launch);
    proof {
        assert(texts(Seq::<String>::empty()) =~= Seq::<Seq<char>>::empty());
    }
}

fn tail_text(argument: &str, skip: usize) -> (r: String)
    requires
        skip <= argument@.len(),
    ensures
        r@ == argument@.skip(skip as int),
{
    let n = argument.unicode_len();
    argument.substring_char(skip, n).to_owned()
}

fn err_text(text: &str) -> (r: Result<GuiOptions, String>)
    ensures
        r matches Err(e) && e@ == text@,
{
    Err(text.to_owned())
}

/// Reads the GUI's options from `args`.
pub fn parse_gui_options(args: &Vec<String>) -> (r: Result<GuiOptions, String>)
    ensures
        match gui_parse(texts(args@), no_options()) {
            Ok(view) => r matches Ok(options) && options.view() == view,
            Err(message) => r matches Err(e) && e@ == message,
        },
{
    let mut options = GuiOptions { config_path: None, initial_pane: None, title: None, app_id: None };
    let ghost all = texts(args@);
    let mut i: usize = 0;
    let n = args.len();
    proof {
        assert(all.skip(0) =~= all);
    }
    while i < n
        invariant
            n == args@.len(),
            all == texts(args@),
            i <= n,
            gui_parse(all, no_options()) == gui_parse(all.skip(i as int), options.view()),
        decreases n - i,
    {
        let a = args[i].as_str();
        let ghost rest = all.skip(i + 1);
        proof {
            assert(all.skip(i as int)[0] == a@);
            assert(all.skip(i as int).drop_first() =~= rest);
            if i + 1 < n {
                assert(rest[0] == args@[i + 1]@);
                assert(rest.drop_first() =~= all.skip(i + 2));
            }
            reveal_strlit("--config");
            reveal_strlit("--title");
            reveal_strlit("--app-id");
            reveal_strlit("--working-directory");
            reveal_strlit("--dir");
            reveal_strlit("-e");
            reveal_strlit("--execute");
            reveal_strlit("--");
            reveal_strlit("--config=");
            reveal_strlit("--title=");
            reveal_strlit("--app-id=");
            reveal_strlit("--working-directory=");
            reveal_strlit("--dir=");
        }
        let has_value = i + 1 < n && args[i + 1].as_str().unicode_len() > 0;
        if same_text(a, "--config") || same_text(a, "--title") || same_text(a, "--app-id")
            || same_text(a, "--working-directory") || same_text(a, "--dir") {
            if !has_value {
                if same_text(a, "--config") {
                    return err_text("--config requires a path");
                }
                let mut message = a.to_owned();
                push_str(&mut message, " requires a value");
                proof {
                    if a@ == "--title"@ || a@ == "--app-id"@ {
                        reveal_strlit(" requires a value");
                        reveal_strlit("--title requires a value");
                        reveal_strlit("--app-id requires a value");
                        assert(message@ =~= a@ + " requires a value"@);
                    }
                }
                return Err(message);
            }
            let value = args[i + 1].clone();
            if same_text(a, "--config") {
                options.config_path = Some(value);
            } else if same_text(a, "--title") {
                options.title = Some(value);
            } else if same_text(a, "--app-id") {
                options.app_id = Some(value);
            } else {
                set_launch_cwd(&mut options, value);
            }
            i = i + 2;
        } else if same_text(a, "-e") || same_text(a, "--execute") || same_text(a, "--") {
            if i + 1 >= n {
                let mut message = a.to_owned();
                push_str(&mut message, " requires a command");
                return Err(message);
            }
            let program = args[i + 1].clone();
            let mut rest_args: Vec<String> = Vec::new();
            let mut k: usize = i + 2;
            while k < n
                invariant
                    n == args@.len(),
                    i + 2 <= k <= n,
                    texts(rest_args@) == texts(args@).subrange(i + 2, k as int),
                decreases n - k,
            {
                let ghost before = rest_args@;
                let item = args[k].clone();
                rest_args.push(item);
                proof {
                    assert(rest_args@ == before.push(args@[k as int]));
                    assert(texts(rest_args@) =~= texts(before).push(args@[k as int]@));
                    assert(texts(rest_args@) =~= texts(args@).subrange(i + 2, k + 1));
                }
                k = k + 1;
            }
            let cwd = match options.initial_pane.take() {
                Some(launch) => launch.cwd,
                None => None,
            };
            options.initial_pane = Some(
                PaneLaunchSpec { program: Some(program), args: rest_args, cwd, environment: Vec::new() },
            );
            proof {
                assert(rest.drop_first() =~= texts(args@).subrange(i + 2, n as int));
            }
            return Ok(options);
        } else if starts_with_text(a, "--config=") || starts_with_text(a, "--title=")
            || starts_with_text(a, "--app-id=") || starts_with_text(a, "--working-directory=")
            || starts_with_text(a, "--dir=") {
            let skip: usize = if starts_with_text(a, "--config=") {
                9
            } else if starts_with_text(a, "--title=") {
                8
            } else if starts_with_text(a, "--app-id=") {
                9
            } else if starts_with_text(a, "--working-directory=") {
                20
            } else {
                6
            };
            let value = tail_text(a, skip);
            if value.as_str().unicode_len() == 0 {
                if starts_with_text(a, "--config=") {
                    return err_text("--config requires a value");
                } else if starts_with_text(a, "--title=") {
                    return err_text("--title requires a value");
                } else if starts_with_text(a, "--app-id=") {
                    return err_text("--app-id requires a value");
                } else if starts_with_text(a, "--working-directory=") {
                    return err_text("--working-directory requires a value");
                } else {
                    return err_text("--dir requires a value");
                }
            }
            if starts_with_text(a, "--config=") {
                options.config_path = Some(value);
            } else if starts_with_text(a, "--title=") {
                options.title = Some(value);
            } else if starts_with_text(a, "--app-id=") {
                options.app_id = Some(value);
            } else {
                set_launch_cwd(&mut options, value);
            }
            i = i + 1;
        } else {
            let mut message = String::from_str("unexpected GUI argument `");
            push_str(&mut message, a);
            push_str(&mut message, "`");
            return Err(message);
        }
    }
    proof {
        assert(all.skip(i as int) =~= Seq::<Seq<char>>::empty());
    }
    Ok(options)
}

/// The options of the GUI program's command line: none, or `gui` alone,
/// start with the defaults; options follow, with or without `gui` first.
pub open spec fn gui_command(args: Seq<Seq<char>>) -> Result<GuiView, Seq<char>> {
    if args.len() == 0 {
        Ok(no_options())
    } else if args[0] == "gui"@ {
        if args.len() == 1 {
            Ok(no_options())
        } else if gui_option(args[1]) {
            gui_parse(args.drop_first(), no_options())
        } else {
            Err("unexpected GUI argument `"@ + args[1] + "`"@)
        }
    } else if gui_option(args[0]) {
        gui_parse(args, no_options())
    } else {
        Err("unexpected GUI argument `"@ + args[0] + "`"@)
    }
}

fn unexpected_gui_argument(argument: &str) -> (r: String)
    ensures
        r@ == "unexpected GUI argument `"@ + argument@ + "`"@,
{
    let mut message = String::from_str("unexpected GUI argument `");
    push_str(&mut message, argument);
    push_str(&mut message, "`");
    message
}

/// Reads the GUI program's command line, without the program's name.
pub fn parse_gui_command(args: &Vec<String>) -> (r: Result<GuiOptions, String>)
    ensures
        match gui_command(texts(args@)) {
            Ok(view) => r matches Ok(options) && options.view() == view,
            Err(message) => r matches Err(e) && e@ == message,
        },
{
    let ghost all = texts(args@);
    proof {
        reveal_strlit("gui");
    }
    let n = args.len();
    if n == 0 {
        return Ok(GuiOptions { config_path: None, initial_pane: None, title: None, app_id: None });
    }
    assert(all[0] == args@[0]@);
    if same_text(args[0].as_str(), "gui") {
        if n == 1 {
            return Ok(
                GuiOptions { config_path: None, initial_pane: None, title: None, app_id: None },
            );
        }
        assert(all[1] == args@[1]@);
        if is_gui_option(args[1].as_str()) {
            let mut rest: Vec<String> = Vec::new();
            let mut k: usize = 1;
            while k < n
                invariant
                    n == args@.len(),
                    1 <= k <= n,
                    texts(rest@) == texts(args@).subrange(1, k as int),
                decreases n - k,
            {
                let ghost before = rest@;
                let item = args[k].clone();
                rest.push(item);
                proof {
                    assert(texts(rest@) =~= texts(before).push(args@[k as int]@));
                    assert(texts(rest@) =~= texts(args@).subrange(1, k + 1));
                }
                k = k + 1;
            }
            proof {
                assert(all.drop_first() =~= texts(rest@));
            }
            return parse_gui_options(&rest);
        }
        return Err(unexpected_gui_argument(args[1].as_str()));
    }
    if is_gui_option(args[0].as_str()) {
        return parse_gui_options(args);
    }
    Err(unexpected_gui_argument(args[0].as_str()))
}

/// The split direction named `value`.
pub open spec fn direction_named(value: Seq<char>) -> Option<SplitDirection> {
    if value == "left"@ {
        Some(SplitDirection::Left)
    } else if value == "right"@ {
        Some(SplitDirection::Right)
    } else if value == "up"@ {
        Some(SplitDirection::Up)
    } else if value == "down"@ {
        Some(SplitDirection::Down)
    } else {
        None
    }
}

/// Parses a split direction.
pub fn parse_direction(value: &str) -> (r: Result<SplitDirection, String>)
    ensures
        match direction_named(value@) {
            Some(direction) => r == Ok::<SplitDirection, String>(direction),
            None => r matches Err(e) && e@ == "invalid split direction `"@ + value@
                + "`; expected left, right, up, or down"@,
        },
{
    if same_text(value, "left") {
        Ok(SplitDirection::Left)
    } else if same_text(value, "right") {
        Ok(SplitDirection::Right)
    } else if same_text(value, "up") {
        Ok(SplitDirection::Up)
    } else if same_text(value, "down") {
        Ok(SplitDirection::Down)
    } else {
        let mut message = String::from_str("invalid split direction `");
        push_str(&mut message, value);
        push_str(&mut message, "`; expected left, right, up, or down");
        Err(message)
    }
}

/// The shells that shell integration supports.
#[derive(Clone, Copy, Debug, PartialEq, Eq, Structural)]
pub enum Shell {
    Bash,
    Zsh,
    Fish,
    PowerShell,
}

/// `s` with ASCII upper-case letters made lower case.
pub open spec fn ascii_lowercase(s: Seq<char>) -> Seq<char> {
    s.map_values(|c: char| ascii_lower(c))
}

/// The shell named `name`, in any ASCII case.
pub open spec fn shell_named(name: Seq<char>) -> Option<Shell> {
    let lower = ascii_lowercase(name);
    if lower == "bash"@ {
        Some(Shell::Bash)
    } else if lower == "zsh"@ {
        Some(Shell::Zsh)
    } else if lower == "fish"@ {
        Some(Shell::Fish)
    } else if lower == "powershell"@ || lower == "pwsh"@ {
        Some(Shell::PowerShell)
    } else {
        None
    }
}

fn lower_char(c: char) -> (r: char)
    ensures
        r == ascii_lower(c),
{
    if 'A' <= c && c <= 'Z' {
        ((c as u8) + 32) as char
    } else {
        c
    }
}

fn lowercase_chars(text: &str) -> (r: Vec<char>)
    ensures
        r@ == ascii_lowercase(text@),
{
    let n = text.unicode_len();
    let mut out: Vec<char> = Vec::new();
    let mut i: usize = 0;
    while i < n
        invariant
            n == text@.len(),
            i <= n,
            out@ == ascii_lowercase(text@.take(i as int)),
        decreases n - i,
    {
        out.push(lower_char(text.get_char(i)));
        proof {
            assert(ascii_lowercase(text@.take(i + 1)) =~= ascii_lowercase(text@.take(i as int)).push(
                ascii_lower(text@[i as int]),
            ));
        }
        i = i + 1;
    }
    proof {
        assert(text@.take(n as int) =~= text@);
    }
    out
}

fn chars_are(chars: &Vec<char>, word: &str) -> (r: bool)
    ensures
        r == (chars@ == word@),
{
    let n = word.unicode_len();
    if chars.len() != n {
        return false;
    }
    let mut i: usize = 0;
    while i < n
        invariant
            n == word@.len(),
            n == chars@.len(),
            i <= n,
            forall|j: int| 0 <= j < i ==> chars@[j] == word@[j],
        decreases n - i,
    {
        if chars[i] != word.get_char(i) {
            return false;
        }
        i = i + 1;
    }
    assert(chars@ =~= word@);
    true
}

/// The shell whose integration script `shell` asks for, in any ASCII case.
pub fn script(shell: &str) -> (r: Option<Shell>)
    ensures
        r == shell_named(shell@),
{
    let lower = lowercase_chars(shell);
    if chars_are(&lower, "bash") {
        Some(Shell::Bash)
    } else if chars_are(&lower, "zsh") {
        Some(Shell::Zsh)
    } else if chars_are(&lower, "fish") {
        Some(Shell::Fish)
    } else if chars_are(&lower, "powershell") || chars_are(&lower, "pwsh") {
        Some(Shell::PowerShell)
    } else {
        None
    }
}

/// Whether `c` is an ASCII digit.
pub open spec fn is_digit(c: char) -> bool {
    '0' <= c && c <= '9'
}

/// The number that the digits `s` spell.
pub open spec fn digits_value(s: Seq<char>) -> nat
    decreases s.len(),
{
    if s.len() == 0 {
        0
    } else {
        digits_value(s.drop_last()) * 10 + ((s.last() as u32) - ('0' as u32)) as nat
    }
}

/// `s` without one leading `+`.
pub open spec fn without_plus(s: Seq<char>) -> Seq<char> {
    if s.len() > 0 && s[0] == '+' {
        s.drop_first()
    } else {
        s
    }
}

/// Whether `s` is made of ASCII digits only.
pub open spec fn all_digits(s: Seq<char>) -> bool {
    forall|i: int| 0 <= i < s.len() ==> is_digit(#[trigger] s[i])
}

/// The unsigned number that `s` spells, as `u64` parses it: decimal
/// digits, after an optional `+`, of a value that fits.
pub open spec fn parsed_u64(s: Seq<char>) -> Option<u64> {
    if without_plus(s).len() > 0 && all_digits(without_plus(s)) && digits_value(without_plus(s))
        <= u64::MAX {
        Some(digits_value(without_plus(s)) as u64)
    } else {
        None
    }
}

proof fn lemma_digits_value_grows(s: Seq<char>, k: int)
    requires
        0 <= k <= s.len(),
        forall|i: int| 0 <= i < s.len() ==> is_digit(#[trigger] s[i]),
    ensures
        digits_value(s.take(k)) <= digits_value(s),
    decreases s.len() - k,
{
    if k < s.len() {
        lemma_digits_value_grows(s, k + 1);
        assert(s.take(k + 1).drop_last() =~= s.take(k));
    } else {
        assert(s.take(k) =~= s);
    }
}

/// Parses an unsigned 64-bit number.
pub fn parse_u64(text: &str) -> (r: Option<u64>)
    ensures
        r == parsed_u64(text@),
{
    let n = text.unicode_len();
    let start: usize = if n > 0 && text.get_char(0) == '+' {
        1
    } else {
        0
    };
    let ghost digits = text@.skip(start as int);
    proof {
        if start == 1 {
            assert(digits =~= text@.drop_first());
        } else {
            assert(digits =~= text@);
        }
    }
    if start >= n {
        return None;
    }
    let mut value: u64 = 0;
    let mut i: usize = start;
    proof {
        assert(digits.take(0) =~= Seq::<char>::empty());
    }
    while i < n
        invariant
            n == text@.len(),
            start <= i <= n,
            digits == text@.skip(start as int),
            digits == without_plus(text@),
            forall|j: int| 0 <= j < i - start ==> is_digit(#[trigger] digits[j]),
            value == digits_value(digits.take(i - start)),
        decreases n - i,
    {
        let c = text.get_char(i);
        let k = i - start;
        proof {
            assert(digits[k as int] == c);
            assert(digits.take(k + 1).drop_last() =~= digits.take(k as int));
        }
        if c < '0' || c > '9' {
            proof {
                assert(k < digits.len());
                assert(!is_digit(digits[k as int]));
                assert(!all_digits(digits));
            }
            return None;
        }
        let d = ((c as u32) - ('0' as u32)) as u64;
        assert(digits.take(k + 1).last() == c);
        assert(digits_value(digits.take(k + 1)) == value * 10 + d);
        if value > (u64::MAX - d) / 10 {
            proof {
                assert(digits_value(digits.take(k + 1)) > u64::MAX) by (nonlinear_arith)
                    requires
                        digits_value(digits.take(k + 1)) == value * 10 + d,
                        value > (u64::MAX - d) / 10,
                        d <= 9,
                ;
                if all_digits(digits) {
                    lemma_digits_value_grows(digits, k + 1);
                    assert(digits_value(digits) > u64::MAX);
                }
            }
            return None;
        }
        value = value * 10 + d;
        i = i + 1;
    }
    proof {
        assert(digits.take(n - start) =~= digits);
    }
    Some(value)
}

/// A request for the running terminal, sent over its control socket.
#[derive(Clone, Debug, PartialEq, Eq)]
pub enum RemoteRequest {
    List,
    Reload,
    ListPanes,
    SendText { pane: PaneId, text: String },
    Split { direction: SplitDirection },
    ActivateWorkspace(String),
}

/// What the `toyoterm` program was asked to do.
#[derive(Clone, Debug, PartialEq, Eq)]
pub enum CliAction {
    Gui,
    GuiWithConfig(String),
    Version,
    Remote(RemoteRequest),
    Demo,
    PtyDemo,
    ScreenDemo,
    ShellIntegration(Shell),
    GuiSmokeTest,
    RubyConsole,
    Help,
}

/// The error for an argument left over at `k`, if any.
pub open spec fn leftover(args: Seq<Seq<char>>, k: int) -> Option<Seq<char>> {
    if args.len() > k {
        Some("unexpected argument `"@ + args[k] + "`"@)
    } else {
        None
    }
}

/// Whether `r` is the error `message`.
pub open spec fn is_error(r: Result<CliAction, String>, message: Seq<char>) -> bool {
    r matches Err(e) && e@ == message
}

/// Whether `r` is `action`, unless an argument is left over at `k`.
pub open spec fn done_at(r: Result<CliAction, String>, args: Seq<Seq<char>>, k: int, action: CliAction) -> bool {
    match leftover(args, k) {
        Some(message) => is_error(r, message),
        None => r == Ok::<CliAction, String>(action),
    }
}

/// Words joined by single spaces.
pub open spec fn joined_words(words: Seq<Seq<char>>) -> Seq<char>
    decreases words.len(),
{
    if words.len() == 0 {
        Seq::empty()
    } else if words.len() == 1 {
        words[0]
    } else {
        joined_words(words.drop_last()) + " "@ + words.last()
    }
}

/// Whether `r` is what `toyoterm cli` makes of the arguments from `k` on.
pub open spec fn cli_request_outcome(r: Result<CliAction, String>, args: Seq<Seq<char>>, k: int) -> bool {
    if args.len() <= k {
        is_error(r, "cli requires a command; try `toyoterm help`"@)
    } else {
        let command = args[k];
        if command == "list-panes"@ {
            done_at(r, args, k + 1, CliAction::Remote(RemoteRequest::ListPanes))
        } else if command == "send-text"@ {
            if !(args.len() > k + 1 && args[k + 1] == "--pane"@) {
                is_error(r, "send-text requires --pane ID TEXT"@)
            } else if args.len() <= k + 2 {
                is_error(r, "--pane requires an ID"@)
            } else {
                match parsed_u64(args[k + 2]) {
                    None => is_error(r, "pane ID must be an unsigned integer"@),
                    Some(pane) => {
                        let text = joined_words(args.skip(k + 3));
                        if text.len() == 0 {
                            is_error(r, "send-text requires TEXT"@)
                        } else {
                            r matches Ok(CliAction::Remote(RemoteRequest::SendText { pane: p, text: t }))
                                && p == PaneId(pane) && t@ == text
                        }
                    },
                }
            }
        } else if command == "split"@ {
            if args.len() <= k + 1 {
                r == Ok::<CliAction, String>(
                    CliAction::Remote(RemoteRequest::Split { direction: SplitDirection::Right }),
                )
            } else if args[k + 1] == "--direction"@ {
                if args.len() <= k + 2 {
                    is_error(r, "--direction requires left, right, up, or down"@)
                } else {
                    match direction_named(args[k + 2]) {
                        None => is_error(
                            r,
                            "invalid split direction `"@ + args[k + 2]
                                + "`; expected left, right, up, or down"@,
                        ),
                        Some(direction) => done_at(
                            r,
                            args,
                            k + 3,
                            CliAction::Remote(RemoteRequest::Split { direction }),
                        ),
                    }
                }
            } else {
                match direction_named(args[k + 1]) {
                    None => is_error(
                        r,
                        "invalid split direction `"@ + args[k + 1]
                            + "`; expected left, right, up, or down"@,
                    ),
                    Some(direction) => done_at(
                        r,
                        args,
                        k + 2,
                        CliAction::Remote(RemoteRequest::Split { direction }),
                    ),
                }
            }
        } else if command == "activate-workspace"@ {
            if args.len() <= k + 1 || args[k + 1].len() == 0 {
                is_error(r, "activate-workspace requires NAME"@)
            } else {
                match leftover(args, k + 2) {
                    Some(message) => is_error(r, message),
                    None => r matches Ok(
                        CliAction::Remote(RemoteRequest::ActivateWorkspace(name)),
                    ) && name@ == args[k + 1],
                }
            }
        } else {
            is_error(r, "unknown cli command `"@ + command + "`; try `toyoterm help`"@)
        }
    }
}

/// Whether `r` is what the `toyoterm` program makes of its arguments.
pub open spec fn cli_outcome(r: Result<CliAction, String>, args: Seq<Seq<char>>) -> bool {
    if args.len() == 0 {
        r == Ok::<CliAction, String>(CliAction::Gui)
    } else {
        let command = args[0];
        if command == "--config"@ {
            if args.len() > 1 && args[1].len() > 0 {
                match leftover(args, 2) {
                    Some(message) => is_error(r, message),
                    None => r matches Ok(CliAction::GuiWithConfig(path)) && path@ == args[1],
                }
            } else {
                is_error(r, "--config requires a path"@)
            }
        } else if command == "version"@ || command == "--version"@ || command == "-V"@ {
            r == Ok::<CliAction, String>(CliAction::Version)
        } else if command == "list"@ {
            done_at(r, args, 1, CliAction::Remote(RemoteRequest::List))
        } else if command == "reload"@ {
            done_at(r, args, 1, CliAction::Remote(RemoteRequest::Reload))
        } else if command == "cli"@ {
            cli_request_outcome(r, args, 1)
        } else if command == "demo"@ {
            r == Ok::<CliAction, String>(CliAction::Demo)
        } else if command == "pty-demo"@ {
            r == Ok::<CliAction, String>(CliAction::PtyDemo)
        } else if command == "screen-demo"@ {
            r == Ok::<CliAction, String>(CliAction::ScreenDemo)
        } else if command == "shell-integration"@ {
            if args.len() <= 1 {
                is_error(r, "shell-integration requires bash, zsh, fish, or powershell"@)
            } else {
                match leftover(args, 2) {
                    Some(message) => is_error(r, message),
                    None => match shell_named(args[1]) {
                        Some(shell) => r == Ok::<CliAction, String>(CliAction::ShellIntegration(shell)),
                        None => is_error(
                            r,
                            "unsupported shell `"@ + args[1]
                                + "`; expected bash, zsh, fish, or powershell"@,
                        ),
                    },
                }
            }
        } else if command == "gui-smoke-test"@ {
            done_at(r, args, 1, CliAction::GuiSmokeTest)
        } else if command == "ruby"@ {
            if args.len() <= 1 {
                r == Ok::<CliAction, String>(CliAction::RubyConsole)
            } else if args[1] == "console"@ {
                done_at(r, args, 2, CliAction::RubyConsole)
            } else {
                is_error(r, "unexpected ruby argument `"@ + args[1] + "`"@)
            }
        } else if command == "gui"@ {
            if args.len() <= 1 {
                r == Ok::<CliAction, String>(CliAction::Gui)
            } else if args[1] == "--config"@ {
                if args.len() > 2 && args[2].len() > 0 {
                    match leftover(args, 3) {
                        Some(message) => is_error(r, message),
                        None => r matches Ok(CliAction::GuiWithConfig(path)) && path@ == args[2],
                    }
                } else {
                    is_error(r, "--config requires a path"@)
                }
            } else {
                is_error(r, "unexpected GUI argument `"@ + args[1] + "`"@)
            }
        } else if command == "help"@ || command == "--help"@ || command == "-h"@ {
            r == Ok::<CliAction, String>(CliAction::Help)
        } else {
            is_error(r, "unknown command `"@ + command + "`; try `toyoterm help`"@)
        }
    }
}

fn quoted_error(before: &str, text: &str, after: &str) -> (r: Result<CliAction, String>)
    ensures
        is_error(r, before@ + text@ + after@),
{
    let mut message = before.to_owned();
    push_str(&mut message, text);
    push_str(&mut message, after);
    Err(message)
}

fn plain_error(text: &str) -> (r: Result<CliAction, String>)
    ensures
        is_error(r, text@),
{
    Err(text.to_owned())
}

fn finish_at(args: &Vec<String>, k: usize, action: CliAction) -> (r: Result<CliAction, String>)
    ensures
        done_at(r, texts(args@), k as int, action),
{
    if args.len() > k {
        assert(texts(args@)[k as int] == args@[k as int]@);
        quoted_error("unexpected argument `", args[k].as_str(), "`")
    } else {
        Ok(action)
    }
}

fn is_word(args: &Vec<String>, k: usize, word: &str) -> (r: bool)
    requires
        k < args@.len(),
    ensures
        r == (texts(args@)[k as int] == word@),
{
    assert(texts(args@)[k as int] == args@[k as int]@);
    same_text(args[k].as_str(), word)
}

fn join_words_from(args: &Vec<String>, k: usize) -> (r: String)
    requires
        k <= args@.len(),
    ensures
        r@ == joined_words(texts(args@).skip(k as int)),
{
    let ghost words = texts(args@).skip(k as int);
    let mut out = String::new();
    let mut i: usize = k;
    let n = args.len();
    proof {
        assert(words.take(0) =~= Seq::<Seq<char>>::empty());
    }
    while i < n
        invariant
            n == args@.len(),
            k <= i <= n,
            words == texts(args@).skip(k as int),
            out@ == joined_words(words.take(i - k)),
        decreases n - i,
    {
        proof {
            assert(words.take(i - k + 1).drop_last() =~= words.take(i - k));
            assert(words[i - k] == args@[i as int]@);
        }
        if i > k {
            push_str(&mut out, " ");
        } else {
            assert(words.take(1) =~= seq![words[0]]);
        }
        push_str(&mut out, args[i].as_str());
        proof {
            assert(out@ =~= joined_words(words.take(i - k + 1)));
        }
        i = i + 1;
    }
    proof {
        assert(words.take(n - k) =~= words);
    }
    out
}

fn parse_cli_request(args: &Vec<String>) -> (r: Result<CliAction, String>)
    requires
        args@.len() >= 1,
    ensures
        cli_request_outcome(r, texts(args@), 1),
{
    let n = args.len();
    if n <= 1 {
        return plain_error("cli requires a command; try `toyoterm help`");
    }
    if is_word(args, 1, "list-panes") {
        return finish_at(args, 2, CliAction::Remote(RemoteRequest::ListPanes));
    }
    if is_word(args, 1, "send-text") {
        if !(n > 2 && is_word(args, 2, "--pane")) {
            return plain_error("send-text requires --pane ID TEXT");
        }
        if n <= 3 {
            return plain_error("--pane requires an ID");
        }
        assert(texts(args@)[3] == args@[3]@);
        let pane = match parse_u64(args[3].as_str()) {
            Some(pane) => pane,
            None => return plain_error("pane ID must be an unsigned integer"),
        };
        let text = join_words_from(args, 4);
        if text.as_str().unicode_len() == 0 {
            return plain_error("send-text requires TEXT");
        }
        return Ok(CliAction::Remote(RemoteRequest::SendText { pane: PaneId(pane), text }));
    }
    if is_word(args, 1, "split") {
        if n <= 2 {
            return Ok(CliAction::Remote(RemoteRequest::Split { direction: SplitDirection::Right }));
        }
        let at: usize = if is_word(args, 2, "--direction") {
            if n <= 3 {
                return plain_error("--direction requires left, right, up, or down");
            }
            3
        } else {
            2
        };
        assert(texts(args@)[at as int] == args@[at as int]@);
        return match parse_direction(args[at].as_str()) {
            Ok(direction) => finish_at(
                args,
                at + 1,
                CliAction::Remote(RemoteRequest::Split { direction }),
            ),
            Err(message) => Err(message),
        };
    }
    if is_word(args, 1, "activate-workspace") {
        if n <= 2 || args[2].as_str().unicode_len() == 0 {
            assert(n > 2 ==> texts(args@)[2] == args@[2]@);
            return plain_error("activate-workspace requires NAME");
        }
        if n > 3 {
            assert(texts(args@)[3] == args@[3]@);
            return quoted_error("unexpected argument `", args[3].as_str(), "`");
        }
        assert(texts(args@)[2] == args@[2]@);
        return Ok(CliAction::Remote(RemoteRequest::ActivateWorkspace(args[2].clone())));
    }
    assert(texts(args@)[1] == args@[1]@);
    quoted_error("unknown cli command `", args[1].as_str(), "`; try `toyoterm help`")
}

/// Reads the `toyoterm` program's command line, without the program's name.
pub fn parse_cli_command(args: &Vec<String>) -> (r: Result<CliAction, String>)
    ensures
        cli_outcome(r, texts(args@)),
{
    let n = args.len();
    if n == 0 {
        return Ok(CliAction::Gui);
    }
    assert(texts(args@)[0] == args@[0]@);
    if is_word(args, 0, "--config") {
        if n > 1 && args[1].as_str().unicode_len() > 0 {
            assert(texts(args@)[1] == args@[1]@);
            if n > 2 {
                assert(texts(args@)[2] == args@[2]@);
                return quoted_error("unexpected argument `", args[2].as_str(), "`");
            }
            return Ok(CliAction::GuiWithConfig(args[1].clone()));
        }
        assert(n > 1 ==> texts(args@)[1] == args@[1]@);
        return plain_error("--config requires a path");
    }
    if is_word(args, 0, "version") || is_word(args, 0, "--version") || is_word(args, 0, "-V") {
        return Ok(CliAction::Version);
    }
    if is_word(args, 0, "list") {
        return finish_at(args, 1, CliAction::Remote(RemoteRequest::List));
    }
    if is_word(args, 0, "reload") {
        return finish_at(args, 1, CliAction::Remote(RemoteRequest::Reload));
    }
    if is_word(args, 0, "cli") {
        return parse_cli_request(args);
    }
    if is_word(args, 0, "demo") {
        return Ok(CliAction::Demo);
    }
    if is_word(args, 0, "pty-demo") {
        return Ok(CliAction::PtyDemo);
    }
    if is_word(args, 0, "screen-demo") {
        return Ok(CliAction::ScreenDemo);
    }
    if is_word(args, 0, "shell-integration") {
        if n <= 1 {
            return plain_error("shell-integration requires bash, zsh, fish, or powershell");
        }
        if n > 2 {
            assert(texts(args@)[2] == args@[2]@);
            return quoted_error("unexpected argument `", args[2].as_str(), "`");
        }
        assert(texts(args@)[1] == args@[1]@);
        return match script(args[1].as_str()) {
            Some(shell) => Ok(CliAction::ShellIntegration(shell)),
            None => quoted_error(
                "unsupported shell `",
                args[1].as_str(),
                "`; expected bash, zsh, fish, or powershell",
            ),
        };
    }
    if is_word(args, 0, "gui-smoke-test") {
        return finish_at(args, 1, CliAction::GuiSmokeTest);
    }
    if is_word(args, 0, "ruby") {
        if n <= 1 {
            return Ok(CliAction::RubyConsole);
        }
        if is_word(args, 1, "console") {
            return finish_at(args, 2, CliAction::RubyConsole);
        }
        assert(texts(args@)[1] == args@[1]@);
        return quoted_error("unexpected ruby argument `", args[1].as_str(), "`");
    }
    if is_word(args, 0, "gui") {
        if n <= 1 {
            return Ok(CliAction::Gui);
        }
        if is_word(args, 1, "--config") {
            if n > 2 && args[2].as_str().unicode_len() > 0 {
                assert(texts(args@)[2] == args@[2]@);
                if n > 3 {
                    assert(texts(args@)[3] == args@[3]@);
                    return quoted_error("unexpected argument `", args[3].as_str(), "`");
                }
                return Ok(CliAction::GuiWithConfig(args[2].clone()));
            }
            assert(n > 2 ==> texts(args@)[2] == args@[2]@);
            return plain_error("--config requires a path");
        }
        assert(texts(args@)[1] == args@[1]@);
        return quoted_error("unexpected GUI argument `", args[1].as_str(), "`");
    }
    if is_word(args, 0, "help") || is_word(args, 0, "--help") || is_word(args, 0, "-h") {
        return Ok(CliAction::Help);
    }
    quoted_error("unknown command `", args[0].as_str(), "`; try `toyoterm help`")
}

} // verus!
