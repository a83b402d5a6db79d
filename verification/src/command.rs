use vstd::prelude::*;

use crate::outer::ColorLevel;
use crate::profile::{name_ok, valid_name_text};
use crate::session::Size;
use crate::status::{append, owned, parsed_u64};
use crate::client::{infos, SessionInfo, SessionInfoView};
use crate::text::{decimal_text, push_decimal_text, starts_with, str_eq, utf8};

verus! {

/// The usage text.
pub const HELP: &'static str = "Usage:
  termfold
  termfold PID_PREFIX
  termfold new [NAME]
  termfold attach [NAME]
  termfold list
  termfold kill [--yes] [NAME]
  termfold view FILE [--session NAME]
  termfold diagnose
  termfold --help
  termfold --version";

/// What the command line asks for.
#[derive(Debug, PartialEq, Eq)]
pub enum Command {
    Select,
    SelectPid(String),
    New(String),
    Attach(String),
    List,
    Kill { name: String, yes: bool },
    View { path: String, session: Option<String> },
    Diagnose,
    Help,
    Version,
    Server { name: String, size: Size },
}

pub enum CommandView {
    Select,
    SelectPid(Seq<char>),
    New(Seq<char>),
    Attach(Seq<char>),
    List,
    Kill { name: Seq<char>, yes: bool },
    View { path: Seq<char>, session: Option<Seq<char>> },
    Diagnose,
    Help,
    Version,
    Server { name: Seq<char>, size: Size },
}

impl View for Command {
    type V = CommandView;

    open spec fn view(&self) -> CommandView {
        match self {
            Command::Select => CommandView::Select,
            Command::SelectPid(p) => CommandView::SelectPid(p@),
            Command::New(n) => CommandView::New(n@),
            Command::Attach(n) => CommandView::Attach(n@),
            Command::List => CommandView::List,
            Command::Kill { name, yes } => CommandView::Kill { name: name@, yes: *yes },
            Command::View { path, session } => CommandView::View {
                path: path@,
                session: match session {
                    Some(s) => Some(s@),
                    None => None,
                },
            },
            Command::Diagnose => CommandView::Diagnose,
            Command::Help => CommandView::Help,
            Command::Version => CommandView::Version,
            Command::Server { name, size } => CommandView::Server { name: name@, size: *size },
        }
    }
}

pub open spec fn name_error() -> Seq<char> {
    "session name must match [A-Za-z0-9_-]{1,64}"@
}

/// A session name: one to sixty-four letters, digits, `_` and `-`.
pub open spec fn name_of(t: Seq<char>) -> Result<Seq<char>, Seq<char>> {
    if name_ok(t) {
        Ok(t)
    } else {
        Err(name_error())
    }
}

pub fn valid_name(name: &str) -> (r: Result<String, String>)
    ensures
        match name_of(name@) {
            Ok(t) => r matches Ok(s) && s@ == t,
            Err(m) => r matches Err(e) && e@ == m,
        },
{
    if valid_name_text(name) {
        Ok(owned(name))
    } else {
        Err(owned("session name must match [A-Za-z0-9_-]{1,64}"))
    }
}

/// A dimension given to the server: a non-zero `u16`.
pub open spec fn dimension_of(t: Seq<char>) -> Result<u16, Seq<char>> {
    match parsed_u64(t) {
        Some(v) => if 0 < v <= u16::MAX {
            Ok(v as u16)
        } else {
            Err("server terminal dimensions must be non-zero u16 values"@)
        },
        None => Err("server terminal dimensions must be non-zero u16 values"@),
    }
}

pub fn valid_dimension(value: &str) -> (r: Result<u16, String>)
    ensures
        match dimension_of(value@) {
            Ok(d) => r == Ok::<u16, String>(d),
            Err(m) => r matches Err(e) && e@ == m,
        },
{
    let chars = crate::status::chars_of(value);
    match crate::status::parse_u64(&chars) {
        Some(v) => if 0 < v && v <= 65535 {
            Ok(v as u16)
        } else {
            Err(owned("server terminal dimensions must be non-zero u16 values"))
        },
        None => Err(owned("server terminal dimensions must be non-zero u16 values")),
    }
}

pub open spec fn all_digits(t: Seq<char>) -> bool {
    t.len() > 0 && forall|i: int| 0 <= i < t.len() ==> '0' <= #[trigger] t[i] && t[i] <= '9'
}

fn digits_only(text: &str) -> (r: bool)
    ensures
        r == all_digits(text@),
{
    let chars = crate::status::chars_of(text);
    if chars.len() == 0 {
        return false;
    }
    let mut i: usize = 0;
    while i < chars.len()
        invariant
            0 <= i <= chars@.len(),
            chars@ == text@,
            forall|j: int| 0 <= j < i ==> '0' <= #[trigger] chars@[j] && chars@[j] <= '9',
        decreases chars.len() - i,
    {
        if !('0' <= chars[i] && chars[i] <= '9') {
            return false;
        }
        i += 1;
    }
    true
}

pub open spec fn with_name(t: Seq<char>, make: spec_fn(Seq<char>) -> CommandView) -> Result<CommandView, Seq<char>> {
    match name_of(t) {
        Ok(n) => Ok(make(n)),
        Err(m) => Err(m),
    }
}

/// What the command line's arguments ask for, or the error to report: the usage
/// text after `invalid command` when they match no command.
pub open spec fn command_of(a: Seq<Seq<char>>) -> Result<CommandView, Seq<char>> {
    let invalid = Err("invalid command\n"@ + HELP@);
    if a.len() == 0 {
        Ok(CommandView::Select)
    } else if a.len() == 1 {
        let v = a[0];
        if v == "--help"@ {
            Ok(CommandView::Help)
        } else if v == "--version"@ {
            Ok(CommandView::Version)
        } else if v == "list"@ {
            Ok(CommandView::List)
        } else if v == "diagnose"@ {
            Ok(CommandView::Diagnose)
        } else if all_digits(v) {
            Ok(CommandView::SelectPid(v))
        } else if v == "new"@ {
            Ok(CommandView::New("default"@))
        } else if v == "attach"@ {
            Ok(CommandView::Attach("default"@))
        } else if v == "kill"@ {
            Ok(CommandView::Kill { name: "default"@, yes: false })
        } else {
            invalid
        }
    } else if a.len() == 2 {
        let (c, v) = (a[0], a[1]);
        if c == "kill"@ && v == "--yes"@ {
            Ok(CommandView::Kill { name: "default"@, yes: true })
        } else if c == "new"@ {
            with_name(v, |n: Seq<char>| CommandView::New(n))
        } else if c == "attach"@ {
            with_name(v, |n: Seq<char>| CommandView::Attach(n))
        } else if c == "kill"@ {
            with_name(v, |n: Seq<char>| CommandView::Kill { name: n, yes: false })
        } else if c == "view"@ && v.len() > 0 {
            Ok(CommandView::View { path: v, session: None })
        } else {
            invalid
        }
    } else if a.len() == 3 {
        if a[0] == "kill"@ && a[1] == "--yes"@ {
            with_name(a[2], |n: Seq<char>| CommandView::Kill { name: n, yes: true })
        } else {
            invalid
        }
    } else if a.len() == 4 {
        if a[0] == "view"@ && a[1] == "--session"@ && a[3].len() > 0 {
            with_name(a[2], |n: Seq<char>| CommandView::View { path: a[3], session: Some(n) })
        } else if a[0] == "view"@ && a[2] == "--session"@ && a[1].len() > 0 {
            with_name(a[3], |n: Seq<char>| CommandView::View { path: a[1], session: Some(n) })
        } else if a[0] == "--server"@ {
            match name_of(a[1]) {
                Err(m) => Err(m),
                Ok(n) => match dimension_of(a[2]) {
                    Err(m) => Err(m),
                    Ok(columns) => match dimension_of(a[3]) {
                        Err(m) => Err(m),
                        Ok(rows) => Ok(CommandView::Server { name: n, size: Size { columns, rows } }),
                    },
                },
            }
        } else {
            invalid
        }
    } else {
        invalid
    }
}

pub open spec fn arguments_view(a: Seq<String>) -> Seq<Seq<char>> {
    a.map_values(|s: String| s@)
}

fn invalid_command() -> (r: Result<Command, String>)
    ensures
        r matches Err(e) && e@ == "invalid command\n"@ + HELP@,
{
    let mut message = owned("invalid command\n");
    append(&mut message, HELP);
    Err(message)
}

/// What the command line's arguments ask for.
#[verifier::rlimit(60)]
pub fn parse_command(arguments: Vec<String>) -> (r: Result<Command, String>)
    ensures
        match command_of(arguments_view(arguments@)) {
            Ok(c) => r matches Ok(command) && command@ == c,
            Err(m) => r matches Err(e) && e@ == m,
        },
{
    let ghost a = arguments_view(arguments@);
    assert(a.len() == arguments@.len());
    if arguments.len() == 0 {
        return Ok(Command::Select);
    }
    assert(a[0] == arguments@[0]@);
    if arguments.len() == 1 {
        let v = arguments[0].as_str();
        if str_eq(v, "--help") {
            return Ok(Command::Help);
        } else if str_eq(v, "--version") {
            return Ok(Command::Version);
        } else if str_eq(v, "list") {
            return Ok(Command::List);
        } else if str_eq(v, "diagnose") {
            return Ok(Command::Diagnose);
        } else if digits_only(v) {
            return Ok(Command::SelectPid(owned(v)));
        } else if str_eq(v, "new") {
            return Ok(Command::New(owned("default")));
        } else if str_eq(v, "attach") {
            return Ok(Command::Attach(owned("default")));
        } else if str_eq(v, "kill") {
            return Ok(Command::Kill { name: owned("default"), yes: false });
        }
        return invalid_command();
    }
    assert(a[1] == arguments@[1]@);
    if arguments.len() == 2 {
        let c = arguments[0].as_str();
        let v = arguments[1].as_str();
        if str_eq(c, "kill") && str_eq(v, "--yes") {
            return Ok(Command::Kill { name: owned("default"), yes: true });
        } else if str_eq(c, "new") {
            return Ok(Command::New(valid_name(v)?));
        } else if str_eq(c, "attach") {
            return Ok(Command::Attach(valid_name(v)?));
        } else if str_eq(c, "kill") {
            return Ok(Command::Kill { name: valid_name(v)?, yes: false });
        } else if str_eq(c, "view") && !is_empty_text(v) {
            return Ok(Command::View { path: owned(v), session: None });
        }
        return invalid_command();
    }
    assert(a[2] == arguments@[2]@);
    if arguments.len() == 3 {
        if str_eq(arguments[0].as_str(), "kill") && str_eq(arguments[1].as_str(), "--yes") {
            return Ok(Command::Kill { name: valid_name(arguments[2].as_str())?, yes: true });
        }
        return invalid_command();
    }
    assert(a[3] == arguments@[3]@);
    if arguments.len() == 4 {
        let first = arguments[0].as_str();
        let second = arguments[1].as_str();
        let third = arguments[2].as_str();
        let fourth = arguments[3].as_str();
        if str_eq(first, "view") && str_eq(second, "--session") && !is_empty_text(fourth) {
            return Ok(Command::View { path: owned(fourth), session: Some(valid_name(third)?) });
        } else if str_eq(first, "view") && str_eq(third, "--session") && !is_empty_text(second) {
            return Ok(Command::View { path: owned(second), session: Some(valid_name(fourth)?) });
        } else if str_eq(first, "--server") {
            let name = valid_name(second)?;
            let columns = valid_dimension(third)?;
            let rows = valid_dimension(fourth)?;
            return Ok(Command::Server { name, size: Size { columns, rows } });
        }
        return invalid_command();
    }
    invalid_command()
}

fn is_empty_text(text: &str) -> (r: bool)
    ensures
        r == (text@.len() == 0),
{
    crate::status::chars_of(text).len() == 0
}

/// The name of a colour level, as the diagnosis prints it.
pub open spec fn color_level_text(level: ColorLevel) -> Seq<char> {
    match level {
        ColorLevel::Monochrome => "monochrome"@,
        ColorLevel::Ansi16 => "16 colours"@,
        ColorLevel::Indexed256 => "256 colours"@,
        ColorLevel::TrueColor => "true colour"@,
    }
}

pub fn color_level_name(level: ColorLevel) -> (r: &'static str)
    ensures
        r@ == color_level_text(level),
{
    match level {
        ColorLevel::Monochrome => "monochrome",
        ColorLevel::Ansi16 => "16 colours",
        ColorLevel::Indexed256 => "256 colours",
        ColorLevel::TrueColor => "true colour",
    }
}

pub fn yes_no(value: bool) -> (r: &'static str)
    ensures
        r@ == (if value { "yes"@ } else { "no"@ }),
{
    if value {
        "yes"
    } else {
        "no"
    }
}


/// What a bare `termfold` or `termfold PID_PREFIX` does with the running sessions.
#[derive(Debug, PartialEq, Eq)]
pub enum Selection {
    /// Start the session of that name and attach to it.
    Create(String),
    /// Attach to the session of that name.
    Attach(String),
    /// List the sessions.
    List,
}

pub enum SelectionView {
    Create(Seq<char>),
    Attach(Seq<char>),
    List,
}

impl View for Selection {
    type V = SelectionView;

    open spec fn view(&self) -> SelectionView {
        match self {
            Selection::Create(name) => SelectionView::Create(name@),
            Selection::Attach(name) => SelectionView::Attach(name@),
            Selection::List => SelectionView::List,
        }
    }
}

/// A session that a selection may attach to: none is attached to it, and its process
/// id begins with the prefix, when there is one.
pub open spec fn eligible(session: SessionInfoView, prefix: Option<Seq<char>>) -> bool {
    session.attached_clients == 0 && match prefix {
        Some(p) => utf8(p).is_prefix_of(utf8(decimal_text(session.pid as nat))),
        None => true,
    }
}

/// The eligible sessions, in order.
pub open spec fn eligible_sessions(sessions: Seq<SessionInfoView>, prefix: Option<Seq<char>>) -> Seq<SessionInfoView>
    decreases sessions.len(),
{
    if sessions.len() == 0 {
        Seq::empty()
    } else {
        let rest = eligible_sessions(sessions.drop_last(), prefix);
        if eligible(sessions.last(), prefix) {
            rest.push(sessions.last())
        } else {
            rest
        }
    }
}

/// The one eligible session, if exactly one is.
pub open spec fn single(sessions: Seq<SessionInfoView>, prefix: Option<Seq<char>>) -> Option<Seq<char>> {
    let found = eligible_sessions(sessions, prefix);
    if found.len() == 1 {
        Some(found[0].name)
    } else {
        None
    }
}

fn single_eligible(sessions: &Vec<SessionInfo>, prefix: Option<&str>) -> (r: Option<String>)
    ensures
        match r {
            Some(name) => single(infos(sessions@), match prefix {
                Some(p) => Some(p@),
                None => None,
            }) == Some(name@),
            None => single(infos(sessions@), match prefix {
                Some(p) => Some(p@),
                None => None,
            }) is None,
        },
{
    let ghost wanted: Option<Seq<char>> = match prefix {
        Some(p) => Some(p@),
        None => None,
    };
    let ghost all = infos(sessions@);
    let mut count: usize = 0;
    let mut first: usize = 0;
    let mut index: usize = 0;
    while index < sessions.len()
        invariant
            index <= sessions@.len(),
            all == infos(sessions@),
            all.len() == sessions@.len(),
            wanted == (match prefix {
                Some(p) => Some(p@),
                None => None,
            }),
            count == eligible_sessions(all.take(index as int), wanted).len(),
            count <= index,
            count >= 1 ==> first < index && eligible_sessions(all.take(index as int), wanted)[0] == all[first as int],
        decreases sessions.len() - index,
    {
        let session = &sessions[index];
        let mut ok = session.attached_clients == 0;
        if ok {
            if let Some(p) = prefix {
                let mut digits = String::new();
                push_decimal_text(&mut digits, session.pid as u64);
                ok = starts_with(digits.as_str(), p);
            }
        }
        proof {
            assert(all.take(index + 1).drop_last() =~= all.take(index as int));
            assert(all.take(index + 1).last() == all[index as int]);
            assert(all[index as int] == sessions@[index as int]@);
            assert(ok == eligible(all[index as int], wanted));
        }
        if ok {
            if count == 0 {
                first = index;
            }
            count = count + 1;
        }
        index = index + 1;
    }
    proof {
        assert(all.take(sessions@.len() as int) =~= all);
    }
    if count == 1 {
        Some(sessions[first].name.clone())
    } else {
        None
    }
}

/// What a bare `termfold` does: start `default` when no session runs, attach to the
/// one session that no client is attached to, else list them.
pub open spec fn selection(sessions: Seq<SessionInfoView>) -> SelectionView {
    if sessions.len() == 0 {
        SelectionView::Create("default"@)
    } else {
        match single(sessions, None) {
            Some(name) => SelectionView::Attach(name),
            None => SelectionView::List,
        }
    }
}

/// The choice of a bare `termfold` among the running sessions.
pub fn select(sessions: &Vec<SessionInfo>) -> (r: Selection)
    ensures
        r@ == selection(infos(sessions@)),
{
    if sessions.len() == 0 {
        return Selection::Create(owned("default"));
    }
    match single_eligible(sessions, None) {
        Some(name) => Selection::Attach(name),
        None => Selection::List,
    }
}

/// What `termfold PID_PREFIX` does: attach to the one detached session whose process
/// id begins with the prefix, else list the sessions.
pub open spec fn pid_selection(sessions: Seq<SessionInfoView>, prefix: Seq<char>) -> SelectionView {
    match single(sessions, Some(prefix)) {
        Some(name) => SelectionView::Attach(name),
        None => SelectionView::List,
    }
}

/// The choice of `termfold PID_PREFIX` among the running sessions.
pub fn select_pid(sessions: &Vec<SessionInfo>, prefix: &str) -> (r: Selection)
    ensures
        r@ == pid_selection(infos(sessions@), prefix@),
{
    match single_eligible(sessions, Some(prefix)) {
        Some(name) => Selection::Attach(name),
        None => Selection::List,
    }
}

/// The line that lists a session: its process id, its name, and whether a client is
/// attached.
pub open spec fn session_line(session: SessionInfoView) -> Seq<char> {
    decimal_text(session.pid as nat) + seq![' '] + session.name + seq![' '] + (if session.attached_clients != 0 {
        "attached"@
    } else {
        "detached"@
    })
}

/// The lines that `termfold list` prints, one per session.
pub fn session_lines(sessions: &Vec<SessionInfo>) -> (r: Vec<String>)
    ensures
        r@.len() == sessions@.len(),
        forall|i: int| 0 <= i < r@.len() ==> #[trigger] r@[i]@ == session_line(sessions@[i]@),
{
    let mut lines: Vec<String> = Vec::new();
    let mut index: usize = 0;
    while index < sessions.len()
        invariant
            index <= sessions@.len(),
            lines@.len() == index,
            forall|i: int| 0 <= i < index ==> #[trigger] lines@[i]@ == session_line(sessions@[i]@),
        decreases sessions.len() - index,
    {
        let session = &sessions[index];
        let mut line = String::new();
        push_decimal_text(&mut line, session.pid as u64);
        line.push(' ');
        append(&mut line, session.name.as_str());
        line.push(' ');
        if session.is_attached() {
            append(&mut line, "attached");
        } else {
            append(&mut line, "detached");
        }
        lines.push(line);
        index = index + 1;
    }
    lines
}

/// Whether the answer to the question before `termfold kill` ends the session: only
/// the exact line `yes` does; any other line, or the end of input, cancels.
pub fn kill_confirmed(answer: Option<&str>) -> (r: bool)
    ensures
        r == (answer matches Some(line) && line@ == "yes"@),
{
    match answer {
        Some(line) => str_eq(line, "yes"),
        None => false,
    }
}

/// The session that `termfold view` opens its file in: the one named on the command
/// line, else the one in `TERMFOLD_SESSION` (set in Termfold's shells); the name must
/// be valid.
pub open spec fn view_session_of(explicit: Option<Seq<char>>, inherited: Option<Seq<char>>) -> Result<Seq<char>, Seq<char>> {
    match explicit {
        Some(name) => name_of(name),
        None => match inherited {
            Some(name) => name_of(name),
            None => Err("termfold view requires an explicit session outside Termfold"@),
        },
    }
}

/// Picks the session for `termfold view`; `inherited` is the value of
/// `TERMFOLD_SESSION`, when it is set.
pub fn view_session(explicit: Option<String>, inherited: Option<String>) -> (r: Result<String, String>)
    ensures
        match view_session_of(
            match explicit {
                Some(n) => Some(n@),
                None => None,
            },
            match inherited {
                Some(n) => Some(n@),
                None => None,
            },
        ) {
            Ok(name) => r matches Ok(n) && n@ == name,
            Err(m) => r matches Err(e) && e@ == m,
        },
{
    match explicit {
        Some(name) => valid_name(name.as_str()),
        None => match inherited {
            Some(name) => valid_name(name.as_str()),
            None => Err(owned("termfold view requires an explicit session outside Termfold")),
        },
    }
}

/// `kill` skips its confirmation exactly when `--yes` is among the arguments: a
/// `kill` command asks first unless one argument is `--yes`, and `kill NAME` with a
/// name other than `--yes` always asks.
pub proof fn lemma_kill_confirms(a: Seq<Seq<char>>)
    ensures
        command_of(a) matches Ok(CommandView::Kill { yes, .. }) ==> (yes <==> a.contains("--yes"@)),
        a.len() == 2 && a[0] == "kill"@ && a[1] != "--yes"@ ==> match command_of(a) {
            Ok(c) => c == CommandView::Kill { name: a[1], yes: false },
            Err(_) => true,
        },
{
    if let Ok(CommandView::Kill { yes, .. }) = command_of(a) {
        if yes {
            if a.len() == 2 {
                assert(a[1] == "--yes"@);
            } else {
                assert(a[1] == "--yes"@);
            }
        } else {
            if a.len() == 1 {
                assert(a[0] == "kill"@);
                assert(a[0] != "--yes"@) by {
                    reveal_strlit("kill");
                    reveal_strlit("--yes");
                    assert(a[0].len() != "--yes"@.len());
                }
            } else {
                assert(a.len() == 2);
                assert(a[0] == "kill"@);
                assert(a[0] != "--yes"@) by {
                    reveal_strlit("kill");
                    reveal_strlit("--yes");
                    assert(a[0].len() != "--yes"@.len());
                }
                assert(a[1] != "--yes"@);
            }
            assert(!a.contains("--yes"@));
        }
    }
    if a.len() == 2 && a[0] == "kill"@ && a[1] != "--yes"@ {
        reveal_strlit("kill");
        reveal_strlit("new");
        reveal_strlit("attach");
        assert(a[0] != "new"@ && a[0] != "attach"@ && a[0] != "view"@) by {
            reveal_strlit("view");
            assert(a[0].len() == 4 && a[0][0] == 'k');
        }
    }
}

/// The first argument names the command, and the session it acts on is the name
/// given last, or `default` when none is: `new [NAME]` creates, `attach [NAME]`
/// attaches, and `kill [--yes] [NAME]` kills.
pub proof fn lemma_command_names(a: Seq<Seq<char>>)
    ensures
        command_of(a) matches Ok(CommandView::New(n)) ==> a.len() >= 1 && a[0] == "new"@ && n == (if a.len() == 1 {
            "default"@
        } else {
            a[a.len() - 1]
        }),
        command_of(a) matches Ok(CommandView::Attach(n)) ==> a.len() >= 1 && a[0] == "attach"@ && n == (if a.len() == 1 {
            "default"@
        } else {
            a[a.len() - 1]
        }),
        command_of(a) matches Ok(CommandView::Kill { name, .. }) ==> a.len() >= 1 && a[0] == "kill"@ && name == (if a.len() == 1
            || (a.len() == 2 && a[1] == "--yes"@) {
            "default"@
        } else {
            a[a.len() - 1]
        }),
{
}

} // verus!
