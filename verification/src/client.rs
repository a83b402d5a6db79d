use vstd::prelude::*;

use crate::ipc::{Message, MessageView};
use crate::session::MAX_SESSIONS_PER_USER;
use crate::status::{append, owned};
use crate::text::str_eq;

verus! {

/// A running session: its name, its server's process id, and how many clients are
/// attached to it.
#[derive(Clone, Debug, Eq, PartialEq)]
pub struct SessionInfo {
    pub name: String,
    pub pid: u32,
    pub attached_clients: u32,
}

pub struct SessionInfoView {
    pub name: Seq<char>,
    pub pid: u32,
    pub attached_clients: u32,
}

impl View for SessionInfo {
    type V = SessionInfoView;

    open spec fn view(&self) -> SessionInfoView {
        SessionInfoView { name: self.name@, pid: self.pid, attached_clients: self.attached_clients }
    }
}

impl SessionInfo {
    /// Some client is attached.
    pub fn is_attached(&self) -> (r: bool)
        ensures
            r == (self.attached_clients != 0),
    {
        self.attached_clients != 0
    }
}

pub open spec fn infos(v: Seq<SessionInfo>) -> Seq<SessionInfoView> {
    v.map_values(|s: SessionInfo| s@)
}

/// Where a session goes among sessions ordered by process id: after every session
/// whose id is not larger.
pub open spec fn insertion_point(sorted: Seq<SessionInfoView>, pid: u32) -> nat
    decreases sorted.len(),
{
    if sorted.len() == 0 || sorted[0].pid > pid {
        0
    } else {
        1 + insertion_point(sorted.drop_first(), pid)
    }
}

/// The sessions ordered by process id, sessions with the same id kept in the order
/// they came.
pub open spec fn by_pid(s: Seq<SessionInfoView>) -> Seq<SessionInfoView>
    decreases s.len(),
{
    if s.len() == 0 {
        Seq::empty()
    } else {
        let sorted = by_pid(s.drop_last());
        sorted.insert(insertion_point(sorted, s.last().pid) as int, s.last())
    }
}

proof fn lemma_insertion_point(sorted: Seq<SessionInfoView>, pid: u32, k: int)
    requires
        0 <= k <= sorted.len(),
        forall|j: int| 0 <= j < k ==> sorted[j].pid <= pid,
        k == sorted.len() || sorted[k].pid > pid,
    ensures
        insertion_point(sorted, pid) == k,
    decreases sorted.len(),
{
    if sorted.len() > 0 && sorted[0].pid <= pid {
        assert forall|j: int| 0 <= j < k - 1 implies sorted.drop_first()[j].pid <= pid by {
            assert(sorted.drop_first()[j] == sorted[j + 1]);
        }
        if k - 1 < sorted.drop_first().len() {
            assert(sorted.drop_first()[k - 1] == sorted[k]);
        }
        lemma_insertion_point(sorted.drop_first(), pid, k - 1);
    }
}

pub open spec fn pid_sorted(s: Seq<SessionInfoView>) -> bool {
    forall|i: int, j: int| 0 <= i < j < s.len() ==> s[i].pid <= s[j].pid
}

proof fn lemma_insertion_point_splits(sorted: Seq<SessionInfoView>, pid: u32)
    requires
        pid_sorted(sorted),
    ensures
        insertion_point(sorted, pid) <= sorted.len(),
        forall|j: int| 0 <= j < insertion_point(sorted, pid) ==> sorted[j].pid <= pid,
        forall|j: int| insertion_point(sorted, pid) <= j < sorted.len() ==> sorted[j].pid > pid,
    decreases sorted.len(),
{
    if sorted.len() > 0 && sorted[0].pid <= pid {
        let rest = sorted.drop_first();
        lemma_insertion_point_splits(rest, pid);
        assert forall|j: int| 0 <= j < insertion_point(sorted, pid) implies sorted[j].pid <= pid by {
            if j > 0 {
                assert(sorted[j] == rest[j - 1]);
            }
        }
        assert forall|j: int| insertion_point(sorted, pid) <= j < sorted.len() implies sorted[j].pid > pid by {
            assert(sorted[j] == rest[j - 1]);
        }
    }
}

/// The sessions that discovery returns are ordered by process id, and none is lost or
/// added.
pub proof fn lemma_by_pid_orders(s: Seq<SessionInfoView>)
    ensures
        pid_sorted(by_pid(s)),
        by_pid(s).len() == s.len(),
    decreases s.len(),
{
    if s.len() > 0 {
        let rest = by_pid(s.drop_last());
        lemma_by_pid_orders(s.drop_last());
        let k = insertion_point(rest, s.last().pid) as int;
        lemma_insertion_point_splits(rest, s.last().pid);
        let r = rest.insert(k, s.last());
        assert forall|i: int, j: int| 0 <= i < j < r.len() implies r[i].pid <= r[j].pid by {
            if j < k {
                assert(r[i] == rest[i] && r[j] == rest[j]);
            } else if j == k {
                assert(r[i] == rest[i]);
            } else if i < k {
                assert(r[i] == rest[i] && r[j] == rest[j - 1]);
            } else if i == k {
                assert(r[j] == rest[j - 1]);
            } else {
                assert(r[i] == rest[i - 1] && r[j] == rest[j - 1]);
            }
        }
    }
}

/// The sessions found, ordered by process id.
pub fn discover(found: Vec<SessionInfo>) -> (r: Vec<SessionInfo>)
    ensures
        infos(r@) == by_pid(infos(found@)),
        pid_sorted(infos(r@)),
        r@.len() == found@.len(),
{
    proof {
        lemma_by_pid_orders(infos(found@));
    }
    let ghost all = infos(found@);
    let mut sorted: Vec<SessionInfo> = Vec::new();
    let mut i: usize = 0;
    assert(all.take(0) =~= Seq::<SessionInfoView>::empty());
    assert(infos(sorted@) =~= Seq::<SessionInfoView>::empty());
    while i < found.len()
        invariant
            0 <= i <= found@.len(),
            all == infos(found@),
            infos(sorted@) == by_pid(all.take(i as int)),
        decreases found.len() - i,
    {
        let item = SessionInfo { name: found[i].name.clone(), pid: found[i].pid, attached_clients: found[i].attached_clients };
        assert(all[i as int] == found@[i as int]@);
        let mut k: usize = 0;
        while k < sorted.len() && sorted[k].pid <= item.pid
            invariant
                0 <= k <= sorted@.len(),
                forall|j: int| 0 <= j < k ==> sorted@[j].pid <= item.pid,
            decreases sorted.len() - k,
        {
            k += 1;
        }
        proof {
            assert forall|j: int| 0 <= j < k implies infos(sorted@)[j].pid <= item.pid by {
                assert(infos(sorted@)[j] == sorted@[j]@);
            }
            if k < sorted@.len() {
                assert(infos(sorted@)[k as int] == sorted@[k as int]@);
            }
            lemma_insertion_point(infos(sorted@), item.pid, k as int);
            assert(all.take(i + 1).drop_last() =~= all.take(i as int));
        }
        let ghost before = sorted@;
        sorted.insert(k, item);
        proof {
            assert(infos(sorted@) =~= infos(before).insert(k as int, found@[i as int]@));
        }
        i += 1;
    }
    assert(all.take(i as int) =~= all);
    sorted
}

/// A session's answer to a status request, as the session's information.
pub open spec fn status_of(name: Seq<char>, reply: Option<MessageView>) -> Result<SessionInfoView, Seq<char>> {
    match reply {
        Some(MessageView::Status { pid, attached_clients }) => Ok(SessionInfoView { name, pid, attached_clients }),
        _ => Err("session '"@ + name + "' returned an invalid status"@),
    }
}

pub open spec fn reply_view(reply: Option<Message>) -> Option<MessageView> {
    match reply {
        Some(m) => Some(m@),
        None => None,
    }
}

/// The information in a session's reply to a status request; `reply` is the message
/// read back, `None` when the session closed the connection.
pub fn query_status(name: &str, reply: Option<Message>) -> (r: Result<SessionInfo, String>)
    ensures
        match status_of(name@, reply_view(reply)) {
            Ok(info) => r matches Ok(i) && i@ == info,
            Err(m) => r matches Err(e) && e@ == m,
        },
{
    match reply {
        Some(Message::Status { pid, attached_clients }) => Ok(SessionInfo { name: owned(name), pid, attached_clients }),
        _ => {
            let mut message = owned("session '");
            append(&mut message, name);
            append(&mut message, "' returned an invalid status");
            Err(message)
        },
    }
}

/// Whether a session of this name can be created beside the running ones: not when
/// one has the name, nor when the user already runs the most sessions allowed.
pub open spec fn creatable(sessions: Seq<SessionInfoView>, name: Seq<char>) -> Result<(), Seq<char>> {
    if exists|i: int| 0 <= i < sessions.len() && #[trigger] sessions[i].name == name {
        Err("session '"@ + name + "' already exists"@)
    } else if sessions.len() >= MAX_SESSIONS_PER_USER {
        Err("current user already has 32 sessions"@)
    } else {
        Ok(())
    }
}

pub fn check_new_session(sessions: &Vec<SessionInfo>, name: &str) -> (r: Result<(), String>)
    ensures
        match creatable(infos(sessions@), name@) {
            Ok(()) => r is Ok,
            Err(m) => r matches Err(e) && e@ == m,
        },
{
    let ghost all = infos(sessions@);
    let mut i: usize = 0;
    while i < sessions.len()
        invariant
            0 <= i <= sessions@.len(),
            all == infos(sessions@),
            forall|j: int| 0 <= j < i ==> #[trigger] all[j].name != name@,
        decreases sessions.len() - i,
    {
        assert(all[i as int] == sessions@[i as int]@);
        if str_eq(sessions[i].name.as_str(), name) {
            assert(all[i as int].name == name@);
            let mut message = owned("session '");
            append(&mut message, name);
            append(&mut message, "' already exists");
            return Err(message);
        }
        i += 1;
    }
    if sessions.len() >= MAX_SESSIONS_PER_USER {
        return Err(owned("current user already has 32 sessions"));
    }
    Ok(())
}


/// What a session's answer to an attach request means: attached, or the error to
/// report.
pub open spec fn attach_result(reply: Option<MessageView>) -> Result<(), Seq<char>> {
    match reply {
        Some(MessageView::Attached) => Ok(()),
        Some(MessageView::Error(error)) => Err(error),
        Some(_) => Err("session returned an unexpected attach response"@),
        None => Err("session disconnected during attach"@),
    }
}

/// Checks a session's answer to an attach request; `reply` is the message read back,
/// `None` when the session closed the connection.
pub fn attach_reply(reply: Option<Message>) -> (r: Result<(), String>)
    ensures
        match attach_result(reply_view(reply)) {
            Ok(()) => r is Ok,
            Err(m) => r matches Err(e) && e@ == m,
        },
{
    match reply {
        Some(Message::Attached) => Ok(()),
        Some(Message::Error(error)) => Err(error),
        Some(_) => Err(owned("session returned an unexpected attach response")),
        None => Err(owned("session disconnected during attach")),
    }
}

/// What an attached client does with a message from its session.
#[derive(Debug, PartialEq, Eq)]
pub enum AttachedStep {
    /// Write these bytes to the terminal and read on.
    Show(Vec<u8>),
    /// Stop with this error.
    Fail(String),
    /// The session ended or let the client go: stop without error.
    Done,
}

pub enum AttachedStepView {
    Show(Seq<u8>),
    Fail(Seq<char>),
    Done,
}

impl View for AttachedStep {
    type V = AttachedStepView;

    open spec fn view(&self) -> AttachedStepView {
        match self {
            AttachedStep::Show(bytes) => AttachedStepView::Show(bytes@),
            AttachedStep::Fail(error) => AttachedStepView::Fail(error@),
            AttachedStep::Done => AttachedStepView::Done,
        }
    }
}

pub open spec fn attached_step(message: Option<MessageView>) -> AttachedStepView {
    match message {
        Some(MessageView::Screen(bytes)) => AttachedStepView::Show(bytes),
        Some(MessageView::Error(error)) => AttachedStepView::Fail(error),
        Some(MessageView::Terminating) => AttachedStepView::Done,
        None => AttachedStepView::Done,
        Some(_) => AttachedStepView::Fail("session returned an unexpected message"@),
    }
}

/// The step an attached client takes on a message read from its session, `None`
/// when the session closed the connection.
pub fn on_session_message(message: Option<Message>) -> (r: AttachedStep)
    ensures
        r@ == attached_step(reply_view(message)),
{
    match message {
        Some(Message::Screen(bytes)) => AttachedStep::Show(bytes),
        Some(Message::Error(error)) => AttachedStep::Fail(error),
        Some(Message::Terminating) => AttachedStep::Done,
        None => AttachedStep::Done,
        Some(_) => AttachedStep::Fail(owned("session returned an unexpected message")),
    }
}

/// Where starting a session server stands after one status query.
#[derive(Debug, PartialEq, Eq)]
pub enum Startup {
    /// The new server answers: attach to it.
    Started,
    /// Another server answers under the name.
    Taken(String),
    /// No answer yet: wait and ask again.
    Wait,
    /// No answer before the deadline.
    Failed(String),
}

pub enum StartupView {
    Started,
    Taken(Seq<char>),
    Wait,
    Failed(Seq<char>),
}

impl View for Startup {
    type V = StartupView;

    open spec fn view(&self) -> StartupView {
        match self {
            Startup::Started => StartupView::Started,
            Startup::Taken(m) => StartupView::Taken(m@),
            Startup::Wait => StartupView::Wait,
            Startup::Failed(m) => StartupView::Failed(m@),
        }
    }
}

pub open spec fn startup_of(
    name: Seq<char>,
    status: Result<SessionInfoView, Seq<char>>,
    expected_pid: u32,
    before_deadline: bool,
) -> StartupView {
    match status {
        Ok(info) => if info.pid == expected_pid {
            StartupView::Started
        } else {
            StartupView::Taken("session '"@ + name + "' already exists"@)
        },
        Err(error) => if before_deadline {
            StartupView::Wait
        } else {
            StartupView::Failed("session server did not start: "@ + error)
        },
    }
}

/// Judges one status query made while a new session server starts: `expected_pid` is
/// the server's process id, `before_deadline` whether there is still time to wait.
pub fn startup_step(name: &str, status: &Result<SessionInfo, String>, expected_pid: u32, before_deadline: bool) -> (r: Startup)
    ensures
        r@ == startup_of(
            name@,
            match status {
                Ok(info) => Ok(info@),
                Err(e) => Err(e@),
            },
            expected_pid,
            before_deadline,
        ),
{
    match status {
        Ok(info) => {
            if info.pid == expected_pid {
                Startup::Started
            } else {
                let mut message = owned("session '");
                append(&mut message, name);
                append(&mut message, "' already exists");
                Startup::Taken(message)
            }
        },
        Err(error) => {
            if before_deadline {
                Startup::Wait
            } else {
                let mut message = owned("session server did not start: ");
                append(&mut message, error.as_str());
                Startup::Failed(message)
            }
        },
    }
}

} // verus!
