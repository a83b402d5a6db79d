use std::path::PathBuf;
use std::time::SystemTime;
use vstd::prelude::*;

use crate::input::{viewer_search_line, viewer_search_status, Action, ActionView, MouseEvent};
use crate::ipc::{Message, MessageView};
use crate::outer::Capabilities;
use crate::render::{clock_key, epoch_secs};
use crate::server::{
    attach_answer, attach_capabilities, help_message, help_status_message, intent_of,
    next_match, next_match_of, next_view, pane_area, pane_area_of, scroll_message, scroll_percent,
    scroll_percent_of, scroll_status_message, view_after, viewer_intent, ClientView, ViewerIntent,
    ViewerPrompt,
};
use crate::session::{
    active_closed, close_outcome, pane_focused, pane_resized, pane_split, state_error_message, tab_created,
    tab_selected, tab_stepped, CloseResult, PaneId, Session, SessionView, Size, StateError,
};
use crate::status::{append, owned};
use crate::text::{contains_bytes, contains_str, str_eq, utf8};

verus! {

/// What a failed resize of the panes leads to; the effects after it are skipped.
#[derive(Clone, Copy, Debug, Eq, PartialEq, Structural)]
pub enum Failure {
    /// The client's status says that the terminals cannot be resized.
    Status,
    /// The client is sent an error saying so.
    Reply,
    /// The client is dropped.
    Remove,
    /// The session ends.
    End,
}

/// Work that a decision leaves to the server's loop, done in order.
#[derive(Debug, PartialEq, Eq)]
pub enum Effect {
    /// Draw the whole screen again.
    Redraw,
    /// Start a shell for the new pane; when that fails, close the pane again, show
    /// the error as the status and skip the effects after it.
    StartPane(PaneId),
    /// End the pane's shell and drop its terminal.
    EndPane(PaneId),
    /// Bytes for the active pane's application.
    Forward(Vec<u8>),
    /// Resize every pane's terminal for this terminal size and take it as the
    /// session's; on failure, put back the sizes for the session's size.
    Resize(Size, Failure),
    /// Queue this message for the client.
    Send(Message),
    /// Drop the client.
    Remove,
    /// End the session.
    Terminate,
    /// Keys typed at the client: turn them into actions and take each in turn.
    Keys(Vec<u8>),
    /// The client is attached, with this terminal size and these capabilities.
    Attach(Size, Capabilities),
    /// The client's terminal now has this size.
    ClientSize(Size),
    /// Take a mouse event.
    Mouse(MouseEvent),
    /// Drop the retained scrollback; no client looks at it any more.
    ClearScrollback,
    /// Save the scrollback to this file, and report how that went.
    SaveScrollback(String),
    /// Open the viewer prompt in the active pane's directory.
    OpenPrompt,
    /// Show the viewer prompt's listing as the status.
    PromptStatus,
    /// Put this text in the client's prompt line.
    PromptInput(Vec<u8>),
    /// Enter the directory that a separator typed after the query names.
    PromptDirectory(Vec<u8>, u8),
    /// Move the prompt's selection by the amount, or complete the name without one.
    PromptChoose(Option<i32>),
    /// Open the entry that the query selects.
    PromptOpen(Vec<u8>),
    /// Move the file viewer.
    ViewerNavigate(ViewerIntent),
    /// Search the file viewer for the query, forward or back.
    ViewerSearch(Vec<u8>, bool),
    /// Repeat the viewer's search, in its direction or the other.
    ViewerRepeat(bool),
    /// Stop the viewer's work in flight.
    ViewerCancel,
}

pub enum EffectView {
    Redraw,
    StartPane(PaneId),
    EndPane(PaneId),
    Forward(Seq<u8>),
    Resize(Size, Failure),
    Send(MessageView),
    Remove,
    Terminate,
    Keys(Seq<u8>),
    Attach(Size, Capabilities),
    ClientSize(Size),
    Mouse(MouseEvent),
    ClearScrollback,
    SaveScrollback(Seq<char>),
    OpenPrompt,
    PromptStatus,
    PromptInput(Seq<u8>),
    PromptDirectory(Seq<u8>, u8),
    PromptChoose(Option<i32>),
    PromptOpen(Seq<u8>),
    ViewerNavigate(ViewerIntent),
    ViewerSearch(Seq<u8>, bool),
    ViewerRepeat(bool),
    ViewerCancel,
}

impl View for Effect {
    type V = EffectView;

    open spec fn view(&self) -> EffectView {
        match self {
            Effect::Redraw => EffectView::Redraw,
            Effect::StartPane(p) => EffectView::StartPane(*p),
            Effect::EndPane(p) => EffectView::EndPane(*p),
            Effect::Forward(b) => EffectView::Forward(b@),
            Effect::Resize(s, f) => EffectView::Resize(*s, *f),
            Effect::Send(m) => EffectView::Send(m@),
            Effect::Remove => EffectView::Remove,
            Effect::Terminate => EffectView::Terminate,
            Effect::Keys(b) => EffectView::Keys(b@),
            Effect::Attach(s, c) => EffectView::Attach(*s, *c),
            Effect::ClientSize(s) => EffectView::ClientSize(*s),
            Effect::Mouse(e) => EffectView::Mouse(*e),
            Effect::ClearScrollback => EffectView::ClearScrollback,
            Effect::SaveScrollback(f) => EffectView::SaveScrollback(f@),
            Effect::OpenPrompt => EffectView::OpenPrompt,
            Effect::PromptStatus => EffectView::PromptStatus,
            Effect::PromptInput(b) => EffectView::PromptInput(b@),
            Effect::PromptDirectory(q, s) => EffectView::PromptDirectory(q@, *s),
            Effect::PromptChoose(a) => EffectView::PromptChoose(*a),
            Effect::PromptOpen(q) => EffectView::PromptOpen(q@),
            Effect::ViewerNavigate(i) => EffectView::ViewerNavigate(*i),
            Effect::ViewerSearch(q, f) => EffectView::ViewerSearch(q@, *f),
            Effect::ViewerRepeat(f) => EffectView::ViewerRepeat(*f),
            Effect::ViewerCancel => EffectView::ViewerCancel,
        }
    }
}

pub open spec fn effect_views(effects: Seq<Effect>) -> Seq<EffectView> {
    effects.map_values(|e: Effect| e@)
}

/// The result of the session operation that an action runs, if it runs one.
#[derive(Clone, Copy, Debug, Eq, PartialEq)]
pub enum SessionResult {
    /// The action runs no session operation.
    Untouched,
    /// A new pane, from a new tab or a split, or the pane focused.
    Pane(Result<PaneId, StateError>),
    /// Another tab, or a resized pane.
    Unit(Result<(), StateError>),
    /// Whether the asked tab exists.
    Selected(bool),
    /// The active pane, closed.
    Closed(PaneId, Result<CloseResult, StateError>),
    /// There was no active pane to close.
    NoActivePane,
}

/// What the server keeps of a client for its decisions: its terminal's size, the
/// status shown, what it looks at, its last search and its viewer prompt.
#[derive(Debug)]
pub struct ClientState {
    pub size: Option<Size>,
    pub status: Option<String>,
    pub view: ClientView,
    pub search_query: Option<String>,
    pub prompt: Option<ViewerPrompt>,
}

pub struct PromptView {
    pub directory: PathBuf,
    pub query: Seq<u8>,
    pub filter: Seq<u8>,
    pub selected: usize,
}

pub struct ClientStateView {
    pub size: Option<Size>,
    pub status: Option<Seq<char>>,
    pub view: ClientView,
    pub search_query: Option<Seq<char>>,
    pub prompt: Option<PromptView>,
}

pub open spec fn text_of(text: Option<String>) -> Option<Seq<char>> {
    match text {
        Some(t) => Some(t@),
        None => None,
    }
}

pub open spec fn prompt_of(prompt: Option<ViewerPrompt>) -> Option<PromptView> {
    match prompt {
        Some(p) => Some(PromptView { directory: p.directory, query: p.query@, filter: p.filter@, selected: p.selected }),
        None => None,
    }
}

impl View for ClientState {
    type V = ClientStateView;

    open spec fn view(&self) -> ClientStateView {
        ClientStateView {
            size: self.size,
            status: text_of(self.status),
            view: self.view,
            search_query: text_of(self.search_query),
            prompt: prompt_of(self.prompt),
        }
    }
}

/// The directory that `Path::parent` gives, if any.
pub uninterp spec fn parent_path(path: PathBuf) -> Option<PathBuf>;

/// `Path::parent`, as an owned path.
#[verifier::external_body]
fn path_parent(path: &PathBuf) -> (r: Option<PathBuf>)
    ensures
        r == parent_path(*path),
{
    path.parent().map(PathBuf::from)
}

/// Whether `PartialEq` finds two paths equal.
pub uninterp spec fn same_path(a: PathBuf, b: PathBuf) -> bool;

/// `PathBuf`'s `==`.
#[verifier::external_body]
fn path_eq(a: &PathBuf, b: &PathBuf) -> (r: bool)
    ensures
        r == same_path(*a, *b),
{
    a == b
}

/// Shows a status: the screen is drawn again only when the status changes.
pub open spec fn with_status(c: ClientStateView, status: Option<Seq<char>>) -> (ClientStateView, Seq<EffectView>) {
    if c.status == status {
        (c, Seq::empty())
    } else {
        (ClientStateView { status, ..c }, seq![EffectView::Redraw])
    }
}

/// After a session operation that succeeded: no status, a redraw, and the panes'
/// terminals resized to the new layout.
pub open spec fn done(c: ClientStateView, size: Size, first: Seq<EffectView>) -> (ClientStateView, Seq<EffectView>) {
    (ClientStateView { status: None, ..c }, first + seq![EffectView::Redraw, EffectView::Resize(size, Failure::Status)])
}

/// After a session operation that failed: its error as the status.
pub open spec fn failed(c: ClientStateView, error: StateError) -> (ClientStateView, Seq<EffectView>) {
    with_status(c, Some(state_error_message(error)@))
}

pub open spec fn columns_of(size: Option<Size>) -> usize {
    match size {
        Some(s) => s.columns as usize,
        None => 0,
    }
}

/// The scroll view's status line for a position.
pub open spec fn scroll_status(c: ClientStateView, offset: usize, scroll_max: usize, query: Option<Seq<char>>) -> Seq<char> {
    scroll_message(columns_of(c.size), scroll_percent_of(offset, scroll_max), query)
}

/// A search of the scrollback among the offsets of its matches: the view moves to
/// the next match, or the status says there is none.
pub open spec fn searched(c: ClientStateView, query: Seq<char>, older: bool, scroll_max: usize, matches: Seq<usize>) -> (ClientStateView, Seq<EffectView>) {
    let current = match c.view.scroll_offset {
        Some(o) => o,
        None => 0,
    };
    let found = ClientStateView { search_query: Some(query), ..c };
    match next_match_of(matches, current, older) {
        Some(o) => (
            ClientStateView {
                view: ClientView { scroll_offset: Some(o), ..c.view },
                status: Some(scroll_status(c, o, scroll_max, Some(query))),
                ..found
            },
            seq![EffectView::Redraw],
        ),
        None => (ClientStateView { status: Some("no match: /"@ + query), ..found }, seq![EffectView::Redraw]),
    }
}

/// How an action moves the client's view, with its status.
pub open spec fn viewed(c: ClientStateView, a: ActionView, v: ClientView, help_max: usize, scroll_max: usize) -> ClientStateView {
    let moved = ClientStateView { view: v, ..c };
    match a {
        ActionView::HelpView | ActionView::HelpScroll(_) => match v.help_offset {
            Some(o) => if o < usize::MAX && help_max < usize::MAX {
                ClientStateView { status: Some(help_message(c.size, o, help_max)), ..moved }
            } else {
                moved
            },
            None => moved,
        },
        ActionView::ExitHelpView => ClientStateView { status: None, ..moved },
        ActionView::ExitScrollView => ClientStateView { status: None, search_query: None, ..moved },
        _ => match v.scroll_offset {
            Some(o) => ClientStateView { status: Some(scroll_status(c, o, scroll_max, c.search_query)), ..moved },
            None => moved,
        },
    }
}

/// What an action does to the client and what it leaves to the loop, given the
/// result of the session operation it runs. `size` is the session's terminal size;
/// `matches` are the scrollback offsets where the query of a search is found.
pub open spec fn action_outcome(
    o: SessionView,
    c: ClientStateView,
    a: ActionView,
    size: Size,
    help_max: usize,
    scroll_max: usize,
    matches: Seq<usize>,
    res: SessionResult,
) -> (ClientStateView, Seq<EffectView>) {
    if intent_of(a, None, pane_area_of(size)) is Some {
        (c, seq![EffectView::ViewerNavigate(intent_of(a, None, pane_area_of(size))->0), EffectView::Redraw])
    } else if next_view(c.view, a, size, help_max, scroll_max) is Some {
        (viewed(c, a, next_view(c.view, a, size, help_max, scroll_max)->0, help_max, scroll_max), seq![EffectView::Redraw])
    } else {
        match a {
            ActionView::Forward(bytes) => {
                let (n, e) = with_status(c, None);
                (n, e.push(EffectView::Forward(bytes)))
            },
            ActionView::CreateTab | ActionView::Split(_) => match res {
                SessionResult::Pane(Ok(p)) => done(c, size, seq![EffectView::StartPane(p)]),
                SessionResult::Pane(Err(e)) => failed(c, e),
                _ => (c, Seq::empty()),
            },
            ActionView::Focus(_) => match res {
                SessionResult::Pane(Ok(_)) => done(c, size, Seq::empty()),
                SessionResult::Pane(Err(e)) => failed(c, e),
                _ => (c, Seq::empty()),
            },
            ActionView::NextTab | ActionView::PreviousTab | ActionView::Resize(_) => match res {
                SessionResult::Unit(Ok(())) => done(c, size, Seq::empty()),
                SessionResult::Unit(Err(e)) => failed(c, e),
                _ => (c, Seq::empty()),
            },
            ActionView::SelectTab(_) => match res {
                SessionResult::Selected(true) => done(c, size, Seq::empty()),
                _ => with_status(c, Some("tab does not exist"@)),
            },
            ActionView::ClosePane => match res {
                SessionResult::Closed(p, Ok(CloseResult::SessionEmpty)) => (
                    c,
                    seq![EffectView::EndPane(p), EffectView::Terminate],
                ),
                SessionResult::Closed(p, Ok(_)) => done(c, size, seq![EffectView::EndPane(p)]),
                SessionResult::Closed(p, Err(e)) => {
                    let (n, effects) = failed(c, e);
                    (n, seq![EffectView::EndPane(p)] + effects)
                },
                _ => (c, seq![EffectView::Terminate]),
            },
            ActionView::Detach => (c, seq![EffectView::Remove]),
            ActionView::Search(query) => searched(c, query, true, scroll_max, matches),
            ActionView::SearchNext(older) => match c.search_query {
                Some(query) => searched(c, query, older, scroll_max, matches),
                None => (ClientStateView { status: Some("no previous search"@), ..c }, seq![EffectView::Redraw]),
            },
            ActionView::SearchCancelled => {
                let offset = match c.view.scroll_offset {
                    Some(o) => o,
                    None => 0,
                };
                (
                    ClientStateView { status: Some(scroll_status(c, offset, scroll_max, c.search_query)), ..c },
                    seq![EffectView::Redraw],
                )
            },
            ActionView::ViewPrompt(_) => if o.active_pane() is None {
                (ClientStateView { status: Some("active pane does not exist"@), ..c }, seq![EffectView::Redraw])
            } else {
                (
                    ClientStateView {
                        view: ClientView { scroll_offset: None, help_offset: None },
                        search_query: None,
                        ..c
                    },
                    seq![EffectView::OpenPrompt, EffectView::Redraw],
                )
            },
            ActionView::ViewQuery(query) => match c.prompt {
                Some(p) => (
                    ClientStateView {
                        prompt: Some(PromptView { query, filter: query, selected: 0, ..p }),
                        ..c
                    },
                    seq![EffectView::PromptStatus, EffectView::Redraw],
                ),
                None => (c, seq![EffectView::Redraw]),
            },
            ActionView::ViewDirectory { query, separator } => (
                c,
                seq![EffectView::PromptDirectory(query, separator), EffectView::Redraw],
            ),
            ActionView::ViewParent => match c.prompt {
                Some(p) => match parent_path(p.directory) {
                    Some(parent) => if !same_path(parent, p.directory) {
                        (
                            ClientStateView {
                                prompt: Some(PromptView { directory: parent, query: Seq::empty(), filter: Seq::empty(), selected: 0 }),
                                ..c
                            },
                            seq![EffectView::PromptInput(Seq::empty()), EffectView::PromptStatus, EffectView::Redraw],
                        )
                    } else {
                        (ClientStateView { status: Some("already at filesystem root"@), ..c }, seq![EffectView::Redraw])
                    },
                    None => (ClientStateView { status: Some("already at filesystem root"@), ..c }, seq![EffectView::Redraw]),
                },
                None => (c, seq![EffectView::Redraw]),
            },
            ActionView::ViewComplete(_) => (c, seq![EffectView::PromptChoose(None), EffectView::Redraw]),
            ActionView::ViewSelect(amount) => (c, seq![EffectView::PromptChoose(Some(amount)), EffectView::Redraw]),
            ActionView::OpenViewer(query) => (c, seq![EffectView::PromptOpen(query), EffectView::Redraw]),
            ActionView::ViewCancelled => (ClientStateView { prompt: None, status: None, ..c }, seq![EffectView::Redraw]),
            ActionView::ViewerSearchPrompt(forward) => (
                ClientStateView { status: Some(viewer_search_line(forward, Seq::empty())), ..c },
                seq![EffectView::ViewerCancel, EffectView::Redraw],
            ),
            ActionView::ViewerSearchQuery(query, forward) => (
                ClientStateView { status: Some(viewer_search_line(forward, query)), ..c },
                seq![EffectView::Redraw],
            ),
            ActionView::ViewerSearch(query, forward) => (
                c,
                seq![EffectView::ViewerSearch(query, forward), EffectView::Redraw],
            ),
            ActionView::ViewerSearchNext(forward) => (c, seq![EffectView::ViewerRepeat(forward), EffectView::Redraw]),
            ActionView::ViewerSearchCancelled => (c, seq![EffectView::ViewerCancel, EffectView::Redraw]),
            ActionView::ClearScrollback => {
                let cleared = ClientStateView { view: ClientView { scroll_offset: None, ..c.view }, ..c };
                let (n, e) = with_status(
                    cleared,
                    Some(
                        if o.active_pane() is Some {
                            "scrollback cleared"@
                        } else {
                            "active pane does not exist"@
                        },
                    ),
                );
                (n, seq![EffectView::ClearScrollback] + e)
            },
            ActionView::SaveScrollback(file) => (c, seq![EffectView::SaveScrollback(file)]),
            ActionView::Mouse(event) => (c, seq![EffectView::Mouse(event)]),
            ActionView::Status(message) => with_status(c, Some(message)),
            _ => (c, Seq::empty()),
        }
    }
}

/// How an action changes the session: by the session operation it names, whose
/// result is `res`; other actions leave the session as it is.
pub open spec fn session_change(o: SessionView, n: SessionView, a: ActionView, size: Size, res: SessionResult) -> bool {
    let content = pane_area_of(size);
    match a {
        ActionView::CreateTab => res matches SessionResult::Pane(r) && tab_created(o, n, r),
        ActionView::Split(split) => res matches SessionResult::Pane(r) && pane_split(o, n, split, content, r),
        ActionView::Focus(direction) => res matches SessionResult::Pane(r) && pane_focused(o, n, direction, content, r),
        ActionView::NextTab => res matches SessionResult::Unit(r) && tab_stepped(o, n, true, r),
        ActionView::PreviousTab => res matches SessionResult::Unit(r) && tab_stepped(o, n, false, r),
        ActionView::Resize(direction) => res matches SessionResult::Unit(r) && pane_resized(o, n, direction, content, r),
        ActionView::SelectTab(index) => res matches SessionResult::Selected(b) && tab_selected(o, n, index, b),
        ActionView::ClosePane => match o.active_pane() {
            None => res is NoActivePane && n == o,
            Some(p) => res matches SessionResult::Closed(q, r) && q == p && active_closed(o, n, content, r),
        },
        _ => res is Untouched && n == o,
    }
}

fn same_text(a: &Option<String>, b: &Option<String>) -> (r: bool)
    ensures
        r == (text_of(*a) == text_of(*b)),
{
    match (a, b) {
        (Some(x), Some(y)) => str_eq(x.as_str(), y.as_str()),
        (None, None) => true,
        _ => false,
    }
}

fn set_status(c: ClientState, status: Option<String>) -> (r: (ClientState, Vec<Effect>))
    ensures
        (r.0@, effect_views(r.1@)) == with_status(c@, text_of(status)),
{
    let mut c = c;
    let mut effects: Vec<Effect> = Vec::new();
    if !same_text(&c.status, &status) {
        c.status = status;
        effects.push(Effect::Redraw);
        assert(effect_views(effects@) =~= seq![EffectView::Redraw]);
    } else {
        assert(effect_views(effects@) =~= Seq::<EffectView>::empty());
    }
    (c, effects)
}

fn finish(c: ClientState, size: Size, first: Vec<Effect>) -> (r: (ClientState, Vec<Effect>))
    ensures
        (r.0@, effect_views(r.1@)) == done(c@, size, effect_views(first@)),
{
    let mut c = c;
    let mut effects = first;
    let ghost start = effects@;
    c.status = None;
    effects.push(Effect::Redraw);
    effects.push(Effect::Resize(size, Failure::Status));
    assert(effect_views(effects@) =~= effect_views(start) + seq![EffectView::Redraw, EffectView::Resize(size, Failure::Status)]);
    (c, effects)
}

fn fail(c: ClientState, error: StateError) -> (r: (ClientState, Vec<Effect>))
    ensures
        (r.0@, effect_views(r.1@)) == failed(c@, error),
{
    set_status(c, Some(owned(error.message())))
}

fn scroll_text(c: &ClientState, offset: usize, scroll_max: usize, query: Option<&str>) -> (r: String)
    ensures
        r@ == scroll_status(c@, offset, scroll_max, match query {
            Some(q) => Some(q@),
            None => None,
        }),
{
    let width: usize = match c.size {
        Some(s) => s.columns as usize,
        None => 0,
    };
    scroll_status_message(width, scroll_percent(offset, scroll_max), query)
}

fn search(c: ClientState, query: String, older: bool, scroll_max: usize, matches: &[usize]) -> (r: (ClientState, Vec<Effect>))
    ensures
        (r.0@, effect_views(r.1@)) == searched(c@, query@, older, scroll_max, matches@),
{
    let mut c = c;
    let current = match c.view.scroll_offset {
        Some(o) => o,
        None => 0,
    };
    let ghost before = c@;
    let effects = vec![Effect::Redraw];
    assert(effect_views(effects@) =~= seq![EffectView::Redraw]);
    match next_match(matches, current, older) {
        Some(o) => {
            let status = scroll_text(&c, o, scroll_max, Some(query.as_str()));
            c.view = ClientView { scroll_offset: Some(o), ..c.view };
            c.status = Some(status);
            c.search_query = Some(query);
        },
        None => {
            let mut status = owned("no match: /");
            append(&mut status, query.as_str());
            c.status = Some(status);
            c.search_query = Some(query);
        },
    }
    (c, effects)
}

fn one(e: Effect) -> (r: Vec<Effect>)
    ensures
        effect_views(r@) == seq![e@],
{
    let r = vec![e];
    assert(effect_views(r@) =~= seq![e@]);
    r
}

fn pair(a: Effect, b: Effect) -> (r: Vec<Effect>)
    ensures
        effect_views(r@) == seq![a@, b@],
{
    let r = vec![a, b];
    assert(effect_views(r@) =~= seq![a@, b@]);
    r
}

fn triple(a: Effect, b: Effect, c: Effect) -> (r: Vec<Effect>)
    ensures
        effect_views(r@) == seq![a@, b@, c@],
{
    let r = vec![a, b, c];
    assert(effect_views(r@) =~= seq![a@, b@, c@]);
    r
}

fn none() -> (r: Vec<Effect>)
    ensures
        effect_views(r@) == Seq::<EffectView>::empty(),
{
    let r = Vec::new();
    assert(effect_views(r@) =~= Seq::<EffectView>::empty());
    r
}

fn prepend(first: Effect, rest: Vec<Effect>) -> (r: Vec<Effect>)
    ensures
        effect_views(r@) == seq![first@] + effect_views(rest@),
{
    let mut r = vec![first];
    let mut rest = rest;
    let ghost a = r@;
    let ghost b = rest@;
    r.append(&mut rest);
    assert(r@ =~= a + b);
    assert(effect_views(r@) =~= seq![first@] + effect_views(b));
    r
}

/// How the client's view moves, for an action that moves it.
fn apply_view(c: ClientState, action: &Action, v: ClientView, help_max: usize, scroll_max: usize) -> (r: ClientState)
    ensures
        r@ == viewed(c@, action@, v, help_max, scroll_max),
{
    let mut c = c;
    let before_size = c.size;
    c.view = v;
    match action {
        Action::HelpView | Action::HelpScroll(_) => {
            if let Some(o) = v.help_offset {
                if o < usize::MAX && help_max < usize::MAX {
                    c.status = Some(help_status_message(before_size, o, help_max));
                }
            }
        },
        Action::ExitHelpView => {
            c.status = None;
        },
        Action::ExitScrollView => {
            c.status = None;
            c.search_query = None;
        },
        _ => {
            if let Some(o) = v.scroll_offset {
                let status = match &c.search_query {
                    Some(q) => scroll_text(&c, o, scroll_max, Some(q.as_str())),
                    None => scroll_text(&c, o, scroll_max, None),
                };
                c.status = Some(status);
            }
        },
    }
    c
}

/// Decides what an action from a client does: it runs the session operation the
/// action names and returns the client's new state, the work left to the server's
/// loop, and the operation's result. `size` is the session's terminal size,
/// `help_max` and `scroll_max` the furthest the key reminder and the scrollback
/// scroll, and `matches` the scrollback offsets where a searched query occurs.
#[verifier::rlimit(100)]
pub fn action_step(
    session: &mut Session,
    client: ClientState,
    action: Action,
    size: Size,
    help_max: usize,
    scroll_max: usize,
    matches: &[usize],
) -> (r: (ClientState, Vec<Effect>, SessionResult))
    requires
        old(session)@.wf(),
        (action is CreateTab || action is Split) ==> old(session)@.can_add_pane(),
    ensures
        final(session)@.wf(),
        session_change(old(session)@, final(session)@, action@, size, r.2),
        (r.0@, effect_views(r.1@)) == action_outcome(
            old(session)@,
            client@,
            action@,
            size,
            help_max,
            scroll_max,
            matches@,
            r.2,
        ),
{
    let content = pane_area(size);
    if let Some(intent) = viewer_intent(&action, None, content) {
        return (client, pair(Effect::ViewerNavigate(intent), Effect::Redraw), SessionResult::Untouched);
    }
    if let Some(v) = view_after(client.view, &action, size, help_max, scroll_max) {
        let c = apply_view(client, &action, v, help_max, scroll_max);
        return (c, one(Effect::Redraw), SessionResult::Untouched);
    }
    let ghost a = action@;
    match action {
        Action::Forward(bytes) => {
            let (c, mut effects) = set_status(client, None);
            let ghost e = effects@;
            effects.push(Effect::Forward(bytes));
            assert(effect_views(effects@) =~= effect_views(e).push(EffectView::Forward(a->Forward_0)));
            (c, effects, SessionResult::Untouched)
        },
        Action::CreateTab => {
            let r = session.create_tab();
            let (c, e) = match r {
                Ok(p) => finish(client, size, one(Effect::StartPane(p))),
                Err(e) => fail(client, e),
            };
            (c, e, SessionResult::Pane(r))
        },
        Action::Split(split) => {
            let r = session.split_active(split, content);
            let (c, e) = match r {
                Ok(p) => finish(client, size, one(Effect::StartPane(p))),
                Err(e) => fail(client, e),
            };
            (c, e, SessionResult::Pane(r))
        },
        Action::Focus(direction) => {
            let r = session.focus(direction, content);
            let (c, e) = match r {
                Ok(_) => finish(client, size, none()),
                Err(e) => fail(client, e),
            };
            (c, e, SessionResult::Pane(r))
        },
        Action::NextTab => {
            let r = session.next_tab();
            let (c, e) = match r {
                Ok(()) => finish(client, size, none()),
                Err(e) => fail(client, e),
            };
            (c, e, SessionResult::Unit(r))
        },
        Action::PreviousTab => {
            let r = session.previous_tab();
            let (c, e) = match r {
                Ok(()) => finish(client, size, none()),
                Err(e) => fail(client, e),
            };
            (c, e, SessionResult::Unit(r))
        },
        Action::Resize(direction) => {
            let r = session.resize(direction, content);
            let (c, e) = match r {
                Ok(()) => finish(client, size, none()),
                Err(e) => fail(client, e),
            };
            (c, e, SessionResult::Unit(r))
        },
        Action::SelectTab(index) => {
            let b = session.select_tab(index);
            let (c, e) = if b {
                finish(client, size, none())
            } else {
                set_status(client, Some(owned("tab does not exist")))
            };
            (c, e, SessionResult::Selected(b))
        },
        Action::ClosePane => {
            match session.active_pane() {
                None => (client, one(Effect::Terminate), SessionResult::NoActivePane),
                Some(p) => {
                    let r = session.close_active_pane(content);
                    let (c, e) = match r {
                        Ok(CloseResult::SessionEmpty) => (client, pair(Effect::EndPane(p), Effect::Terminate)),
                        Ok(_) => finish(client, size, one(Effect::EndPane(p))),
                        Err(e) => {
                            let (c, rest) = fail(client, e);
                            (c, prepend(Effect::EndPane(p), rest))
                        },
                    };
                    (c, e, SessionResult::Closed(p, r))
                },
            }
        },
        _ => {
            let (c, e) = other_action(session, client, action, size, help_max, scroll_max, matches);
            (c, e, SessionResult::Untouched)
        },
    }
}

/// The actions that run no session operation.
#[verifier::rlimit(100)]
fn other_action(
    session: &Session,
    client: ClientState,
    action: Action,
    size: Size,
    help_max: usize,
    scroll_max: usize,
    matches: &[usize],
) -> (r: (ClientState, Vec<Effect>))
    requires
        !(action is Forward || action is CreateTab || action is Split || action is Focus || action is NextTab
            || action is PreviousTab || action is Resize || action is SelectTab || action is ClosePane),
        intent_of(action@, None, pane_area_of(size)) is None,
        next_view(client.view, action@, size, help_max, scroll_max) is None,
    ensures
        (r.0@, effect_views(r.1@)) == action_outcome(
            session@,
            client@,
            action@,
            size,
            help_max,
            scroll_max,
            matches@,
            SessionResult::Untouched,
        ),
{
    let mut c = client;
    match action {
        Action::Detach => (c, one(Effect::Remove)),
        Action::Search(query) => search(c, query, true, scroll_max, matches),
        Action::SearchNext(older) => {
            let previous = match &c.search_query {
                Some(q) => Some(q.clone()),
                None => None,
            };
            match previous {
                Some(query) => search(c, query, older, scroll_max, matches),
                None => {
                    c.status = Some(owned("no previous search"));
                    (c, one(Effect::Redraw))
                },
            }
        },
        Action::SearchCancelled => {
            let offset = match c.view.scroll_offset {
                Some(o) => o,
                None => 0,
            };
            let status = match &c.search_query {
                Some(q) => scroll_text(&c, offset, scroll_max, Some(q.as_str())),
                None => scroll_text(&c, offset, scroll_max, None),
            };
            c.status = Some(status);
            (c, one(Effect::Redraw))
        },
        Action::ClearScrollback => {
            c.view = ClientView { scroll_offset: None, ..c.view };
            let text = if session.active_pane().is_some() {
                owned("scrollback cleared")
            } else {
                owned("active pane does not exist")
            };
            let (c, rest) = set_status(c, Some(text));
            (c, prepend(Effect::ClearScrollback, rest))
        },
        Action::SaveScrollback(file) => (c, one(Effect::SaveScrollback(file))),
        Action::Mouse(event) => (c, one(Effect::Mouse(event))),
        Action::Status(message) => set_status(c, Some(message)),
        _ => prompt_action(session, c, action, size, help_max, scroll_max, matches),
    }
}

/// The actions of the viewer prompt.
#[verifier::rlimit(100)]
fn prompt_action(
    session: &Session,
    client: ClientState,
    action: Action,
    size: Size,
    help_max: usize,
    scroll_max: usize,
    matches: &[usize],
) -> (r: (ClientState, Vec<Effect>))
    requires
        !(action is Forward || action is CreateTab || action is Split || action is Focus || action is NextTab
            || action is PreviousTab || action is Resize || action is SelectTab || action is ClosePane
            || action is Detach || action is Search || action is SearchNext || action is SearchCancelled
            || action is ClearScrollback || action is SaveScrollback || action is Mouse || action is Status),
        intent_of(action@, None, pane_area_of(size)) is None,
        next_view(client.view, action@, size, help_max, scroll_max) is None,
    ensures
        (r.0@, effect_views(r.1@)) == action_outcome(
            session@,
            client@,
            action@,
            size,
            help_max,
            scroll_max,
            matches@,
            SessionResult::Untouched,
        ),
{
    let mut c = client;
    match action {
        Action::ViewPrompt(_) => {
            if session.active_pane().is_none() {
                c.status = Some(owned("active pane does not exist"));
                (c, one(Effect::Redraw))
            } else {
                c.view = ClientView { scroll_offset: None, help_offset: None };
                c.search_query = None;
                (c, pair(Effect::OpenPrompt, Effect::Redraw))
            }
        },
        Action::ViewQuery(query) => {
            match c.prompt.take() {
                Some(p) => {
                    c.prompt = Some(ViewerPrompt { directory: p.directory, query: query.clone(), filter: query, selected: 0 });
                    (c, pair(Effect::PromptStatus, Effect::Redraw))
                },
                None => (c, one(Effect::Redraw)),
            }
        },
        Action::ViewDirectory { query, separator } => (c, pair(Effect::PromptDirectory(query, separator), Effect::Redraw)),
        Action::ViewParent => {
            if c.prompt.is_none() {
                return (c, one(Effect::Redraw));
            }
            let parent = match &c.prompt {
                Some(p) => match path_parent(&p.directory) {
                    Some(parent) => if !path_eq(&parent, &p.directory) {
                        Some(parent)
                    } else {
                        None
                    },
                    None => None,
                },
                None => None,
            };
            match parent {
                Some(directory) => {
                    c.prompt = Some(ViewerPrompt { directory, query: Vec::new(), filter: Vec::new(), selected: 0 });
                    (c, triple(Effect::PromptInput(Vec::new()), Effect::PromptStatus, Effect::Redraw))
                },
                None => {
                    c.status = Some(owned("already at filesystem root"));
                    (c, one(Effect::Redraw))
                },
            }
        },
        Action::ViewComplete(_) => (c, pair(Effect::PromptChoose(None), Effect::Redraw)),
        Action::ViewSelect(amount) => (c, pair(Effect::PromptChoose(Some(amount)), Effect::Redraw)),
        Action::OpenViewer(query) => (c, pair(Effect::PromptOpen(query), Effect::Redraw)),
        Action::ViewCancelled => {
            c.prompt = None;
            c.status = None;
            (c, one(Effect::Redraw))
        },
        _ => viewer_action(session, c, action, size, help_max, scroll_max, matches),
    }
}

/// The actions of the file viewer.
#[verifier::rlimit(100)]
fn viewer_action(
    session: &Session,
    client: ClientState,
    action: Action,
    size: Size,
    help_max: usize,
    scroll_max: usize,
    matches: &[usize],
) -> (r: (ClientState, Vec<Effect>))
    requires
        !(action is Forward || action is CreateTab || action is Split || action is Focus || action is NextTab
            || action is PreviousTab || action is Resize || action is SelectTab || action is ClosePane
            || action is Detach || action is Search || action is SearchNext || action is SearchCancelled
            || action is ClearScrollback || action is SaveScrollback || action is Mouse || action is Status
            || action is ViewPrompt || action is ViewQuery || action is ViewDirectory || action is ViewParent
            || action is ViewComplete || action is ViewSelect || action is OpenViewer || action is ViewCancelled),
        intent_of(action@, None, pane_area_of(size)) is None,
        next_view(client.view, action@, size, help_max, scroll_max) is None,
    ensures
        (r.0@, effect_views(r.1@)) == action_outcome(
            session@,
            client@,
            action@,
            size,
            help_max,
            scroll_max,
            matches@,
            SessionResult::Untouched,
        ),
{
    let mut c = client;
    match action {
        Action::ViewerSearchPrompt(forward) => {
            let empty: Vec<u8> = Vec::new();
            assert(empty@ =~= Seq::<u8>::empty());
            c.status = Some(viewer_search_status(forward, empty.as_slice()));
            (c, pair(Effect::ViewerCancel, Effect::Redraw))
        },
        Action::ViewerSearchQuery(query, forward) => {
            c.status = Some(viewer_search_status(forward, query.as_slice()));
            (c, one(Effect::Redraw))
        },
        Action::ViewerSearch(query, forward) => (c, pair(Effect::ViewerSearch(query, forward), Effect::Redraw)),
        Action::ViewerSearchNext(forward) => (c, pair(Effect::ViewerRepeat(forward), Effect::Redraw)),
        Action::ViewerSearchCancelled => (c, pair(Effect::ViewerCancel, Effect::Redraw)),
        _ => (c, none()),
    }
}

/// The bytes that turn on the outer terminal's mouse reports.
pub open spec fn enter_mouse() -> Seq<u8> {
    seq![27u8, 91, 63, 49, 48, 48, 51, 104, 27, 91, 63, 49, 48, 48, 54, 104]
}

/// What a message from a client does. `attached` and `client_size` are what the
/// server knows of the client, `session_size` the session's terminal size, `mouse`
/// whether mouse support is configured, and `pid` and `attached_clients` what a
/// status request is answered with.
pub open spec fn message_outcome(
    attached: bool,
    client_size: Option<Size>,
    m: MessageView,
    session_size: Size,
    mouse: bool,
    pid: u32,
    attached_clients: u32,
) -> Seq<EffectView> {
    match m {
        MessageView::Attach { columns, rows, profile, color } => match attach_answer(profile, color) {
            Err(e) => seq![EffectView::Send(MessageView::Error(e))],
            Ok(caps) => {
                let size = Size { columns, rows };
                seq![
                    EffectView::Resize(size, Failure::Reply),
                    EffectView::Attach(size, caps),
                    EffectView::Send(MessageView::Attached),
                ] + (if mouse && caps.mouse {
                    seq![EffectView::Send(MessageView::Screen(enter_mouse()))]
                } else {
                    Seq::empty()
                }) + seq![EffectView::Redraw]
            },
        },
        MessageView::Resize { columns, rows } => if !attached {
            seq![EffectView::Remove]
        } else {
            let size = Size { columns, rows };
            seq![EffectView::ClientSize(size), EffectView::Resize(size, Failure::Remove), EffectView::Redraw]
        },
        MessageView::Input(bytes) => if !attached {
            seq![EffectView::Remove]
        } else {
            match client_size {
                Some(s) => seq![EffectView::Resize(s, Failure::Remove)] + (if s != session_size {
                    seq![EffectView::Redraw]
                } else {
                    Seq::empty()
                }) + seq![EffectView::Keys(bytes)],
                None => seq![EffectView::Keys(bytes)],
            }
        },
        MessageView::Detach => seq![EffectView::Remove],
        MessageView::StatusRequest => seq![EffectView::Send(MessageView::Status { pid, attached_clients })],
        MessageView::Kill => seq![EffectView::Terminate],
        _ => seq![EffectView::Remove],
    }
}

/// Decides what a message from a client does, as work for the server's loop.
pub fn message_step(
    attached: bool,
    client_size: Option<Size>,
    message: Message,
    session_size: Size,
    mouse: bool,
    pid: u32,
    attached_clients: u32,
) -> (r: Vec<Effect>)
    ensures
        effect_views(r@) == message_outcome(attached, client_size, message@, session_size, mouse, pid, attached_clients),
{
    let ghost m = message@;
    match message {
        Message::Attach { columns, rows, profile, color } => match attach_capabilities(profile, color) {
            Err(e) => one(Effect::Send(Message::Error(e))),
            Ok(caps) => {
                let size = Size { columns, rows };
                let mut effects = triple(Effect::Resize(size, Failure::Reply), Effect::Attach(size, caps), Effect::Send(Message::Attached));
                let ghost first = effects@;
                if mouse && caps.mouse {
                    let bytes: Vec<u8> = vec![27u8, 91, 63, 49, 48, 48, 51, 104, 27, 91, 63, 49, 48, 48, 54, 104];
                    assert(bytes@ =~= enter_mouse());
                    effects.push(Effect::Send(Message::Screen(bytes)));
                }
                let ghost second = effects@;
                effects.push(Effect::Redraw);
                proof {
                    assert(effect_views(effects@) =~= effect_views(second).push(EffectView::Redraw));
                    if mouse && caps.mouse {
                        assert(effect_views(second) =~= effect_views(first).push(EffectView::Send(MessageView::Screen(enter_mouse()))));
                    } else {
                        assert(second == first);
                    }
                    assert(effect_views(effects@) =~= message_outcome(attached, client_size, m, session_size, mouse, pid, attached_clients));
                }
                effects
            },
        },
        Message::Resize { columns, rows } => {
            if !attached {
                one(Effect::Remove)
            } else {
                let size = Size { columns, rows };
                triple(Effect::ClientSize(size), Effect::Resize(size, Failure::Remove), Effect::Redraw)
            }
        },
        Message::Input(bytes) => {
            if !attached {
                one(Effect::Remove)
            } else {
                match client_size {
                    Some(s) => {
                        let changed = s != session_size;
                        let r = if changed {
                            triple(Effect::Resize(s, Failure::Remove), Effect::Redraw, Effect::Keys(bytes))
                        } else {
                            pair(Effect::Resize(s, Failure::Remove), Effect::Keys(bytes))
                        };
                        proof {
                            assert(effect_views(r@) =~= message_outcome(attached, client_size, m, session_size, mouse, pid, attached_clients));
                        }
                        r
                    },
                    None => one(Effect::Keys(bytes)),
                }
            }
        },
        Message::Detach => one(Effect::Remove),
        Message::StatusRequest => one(Effect::Send(Message::Status { pid, attached_clients })),
        Message::Kill => one(Effect::Terminate),
        _ => one(Effect::Remove),
    }
}

/// The refresh period of the status metrics in seconds; a zero setting counts as one.
pub open spec fn refresh_period(refresh_seconds: u16) -> u64 {
    if refresh_seconds == 0 {
        1
    } else {
        refresh_seconds as u64
    }
}

/// The key of the status metrics' sample at `now`: the whole refresh periods since
/// the epoch, or `None` when the status line shows no metric.
pub fn metrics_key(now: SystemTime, uses_metrics: bool, refresh_seconds: u16) -> (r: Option<u64>)
    ensures
        r == (if uses_metrics {
            Some((epoch_secs(now) / refresh_period(refresh_seconds)) as u64)
        } else {
            None
        }),
{
    if uses_metrics {
        let period: u64 = if refresh_seconds == 0 {
            1
        } else {
            refresh_seconds as u64
        };
        Some(clock_key(now, true) / period)
    } else {
        None
    }
}

/// The metrics are sampled again when the status shows them and the key has moved
/// on from the one last sampled.
pub fn metrics_due(key: Option<u64>, sampled: Option<u64>) -> (r: bool)
    ensures
        r == (key is Some && key != sampled),
{
    match (key, sampled) {
        (Some(k), Some(s)) => k != s,
        (Some(_), None) => true,
        (None, _) => false,
    }
}

/// The work after the shell of `pane` has exited and its pane is closed: the
/// session ends when that left it empty or failed; otherwise the remaining panes
/// are resized to the new layout, ending the session if that fails, and the screen
/// is drawn again.
pub open spec fn exit_effects(res: Result<CloseResult, StateError>, size: Size) -> Seq<EffectView> {
    match res {
        Ok(CloseResult::SessionEmpty) => seq![EffectView::Terminate],
        Ok(_) => seq![EffectView::Resize(size, Failure::End), EffectView::Redraw],
        Err(_) => seq![EffectView::Terminate],
    }
}

/// Closes the pane whose shell has exited and decides what follows. `size` is the
/// session's terminal size.
pub fn pane_exited(session: &mut Session, pane: PaneId, size: Size) -> (r: (
    Vec<Effect>,
    Result<CloseResult, StateError>,
))
    requires
        old(session)@.wf(),
    ensures
        final(session)@.wf(),
        close_outcome(old(session)@, final(session)@, pane, pane_area_of(size), r.1),
        effect_views(r.0@) == exit_effects(r.1, size),
{
    let res = session.close_pane(pane, pane_area(size));
    let effects = match res {
        Ok(CloseResult::SessionEmpty) => one(Effect::Terminate),
        Ok(_) => pair(Effect::Resize(size, Failure::End), Effect::Redraw),
        Err(_) => one(Effect::Terminate),
    };
    (effects, res)
}

/// The status line shows a metric: its format names the CPU usage, the memory usage
/// or the CPU temperature.
pub fn shows_metrics(status_format: &str) -> (r: bool)
    ensures
        r == (contains_bytes(utf8(status_format@), utf8("{cpu_usage}"@))
            || contains_bytes(utf8(status_format@), utf8("{memory_usage}"@))
            || contains_bytes(utf8(status_format@), utf8("{cpu_temp}"@))),
{
    contains_str(status_format, "{cpu_usage}") || contains_str(status_format, "{memory_usage}")
        || contains_str(status_format, "{cpu_temp}")
}

/// The clock shows seconds: the date or the time format holds `%S`.
pub fn clock_shows_seconds(date_format: &str, time_format: &str) -> (r: bool)
    ensures
        r == (contains_bytes(utf8(date_format@), utf8("%S"@)) || contains_bytes(utf8(time_format@), utf8("%S"@))),
{
    contains_str(date_format, "%S") || contains_str(time_format, "%S")
}

} // verus!
