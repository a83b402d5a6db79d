use vstd::prelude::*;

use crate::config::field_message;
use crate::document::{
    entry, lemma_viewed_entries, lemma_viewed_list, lookup, viewed, viewed_entries, viewed_list,
    Setting, SettingView,
};
use crate::status::{append, chars_of, owned};
use crate::text::{decimal_text, push_decimal_text, str_eq};

verus! {

/// Most tabs a profile may open.
pub const MAX_PROFILE_TABS: usize = 32;

/// Most panes one tab of a profile may hold.
pub const MAX_LEAVES: usize = 16;

/// How a split divides its area.
#[derive(Clone, Copy, Debug, Eq, PartialEq, Structural)]
pub enum SplitDirection {
    LeftRight,
    TopBottom,
}

/// What a pane runs: the user's shell, or a program with its arguments.
#[derive(Debug)]
pub enum LaunchTarget {
    Shell,
    Command { executable: String, arguments: Vec<String> },
}

/// The directory a pane starts in, when one is set.
#[derive(Debug)]
pub struct ResolvedDirectory(pub Option<String>);

/// A pane, or a split of an area between two nodes.
#[derive(Debug)]
pub enum Node {
    Leaf { target: LaunchTarget, directory: ResolvedDirectory },
    Split { direction: SplitDirection, first: Box<Node>, second: Box<Node> },
}

impl Node {
    /// The program and directory of a single pane, or `None` for a split.
    pub fn leaf(&self) -> (r: Option<(&LaunchTarget, &ResolvedDirectory)>)
        ensures
            match self {
                Node::Leaf { target, directory } => r == Some((target, directory)),
                Node::Split { .. } => r is None,
            },
    {
        match self {
            Node::Leaf { target, directory } => Some((target, directory)),
            Node::Split { .. } => None,
        }
    }

    /// The direction and the two halves of a split, or `None` for a single pane.
    pub fn split(&self) -> (r: Option<(SplitDirection, &Node, &Node)>)
        ensures
            match self {
                Node::Split { direction, first, second } => r == Some((*direction, &**first, &**second)),
                Node::Leaf { .. } => r is None,
            },
    {
        match self {
            Node::Leaf { .. } => None,
            Node::Split { direction, first, second } => Some((*direction, &**first, &**second)),
        }
    }
}

/// The layout a tab opens with.
#[derive(Debug)]
pub struct TabRoot {
    pub node: Node,
}

/// A named set of tabs to open a session with.
#[derive(Debug)]
pub struct Profile {
    pub name: String,
    pub directory: ResolvedDirectory,
    pub tabs: Vec<TabRoot>,
}

pub enum TargetView {
    Shell,
    Command { executable: Seq<char>, arguments: Seq<Seq<char>> },
}

pub enum NodeView {
    Leaf { target: TargetView, directory: Option<Seq<char>> },
    Split { direction: SplitDirection, first: Box<NodeView>, second: Box<NodeView> },
}

pub struct ProfileView {
    pub name: Seq<char>,
    pub directory: Option<Seq<char>>,
    pub tabs: Seq<NodeView>,
}

pub open spec fn directory_view(d: ResolvedDirectory) -> Option<Seq<char>> {
    match d.0 {
        Some(p) => Some(p@),
        None => None,
    }
}

pub open spec fn target_view(t: LaunchTarget) -> TargetView {
    match t {
        LaunchTarget::Shell => TargetView::Shell,
        LaunchTarget::Command { executable, arguments } => TargetView::Command {
            executable: executable@,
            arguments: arguments@.map_values(|a: String| a@),
        },
    }
}

pub open spec fn node_view(n: Node) -> NodeView
    decreases n,
{
    match n {
        Node::Leaf { target, directory } => NodeView::Leaf {
            target: target_view(target),
            directory: directory_view(directory),
        },
        Node::Split { direction, first, second } => NodeView::Split {
            direction,
            first: Box::new(node_view(*first)),
            second: Box::new(node_view(*second)),
        },
    }
}

pub open spec fn profile_view(p: Profile) -> ProfileView {
    ProfileView {
        name: p.name@,
        directory: directory_view(p.directory),
        tabs: tab_views(p.tabs@),
    }
}

/// How many values a setting holds, itself included.
pub open spec fn setting_size(v: SettingView) -> nat
    decreases v,
{
    match v {
        SettingView::List(items) => 1 + list_size(items),
        SettingView::Table(entries) => 1 + entries_size(entries),
        _ => 1,
    }
}

pub open spec fn list_size(items: Seq<SettingView>) -> nat
    decreases items,
{
    if items.len() == 0 {
        0
    } else {
        list_size(items.drop_last()) + setting_size(items.last())
    }
}

pub open spec fn entries_size(entries: Seq<(Seq<char>, SettingView)>) -> nat
    decreases entries,
{
    if entries.len() == 0 {
        0
    } else {
        entries_size(entries.drop_last()) + setting_size(entries.last().1)
    }
}

/// An item of a list is no larger than the list.
pub proof fn lemma_list_size(items: Seq<SettingView>, i: int)
    requires
        0 <= i < items.len(),
    ensures
        setting_size(items[i]) <= list_size(items),
    decreases items.len(),
{
    if i < items.len() - 1 {
        lemma_list_size(items.drop_last(), i);
        assert(items.drop_last()[i] == items[i]);
    }
}

/// The value found under a key is no larger than the table.
pub proof fn lemma_entry_size(entries: Seq<(Seq<char>, SettingView)>, key: Seq<char>)
    ensures
        entry(entries, key) matches Some(v) ==> setting_size(v) <= entries_size(entries),
    decreases entries.len(),
{
    if entries.len() > 0 {
        lemma_entry_size_last(entries);
        if entries[0].0 != key {
            lemma_entry_size(entries.drop_first(), key);
            lemma_entries_size_first(entries);
        }
    }
}

/// The first entry's value is no larger than the table.
pub proof fn lemma_entry_size_last(entries: Seq<(Seq<char>, SettingView)>)
    requires
        entries.len() > 0,
    ensures
        setting_size(entries[0].1) <= entries_size(entries),
    decreases entries.len(),
{
    if entries.len() > 1 {
        lemma_entry_size_last(entries.drop_last());
        assert(entries.drop_last()[0] == entries[0]);
    }
}

/// A table without its first entry is no larger than the table.
pub proof fn lemma_entries_size_first(entries: Seq<(Seq<char>, SettingView)>)
    requires
        entries.len() > 0,
    ensures
        entries_size(entries.drop_first()) <= entries_size(entries),
    decreases entries.len(),
{
    if entries.len() > 1 {
        lemma_entries_size_first(entries.drop_last());
        assert(entries.drop_last().drop_first() =~= entries.drop_first().drop_last());
        assert(entries.drop_first().last() == entries.last());
    } else {
        assert(entries.drop_first().len() == 0);
    }
}

/// An error at a place in the configuration.
pub fn error(path: &str, message: &str) -> (r: String)
    ensures
        r@ == field_message(path@, message@),
{
    crate::config::field_error(path, message)
}

/// The place of a field below `path`.
pub open spec fn dotted(path: Seq<char>, field: Seq<char>) -> Seq<char> {
    path + seq!['.'] + field
}

/// The place of an item of an array at `path`.
pub open spec fn indexed(path: Seq<char>, index: nat) -> Seq<char> {
    path + seq!['['] + decimal_text(index) + seq![']']
}

fn dot(path: &str, field: &str) -> (r: String)
    ensures
        r@ == dotted(path@, field@),
{
    let mut out = owned(path);
    out.push('.');
    append(&mut out, field);
    assert(out@ =~= dotted(path@, field@));
    out
}

fn at_index(path: &str, index: usize) -> (r: String)
    ensures
        r@ == indexed(path@, index as nat),
{
    let mut out = owned(path);
    out.push('[');
    push_decimal_text(&mut out, index as u64);
    out.push(']');
    assert(out@ =~= indexed(path@, index as nat));
    out
}

pub open spec fn absolute(t: Seq<char>) -> bool {
    t.len() > 0 && t[0] == '/'
}

/// A directory: an absolute path with no NUL character.
pub open spec fn directory_of(v: SettingView, path: Seq<char>) -> Result<Option<Seq<char>>, Seq<char>> {
    match v {
        SettingView::Text(t) => if t.len() == 0 || t.contains('\0') || !absolute(t) {
            Err(field_message(path, "expected an absolute directory path"@))
        } else {
            Ok(Some(t))
        },
        _ => Err(field_message(path, "expected an absolute directory path"@)),
    }
}

fn contains_nul(chars: &Vec<char>) -> (r: bool)
    ensures
        r == chars@.contains('\0'),
{
    let mut i: usize = 0;
    while i < chars.len()
        invariant
            0 <= i <= chars@.len(),
            forall|j: int| 0 <= j < i ==> chars@[j] != '\0',
        decreases chars.len() - i,
    {
        if chars[i] == '\0' {
            return true;
        }
        i += 1;
    }
    false
}

pub fn parse_directory(value: &Setting, path: &str) -> (r: Result<ResolvedDirectory, String>)
    ensures
        match directory_of(viewed(*value), path@) {
            Ok(d) => r matches Ok(dir) && directory_view(dir) == d,
            Err(m) => r matches Err(e) && e@ == m,
        },
{
    match value {
        Setting::Text(text) => {
            let chars = chars_of(text.as_str());
            if chars.len() == 0 || contains_nul(&chars) || chars[0] != '/' {
                Err(error(path, "expected an absolute directory path"))
            } else {
                Ok(ResolvedDirectory(Some(text.clone())))
            }
        },
        _ => Err(error(path, "expected an absolute directory path")),
    }
}


/// The first key of a node's table that a node may not hold: anything but `shell`,
/// `command`, `split` and `directory`, and `panes` beside `split`.
pub open spec fn unknown_node_field(entries: Seq<(Seq<char>, SettingView)>, split: bool) -> Option<Seq<char>>
    decreases entries.len(),
{
    if entries.len() == 0 {
        None
    } else {
        let f = entries[0].0;
        if !(f == "shell"@ || f == "command"@ || f == "split"@ || f == "directory"@) && !(f == "panes"@
            && split) {
            Some(f)
        } else {
            unknown_node_field(entries.drop_first(), split)
        }
    }
}

pub open spec fn has(entries: Seq<(Seq<char>, SettingView)>, key: Seq<char>) -> bool {
    entry(entries, key) is Some
}

/// A leaf's directory: its own, or the one it inherits.
pub open spec fn leaf_directory(
    entries: Seq<(Seq<char>, SettingView)>,
    path: Seq<char>,
    inherited: Option<Seq<char>>,
) -> Result<Option<Seq<char>>, Seq<char>> {
    match entry(entries, "directory"@) {
        Some(v) => directory_of(v, dotted(path, "directory"@)),
        None => Ok(inherited),
    }
}

/// A command: a non-empty array of strings.
pub open spec fn command_strings(v: Option<SettingView>) -> Option<Seq<Seq<char>>> {
    match v {
        Some(SettingView::List(items)) => if items.len() > 0 && forall|i: int|
            0 <= i < items.len() ==> #[trigger] items[i] is Text {
            Some(Seq::new(items.len(), |i: int| items[i]->Text_0))
        } else {
            None
        },
        _ => None,
    }
}

/// The split direction a string names.
pub open spec fn direction_named(v: Option<SettingView>) -> Option<SplitDirection> {
    match v {
        Some(SettingView::Text(s)) => if s == "left-right"@ {
            Some(SplitDirection::LeftRight)
        } else if s == "top-bottom"@ {
            Some(SplitDirection::TopBottom)
        } else {
            None
        },
        _ => None,
    }
}

/// A node of a tab's layout read from the setting at `path`, with its number of
/// panes: an inline table holding exactly one of `shell = true`, a `command` (an
/// absolute program and its arguments), or a `split` with two `panes`; a leaf starts
/// in its own directory or the one it inherits, and a split sets none.
pub open spec fn node_of(v: SettingView, path: Seq<char>, inherited: Option<Seq<char>>) -> Result<(NodeView, nat), Seq<char>>
    decreases setting_size(v),
{
    match v {
        SettingView::Table(t) => {
            let shell = has(t, "shell"@);
            let command = has(t, "command"@);
            let split = has(t, "split"@);
            match unknown_node_field(t, split) {
                Some(f) => Err(field_message(dotted(path, f), "unknown field"@)),
                None => if (if shell { 1int } else { 0 }) + (if command { 1int } else { 0 }) + (if split { 1int } else { 0 }) != 1 {
                    Err(field_message(path, "must contain exactly one of shell, command, or split"@))
                } else if shell {
                    if entry(t, "shell"@) != Some(SettingView::Boolean(true)) {
                        Err(field_message(dotted(path, "shell"@), "expected true"@))
                    } else {
                        match leaf_directory(t, path, inherited) {
                            Ok(d) => Ok((NodeView::Leaf { target: TargetView::Shell, directory: d }, 1)),
                            Err(e) => Err(e),
                        }
                    }
                } else if command {
                    let command_path = dotted(path, "command"@);
                    match command_strings(entry(t, "command"@)) {
                        None => Err(field_message(command_path, "expected a non-empty array of strings"@)),
                        Some(strings) => if !absolute(strings[0]) || strings[0].contains('\0') {
                            Err(field_message(indexed(command_path, 0), "expected a non-empty absolute executable path"@))
                        } else {
                            match leaf_directory(t, path, inherited) {
                                Ok(d) => Ok((
                                    NodeView::Leaf {
                                        target: TargetView::Command { executable: strings[0], arguments: strings.drop_first() },
                                        directory: d,
                                    },
                                    1,
                                )),
                                Err(e) => Err(e),
                            }
                        },
                    }
                } else if has(t, "directory"@) {
                    Err(field_message(dotted(path, "directory"@), "split nodes must not specify a directory"@))
                } else {
                    match direction_named(entry(t, "split"@)) {
                        None => Err(field_message(dotted(path, "split"@), "expected 'left-right' or 'top-bottom'"@)),
                        Some(direction) => {
                            let panes_path = dotted(path, "panes"@);
                            match entry(t, "panes"@) {
                                Some(SettingView::List(items)) => if items.len() != 2 {
                                    Err(field_message(panes_path, "expected exactly two child nodes"@))
                                } else {
                                    proof {
                                        lemma_entry_size(t, "panes"@);
                                        lemma_list_size(items, 0);
                                        lemma_list_size(items, 1);
                                    }
                                    match node_of(items[0], indexed(panes_path, 0), inherited) {
                                        Err(e) => Err(e),
                                        Ok((first, first_leaves)) => match node_of(items[1], indexed(panes_path, 1), inherited) {
                                            Err(e) => Err(e),
                                            Ok((second, second_leaves)) => Ok((
                                                NodeView::Split { direction, first: Box::new(first), second: Box::new(second) },
                                                first_leaves + second_leaves,
                                            )),
                                        },
                                    }
                                },
                                _ => Err(field_message(panes_path, "expected exactly two child nodes"@)),
                            }
                        },
                    }
                }
            }
        },
        _ => Err(field_message(path, "expected an inline table"@)),
    }
}

fn unknown_field(entries: &Vec<(String, Setting)>, split: bool) -> (r: Option<&str>)
    ensures
        match unknown_node_field(viewed_entries(entries@), split) {
            Some(f) => r matches Some(s) && s@ == f,
            None => r is None,
        },
{
    let ghost all = viewed_entries(entries@);
    proof {
        lemma_viewed_entries(entries@);
    }
    let mut i: usize = 0;
    assert(all.skip(0) =~= all);
    while i < entries.len()
        invariant
            0 <= i <= entries@.len(),
            all == viewed_entries(entries@),
            all.len() == entries@.len(),
            forall|j: int| 0 <= j < entries@.len() ==> #[trigger] all[j] == (entries@[j].0@, viewed(entries@[j].1)),
            unknown_node_field(all.skip(i as int), split) == unknown_node_field(all, split),
        decreases entries.len() - i,
    {
        proof {
            assert(all.skip(i as int)[0] == all[i as int]);
            assert(all.skip(i as int).drop_first() =~= all.skip(i + 1));
        }
        let f = entries[i].0.as_str();
        if !(str_eq(f, "shell") || str_eq(f, "command") || str_eq(f, "split") || str_eq(f, "directory"))
            && !(str_eq(f, "panes") && split) {
            return Some(f);
        }
        i += 1;
    }
    None
}

fn parse_leaf_directory(entries: &Vec<(String, Setting)>, path: &str, inherited: &ResolvedDirectory) -> (r: Result<ResolvedDirectory, String>)
    ensures
        match leaf_directory(viewed_entries(entries@), path@, directory_view(*inherited)) {
            Ok(d) => r matches Ok(dir) && directory_view(dir) == d,
            Err(m) => r matches Err(e) && e@ == m,
        },
{
    match lookup(entries, "directory") {
        Some(value) => parse_directory(value, dot(path, "directory").as_str()),
        None => Ok(
            ResolvedDirectory(
                match &inherited.0 {
                    Some(p) => Some(p.clone()),
                    None => None,
                },
            ),
        ),
    }
}

fn command_of(value: Option<&Setting>) -> (r: Option<Vec<String>>)
    ensures
        match command_strings(match value { Some(v) => Some(viewed(*v)), None => None }) {
            Some(l) => r matches Some(v) && v@.map_values(|s: String| s@) == l,
            None => r is None,
        },
{
    let items = match value {
        Some(Setting::List(items)) => items,
        _ => return None,
    };
    proof {
        lemma_viewed_list(items@);
    }
    let ghost view = viewed_list(items@);
    if items.len() == 0 {
        return None;
    }
    let mut out: Vec<String> = Vec::new();
    let mut i: usize = 0;
    while i < items.len()
        invariant
            0 <= i <= items@.len(),
            value matches Some(v) && viewed(*v) == SettingView::List(view),
            view == viewed_list(items@),
            view.len() == items@.len(),
            forall|j: int| 0 <= j < items@.len() ==> #[trigger] view[j] == viewed(items@[j]),
            forall|j: int| 0 <= j < i ==> #[trigger] view[j] is Text,
            out@.map_values(|s: String| s@) == Seq::new(i as nat, |j: int| view[j]->Text_0),
        decreases items.len() - i,
    {
        assert(view[i as int] == viewed(items@[i as int]));
        match &items[i] {
            Setting::Text(text) => {
                assert(view[i as int] == SettingView::Text(text@));
                let copy = text.clone();
                let ghost prev = out@;
                out.push(copy);
                assert(out@ =~= prev.push(copy));
                assert(out@.map_values(|s: String| s@) =~= prev.map_values(|s: String| s@).push(copy@));
                assert(out@.map_values(|s: String| s@) =~= Seq::new((i + 1) as nat, |j: int| view[j]->Text_0));
            },
            _ => {
                return None;
            },
        }
        i += 1;
    }
    Some(out)
}

fn direction_of(value: Option<&Setting>) -> (r: Option<SplitDirection>)
    ensures
        r == direction_named(match value { Some(v) => Some(viewed(*v)), None => None }),
{
    match value {
        Some(Setting::Text(text)) => if str_eq(text.as_str(), "left-right") {
            Some(SplitDirection::LeftRight)
        } else if str_eq(text.as_str(), "top-bottom") {
            Some(SplitDirection::TopBottom)
        } else {
            None
        },
        _ => None,
    }
}


pub open spec fn capped_count(n: nat) -> usize {
    if n > usize::MAX {
        usize::MAX
    } else {
        n as usize
    }
}

fn copy_directory(d: &ResolvedDirectory) -> (r: ResolvedDirectory)
    ensures
        directory_view(r) == directory_view(*d),
{
    ResolvedDirectory(
        match &d.0 {
            Some(p) => Some(p.clone()),
            None => None,
        },
    )
}

/// A node of a tab's layout, with its number of panes (up to `usize::MAX`).
pub fn parse_node(value: &Setting, path: &str, inherited: &ResolvedDirectory) -> (r: Result<(Node, usize), String>)
    ensures
        match node_of(viewed(*value), path@, directory_view(*inherited)) {
            Ok((n, leaves)) => r matches Ok((node, count)) && node_view(node) == n && count == capped_count(leaves),
            Err(m) => r matches Err(e) && e@ == m,
        },
    decreases setting_size(viewed(*value)),
{
    let entries = match value {
        Setting::Table(entries) => entries,
        _ => return Err(error(path, "expected an inline table")),
    };
    let ghost t = viewed_entries(entries@);
    assert(viewed(*value) == SettingView::Table(t));
    let shell = lookup(entries, "shell").is_some();
    let command = lookup(entries, "command").is_some();
    let split = lookup(entries, "split").is_some();
    if let Some(field) = unknown_field(entries, split) {
        return Err(error(dot(path, field).as_str(), "unknown field"));
    }
    let count = (if shell { 1u8 } else { 0 }) + (if command { 1u8 } else { 0 }) + (if split { 1u8 } else { 0 });
    if count != 1 {
        return Err(error(path, "must contain exactly one of shell, command, or split"));
    }
    if shell {
        let flag = match lookup(entries, "shell") {
            Some(Setting::Boolean(flag)) => *flag,
            _ => false,
        };
        if !flag {
            return Err(error(dot(path, "shell").as_str(), "expected true"));
        }
        let directory = parse_leaf_directory(entries, path, inherited)?;
        return Ok((Node::Leaf { target: LaunchTarget::Shell, directory }, 1));
    }
    if command {
        let command_path = dot(path, "command");
        let strings = match command_of(lookup(entries, "command")) {
            Some(strings) => strings,
            None => return Err(error(command_path.as_str(), "expected a non-empty array of strings")),
        };
        let ghost list = strings@.map_values(|s: String| s@);
        assert(list[0] == strings@[0]@);
        let first = chars_of(strings[0].as_str());
        if first.len() == 0 || first[0] != '/' || contains_nul(&first) {
            return Err(error(at_index(command_path.as_str(), 0).as_str(), "expected a non-empty absolute executable path"));
        }
        let directory = parse_leaf_directory(entries, path, inherited)?;
        let mut arguments: Vec<String> = Vec::new();
        let mut i: usize = 1;
        while i < strings.len()
            invariant
                1 <= i <= strings@.len(),
                list == strings@.map_values(|s: String| s@),
                arguments@.map_values(|s: String| s@) == list.subrange(1, i as int),
            decreases strings.len() - i,
        {
            let copy = strings[i].clone();
            let ghost prev = arguments@;
            arguments.push(copy);
            assert(arguments@ =~= prev.push(copy));
            assert(list[i as int] == strings@[i as int]@);
            assert(arguments@.map_values(|s: String| s@) =~= prev.map_values(|s: String| s@).push(copy@));
            assert(arguments@.map_values(|s: String| s@) =~= list.subrange(1, i + 1));
            i += 1;
        }
        assert(list.subrange(1, i as int) =~= list.drop_first());
        let executable = strings[0].clone();
        return Ok((Node::Leaf { target: LaunchTarget::Command { executable, arguments }, directory }, 1));
    }
    if lookup(entries, "directory").is_some() {
        return Err(error(dot(path, "directory").as_str(), "split nodes must not specify a directory"));
    }
    let direction = match direction_of(lookup(entries, "split")) {
        Some(direction) => direction,
        None => return Err(error(dot(path, "split").as_str(), "expected 'left-right' or 'top-bottom'")),
    };
    let panes_path = dot(path, "panes");
    let items = match lookup(entries, "panes") {
        Some(Setting::List(items)) => items,
        _ => return Err(error(panes_path.as_str(), "expected exactly two child nodes")),
    };
    if items.len() != 2 {
        proof {
            lemma_viewed_list(items@);
        }
        return Err(error(panes_path.as_str(), "expected exactly two child nodes"));
    }
    proof {
        lemma_viewed_list(items@);
        lemma_entry_size(t, "panes"@);
        lemma_list_size(viewed_list(items@), 0);
        lemma_list_size(viewed_list(items@), 1);
    }
    let (first, first_leaves) = parse_node(&items[0], at_index(panes_path.as_str(), 0).as_str(), inherited)?;
    let (second, second_leaves) = parse_node(&items[1], at_index(panes_path.as_str(), 1).as_str(), inherited)?;
    Ok((Node::Split { direction, first: Box::new(first), second: Box::new(second) }, first_leaves.saturating_add(second_leaves)))
}


/// The first key of a profile's table that a profile may not hold.
pub open spec fn unknown_profile_field(entries: Seq<(Seq<char>, SettingView)>) -> Option<Seq<char>>
    decreases entries.len(),
{
    if entries.len() == 0 {
        None
    } else if !(entries[0].0 == "directory"@ || entries[0].0 == "tabs"@) {
        Some(entries[0].0)
    } else {
        unknown_profile_field(entries.drop_first())
    }
}

/// The first `k` tabs of a profile, each with at most sixteen panes.
pub open spec fn tabs_of(items: Seq<SettingView>, path: Seq<char>, directory: Option<Seq<char>>, k: nat) -> Result<Seq<NodeView>, Seq<char>>
    decreases k,
{
    if k == 0 {
        Ok(Seq::empty())
    } else {
        match tabs_of(items, path, directory, (k - 1) as nat) {
            Err(e) => Err(e),
            Ok(previous) => {
                let node_path = indexed(dotted(path, "tabs"@), (k - 1) as nat);
                match node_of(items[k - 1], node_path, directory) {
                    Err(e) => Err(e),
                    Ok((node, leaves)) => if leaves > MAX_LEAVES {
                        Err(field_message(node_path, "must contain at most 16 leaf panes"@))
                    } else {
                        Ok(previous.push(node))
                    },
                }
            },
        }
    }
}

/// Once a tab fails, the profile fails with its error.
pub proof fn lemma_tabs_failed(items: Seq<SettingView>, path: Seq<char>, directory: Option<Seq<char>>, k: nat, n: nat)
    requires
        k <= n,
        tabs_of(items, path, directory, k) is Err,
    ensures
        tabs_of(items, path, directory, n) == tabs_of(items, path, directory, k),
    decreases n - k,
{
    if k < n {
        lemma_tabs_failed(items, path, directory, k, (n - 1) as nat);
    }
}

pub open spec fn tab_views(roots: Seq<TabRoot>) -> Seq<NodeView> {
    roots.map_values(|r: TabRoot| node_view(r.node))
}

/// A profile read from the setting at `path`: a table with an optional directory
/// for its panes and one to thirty-two tabs.
pub open spec fn profile_of(name: Seq<char>, v: SettingView, path: Seq<char>) -> Result<ProfileView, Seq<char>> {
    match v {
        SettingView::Table(t) => match unknown_profile_field(t) {
            Some(f) => Err(field_message(dotted(path, f), "unknown field"@)),
            None => {
                let directory = match entry(t, "directory"@) {
                    Some(d) => directory_of(d, dotted(path, "directory"@)),
                    None => Ok(None),
                };
                match directory {
                    Err(e) => Err(e),
                    Ok(d) => match entry(t, "tabs"@) {
                        None => Err(field_message(path, "missing required field 'tabs'"@)),
                        Some(SettingView::List(items)) => if items.len() == 0 {
                            Err(field_message(dotted(path, "tabs"@), "must not be empty"@))
                        } else if items.len() > MAX_PROFILE_TABS {
                            Err(field_message(dotted(path, "tabs"@), "must contain at most 32 tabs"@))
                        } else {
                            match tabs_of(items, path, d, items.len()) {
                                Ok(tabs) => Ok(ProfileView { name, directory: d, tabs }),
                                Err(e) => Err(e),
                            }
                        },
                        Some(_) => Err(field_message(dotted(path, "tabs"@), "expected an array"@)),
                    },
                }
            },
        },
        _ => Err(field_message(path, "expected an inline table"@)),
    }
}

pub open spec fn name_char(c: char) -> bool {
    ('a' <= c && c <= 'z') || ('A' <= c && c <= 'Z') || ('0' <= c && c <= '9') || c == '_' || c == '-'
}

/// A name of one to sixty-four letters, digits, `_` and `-`.
pub open spec fn name_ok(t: Seq<char>) -> bool {
    1 <= t.len() <= 64 && forall|i: int| 0 <= i < t.len() ==> name_char(#[trigger] t[i])
}

pub fn valid_name_text(name: &str) -> (r: bool)
    ensures
        r == name_ok(name@),
{
    let chars = chars_of(name);
    if chars.len() < 1 || chars.len() > 64 {
        return false;
    }
    let mut i: usize = 0;
    while i < chars.len()
        invariant
            0 <= i <= chars@.len(),
            chars@ == name@,
            forall|j: int| 0 <= j < i ==> name_char(#[trigger] chars@[j]),
        decreases chars.len() - i,
    {
        let c = chars[i];
        if !(('a' <= c && c <= 'z') || ('A' <= c && c <= 'Z') || ('0' <= c && c <= '9') || c == '_' || c == '-') {
            return false;
        }
        i += 1;
    }
    true
}

/// The first `k` profiles of the `profiles` table.
pub open spec fn profiles_run(ps: Seq<(Seq<char>, SettingView)>, k: nat) -> Result<Seq<(Seq<char>, ProfileView)>, Seq<char>>
    decreases k,
{
    if k == 0 {
        Ok(Seq::empty())
    } else {
        match profiles_run(ps, (k - 1) as nat) {
            Err(e) => Err(e),
            Ok(previous) => {
                let name = ps[k - 1].0;
                let path = "profiles."@ + name;
                if !name_ok(name) {
                    Err(field_message(path, "profile name must match [A-Za-z0-9_-]{1,64}"@))
                } else {
                    match profile_of(name, ps[k - 1].1, path) {
                        Ok(p) => Ok(previous.push((name, p))),
                        Err(e) => Err(e),
                    }
                }
            },
        }
    }
}

/// Once a profile fails, the document fails with its error.
pub proof fn lemma_profiles_failed(ps: Seq<(Seq<char>, SettingView)>, k: nat, n: nat)
    requires
        k <= n,
        profiles_run(ps, k) is Err,
    ensures
        profiles_run(ps, n) == profiles_run(ps, k),
    decreases n - k,
{
    if k < n {
        lemma_profiles_failed(ps, k, (n - 1) as nat);
    }
}

/// The profiles of a configuration document, by name: none without a `profiles`
/// table.
pub open spec fn profiles_of(document: Seq<(Seq<char>, SettingView)>) -> Result<Seq<(Seq<char>, ProfileView)>, Seq<char>> {
    match entry(document, "profiles"@) {
        None => Ok(Seq::empty()),
        Some(SettingView::Table(ps)) => profiles_run(ps, ps.len()),
        Some(_) => Err(field_message("profiles"@, "expected a table"@)),
    }
}

pub open spec fn profiles_view(v: Seq<(String, Profile)>) -> Seq<(Seq<char>, ProfileView)> {
    v.map_values(|e: (String, Profile)| (e.0@, profile_view(e.1)))
}

fn unknown_in_profile(entries: &Vec<(String, Setting)>) -> (r: Option<&str>)
    ensures
        match unknown_profile_field(viewed_entries(entries@)) {
            Some(f) => r matches Some(s) && s@ == f,
            None => r is None,
        },
{
    let ghost all = viewed_entries(entries@);
    proof {
        lemma_viewed_entries(entries@);
    }
    let mut i: usize = 0;
    assert(all.skip(0) =~= all);
    while i < entries.len()
        invariant
            0 <= i <= entries@.len(),
            all == viewed_entries(entries@),
            all.len() == entries@.len(),
            forall|j: int| 0 <= j < entries@.len() ==> #[trigger] all[j] == (entries@[j].0@, viewed(entries@[j].1)),
            unknown_profile_field(all.skip(i as int)) == unknown_profile_field(all),
        decreases entries.len() - i,
    {
        proof {
            assert(all.skip(i as int)[0] == all[i as int]);
            assert(all.skip(i as int).drop_first() =~= all.skip(i + 1));
        }
        let f = entries[i].0.as_str();
        if !(str_eq(f, "directory") || str_eq(f, "tabs")) {
            return Some(f);
        }
        i += 1;
    }
    None
}

/// A profile read from the setting at `path`.
pub fn parse_profile(name: &str, value: &Setting, path: &str) -> (r: Result<Profile, String>)
    ensures
        match profile_of(name@, viewed(*value), path@) {
            Ok(p) => r matches Ok(profile) && profile_view(profile) == p,
            Err(m) => r matches Err(e) && e@ == m,
        },
{
    let entries = match value {
        Setting::Table(entries) => entries,
        _ => return Err(error(path, "expected an inline table")),
    };
    let ghost t = viewed_entries(entries@);
    if let Some(field) = unknown_in_profile(entries) {
        return Err(error(dot(path, field).as_str(), "unknown field"));
    }
    let directory = match lookup(entries, "directory") {
        Some(d) => match parse_directory(d, dot(path, "directory").as_str()) {
            Ok(directory) => directory,
            Err(e) => return Err(e),
        },
        None => ResolvedDirectory(None),
    };
    let tabs_path = dot(path, "tabs");
    let items = match lookup(entries, "tabs") {
        None => return Err(error(path, "missing required field 'tabs'")),
        Some(Setting::List(items)) => items,
        Some(_) => return Err(error(tabs_path.as_str(), "expected an array")),
    };
    proof {
        lemma_viewed_list(items@);
    }
    let ghost view = viewed_list(items@);
    if items.len() == 0 {
        return Err(error(tabs_path.as_str(), "must not be empty"));
    }
    if items.len() > MAX_PROFILE_TABS {
        return Err(error(tabs_path.as_str(), "must contain at most 32 tabs"));
    }
    let mut roots: Vec<TabRoot> = Vec::new();
    assert(tab_views(roots@) =~= Seq::<NodeView>::empty());
    let ghost d = directory_view(directory);
    let mut index: usize = 0;
    while index < items.len()
        invariant
            0 <= index <= items@.len(),
            view == viewed_list(items@),
            view.len() == items@.len(),
            d == directory_view(directory),
            forall|j: int| 0 <= j < items@.len() ==> #[trigger] view[j] == viewed(items@[j]),
            tabs_path@ == dotted(path@, "tabs"@),
            profile_of(name@, viewed(*value), path@) == (match tabs_of(view, path@, d, view.len()) {
                Ok(tabs) => Ok(ProfileView { name: name@, directory: d, tabs }),
                Err(e) => Err(e),
            }),
            tabs_of(view, path@, d, index as nat) == Ok::<Seq<NodeView>, Seq<char>>(tab_views(roots@)),
        decreases items.len() - index,
    {
        let node_path = at_index(tabs_path.as_str(), index);
        assert(view[index as int] == viewed(items@[index as int]));
        let parsed = parse_node(&items[index], node_path.as_str(), &directory);
        let (node, leaves) = match parsed {
            Ok(pair) => pair,
            Err(e) => {
                proof {
                    lemma_tabs_failed(view, path@, d, (index + 1) as nat, view.len());
                }
                return Err(e);
            },
        };
        if leaves > MAX_LEAVES {
            proof {
                lemma_tabs_failed(view, path@, d, (index + 1) as nat, view.len());
            }
            return Err(error(node_path.as_str(), "must contain at most 16 leaf panes"));
        }
        let ghost previous = roots@;
        let root = TabRoot { node };
        let ghost added = node_view(root.node);
        roots.push(root);
        assert(roots@ == previous.push(root));
        assert(tab_views(roots@) =~= tab_views(previous).push(added));
        index += 1;
    }
    Ok(Profile { name: owned(name), directory, tabs: roots })
}

/// The profiles of a configuration document, by name.
pub fn parse(document: &Vec<(String, Setting)>) -> (r: Result<Vec<(String, Profile)>, String>)
    ensures
        match profiles_of(viewed_entries(document@)) {
            Ok(p) => r matches Ok(v) && profiles_view(v@) == p,
            Err(m) => r matches Err(e) && e@ == m,
        },
{
    let ps = match lookup(document, "profiles") {
        None => {
            let out: Vec<(String, Profile)> = Vec::new();
            assert(profiles_view(out@) =~= Seq::<(Seq<char>, ProfileView)>::empty());
            return Ok(out);
        },
        Some(Setting::Table(ps)) => ps,
        Some(_) => return Err(error("profiles", "expected a table")),
    };
    let ghost all = viewed_entries(ps@);
    proof {
        lemma_viewed_entries(ps@);
    }
    let mut parsed: Vec<(String, Profile)> = Vec::new();
    assert(profiles_view(parsed@) =~= Seq::<(Seq<char>, ProfileView)>::empty());
    let mut k: usize = 0;
    while k < ps.len()
        invariant
            0 <= k <= ps@.len(),
            all == viewed_entries(ps@),
            all.len() == ps@.len(),
            forall|j: int| 0 <= j < ps@.len() ==> #[trigger] all[j] == (ps@[j].0@, viewed(ps@[j].1)),
            profiles_of(viewed_entries(document@)) == profiles_run(all, all.len()),
            profiles_run(all, k as nat) == Ok::<Seq<(Seq<char>, ProfileView)>, Seq<char>>(profiles_view(parsed@)),
        decreases ps.len() - k,
    {
        assert(all[k as int] == (ps@[k as int].0@, viewed(ps@[k as int].1)));
        let name = ps[k].0.as_str();
        let mut path = owned("profiles.");
        append(&mut path, name);
        if !valid_name_text(name) {
            proof {
                lemma_profiles_failed(all, (k + 1) as nat, all.len());
            }
            return Err(error(path.as_str(), "profile name must match [A-Za-z0-9_-]{1,64}"));
        }
        let profile = match parse_profile(name, &ps[k].1, path.as_str()) {
            Ok(profile) => profile,
            Err(e) => {
                proof {
                    lemma_profiles_failed(all, (k + 1) as nat, all.len());
                }
                return Err(e);
            },
        };
        let ghost previous = parsed@;
        let pair = (owned(name), profile);
        let ghost added = (pair.0@, profile_view(pair.1));
        parsed.push(pair);
        assert(parsed@ == previous.push(pair));
        assert(profiles_view(parsed@) =~= profiles_view(previous).push(added));
        k += 1;
    }
    Ok(parsed)
}

} // verus!
