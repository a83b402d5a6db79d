use vstd::prelude::*;

use crate::command::name_error;
use crate::profile::{name_ok, valid_name_text};
use crate::status::{append, owned};
use crate::text::{decimal_text, push_decimal_text};

verus! {

/// The private directory that holds the user's session sockets.
#[derive(Debug)]
pub struct RuntimeDir {
    path: String,
    uid: u32,
}

/// What the file system says of a path, as far as the runtime directory cares.
#[derive(Clone, Copy, Debug, Eq, PartialEq, Structural)]
pub struct PathFacts {
    pub is_dir: bool,
    pub is_symlink: bool,
    pub is_socket: bool,
    pub owner: u32,
    pub mode: u32,
    pub device: u64,
    pub inode: u64,
}

impl RuntimeDir {
    pub closed spec fn path_view(&self) -> Seq<char> {
        self.path@
    }

    pub closed spec fn uid_view(&self) -> u32 {
        self.uid
    }

    /// The directory at `path`, owned by user `uid`.
    pub fn new(path: String, uid: u32) -> (r: RuntimeDir)
        ensures
            r.path_view() == path@,
            r.uid_view() == uid,
    {
        RuntimeDir { path, uid }
    }

    pub fn path(&self) -> (r: &str)
        ensures
            r@ == self.path_view(),
    {
        self.path.as_str()
    }

    pub fn uid(&self) -> (r: u32)
        ensures
            r == self.uid_view(),
    {
        self.uid
    }

    /// The socket path of a session: its name and `.sock` in the directory.
    pub fn socket_path(&self, session: &str) -> (r: Result<String, String>)
        ensures
            name_ok(session@) ==> (r matches Ok(p) && p@ == self.path_view() + seq!['/'] + session@ + ".sock"@),
            !name_ok(session@) ==> (r matches Err(e) && e@ == name_error()),
    {
        if !valid_name_text(session) {
            return Err(owned("session name must match [A-Za-z0-9_-]{1,64}"));
        }
        let mut out = owned(self.path.as_str());
        out.push('/');
        append(&mut out, session);
        append(&mut out, ".sock");
        assert(out@ =~= self.path_view() + seq!['/'] + session@ + ".sock"@);
        Ok(out)
    }
}

/// A directory under which the runtime directory may be made: a real directory,
/// owned by the user, that no one else may write.
pub open spec fn trusted_parent(facts: PathFacts, uid: u32) -> bool {
    facts.is_dir && !facts.is_symlink && facts.owner == uid && facts.mode % 32 / 16 == 0 && facts.mode % 4 / 2 == 0
}

pub fn valid_parent(facts: PathFacts, uid: u32) -> (r: bool)
    ensures
        r == trusted_parent(facts, uid),
{
    facts.is_dir && !facts.is_symlink && facts.owner == uid && facts.mode % 32 / 16 == 0 && facts.mode % 4 / 2 == 0
}

/// The runtime directory as it must be: a real directory owned by the user with
/// mode 0700.
pub open spec fn private_directory(facts: PathFacts, uid: u32) -> bool {
    facts.is_dir && !facts.is_symlink && facts.owner == uid && facts.mode % 512 == 448
}

pub fn is_private_directory(facts: PathFacts, uid: u32) -> (r: bool)
    ensures
        r == private_directory(facts, uid),
{
    facts.is_dir && !facts.is_symlink && facts.owner == uid && facts.mode % 512 == 448
}

/// A socket that may be removed as stale: a socket owned by the user.
pub open spec fn removable_socket(facts: PathFacts, uid: u32) -> bool {
    facts.is_socket && facts.owner == uid
}

pub fn owned_socket(facts: PathFacts, uid: u32) -> (r: bool)
    ensures
        r == removable_socket(facts, uid),
{
    facts.is_socket && facts.owner == uid
}

/// A stale socket that may be removed after the connection test: still a socket of
/// the user, and the same file (device and inode) as before the test.
pub open spec fn same_socket(before: PathFacts, after: PathFacts, uid: u32) -> bool {
    after.is_socket && after.owner == uid && after.device == before.device && after.inode == before.inode
}

pub fn unchanged_socket(before: PathFacts, after: PathFacts, uid: u32) -> (r: bool)
    ensures
        r == same_socket(before, after, uid),
{
    after.is_socket && after.owner == uid && after.device == before.device && after.inode == before.inode
}

/// Where the runtime directory goes: `termfold` under `XDG_RUNTIME_DIR` when that is
/// an absolute path to a trusted directory, else `/tmp/termfold-` and the user id.
pub open spec fn runtime_root(xdg: Option<Seq<char>>, parent_trusted: bool, uid: u32) -> Seq<char> {
    match xdg {
        Some(p) => if p.len() > 0 && p[0] == '/' && parent_trusted {
            p + "/termfold"@
        } else {
            "/tmp/termfold-"@ + decimal_text(uid as nat)
        },
        None => "/tmp/termfold-"@ + decimal_text(uid as nat),
    }
}

pub fn root_path(xdg: Option<&str>, parent_trusted: bool, uid: u32) -> (r: String)
    ensures
        r@ == runtime_root(
            match xdg {
                Some(p) => Some(p@),
                None => None,
            },
            parent_trusted,
            uid,
        ),
{
    if let Some(p) = xdg {
        let chars = crate::status::chars_of(p);
        if chars.len() > 0 && chars[0] == '/' && parent_trusted {
            let mut out = owned(p);
            append(&mut out, "/termfold");
            return out;
        }
    }
    let mut out = owned("/tmp/termfold-");
    push_decimal_text(&mut out, uid as u64);
    out
}

} // verus!
