use vstd::prelude::*;

use crate::container::Backend;
use crate::idmap::{spec_map_up, IdMap};

verus! {

/// An entry of the container's `/etc/passwd`.
pub struct Passwd {
    pub pw_name: String,
    pub pw_uid: u32,
    pub pw_gid: u32,
    pub pw_dir: String,
}

/// What an attach is asked to do.
pub struct AttachOptions {
    pub command: Option<String>,
    pub arguments: Vec<String>,
    pub container_name: String,
    /// The backends to try, in order of preference.
    pub container_types: Vec<Backend>,
    pub effective_user: Option<Passwd>,
}

/// The identity that the shell inside the container takes on.
pub struct Identity {
    /// The uid the shell runs as, inside the namespace.
    pub uid: u32,
    /// The gid the shell runs as, inside the namespace.
    pub gid: u32,
    /// The uid the overlay uses for permission checks, when a user was chosen.
    pub effective_uid: Option<u32>,
    /// The gid the overlay uses for permission checks, when a user was chosen.
    pub effective_gid: Option<u32>,
    /// The home directory of the chosen user, if any.
    pub home: Option<String>,
}

/// The identity of the shell: the chosen user's ids and home where a user was
/// chosen; otherwise the ids of the container's init process, which owns its
/// `/proc` entry as `host_uid`/`host_gid` on the host, mapped into the
/// namespace.
pub fn resolve_identity(
    uid_map: &IdMap,
    gid_map: &IdMap,
    host_uid: u32,
    host_gid: u32,
    effective_user: &Option<Passwd>,
) -> (r: Identity)
    requires
        uid_map.wf(),
        gid_map.wf(),
    ensures
        match effective_user {
            Some(p) => {
                &&& r.uid == p.pw_uid
                &&& r.gid == p.pw_gid
                &&& r.effective_uid == Some(p.pw_uid)
                &&& r.effective_gid == Some(p.pw_gid)
                &&& r.home matches Some(h) && h@ == p.pw_dir@
            },
            None => {
                &&& r.uid == spec_map_up(uid_map@, host_uid as int)
                &&& r.gid == spec_map_up(gid_map@, host_gid as int)
                &&& r.effective_uid is None
                &&& r.effective_gid is None
                &&& r.home is None
            },
        },
{
    match effective_user {
        Some(p) => Identity {
            uid: p.pw_uid,
            gid: p.pw_gid,
            effective_uid: Some(p.pw_uid),
            effective_gid: Some(p.pw_gid),
            home: Some(p.pw_dir.clone()),
        },
        None => Identity {
            uid: uid_map.map_id_up(host_uid),
            gid: gid_map.map_id_up(host_gid),
            effective_uid: None,
            effective_gid: None,
            home: None,
        },
    }
}

/// A kind of Linux namespace that the shell joins.
#[derive(Clone, Copy, Debug, PartialEq, Eq, Structural)]
pub enum Namespace {
    User,
    Cgroup,
    Ipc,
    Uts,
    Pid,
    Net,
    Mnt,
}

/// The order in which the namespaces are joined: user first, so that the
/// others are entered with its credentials; mnt last.
pub open spec fn spec_join_order() -> Seq<Namespace> {
    seq![
        Namespace::User,
        Namespace::Cgroup,
        Namespace::Ipc,
        Namespace::Uts,
        Namespace::Pid,
        Namespace::Net,
        Namespace::Mnt,
    ]
}

/// The namespaces in the order in which they are joined.
pub fn join_order() -> (r: Vec<Namespace>)
    ensures
        r@ == spec_join_order(),
{
    let r = vec![
        Namespace::User,
        Namespace::Cgroup,
        Namespace::Ipc,
        Namespace::Uts,
        Namespace::Pid,
        Namespace::Net,
        Namespace::Mnt,
    ];
    assert(r@ =~= spec_join_order());
    r
}

pub open spec fn spec_proc_name(ns: Namespace) -> Seq<char> {
    match ns {
        Namespace::User => "user"@,
        Namespace::Cgroup => "cgroup"@,
        Namespace::Ipc => "ipc"@,
        Namespace::Uts => "uts"@,
        Namespace::Pid => "pid"@,
        Namespace::Net => "net"@,
        Namespace::Mnt => "mnt"@,
    }
}

impl Namespace {
    /// The name of the namespace's entry under `/proc/<pid>/ns/`.
    pub fn proc_name(&self) -> (r: &'static str)
        ensures
            r@ == spec_proc_name(*self),
    {
        match self {
            Namespace::User => "user",
            Namespace::Cgroup => "cgroup",
            Namespace::Ipc => "ipc",
            Namespace::Uts => "uts",
            Namespace::Pid => "pid",
            Namespace::Net => "net",
            Namespace::Mnt => "mnt",
        }
    }
}

/// The search path of the shell: the helpers under `/.cntr/bin` first.
pub open spec fn path_entry() -> Seq<char> {
    "PATH=/.cntr/bin:/usr/local/sbin:/usr/local/bin:/usr/sbin:/usr/bin:/sbin:/bin"@
}

/// The directory the shell starts in and calls home: the chosen user's home,
/// or `/`.
pub open spec fn spec_home_dir(home: Option<String>) -> Seq<char> {
    match home {
        Some(h) => h@,
        None => "/"@,
    }
}

/// The environment of the shell: `PATH`, `HOME`, and `TERM` where the caller
/// has one; nothing else.
pub open spec fn spec_child_environment(home: Option<String>, term: Option<String>) -> Seq<
    Seq<char>,
> {
    let base = seq![path_entry(), "HOME="@ + spec_home_dir(home)];
    match term {
        Some(t) => base.push("TERM="@ + t@),
        None => base,
    }
}

/// The directory the shell starts in.
pub fn home_dir(home: &Option<String>) -> (r: String)
    ensures
        r@ == spec_home_dir(*home),
{
    match home {
        Some(h) => h.clone(),
        None => String::from_str("/"),
    }
}

/// The environment of the shell, as `NAME=value` entries.
pub fn child_environment(home: &Option<String>, term: &Option<String>) -> (r: Vec<String>)
    ensures
        crate::docker::views(r@) == spec_child_environment(*home, *term),
{
    let path = String::from_str(
        "PATH=/.cntr/bin:/usr/local/sbin:/usr/local/bin:/usr/sbin:/usr/bin:/sbin:/bin",
    );
    let mut h = String::from_str("HOME=");
    let dir = home_dir(home);
    h.append(dir.as_str());
    let mut r = vec![path, h];
    match term {
        Some(t) => {
            let mut e = String::from_str("TERM=");
            e.append(t.as_str());
            r.push(e);
        },
        None => {},
    }
    assert(crate::docker::views(r@) =~= spec_child_environment(*home, *term));
    r
}

} // verus!
