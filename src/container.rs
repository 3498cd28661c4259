use libc::pid_t;
use vstd::prelude::*;

use crate::docker::{views, CommandOutput, Docker, DockerState, docker_command_words,
    cause_matches, docker_error_cause, docker_error_kind, docker_error_text, docker_state, join_with, joined, joined_by,
    parse_docker_output};
use crate::types::{Error, ErrorKind};

verus! {

/// A runtime backend that resolves a container name to its init pid.
pub enum Backend {
    Docker(Docker),
    /// A program that takes the container name as its one argument and
    /// writes `<running>;<pid>`.
    Command(String),
}

/// The words of the command that a backend runs to look up container `id`.
pub open spec fn backend_command_words(b: Backend, id: Seq<char>, has_docker_pid: bool) -> Seq<
    Seq<char>,
> {
    match b {
        Backend::Docker(_) => docker_command_words(id, has_docker_pid),
        Backend::Command(p) => seq![p@, id],
    }
}

/// The name a backend is listed under: `docker`, or the program that a
/// command backend runs.
pub open spec fn backend_name(b: Backend) -> Seq<char> {
    match b {
        Backend::Docker(_) => "docker"@,
        Backend::Command(p) => p@,
    }
}

pub open spec fn backend_names(bs: Seq<Backend>) -> Seq<Seq<char>> {
    bs.map_values(|b: Backend| backend_name(b))
}

/// The description of the error given when no backend resolves `id`.
pub open spec fn not_found_text(id: Seq<char>, bs: Seq<Backend>) -> Seq<char> {
    "no container named '"@ + id + "' found; tried: "@ + joined_by(backend_names(bs), ", "@)
}

impl Backend {
    /// The name this backend is listed under.
    pub fn name(&self) -> (r: String)
        ensures
            r@ == backend_name(*self),
    {
        match self {
            Backend::Docker(_) => String::from_str("docker"),
            Backend::Command(p) => p.clone(),
        }
    }

    /// The command that looks up `container_id`; `has_docker_pid` tells
    /// whether the `docker-pid` helper is installed.
    pub fn lookup_command(&self, container_id: &str, has_docker_pid: bool) -> (r: Vec<String>)
        ensures
            views(r@) == backend_command_words(*self, container_id@, has_docker_pid),
    {
        match self {
            Backend::Docker(d) => d.lookup_command(container_id, has_docker_pid),
            Backend::Command(p) => {
                let r = vec![p.clone(), String::from_str(container_id)];
                assert(views(r@) =~= seq![p@, container_id@]);
                r
            },
        }
    }

    /// Succeeds when the tools this backend runs are installed: `docker-pid`
    /// or `docker` for Docker, the program itself for a command backend.
    pub fn check_required_tools(&self, has_docker_pid: bool, has_docker: bool, has_program: bool)
        -> (r: Result<(), Error>)
        ensures
            r is Ok <==> match *self {
                Backend::Docker(_) => has_docker_pid || has_docker,
                Backend::Command(_) => has_program,
            },
            r matches Err(e) ==> e.kind == ErrorKind::ToolsMissing && e.cause is None
                && e.desc@ == match *self {
                Backend::Docker(_) => "Neither docker or docker-pid was found"@,
                Backend::Command(p) => p@ + " was not found"@,
            },
    {
        match self {
            Backend::Docker(d) => d.check_required_tools(has_docker_pid, has_docker),
            Backend::Command(p) => {
                if has_program {
                    return Ok(());
                }
                let mut d = p.clone();
                d.append(" was not found");
                Err(Error::new(ErrorKind::ToolsMissing, d))
            },
        }
    }

    /// The init pid of `container_id`, from what the lookup command wrote.
    pub fn lookup(&self, container_id: &str, has_docker_pid: bool, output: &CommandOutput) -> (r:
        Result<pid_t, Error>)
        ensures
            r is Ok <==> output.success && docker_state(output.stdout@) is Running,
            r matches Ok(v) ==> docker_state(output.stdout@) == DockerState::Running(v as int),
            r matches Err(e) ==> e.desc@ == docker_error_text(
                joined(backend_command_words(*self, container_id@, has_docker_pid)),
                container_id@,
                *output,
            ) && e.kind == docker_error_kind(*output) && cause_matches(
                e.cause,
                docker_error_cause(*output),
            ),
    {
        let command = self.lookup_command(container_id, has_docker_pid);
        parse_docker_output(&command, container_id, output)
    }
}

/// The error given when none of `backends` resolves `container_id`: it names
/// the container and lists the backends tried.
pub fn container_not_found(container_id: &str, backends: &Vec<Backend>) -> (r: Error)
    ensures
        r.desc@ == not_found_text(container_id@, backends@),
        r.kind == ErrorKind::ContainerNotFound,
        r.cause is None,
{
    let mut names: Vec<String> = Vec::new();
    let n = backends.len();
    let mut i: usize = 0;
    while i < n
        invariant
            n == backends@.len(),
            i <= n,
            names@.len() == i,
            views(names@) == backend_names(backends@.subrange(0, i as int)),
        decreases n - i,
    {
        let name = backends[i].name();
        let ghost prev = names@;
        names.push(name);
        assert forall|k: int| 0 <= k < i implies #[trigger] views(names@)[k] == backend_names(
            backends@.subrange(0, i as int + 1),
        )[k] by {
            assert(names@[k] == prev[k]);
            assert(views(prev)[k] == backend_names(backends@.subrange(0, i as int))[k]);
        }
        assert(views(names@)[i as int] == names@[i as int]@);
        assert(views(names@) =~= backend_names(backends@.subrange(0, i as int + 1)));
        i = i + 1;
    }
    assert(backends@.subrange(0, n as int) =~= backends@);
    let mut d = String::from_str("no container named '");
    d.append(container_id);
    d.append("' found; tried: ");
    let list = join_with(&names, ", ");
    d.append(list.as_str());
    Error::new(ErrorKind::ContainerNotFound, d)
}

/// What happened since the last action of a probe.
pub enum ProbeEvent {
    /// The probe starts.
    Start,
    /// The tools of the current backend were checked: present or missing.
    ToolsChecked(bool),
    /// The current backend was asked for the pid: `Some` with the pid it
    /// found, or `None` when it failed.
    LookedUp(Option<pid_t>),
}

/// What a probe asks for next.
pub enum ProbeAction {
    /// Check the tools of the backend at this index.
    CheckTools(usize),
    /// Ask the backend at this index for the pid.
    Lookup(usize),
    /// The container's init pid was found.
    Found(pid_t),
    /// No backend resolved the name.
    NotFound,
}

/// Moving on from the backend at `index`: check the next one, or stop.
pub open spec fn probe_advance(count: int, index: int) -> ProbeAction {
    if index + 1 < count {
        ProbeAction::CheckTools((index + 1) as usize)
    } else {
        ProbeAction::NotFound
    }
}

/// The next action of a probe over `count` backends, at backend `index`,
/// after `event`. Backends are tried in order; one whose tools are missing is
/// skipped without a lookup; the first positive pid wins.
pub open spec fn probe_next(count: int, index: int, event: ProbeEvent) -> ProbeAction {
    match event {
        ProbeEvent::Start => if count == 0 {
            ProbeAction::NotFound
        } else {
            ProbeAction::CheckTools(0)
        },
        ProbeEvent::ToolsChecked(present) => if present {
            ProbeAction::Lookup(index as usize)
        } else {
            probe_advance(count, index)
        },
        ProbeEvent::LookedUp(found) => match found {
            Some(p) => if p > 0 {
                ProbeAction::Found(p)
            } else {
                probe_advance(count, index)
            },
            None => probe_advance(count, index),
        },
    }
}

/// The next action of a probe over `count` backends, at backend `index`,
/// after `event`.
pub fn probe_step(count: usize, index: usize, event: ProbeEvent) -> (r: ProbeAction)
    requires
        event is Start || index < count,
    ensures
        r == probe_next(count as int, index as int, event),
{
    match event {
        ProbeEvent::Start => if count == 0 {
            ProbeAction::NotFound
        } else {
            ProbeAction::CheckTools(0)
        },
        ProbeEvent::ToolsChecked(present) => if present {
            ProbeAction::Lookup(index)
        } else if index + 1 < count {
            ProbeAction::CheckTools(index + 1)
        } else {
            ProbeAction::NotFound
        },
        ProbeEvent::LookedUp(found) => match found {
            Some(p) if p > 0 => ProbeAction::Found(p),
            _ => if index + 1 < count {
                ProbeAction::CheckTools(index + 1)
            } else {
                ProbeAction::NotFound
            },
        },
    }
}

/// A probe asks a backend for the pid only right after that same backend's
/// tools were found present; so a backend whose tools are missing is never
/// asked.
pub proof fn lemma_lookup_only_after_tools(count: usize, index: usize, event: ProbeEvent)
    requires
        index < count,
    ensures
        probe_next(count as int, index as int, event) matches ProbeAction::Lookup(j) ==> event
            == ProbeEvent::ToolsChecked(true) && j == index,
        probe_next(count as int, index as int, ProbeEvent::ToolsChecked(false)) !is Lookup,
{
}

} // verus!
