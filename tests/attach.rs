use cntr::attach::{child_environment, home_dir, join_order, resolve_identity, Namespace, Passwd};
use cntr::idmap::{IdMap, IdRange};
use cntr::session::{exit_code_of, parent_step, ChildEnd, ParentAction, ParentEvent, ParentPhase, GRACE_MS};
use cntr::types::{Error, ErrorKind};

#[test]
fn init_ids_are_mapped_into_the_namespace() {
    let uids = IdMap::from_ranges(vec![IdRange { ns_start: 0, host_start: 100000, length: 65536 }]).unwrap();
    let gids = IdMap::from_ranges(vec![IdRange { ns_start: 0, host_start: 200000, length: 65536 }]).unwrap();
    let id = resolve_identity(&uids, &gids, 100000, 200005, &None);
    assert_eq!((id.uid, id.gid), (0, 5));
    assert_eq!((id.effective_uid, id.effective_gid), (None, None));
    assert!(id.home.is_none());
}

#[test]
fn chosen_user_overrides_the_ids() {
    let uids = IdMap::empty();
    let gids = IdMap::empty();
    let nobody = Passwd {
        pw_name: "nobody".to_string(),
        pw_uid: 65534,
        pw_gid: 65534,
        pw_dir: "/home/nobody".to_string(),
    };
    let id = resolve_identity(&uids, &gids, 0, 0, &Some(nobody));
    assert_eq!((id.uid, id.gid), (65534, 65534));
    assert_eq!((id.effective_uid, id.effective_gid), (Some(65534), Some(65534)));
    assert_eq!(id.home.as_deref(), Some("/home/nobody"));
}

#[test]
fn wrapping_joins_descriptions() {
    let inner = Error::with_cause("permission denied".to_string(), "failed to open".to_string());
    assert_eq!(inner.description(), "failed to open: permission denied");
    assert_eq!(inner.cause().unwrap().description(), "permission denied");
    let outer = Error::wrap(inner, "cannot attach".to_string());
    assert_eq!(outer.description(), "cannot attach: failed to open: permission denied");
    assert_eq!(outer.cause().unwrap().description(), "permission denied");
    let same = Error::wrap(outer, String::new());
    assert_eq!(same.to_string(), "cannot attach: failed to open: permission denied");
}

#[test]
fn plain_errors_have_no_cause() {
    let e = Error::from("boom".to_string());
    assert_eq!(e.description(), "boom");
    assert!(e.cause().is_none());
    let e = Error::from_desc("bang".to_string());
    assert_eq!(e.desc, "bang");
}

#[test]
fn kinds_give_exit_codes() {
    let e = Error::new(ErrorKind::AlreadyAttached, "locked".to_string());
    assert_eq!(e.exit_code(), 125);
    let e = Error::wrap(e, "cannot attach".to_string()).with_kind(ErrorKind::ToolsMissing);
    assert_eq!(e.description(), "cannot attach: locked");
    assert_eq!(e.exit_code(), 126);
    assert_eq!(Error::from_desc("x".to_string()).kind, ErrorKind::Other);
}

#[test]
fn namespaces_are_joined_user_first_and_mnt_last() {
    let order = join_order();
    assert_eq!(
        order,
        vec![
            Namespace::User,
            Namespace::Cgroup,
            Namespace::Ipc,
            Namespace::Uts,
            Namespace::Pid,
            Namespace::Net,
            Namespace::Mnt
        ]
    );
    let names: Vec<&str> = order.iter().map(|n| n.proc_name()).collect();
    assert_eq!(names, vec!["user", "cgroup", "ipc", "uts", "pid", "net", "mnt"]);
}

#[test]
fn child_environment_is_minimal() {
    let env = child_environment(&Some("/home/nobody".to_string()), &Some("xterm".to_string()));
    assert_eq!(
        env,
        vec![
            "PATH=/.cntr/bin:/usr/local/sbin:/usr/local/bin:/usr/sbin:/usr/bin:/sbin:/bin".to_string(),
            "HOME=/home/nobody".to_string(),
            "TERM=xterm".to_string()
        ]
    );
    let env = child_environment(&None, &None);
    assert_eq!(env.len(), 2);
    assert_eq!(env[1], "HOME=/");
    assert_eq!(home_dir(&None), "/");
    assert_eq!(home_dir(&Some("/root".to_string())), "/root");
}

#[test]
fn child_status_becomes_the_exit_code() {
    assert_eq!(exit_code_of(ChildEnd::Exited(0)), 0);
    assert_eq!(exit_code_of(ChildEnd::Exited(3)), 3);
    assert_eq!(exit_code_of(ChildEnd::Signaled(2)), 130);
    assert_eq!(exit_code_of(ChildEnd::Signaled(15)), 143);
    let (_, a) = parent_step(ParentPhase::Serving, ParentEvent::ChildEnded(ChildEnd::Exited(7)));
    assert_eq!(a, ParentAction::Exit(7));
}

#[test]
fn stop_request_terminates_then_kills_after_grace() {
    let (p, a) = parent_step(ParentPhase::Serving, ParentEvent::StopRequested);
    assert_eq!((p, a), (ParentPhase::Stopping(0), ParentAction::TerminateChild));
    let (p, a) = parent_step(p, ParentEvent::StopRequested);
    assert_eq!((p, a), (ParentPhase::Stopping(0), ParentAction::Wait));
    let (p, a) = parent_step(p, ParentEvent::Tick(4900));
    assert_eq!((p, a), (ParentPhase::Stopping(4900), ParentAction::Wait));
    let (p, a) = parent_step(p, ParentEvent::Tick(100));
    assert_eq!((p, a), (ParentPhase::Killed, ParentAction::KillChild));
    assert_eq!(GRACE_MS, 5000);
    let (_, a) = parent_step(p, ParentEvent::ChildEnded(ChildEnd::Signaled(9)));
    assert_eq!(a, ParentAction::Exit(137));
    let (p, a) = parent_step(ParentPhase::Serving, ParentEvent::Tick(u64::MAX));
    assert_eq!((p, a), (ParentPhase::Serving, ParentAction::Wait));
    let (_, a) = parent_step(ParentPhase::Stopping(10), ParentEvent::Tick(u64::MAX));
    assert_eq!(a, ParentAction::KillChild);
}
