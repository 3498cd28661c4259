use cntr::container::{container_not_found, probe_step, Backend, ProbeAction, ProbeEvent};
use cntr::types::ErrorKind;
use cntr::docker::{format_docker_output, parse_docker_output, CommandOutput, Docker};

fn ok_output(stdout: &str) -> CommandOutput {
    CommandOutput {
        success: true,
        status: "exit status: 0".to_string(),
        stdout: stdout.as_bytes().to_vec(),
        stderr: vec![],
    }
}

fn words(ws: &[&str]) -> Vec<String> {
    ws.iter().map(|w| w.to_string()).collect()
}

#[test]
fn running_container_gives_its_pid() {
    let d = Docker {};
    assert_eq!(d.lookup("alpine1", true, &ok_output("true;4242\n")).unwrap(), 4242);
    assert_eq!(d.lookup("alpine1", false, &ok_output("true;4242")).unwrap(), 4242);
}

#[test]
fn stopped_container_is_not_running() {
    let d = Docker {};
    let e = d.lookup("name", false, &ok_output("false;0\n")).unwrap_err();
    assert_eq!(e.description(), "container 'name' is not running");
    assert_eq!(e.kind, ErrorKind::ContainerNotRunning);
    assert_eq!(e.exit_code(), 127);
    assert!(e.cause().is_none());
}

#[test]
fn missing_tools_are_reported() {
    let d = Docker {};
    let e = d.check_required_tools(false, false).unwrap_err();
    assert_eq!(e.to_string(), "Neither docker or docker-pid was found");
    assert_eq!(e.kind, ErrorKind::ToolsMissing);
    assert_eq!(e.exit_code(), 126);
    assert!(d.check_required_tools(true, false).is_ok());
    assert!(d.check_required_tools(false, true).is_ok());
}

#[test]
fn lookup_command_prefers_the_helper() {
    let d = Docker {};
    assert_eq!(d.lookup_command("alpine1", true), words(&["docker-pid", "alpine1"]));
    assert_eq!(
        d.lookup_command("alpine1", false),
        words(&["docker", "inspect", "--format", "{{.State.Running}};{{.State.Pid}}", "alpine1"])
    );
}

#[test]
fn failed_command_reports_status_and_trimmed_stderr() {
    let out = CommandOutput {
        success: false,
        status: "exit status: 1".to_string(),
        stdout: vec![],
        stderr: b"Error: No such object: alpine1\n\n".to_vec(),
    };
    let e = Docker {}.lookup("alpine1", false, &out).unwrap_err();
    assert_eq!(
        e.description(),
        "Failed to list containers. 'docker inspect --format {{.State.Running}};{{.State.Pid}} alpine1' exited with exit status: 1: Error: No such object: alpine1"
    );
    assert_eq!(e.kind, ErrorKind::ContainerNotRunning);
}

#[test]
fn bad_pid_is_reported_with_its_text() {
    let cmd = words(&["docker-pid", "c"]);
    let e = parse_docker_output(&cmd, "c", &ok_output("true;4x2\n")).unwrap_err();
    assert_eq!(
        e.description(),
        "expected valid process id from 'docker-pid c', got: 4x2\n: invalid digit found in string"
    );
    assert_eq!(e.cause().unwrap().description(), "invalid digit found in string");
    assert!(e.cause().unwrap().cause().is_none());
    assert_eq!(e.kind, ErrorKind::Protocol);
    let mut out = ok_output("true;");
    out.stdout.push(0xff);
    let e = parse_docker_output(&cmd, "c", &out).unwrap_err();
    assert_eq!(
        e.description(),
        "expected valid process id from 'docker-pid c', got: \u{fffd}: invalid digit found in string"
    );
    let e = parse_docker_output(&cmd, "c", &ok_output("true;\n")).unwrap_err();
    assert_eq!(e.cause().unwrap().description(), "cannot parse integer from empty string");
    let e = parse_docker_output(&cmd, "c", &ok_output("true;2147483648\n")).unwrap_err();
    assert_eq!(e.cause().unwrap().description(), "number too large to fit in target type");
    assert!(parse_docker_output(&cmd, "c", &ok_output("true;99999999999999999999\n")).is_err());
    assert_eq!(parse_docker_output(&cmd, "c", &ok_output("true;2147483647\n")).unwrap(), i32::MAX);
    assert_eq!(parse_docker_output(&cmd, "c", &ok_output("true;007 \r\n")).unwrap(), 7);
}

#[test]
fn non_positive_pid_is_refused_without_cause() {
    let cmd = words(&["docker-pid", "c"]);
    let e = parse_docker_output(&cmd, "c", &ok_output("true;0\n")).unwrap_err();
    assert_eq!(e.description(), "expected valid process id from 'docker-pid c', got: 0\n");
    assert!(e.cause().is_none());
    assert_eq!(e.kind, ErrorKind::Protocol);
    let e = parse_docker_output(&cmd, "c", &ok_output("true;-5\n")).unwrap_err();
    assert_eq!(e.description(), "expected valid process id from 'docker-pid c', got: -5\n");
    assert!(e.cause().is_none());
}

#[test]
fn pid_field_is_trimmed_of_unicode_whitespace() {
    let cmd = words(&["docker-pid", "c"]);
    assert_eq!(parse_docker_output(&cmd, "c", &ok_output("true;42\u{a0}")).unwrap(), 42);
    assert_eq!(parse_docker_output(&cmd, "c", &ok_output("true;42\x0b\n")).unwrap(), 42);
    assert_eq!(parse_docker_output(&cmd, "c", &ok_output("true;+42\n")).unwrap(), 42);
    assert!(parse_docker_output(&cmd, "c", &ok_output("true; 42\n")).is_err());
}

#[test]
fn malformed_output_is_reported() {
    let cmd = words(&["docker-pid", "c"]);
    let e = parse_docker_output(&cmd, "c", &ok_output("true4242\n")).unwrap_err();
    assert_eq!(e.description(), "unexpected output from 'docker-pid c': true4242\n");
    assert_eq!(e.kind, ErrorKind::Protocol);
    assert_eq!(e.exit_code(), 125);
    let e = parse_docker_output(&cmd, "c", &ok_output("maybe;12\n")).unwrap_err();
    assert_eq!(e.description(), "unexpected output from 'docker-pid c': maybe;12\n");
    assert!(parse_docker_output(&cmd, "c", &ok_output("")).is_err());
    assert!(parse_docker_output(&cmd, "c", &ok_output("True;1")).is_err());
}

#[test]
fn formatted_lines_parse_back() {
    let cmd = words(&["x"]);
    for pid in [1i32, 9, 10, 4242, 12345, (1 << 22) - 1, i32::MAX] {
        let line = format_docker_output(true, pid);
        assert_eq!(line, format!("true;{}\n", pid).into_bytes());
        assert_eq!(parse_docker_output(&cmd, "c", &ok_output(std::str::from_utf8(&line).unwrap())).unwrap(), pid);
        let line = format_docker_output(false, pid);
        assert_eq!(line, format!("false;{}\n", pid).into_bytes());
        let e = parse_docker_output(&cmd, "c", &ok_output(std::str::from_utf8(&line).unwrap())).unwrap_err();
        assert_eq!(e.description(), "container 'c' is not running");
    }
    assert_eq!(format_docker_output(false, 0), b"false;0\n".to_vec());
}

#[test]
fn command_backend_runs_its_program() {
    let b = Backend::Command("my-probe".to_string());
    assert_eq!(b.lookup_command("web", true), words(&["my-probe", "web"]));
    assert_eq!(b.lookup("web", true, &ok_output("true;77\n")).unwrap(), 77);
    let e = b.lookup("web", true, &ok_output("nope")).unwrap_err();
    assert_eq!(e.description(), "unexpected output from 'my-probe web': nope");
}

#[test]
fn probe_skips_backends_without_tools() {
    assert!(matches!(probe_step(2, 0, ProbeEvent::Start), ProbeAction::CheckTools(0)));
    assert!(matches!(probe_step(0, 0, ProbeEvent::Start), ProbeAction::NotFound));
    assert!(matches!(probe_step(2, 0, ProbeEvent::ToolsChecked(false)), ProbeAction::CheckTools(1)));
    assert!(matches!(probe_step(2, 1, ProbeEvent::ToolsChecked(false)), ProbeAction::NotFound));
    assert!(matches!(probe_step(2, 1, ProbeEvent::ToolsChecked(true)), ProbeAction::Lookup(1)));
}

#[test]
fn probe_takes_the_first_pid_found() {
    assert!(matches!(probe_step(3, 1, ProbeEvent::LookedUp(Some(4242))), ProbeAction::Found(4242)));
    assert!(matches!(probe_step(3, 1, ProbeEvent::LookedUp(None)), ProbeAction::CheckTools(2)));
    assert!(matches!(probe_step(3, 2, ProbeEvent::LookedUp(None)), ProbeAction::NotFound));
    assert!(matches!(probe_step(3, 0, ProbeEvent::LookedUp(Some(0))), ProbeAction::CheckTools(1)));
}

#[test]
fn unresolved_name_lists_the_backends_tried() {
    let backends = vec![Backend::Docker(cntr::docker::Docker {}), Backend::Command("my-probe".to_string())];
    let e = container_not_found("web", &backends);
    assert_eq!(e.description(), "no container named 'web' found; tried: docker, my-probe");
    assert_eq!(e.kind, ErrorKind::ContainerNotFound);
    assert_eq!(e.exit_code(), 127);
    let e = container_not_found("web", &vec![]);
    assert_eq!(e.description(), "no container named 'web' found; tried: ");
    assert_eq!(Backend::Command("p".to_string()).name(), "p");
}

#[test]
fn command_backend_needs_its_program() {
    let b = Backend::Command("my-probe".to_string());
    assert!(b.check_required_tools(false, false, true).is_ok());
    let e = b.check_required_tools(true, true, false).unwrap_err();
    assert_eq!(e.description(), "my-probe was not found");
    assert_eq!(e.kind, ErrorKind::ToolsMissing);
    let d = Backend::Docker(cntr::docker::Docker {});
    assert!(d.check_required_tools(false, true, false).is_ok());
    assert_eq!(d.check_required_tools(false, false, true).unwrap_err().exit_code(), 126);
}
