use libc::pid_t;
use vstd::prelude::*;

use crate::text::{
    all_digits, copy_range, decimal_of, digits_value, first_index_of, is_digit, lemma_decimal_of,
    lemma_first_index_at, lemma_first_index_none, prefix_equals, push_decimal,
};
use crate::types::{separator, Error, ErrorKind};

verus! {

/// What a finished backend command handed back: whether it exited with
/// success, its exit status as text, and what it wrote to stdout and stderr.
pub struct CommandOutput {
    pub success: bool,
    pub status: String,
    pub stdout: Vec<u8>,
    pub stderr: Vec<u8>,
}

/// What one line of backend output says about a container.
pub enum DockerState {
    /// Running, with the given init pid.
    Running(int),
    NotRunning,
    /// The state field is running, but the pid field is not a positive pid.
    BadPid,
    /// No `;`, or a state field other than `true` or `false`.
    Malformed,
}

/// The bytes of `true`.
pub open spec fn true_bytes() -> Seq<u8> {
    seq![116u8, 114u8, 117u8, 101u8]
}

/// The bytes of `false`.
pub open spec fn false_bytes() -> Seq<u8> {
    seq![102u8, 97u8, 108u8, 115u8, 101u8]
}

/// Whether `c` has Unicode's White_Space property.
pub open spec fn is_unicode_ws(c: char) -> bool {
    let u = c as u32;
    ||| 9 <= u <= 13
    ||| u == 32
    ||| u == 0x85
    ||| u == 0xA0
    ||| u == 0x1680
    ||| 0x2000 <= u <= 0x200A
    ||| u == 0x2028
    ||| u == 0x2029
    ||| u == 0x202F
    ||| u == 0x205F
    ||| u == 0x3000
}

/// `s` without its trailing whitespace.
pub open spec fn trim_end_chars(s: Seq<char>) -> Seq<char>
    decreases s.len(),
{
    if s.len() > 0 && is_unicode_ws(s.last()) {
        trim_end_chars(s.drop_last())
    } else {
        s
    }
}

pub open spec fn is_char_digit(c: char) -> bool {
    48 <= (c as u32) <= 57
}

pub open spec fn all_char_digits(s: Seq<char>) -> bool {
    forall|i: int| 0 <= i < s.len() ==> is_char_digit(#[trigger] s[i])
}

/// The number that the decimal digits `s` write.
pub open spec fn char_digits_value(s: Seq<char>) -> int
    decreases s.len(),
{
    if s.len() == 0 {
        0
    } else {
        char_digits_value(s.drop_last()) * 10 + ((s.last() as u32) - 48)
    }
}

/// The `pid_t` that `s` writes: an optional `+` or `-` and at least one
/// decimal digit, for a value in the range of `pid_t`.
pub open spec fn spec_parse_pid(s: Seq<char>) -> Option<int> {
    if s.len() > 0 && (s[0] == '+' || s[0] == '-') {
        let d = s.drop_first();
        let v = if s[0] == '-' {
            -char_digits_value(d)
        } else {
            char_digits_value(d)
        };
        if d.len() > 0 && all_char_digits(d) && pid_t::MIN <= v <= pid_t::MAX {
            Some(v)
        } else {
            None
        }
    } else if s.len() > 0 && all_char_digits(s) && pid_t::MIN <= char_digits_value(s)
        <= pid_t::MAX {
        Some(char_digits_value(s))
    } else {
        None
    }
}

/// The text of bytes that are all ASCII: one character per byte.
pub open spec fn ascii_text(b: Seq<u8>) -> Seq<char> {
    b.map_values(|x: u8| x as char)
}

pub open spec fn all_ascii(b: Seq<u8>) -> bool {
    forall|i: int| 0 <= i < b.len() ==> #[trigger] b[i] < 128
}

/// The bytes as text, with each invalid sequence replaced; bytes that are all
/// ASCII are valid UTF-8 and keep their characters.
pub open spec fn decoded(b: Seq<u8>) -> Seq<char> {
    if all_ascii(b) {
        ascii_text(b)
    } else {
        lossy_text(b)
    }
}

/// The pid field as the pid is read from it: decoded, without trailing whitespace.
pub open spec fn pid_field_text(field: Seq<u8>) -> Seq<char> {
    trim_end_chars(decoded(field))
}

/// The pid that a pid field writes, when it is positive.
pub open spec fn pid_of_field(field: Seq<u8>) -> Option<int> {
    match spec_parse_pid(pid_field_text(field)) {
        Some(v) => if v > 0 {
            Some(v)
        } else {
            None
        },
        None => None,
    }
}

/// The pid field of backend output `s`: what follows the first `;`.
pub open spec fn pid_field(s: Seq<u8>) -> Seq<u8> {
    s.subrange(first_index_of(s, 59u8) + 1, s.len() as int)
}

/// What the backend output `s`, of the shape `<running>;<pid>`, says.
pub open spec fn docker_state(s: Seq<u8>) -> DockerState {
    let k = first_index_of(s, 59u8);
    if k < 0 {
        DockerState::Malformed
    } else if s.subrange(0, k) == true_bytes() {
        match pid_of_field(pid_field(s)) {
            Some(p) => DockerState::Running(p),
            None => DockerState::BadPid,
        }
    } else if s.subrange(0, k) == false_bytes() {
        DockerState::NotRunning
    } else {
        DockerState::Malformed
    }
}

/// The line a backend writes for a container: `true;<pid>\n` or `false;<pid>\n`.
pub open spec fn docker_line(running: bool, pid: nat) -> Seq<u8> {
    (if running {
        true_bytes()
    } else {
        false_bytes()
    }) + seq![59u8] + decimal_of(pid) + seq![10u8]
}

/// What `String::from_utf8_lossy` makes of bytes.
pub uninterp spec fn lossy_text(b: Seq<u8>) -> Seq<char>;

/// What `pid_t`'s `FromStr` gives as the message of its error on a text.
pub uninterp spec fn pid_error_text(s: Seq<char>) -> Seq<char>;

/// Relies on `String::from_utf8_lossy`: the bytes as text, with each invalid
/// sequence replaced; valid UTF-8 is kept as it is.
#[verifier::external_body]
fn lossy(b: &[u8]) -> (r: String)
    ensures
        all_ascii(b@) ==> r@ == ascii_text(b@),
        !all_ascii(b@) ==> r@ == lossy_text(b@),
{
    String::from_utf8_lossy(b).into_owned()
}

/// Relies on `str::trim_end`: the text without its trailing characters of
/// Unicode's White_Space property.
#[verifier::external_body]
fn trim_end(s: &str) -> (r: &str)
    ensures
        r@ == trim_end_chars(s@),
{
    s.trim_end()
}

/// Relies on `str::parse::<pid_t>`: an optional sign and decimal digits, in
/// range, give the number; any other text gives an error, of which the
/// message is kept.
#[verifier::external_body]
fn parse_pid(s: &str) -> (r: Result<pid_t, String>)
    ensures
        match spec_parse_pid(s@) {
            Some(v) => r == Ok::<pid_t, String>(v as pid_t),
            None => r matches Err(m) && m@ == pid_error_text(s@),
        },
{
    match s.parse::<pid_t>() {
        Ok(v) => Ok(v),
        Err(e) => Err(e.to_string()),
    }
}

/// The texts `parts`, with `sep` between each two.
pub open spec fn joined_by(parts: Seq<Seq<char>>, sep: Seq<char>) -> Seq<char>
    decreases parts.len(),
{
    if parts.len() == 0 {
        Seq::empty()
    } else if parts.len() == 1 {
        parts[0]
    } else {
        joined_by(parts.drop_last(), sep) + sep + parts.last()
    }
}

/// The words of a command joined by single spaces.
pub open spec fn joined(parts: Seq<Seq<char>>) -> Seq<char> {
    joined_by(parts, seq![' '])
}

/// The texts of a sequence of strings.
pub open spec fn views(v: Seq<String>) -> Seq<Seq<char>> {
    v.map_values(|s: String| s@)
}

/// The texts of `parts`, with `sep` between each two.
pub fn join_with(parts: &Vec<String>, sep: &str) -> (r: String)
    ensures
        r@ == joined_by(views(parts@), sep@),
{
    let mut out = String::new();
    let n = parts.len();
    let mut i: usize = 0;
    proof {
        assert(views(parts@).subrange(0, 0) =~= Seq::<Seq<char>>::empty());
    }
    while i < n
        invariant
            n == parts@.len(),
            i <= n,
            out@ == joined_by(views(parts@).subrange(0, i as int), sep@),
        decreases n - i,
    {
        let ghost before = views(parts@).subrange(0, i as int);
        let ghost after = views(parts@).subrange(0, i as int + 1);
        assert(after.drop_last() =~= before);
        if i > 0 {
            out.append(sep);
        }
        out.append(parts[i].as_str());
        proof {
            if i == 0 {
                assert(after[0] == parts@[0]@);
                assert(out@ =~= after[0]);
            } else {
                assert(after.last() == parts@[i as int]@);
                assert(out@ =~= joined_by(before, sep@) + sep@ + after.last());
            }
        }
        i = i + 1;
    }
    assert(views(parts@).subrange(0, n as int) =~= views(parts@));
    out
}

/// The words of `cmd` joined by single spaces.
pub fn join_command(cmd: &Vec<String>) -> (r: String)
    ensures
        r@ == joined(views(cmd@)),
{
    let r = join_with(cmd, " ");
    proof {
        reveal_strlit(" ");
        assert(" "@ =~= seq![' ']);
    }
    r
}

/// The description of the error that a backend command gives: `cmd` is the
/// command line, `id` the container name.
pub open spec fn docker_error_text(cmd: Seq<char>, id: Seq<char>, out: CommandOutput) -> Seq<
    char,
> {
    if !out.success {
        "Failed to list containers. '"@ + cmd + "' exited with "@ + out.status@ + ": "@
            + trim_end_chars(decoded(out.stderr@))
    } else {
        let s = out.stdout@;
        match docker_state(s) {
            DockerState::NotRunning => "container '"@ + id + "' is not running"@,
            DockerState::BadPid => {
                let base = "expected valid process id from '"@ + cmd + "', got: "@ + decoded(
                    pid_field(s),
                );
                match docker_error_cause(out) {
                    Some(m) => base + separator() + m,
                    None => base,
                }
            },
            _ => "unexpected output from '"@ + cmd + "': "@ + decoded(s),
        }
    }
}

/// The message of the error under the one that a backend command gives: the
/// parse error of a pid field that is no number.
pub open spec fn docker_error_cause(out: CommandOutput) -> Option<Seq<char>> {
    let s = out.stdout@;
    if out.success && docker_state(s) is BadPid && spec_parse_pid(pid_field_text(pid_field(s)))
        is None {
        Some(pid_error_text(pid_field_text(pid_field(s))))
    } else {
        None
    }
}

/// The cause that matches the message `m` of `docker_error_cause`: an error
/// with that description and no cause of its own.
pub open spec fn cause_matches(cause: Option<Box<Error>>, m: Option<Seq<char>>) -> bool {
    match m {
        Some(t) => cause matches Some(c) && c.desc@ == t && c.cause is None,
        None => cause is None,
    }
}

/// The kind of the error that a backend command gives: the container is not
/// running where the command failed or said so; otherwise its output had the
/// wrong shape.
pub open spec fn docker_error_kind(out: CommandOutput) -> ErrorKind {
    if !out.success || docker_state(out.stdout@) is NotRunning {
        ErrorKind::ContainerNotRunning
    } else {
        ErrorKind::Protocol
    }
}

/// The init pid of container `container_id`, from the output of the backend
/// command `cmd`. The command must have succeeded and written `true;<pid>`,
/// where the pid field, decoded and without trailing Unicode whitespace,
/// parses as a positive `pid_t`. In every other case the error says why; a
/// pid field that does not parse adds the parse error's message and keeps it
/// as the cause.
pub fn parse_docker_output(cmd: &Vec<String>, container_id: &str, output: &CommandOutput) -> (r:
    Result<pid_t, Error>)
    ensures
        r is Ok <==> output.success && docker_state(output.stdout@) is Running,
        r matches Ok(v) ==> docker_state(output.stdout@) == DockerState::Running(v as int),
        r matches Err(e) ==> e.desc@ == docker_error_text(
            joined(views(cmd@)),
            container_id@,
            *output,
        ) && e.kind == docker_error_kind(*output) && cause_matches(
                e.cause,
                docker_error_cause(*output),
            ),
{
    let cmd_text = join_command(cmd);
    if !output.success {
        let stderr = lossy(output.stderr.as_slice());
        let mut d = String::from_str("Failed to list containers. '");
        d.append(cmd_text.as_str());
        d.append("' exited with ");
        d.append(output.status.as_str());
        d.append(": ");
        d.append(trim_end(stderr.as_str()));
        return Err(Error::new(ErrorKind::ContainerNotRunning, d));
    }
    let s = &output.stdout;
    let n = s.len();
    let mut k: usize = 0;
    while k < n && s[k] != 59
        invariant
            n == s@.len(),
            k <= n,
            forall|j: int| 0 <= j < k ==> #[trigger] s@[j] != 59u8,
        decreases n - k,
    {
        k = k + 1;
    }
    if k == n {
        proof {
            lemma_first_index_none(s@, 59u8);
        }
        let mut d = String::from_str("unexpected output from '");
        d.append(cmd_text.as_str());
        d.append("': ");
        d.append(lossy(s.as_slice()).as_str());
        return Err(Error::new(ErrorKind::Protocol, d));
    }
    proof {
        lemma_first_index_at(s@, 59u8, k as int);
    }
    let is_true = prefix_equals(s, k, &vec![116u8, 114u8, 117u8, 101u8]);
    let is_false = prefix_equals(s, k, &vec![102u8, 97u8, 108u8, 115u8, 101u8]);
    if !is_true {
        if is_false {
            let mut d = String::from_str("container '");
            d.append(container_id);
            d.append("' is not running");
            return Err(Error::new(ErrorKind::ContainerNotRunning, d));
        }
        let mut d = String::from_str("unexpected output from '");
        d.append(cmd_text.as_str());
        d.append("': ");
        d.append(lossy(s.as_slice()).as_str());
        return Err(Error::new(ErrorKind::Protocol, d));
    }
    let start = k + 1;
    let field = copy_range(s, start, n);
    assert(field@ == pid_field(s@));
    let pid_text = lossy(field.as_slice());
    assert(pid_text@ == decoded(field@));
    let trimmed = trim_end(pid_text.as_str());
    assert(trimmed@ == pid_field_text(field@));
    let parsed = parse_pid(trimmed);
    if let Ok(v) = parsed {
        if v > 0 {
            proof {
                match spec_parse_pid(trimmed@) {
                    Some(w) => assert(pid_t::MIN <= w <= pid_t::MAX),
                    None => {},
                }
            }
            assert(spec_parse_pid(trimmed@) == Some(v as int));
            assert(pid_of_field(pid_field(s@)) == Some(v as int));
            return Ok(v);
        }
    }
    let mut d = String::from_str("expected valid process id from '");
    d.append(cmd_text.as_str());
    d.append("', got: ");
    d.append(pid_text.as_str());
    match parsed {
        Ok(_) => Err(Error::new(ErrorKind::Protocol, d)),
        Err(m) => Err(Error::with_cause(m, d).with_kind(ErrorKind::Protocol)),
    }
}

/// The line a backend writes for a container in state `running` with init
/// pid `pid`.
pub fn format_docker_output(running: bool, pid: pid_t) -> (r: Vec<u8>)
    requires
        pid >= 0,
    ensures
        r@ == docker_line(running, pid as nat),
{
    let mut out: Vec<u8> = if running {
        vec![116u8, 114u8, 117u8, 101u8]
    } else {
        vec![102u8, 97u8, 108u8, 115u8, 101u8]
    };
    out.push(59u8);
    push_decimal(&mut out, pid as u32);
    out.push(10u8);
    out
}

/// Formatting a state and a positive pid as a backend line and reading the
/// line back gives the same state and pid.
pub proof fn lemma_docker_round_trip(running: bool, pid: pid_t)
    requires
        pid > 0,
    ensures
        docker_state(docker_line(running, pid as nat)) == (if running {
            DockerState::Running(pid as int)
        } else {
            DockerState::NotRunning
        }),
{
    let pre = if running {
        true_bytes()
    } else {
        false_bytes()
    };
    let d = decimal_of(pid as nat);
    lemma_decimal_of(pid as nat);
    let s = docker_line(running, pid as nat);
    let k = pre.len() as int;
    assert(s[k] == 59u8);
    assert forall|j: int| 0 <= j < k implies #[trigger] s[j] != 59u8 by {
        assert(s[j] == pre[j]);
    }
    lemma_first_index_at(s, 59u8, k);
    assert(s.subrange(0, k) =~= pre);
    let field = s.subrange(k + 1, s.len() as int);
    assert(field =~= d + seq![10u8]);
    assert(field == pid_field(s));
    assert(all_ascii(field)) by {
        assert forall|i: int| 0 <= i < field.len() implies #[trigger] field[i] < 128 by {
            if i < d.len() {
                assert(field[i] == d[i]);
                assert(is_digit(d[i]));
            }
        }
    }
    let t = ascii_text(field);
    let dt = ascii_text(d);
    assert(t.drop_last() =~= dt);
    assert((t.last() as u32) == 10);
    lemma_ascii_digits(d);
    assert((dt.last() as u32) == (d.last() as u32));
    assert(is_char_digit(dt.last()));
    assert(trim_end_chars(dt) == dt);
    assert(trim_end_chars(t) == dt);
    assert(dt[0] != '+' && dt[0] != '-') by {
        assert(is_char_digit(dt[0]));
    }
    assert(spec_parse_pid(dt) == Some(pid as int));
    if !running {
        assert(pre != true_bytes()) by {
            assert(pre.len() != true_bytes().len());
        }
    }
}

/// ASCII digits read as characters are digits and write the same number.
proof fn lemma_ascii_digits(d: Seq<u8>)
    requires
        all_digits(d),
    ensures
        all_char_digits(ascii_text(d)),
        char_digits_value(ascii_text(d)) == digits_value(d),
    decreases d.len(),
{
    let t = ascii_text(d);
    assert forall|i: int| 0 <= i < t.len() implies is_char_digit(#[trigger] t[i]) by {
        assert(is_digit(d[i]));
        assert((t[i] as u32) == (d[i] as u32));
    }
    if d.len() > 0 {
        let p = d.drop_last();
        assert(all_digits(p)) by {
            assert forall|i: int| 0 <= i < p.len() implies is_digit(#[trigger] p[i]) by {
                assert(p[i] == d[i]);
            }
        }
        lemma_ascii_digits(p);
        assert(t.drop_last() =~= ascii_text(p));
        assert((t.last() as u32) == (d.last() as u32));
    }
}

/// The words of the command that looks up the init pid of container `id`:
/// the `docker-pid` helper where it is installed, else `docker inspect`.
pub open spec fn docker_command_words(id: Seq<char>, has_docker_pid: bool) -> Seq<Seq<char>> {
    if has_docker_pid {
        seq!["docker-pid"@, id]
    } else {
        seq!["docker"@, "inspect"@, "--format"@, "{{.State.Running}};{{.State.Pid}}"@, id]
    }
}

/// The Docker backend.
#[derive(Clone, Copy, Debug)]
pub struct Docker {}

impl Docker {
    /// The command that looks up the init pid of `container_id`, given whether
    /// the `docker-pid` helper is installed.
    pub fn lookup_command(&self, container_id: &str, has_docker_pid: bool) -> (r: Vec<String>)
        ensures
            views(r@) == docker_command_words(container_id@, has_docker_pid),
    {
        let r = if has_docker_pid {
            vec![String::from_str("docker-pid"), String::from_str(container_id)]
        } else {
            vec![
                String::from_str("docker"),
                String::from_str("inspect"),
                String::from_str("--format"),
                String::from_str("{{.State.Running}};{{.State.Pid}}"),
                String::from_str(container_id),
            ]
        };
        assert(views(r@) =~= docker_command_words(container_id@, has_docker_pid));
        r
    }

    /// Succeeds when `docker-pid` or `docker` is installed.
    pub fn check_required_tools(&self, has_docker_pid: bool, has_docker: bool) -> (r: Result<
        (),
        Error,
    >)
        ensures
            r is Ok <==> has_docker_pid || has_docker,
            r matches Err(e) ==> e.desc@ == "Neither docker or docker-pid was found"@
                && e.kind == ErrorKind::ToolsMissing && e.cause is None,
    {
        if has_docker_pid || has_docker {
            return Ok(());
        }
        Err(
            Error::new(
                ErrorKind::ToolsMissing,
                String::from_str("Neither docker or docker-pid was found"),
            ),
        )
    }

    /// The init pid of `container_id`, from what the lookup command wrote,
    /// given whether the `docker-pid` helper is installed.
    pub fn lookup(&self, container_id: &str, has_docker_pid: bool, output: &CommandOutput) -> (r:
        Result<pid_t, Error>)
        ensures
            r is Ok <==> output.success && docker_state(output.stdout@) is Running,
            r matches Ok(v) ==> docker_state(output.stdout@) == DockerState::Running(v as int),
            r matches Err(e) ==> e.desc@ == docker_error_text(
                joined(docker_command_words(container_id@, has_docker_pid)),
                container_id@,
                *output,
            ) && e.kind == docker_error_kind(*output) && cause_matches(
                e.cause,
                docker_error_cause(*output),
            ),
    {
        let command = self.lookup_command(container_id, has_docker_pid);
        parse_docker_output(&command, container_id, output)
    }
}

} // verus!
