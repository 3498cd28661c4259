use vstd::prelude::*;

verus! {

/// The text that joins an outer description to the one it wraps.
pub open spec fn separator() -> Seq<char> {
    seq![':', ' ']
}

/// The description of an error that wraps `inner` under the description `outer`:
/// the two joined by `": "`, or `inner` alone when `outer` is empty.
pub open spec fn chained(outer: Seq<char>, inner: Seq<char>) -> Seq<char> {
    if outer.len() == 0 {
        inner
    } else {
        outer + separator() + inner
    }
}

/// What went wrong, in categories that a caller can act on.
#[derive(Clone, Copy, Debug, PartialEq, Eq, Structural)]
pub enum ErrorKind {
    ContainerNotFound,
    ContainerNotRunning,
    ContainerDied,
    ToolsMissing,
    /// A backend wrote output of an unexpected shape.
    Protocol,
    IdMapParse,
    StatusParse,
    NamespaceEnter,
    MountFailed,
    FdHandoff,
    AlreadyAttached,
    Cancelled,
    ChildExec,
    Other,
}

/// The exit code of a failed attach: 126 when tools are missing, 127 when
/// the container is not found or not running, 125 otherwise.
pub open spec fn spec_exit_code(kind: ErrorKind) -> i32 {
    match kind {
        ErrorKind::ToolsMissing => 126,
        ErrorKind::ContainerNotFound | ErrorKind::ContainerNotRunning => 127,
        _ => 125,
    }
}

/// An error made of a plain-text description, a kind and an optional
/// underlying cause. The description already holds the text of every cause
/// below it.
#[derive(Debug)]
pub struct Error {
    pub desc: String,
    pub kind: ErrorKind,
    pub cause: Option<Box<Error>>,
}

/// `outer` followed by `": "` and `inner`.
fn join_desc(outer: String, inner: &str) -> (r: String)
    ensures
        r@ == outer@ + separator() + inner@,
{
    let mut s = outer;
    proof {
        reveal_strlit(": ");
    }
    s.append(": ");
    s.append(inner);
    s
}

impl Error {
    /// An error of kind `Other` with a description and no cause.
    pub fn from_desc(desc: String) -> (r: Error)
        ensures
            r.desc@ == desc@,
            r.kind == ErrorKind::Other,
            r.cause is None,
    {
        Error { desc, kind: ErrorKind::Other, cause: None }
    }

    /// An error of the given kind with a description and no cause.
    pub fn new(kind: ErrorKind, desc: String) -> (r: Error)
        ensures
            r.desc@ == desc@,
            r.kind == kind,
            r.cause is None,
    {
        Error { desc, kind, cause: None }
    }

    /// The same error, of kind `kind`.
    pub fn with_kind(self, kind: ErrorKind) -> (r: Error)
        ensures
            r.desc == self.desc,
            r.kind == kind,
            r.cause == self.cause,
    {
        Error { desc: self.desc, kind, cause: self.cause }
    }

    /// The exit code that reports this error.
    pub fn exit_code(&self) -> (r: i32)
        ensures
            r == spec_exit_code(self.kind),
    {
        match self.kind {
            ErrorKind::ToolsMissing => 126,
            ErrorKind::ContainerNotFound | ErrorKind::ContainerNotRunning => 127,
            _ => 125,
        }
    }

    /// Wraps `error` under the description `desc`. The new description is
    /// `desc: <error's description>`, or the old one when `desc` is empty; the
    /// kind and the underlying cause are kept.
    pub fn wrap(error: Error, desc: String) -> (r: Error)
        ensures
            r.desc@ == chained(desc@, error.desc@),
            r.kind == error.kind,
            r.cause == error.cause,
    {
        let text = if desc.as_str().is_empty() {
            error.desc
        } else {
            join_desc(desc, error.desc.as_str())
        };
        Error { desc: text, kind: error.kind, cause: error.cause }
    }

    /// An error caused by a failure outside this library, of which only the
    /// message is kept: the description is `desc: message`, and the cause is an
    /// error whose description is the message. Both are of kind `Other`.
    pub fn with_cause(message: String, desc: String) -> (r: Error)
        ensures
            r.desc@ == desc@ + separator() + message@,
            r.kind == ErrorKind::Other,
            r.cause matches Some(c) && c.desc@ == message@ && c.kind == ErrorKind::Other
                && c.cause is None,
    {
        let text = join_desc(desc, message.as_str());
        let inner = Error { desc: message, kind: ErrorKind::Other, cause: None };
        Error { desc: text, kind: ErrorKind::Other, cause: Some(Box::new(inner)) }
    }

    /// The plain-text description.
    pub fn description(&self) -> (r: &str)
        ensures
            r@ == self.desc@,
    {
        self.desc.as_str()
    }

    /// The underlying cause, if any.
    pub fn cause(&self) -> (r: Option<&Error>)
        ensures
            r is None <==> self.cause is None,
            r is Some ==> *r.unwrap() == *self.cause.unwrap(),
    {
        match &self.cause {
            Some(c) => Some(&**c),
            None => None,
        }
    }

    /// The text shown for this error: its description.
    pub fn to_string(&self) -> (r: String)
        ensures
            r@ == self.desc@,
    {
        self.desc.clone()
    }
}

impl From<String> for Error {
    fn from(desc: String) -> (r: Error) {
        Error { desc, kind: ErrorKind::Other, cause: None }
    }
}

impl vstd::std_specs::convert::FromSpecImpl<String> for Error {
    open spec fn obeys_from_spec() -> bool {
        true
    }

    open spec fn from_spec(desc: String) -> Error {
        Error { desc, kind: ErrorKind::Other, cause: None }
    }
}

} // verus!
