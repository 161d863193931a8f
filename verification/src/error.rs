//! The error every fallible operation of the library returns.

use vstd::prelude::*;

use crate::text::{decimal, decimal_signed};
use crate::time::Duration;
use crate::text;
use crate::time;

verus! {

broadcast use vstd::string::group_string_axioms;

/// What kind of failure an input or output operation met.
#[derive(Debug, Clone, Copy, PartialEq, Eq, Structural)]
pub enum IoKind {
    NotFound,
    InvalidData,
    Other,
}

/// A failed input or output operation.
#[derive(Debug)]
pub struct IoError {
    pub kind: IoKind,
    pub message: String,
}

/// Every fallible operation in this crate returns this error.
#[derive(Debug)]
#[non_exhaustive]
pub enum CoreError {
    /// A path that leaves the workspace root.
    PathEscape(String),
    Io(IoError),
    /// The `compact` program is not installed.
    ToolchainNotFound,
    ToolchainFailed { cmd: String, code: i32, stderr: String },
    InvalidArgs(String),
    ArtifactMissing(String),
    Timeout(Duration),
    Cancelled,
    /// The build queue is full; carries the queue's limit.
    QueueFull(usize),
    TaskNotFound(String),
    TaskTerminal(String),
    MalformedArtifact { path: String, reason: String },
}

/// What a [`CoreError`] says.
pub enum ErrorView {
    PathEscape(Seq<char>),
    Io(IoKind, Seq<char>),
    ToolchainNotFound,
    ToolchainFailed { cmd: Seq<char>, code: int, stderr: Seq<char> },
    InvalidArgs(Seq<char>),
    ArtifactMissing(Seq<char>),
    Timeout(nat),
    Cancelled,
    QueueFull(nat),
    TaskNotFound(Seq<char>),
    TaskTerminal(Seq<char>),
    MalformedArtifact { path: Seq<char>, reason: Seq<char> },
}

impl View for CoreError {
    type V = ErrorView;

    open spec fn view(&self) -> ErrorView {
        match self {
            CoreError::PathEscape(p) => ErrorView::PathEscape(p@),
            CoreError::Io(e) => ErrorView::Io(e.kind, e.message@),
            CoreError::ToolchainNotFound => ErrorView::ToolchainNotFound,
            CoreError::ToolchainFailed { cmd, code, stderr } => ErrorView::ToolchainFailed {
                cmd: cmd@,
                code: *code as int,
                stderr: stderr@,
            },
            CoreError::InvalidArgs(m) => ErrorView::InvalidArgs(m@),
            CoreError::ArtifactMissing(p) => ErrorView::ArtifactMissing(p@),
            CoreError::Timeout(d) => ErrorView::Timeout(d@),
            CoreError::Cancelled => ErrorView::Cancelled,
            CoreError::QueueFull(n) => ErrorView::QueueFull(*n as nat),
            CoreError::TaskNotFound(id) => ErrorView::TaskNotFound(id@),
            CoreError::TaskTerminal(id) => ErrorView::TaskTerminal(id@),
            CoreError::MalformedArtifact { path, reason } => ErrorView::MalformedArtifact {
                path: path@,
                reason: reason@,
            },
        }
    }
}

/// What an operation that returns nothing else says.
pub open spec fn unit_view(r: Result<(), CoreError>) -> Result<(), ErrorView> {
    match r {
        Ok(()) => Ok(()),
        Err(e) => Err(e@),
    }
}

/// The message an error is reported with.
pub open spec fn error_message(e: ErrorView) -> Seq<char> {
    match e {
        ErrorView::PathEscape(p) => "path escapes workspace root: "@ + p,
        ErrorView::Io(_, m) => "io error: "@ + m,
        ErrorView::ToolchainNotFound => "`compact` CLI not found on PATH"@,
        ErrorView::ToolchainFailed { cmd, code, stderr } => "`"@ + cmd
            + "` failed with exit code "@ + text::dec_int(code) + ": "@ + stderr,
        ErrorView::InvalidArgs(m) => "invalid arguments: "@ + m,
        ErrorView::ArtifactMissing(p) => "artifact missing: "@ + p,
        ErrorView::Timeout(n) => "operation timed out after "@ + time::duration_text(n),
        ErrorView::Cancelled => "operation cancelled"@,
        ErrorView::QueueFull(n) => "build queue is full (max "@ + text::dec(n) + ")"@,
        ErrorView::TaskNotFound(id) => "task not found: "@ + id,
        ErrorView::TaskTerminal(id) => "task "@ + id + " is already in a terminal state"@,
        ErrorView::MalformedArtifact { path, reason } => "malformed artifact "@ + path + ": "@
            + reason,
    }
}

fn prefixed(prefix: &str, rest: &str) -> (r: String)
    ensures
        r@ == prefix@ + rest@,
{
    let mut s = prefix.to_owned();
    s.append(rest);
    s
}

impl CoreError {
    /// The message the error is reported with.
    pub fn message(&self) -> (r: String)
        ensures
            r@ == error_message(self@),
    {
        match self {
            CoreError::PathEscape(p) => prefixed("path escapes workspace root: ", p.as_str()),
            CoreError::Io(e) => prefixed("io error: ", e.message.as_str()),
            CoreError::ToolchainNotFound => "`compact` CLI not found on PATH".to_owned(),
            CoreError::ToolchainFailed { cmd, code, stderr } => {
                let mut s = prefixed("`", cmd.as_str());
                s.append("` failed with exit code ");
                s.append(decimal_signed(*code).as_str());
                s.append(": ");
                s.append(stderr.as_str());
                s
            },
            CoreError::InvalidArgs(m) => prefixed("invalid arguments: ", m.as_str()),
            CoreError::ArtifactMissing(p) => prefixed("artifact missing: ", p.as_str()),
            CoreError::Timeout(d) => prefixed("operation timed out after ", d.text().as_str()),
            CoreError::Cancelled => "operation cancelled".to_owned(),
            CoreError::QueueFull(n) => {
                let mut s = prefixed("build queue is full (max ", decimal(*n as u128).as_str());
                s.append(")");
                s
            },
            CoreError::TaskNotFound(id) => prefixed("task not found: ", id.as_str()),
            CoreError::TaskTerminal(id) => {
                let mut s = prefixed("task ", id.as_str());
                s.append(" is already in a terminal state");
                s
            },
            CoreError::MalformedArtifact { path, reason } => {
                let mut s = prefixed("malformed artifact ", path.as_str());
                s.append(": ");
                s.append(reason.as_str());
                s
            },
        }
    }
}

/// An error is reported with all that it holds: the path, the reason, the program's own words, and
/// with the exit code as the program gave it.
pub proof fn law_errors_tell_what_they_hold(e: CoreError)
    ensures
        e matches CoreError::PathEscape(p) ==> error_message(e@) == "path escapes workspace root: "@
            + p@,
        e matches CoreError::Io(io) ==> error_message(e@) == "io error: "@ + io.message@,
        e matches CoreError::ToolchainNotFound ==> error_message(e@)
            == "`compact` CLI not found on PATH"@,
        e matches CoreError::ToolchainFailed { cmd, code, stderr } ==> {
            let sign = if code < 0 {
                "-"@
            } else {
                Seq::<char>::empty()
            };
            let size = if code < 0 {
                (-code) as nat
            } else {
                code as nat
            };
            error_message(e@) == "`"@ + cmd@ + "` failed with exit code "@ + (sign + text::dec(size))
                + ": "@ + stderr@
        },
        e matches CoreError::InvalidArgs(m) ==> error_message(e@) == "invalid arguments: "@ + m@,
        e matches CoreError::ArtifactMissing(p) ==> error_message(e@) == "artifact missing: "@ + p@,
        e matches CoreError::Timeout(d) ==> error_message(e@) == "operation timed out after "@
            + time::duration_text(d@),
        e matches CoreError::Cancelled ==> error_message(e@) == "operation cancelled"@,
        e matches CoreError::QueueFull(n) ==> error_message(e@) == "build queue is full (max "@
            + text::dec(n as nat) + ")"@,
        e matches CoreError::TaskNotFound(id) ==> error_message(e@) == "task not found: "@ + id@,
        e matches CoreError::TaskTerminal(id) ==> error_message(e@) == "task "@ + id@
            + " is already in a terminal state"@,
        e matches CoreError::MalformedArtifact { path, reason } ==> error_message(e@)
            == "malformed artifact "@ + path@ + ": "@ + reason@,
{
    reveal_strlit("-");
    if let CoreError::ToolchainFailed { cmd, code, stderr } = e {
        let size = if code < 0 {
            (-code) as nat
        } else {
            code as nat
        };
        assert(Seq::<char>::empty() + text::dec(size) =~= text::dec(size));
        assert("-"@ =~= seq!['-']);
    }
}

/// An operation that returns nothing else is seen to fail exactly where it failed, with its error.
pub proof fn law_failures_are_seen(r: Result<(), CoreError>)
    ensures
        r is Ok <==> unit_view(r) is Ok,
        r matches Err(e) ==> unit_view(r) == Err::<(), ErrorView>(e@),
{
}

} // verus!
