use crate::marker::{contains_warn, has_marker};
use crate::policy::{DefaultTransform, Transform};
use vstd::prelude::*;

verus! {

/// How grave a record is, from the gravest down.
#[derive(Debug, Clone, Copy, PartialEq, Eq)]
pub enum Severity {
    Error,
    Warn,
    Info,
    Debug,
    Trace,
}

/// The stream that a line is written to.
#[derive(Debug, Clone, Copy, PartialEq, Eq)]
pub enum Stream {
    Stdout,
    Stderr,
}

/// A line to write, and where.
pub struct Emission {
    pub stream: Stream,
    pub text: String,
}

impl Severity {
    /// Records of this severity are written: those down to `Info`.
    pub open spec fn is_enabled(self) -> bool {
        self is Error || self is Warn || self is Info
    }
}

/// The line that a record of severity `level` with the message `msg` gives under the policy
/// `transform`. An error goes to the error stream, through the policy where it holds the
/// marker; a warning goes there too, through the policy where it does not; an `Info`
/// record goes to the standard stream as it is; anything lower gives no line.
pub open spec fn routed<T: Transform>(transform: &T, level: Severity, msg: Seq<char>) -> Option<
    (Stream, Seq<char>),
> {
    match level {
        Severity::Error => Some(
            (
                Stream::Stderr,
                if has_marker(msg) {
                    transform.error_text(msg)
                } else {
                    msg
                },
            ),
        ),
        Severity::Warn => Some(
            (
                Stream::Stderr,
                if has_marker(msg) {
                    msg
                } else {
                    transform.warning_text(msg)
                },
            ),
        ),
        Severity::Info => Some((Stream::Stdout, msg)),
        _ => None,
    }
}

/// What an optional line holds.
pub open spec fn line_of(e: Option<Emission>) -> Option<(Stream, Seq<char>)> {
    match e {
        Some(e) => Some((e.stream, e.text@)),
        None => None,
    }
}

/// Decides, under a policy, what is written for each record.
pub struct Logger<T> {
    pub transform: T,
}

impl<T: Transform> Logger<T> {
    /// Whether records of severity `level` are written.
    pub fn enabled(&self, level: Severity) -> (r: bool)
        ensures
            r == level.is_enabled(),
    {
        match level {
            Severity::Error | Severity::Warn | Severity::Info => true,
            _ => false,
        }
    }

    /// The severity down to which records are written.
    pub fn max_level(&self) -> (level: Severity)
        ensures
            level == Severity::Info,
    {
        Severity::Info
    }

    /// The line to write for a record of severity `level` with the message `msg`, if any.
    pub fn log(&self, level: Severity, msg: String) -> (r: Option<Emission>)
        ensures
            line_of(r) == routed(&self.transform, level, msg@),
    {
        match level {
            Severity::Error => {
                let text = if contains_warn(msg.as_str()) {
                    self.transform.transform_error(msg)
                } else {
                    msg
                };
                Some(Emission { stream: Stream::Stderr, text })
            },
            Severity::Warn => {
                let text = if !contains_warn(msg.as_str()) {
                    self.transform.transform_warning(msg)
                } else {
                    msg
                };
                Some(Emission { stream: Stream::Stderr, text })
            },
            Severity::Info => Some(Emission { stream: Stream::Stdout, text: msg }),
            _ => None,
        }
    }
}

/// A logger under the default policy.
pub fn init() -> (logger: Logger<DefaultTransform>)
    ensures
        logger.transform == DefaultTransform,
{
    init_transform(DefaultTransform)
}

/// A logger under the policy `transform`.
pub fn init_transform<T: Transform>(transform: T) -> (logger: Logger<T>)
    ensures
        logger.transform == transform,
{
    Logger { transform }
}

} // verus!
