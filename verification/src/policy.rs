use crate::marker::{contains_warn, has_marker};
use crate::rewrite::{rewrite, rewritten};
use vstd::prelude::*;
use vstd::string::StringExecFns;
use vstd::string::StringSliceAdditionalSpecFns;

verus! {

/// A policy with two operations: what to make of an error message that holds the marker,
/// and what to make of a warning message that does not.
pub trait Transform {
    /// The text that `transform_error` makes of `msg`.
    spec fn error_text(&self, msg: Seq<char>) -> Seq<char>;

    /// The text that `transform_warning` makes of `msg`.
    spec fn warning_text(&self, msg: Seq<char>) -> Seq<char>;

    /// Transforms an error message that contains the marker.
    fn transform_error(&self, msg: String) -> (out: String)
        ensures
            out@ == self.error_text(msg@),
    ;

    /// Transforms a warning message that does not contain the marker.
    fn transform_warning(&self, msg: String) -> (out: String)
        ensures
            out@ == self.warning_text(msg@),
    ;
}

/// The standard base64 encoding, with padding, of the UTF-8 bytes of `s`, as
/// `base64::encode` computes it.
pub uninterp spec fn base64_text(s: Seq<char>) -> Seq<char>;

/// The encoding of `s`, four characters for every three bytes or part of them, is no
/// longer than a string can be: half of `usize::MAX`.
pub open spec fn encodable(s: Seq<char>) -> bool {
    vstd::utf8::encode_utf8(s).len() / 3 <= (usize::MAX / 2 - 4) / 4
}

/// Calls `base64::encode` on the bytes of `s`. The result is named, not stated: it is the
/// encoding of `s` in the standard alphabet with padding. The outside function panics
/// where the encoded length overflows or cannot be allocated, which `requires` leaves out.
#[verifier::external_body]
fn encode_base64(s: &str) -> (out: String)
    requires
        encodable(s@),
    ensures
        out@ == base64_text(s@),
{
    base64::encode(s)
}

/// The encoding of `s`, where it has one.
pub open spec fn encoded(s: Seq<char>) -> Option<Seq<char>> {
    if encodable(s) {
        Some(base64_text(s))
    } else {
        None
    }
}

/// The text that an optional string holds.
pub open spec fn text_of(s: Option<String>) -> Option<Seq<char>> {
    match s {
        Some(s) => Some(s@),
        None => None,
    }
}

/// The base64 encoding of `s`, or `None` where `s` is too long to have one.
pub fn try_encode(s: &str) -> (r: Option<String>)
    ensures
        text_of(r) == encoded(s@),
{
    let n = s.as_bytes().len();
    if n / 3 <= (usize::MAX / 2 - 4) / 4 {
        Some(encode_base64(s))
    } else {
        None
    }
}

/// What the escalating policy gives out for an error message `msg`, given its encoding
/// `once` and the encoding `twice` of that: the first of the two that is there and free of
/// the marker, under a label that says how often it was encoded; failing both, the
/// message itself under a line that says that it has to be read as a warning.
pub open spec fn escalated(msg: Seq<char>, once: Option<Seq<char>>, twice: Option<Seq<char>>) -> Seq<
    char,
> {
    if once is Some && !has_marker(once->0) {
        "base64-encoded log: "@ + once->0
    } else if twice is Some && !has_marker(twice->0) {
        "base64-encoded-twice log: "@ + twice->0
    } else {
        "The following error log has to be logged as Warning: \n"@ + msg
    }
}

/// Picks the text to give out for the error message `msg` from its two encodings.
pub fn escalate(msg: &str, once: Option<String>, twice: Option<String>) -> (out: String)
    ensures
        out@ == escalated(msg@, text_of(once), text_of(twice)),
{
    if let Some(first) = once {
        if !contains_warn(first.as_str()) {
            return String::from_str("base64-encoded log: ").concat(first.as_str());
        }
    }
    if let Some(second) = twice {
        if !contains_warn(second.as_str()) {
            return String::from_str("base64-encoded-twice log: ").concat(second.as_str());
        }
    }
    String::from_str("The following error log has to be logged as Warning: \n").concat(msg)
}

/// The message under the tag that marks it as a warning.
pub open spec fn tagged(msg: Seq<char>) -> Seq<char> {
    "warning: "@ + msg
}

/// Puts the warning tag before `msg`.
pub fn tag_warning(msg: &str) -> (out: String)
    ensures
        out@ == tagged(msg@),
{
    String::from_str("warning: ").concat(msg)
}

/// The policy that hides the marker in an error message by encoding it, up to twice, and
/// tags a warning message.
pub struct DefaultTransform;

impl Transform for DefaultTransform {
    open spec fn error_text(&self, msg: Seq<char>) -> Seq<char> {
        let once = encoded(msg);
        let twice = if once is Some && has_marker(once->0) {
            encoded(once->0)
        } else {
            None
        };
        escalated(msg, once, twice)
    }

    open spec fn warning_text(&self, msg: Seq<char>) -> Seq<char> {
        tagged(msg)
    }

    fn transform_error(&self, msg: String) -> (out: String) {
        let once = try_encode(msg.as_str());
        let twice = match &once {
            Some(first) => {
                if contains_warn(first.as_str()) {
                    try_encode(first.as_str())
                } else {
                    None
                }
            },
            None => None,
        };
        escalate(msg.as_str(), once, twice)
    }

    fn transform_warning(&self, msg: String) -> (out: String) {
        tag_warning(msg.as_str())
    }
}

/// The policy that leaves an error message as it is and tags a warning message.
pub struct TagTransform;

impl Transform for TagTransform {
    open spec fn error_text(&self, msg: Seq<char>) -> Seq<char> {
        msg
    }

    open spec fn warning_text(&self, msg: Seq<char>) -> Seq<char> {
        tagged(msg)
    }

    fn transform_error(&self, msg: String) -> (out: String) {
        msg
    }

    fn transform_warning(&self, msg: String) -> (out: String) {
        tag_warning(msg.as_str())
    }
}

/// The policy that rewrites every occurrence of the marker in an error message in place,
/// and tags a warning message.
pub struct RewriteTransform;

impl Transform for RewriteTransform {
    open spec fn error_text(&self, msg: Seq<char>) -> Seq<char> {
        rewritten(msg)
    }

    open spec fn warning_text(&self, msg: Seq<char>) -> Seq<char> {
        tagged(msg)
    }

    fn transform_error(&self, msg: String) -> (out: String) {
        rewrite(msg.as_str())
    }

    fn transform_warning(&self, msg: String) -> (out: String) {
        tag_warning(msg.as_str())
    }
}

} // verus!
