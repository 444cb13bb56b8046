//! Keeps the word `warn` out of, or in, the lines that a process logs, so that a reader of
//! its streams that grades a line by that word grades it as the record was meant.

pub mod logger;
pub mod marker;
pub mod policy;
pub mod rewrite;

pub use logger::{init, init_transform, Emission, Logger, Severity, Stream};
pub use marker::{contains_warn, Scanner};
pub use policy::{DefaultTransform, RewriteTransform, TagTransform, Transform};
pub use rewrite::{rewrite, rewrite_fragments, TransformBuilder, UsageError};
