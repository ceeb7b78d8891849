pub mod article;
pub mod collection;
pub mod date;
pub mod fragment;
pub mod html;
pub mod meta;
pub mod path;
pub mod render;
pub mod text;

use vstd::prelude::*;

verus! {

/// The error kinds that can abort processing of a document or a run.
#[derive(Clone, Copy, Debug, PartialEq, Eq, Structural)]
pub enum SiteError {
    /// No blank-line boundary between the metadata block and the body.
    MalformedDocument,
    /// The metadata block could not be decoded into (title, date, tags, language).
    InvalidMetadata,
    /// The date string is not a well-formed `YYYY-MM-DD` calendar date.
    InvalidDate,
    /// The language tag could not be resolved to a locale.
    InvalidLocale,
    /// The source path is not under the input root.
    PathResolutionError,
}

} // verus!
