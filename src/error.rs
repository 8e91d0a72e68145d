//! Errors of the content pipeline.
use vstd::prelude::*;
use syntect::Error as HighlightFailure;
use toml::de::Error as TomlFailure;

verus! {

#[verifier::external_type_specification]
#[verifier::external_body]
pub struct ExHighlightFailure(HighlightFailure);

/// Why a post could not be read or a document could not be rendered.
/// Each error about a post file carries that file's path.
#[derive(Debug)]
pub enum Error {
    /// The post file has no closing `---` after its opening one.
    MissingDelimiter(String),
    /// The header of the post file is not valid TOML.
    ReadPostHeader(String, TomlFailure),
    /// The header lacks the named key, or holds a value of the wrong type.
    HeaderField(String, String),
    /// The header's `date` has no calendar part or names no existing day.
    BadDate(String),
    /// The highlighting engine failed on a code block.
    Syntect(HighlightFailure),
    /// The system clock reads before 1970 or past what a date can hold.
    NoClock,
    /// The date's year lies outside 0..=9999, which a post header cannot
    /// hold.
    DateOutOfRange,
    /// The repository holds as many posts as a name can count.
    TooManyPosts,
    /// The syntax set holds no plain-text syntax to fall back on.
    NoPlainText,
}

} // verus!
