//! URL parsing and resolution through the `url` crate.
//!
//! URL parsing follows the WHATWG URL standard, which takes pages to state;
//! the results are therefore named rather than described. Both names are
//! functions of their arguments alone.

use vstd::prelude::*;

verus! {

/// `url::ParseError`, the error of URL parsing.
#[verifier::external_type_specification]
#[verifier::external_body]
pub struct ExUrlParseError(url::ParseError);

/// The serialisation of `url::Url::parse(input)`, or `None` when parsing
/// fails.
pub uninterp spec fn parsed_url(input: Seq<char>) -> Option<Seq<char>>;

/// The serialisation of `url::Url::parse(base)` joined with `relative`
/// (`Url::join`), or `None` when either step fails.
pub uninterp spec fn joined_url(base: Seq<char>, relative: Seq<char>) -> Option<Seq<char>>;

/// Parse an absolute URL with `url::Url::parse` and return its
/// serialisation. The result is `parsed_url(input)`; nothing more is claimed
/// of it.
#[verifier::external_body]
pub(crate) fn parse_url(input: &str) -> (result: Result<String, url::ParseError>)
    ensures
        match result {
            Ok(s) => parsed_url(input@) == Some(s@),
            Err(_) => parsed_url(input@) is None,
        },
{
    url::Url::parse(input).map(String::from)
}

/// Parse `base` with `url::Url::parse` and resolve `relative` against it
/// with `url::Url::join`, returning the serialisation. The result is
/// `joined_url(base, relative)`; nothing more is claimed of it.
#[verifier::external_body]
pub(crate) fn join_url(base: &str, relative: &str) -> (result: Result<String, url::ParseError>)
    ensures
        match result {
            Ok(s) => joined_url(base@, relative@) == Some(s@),
            Err(_) => joined_url(base@, relative@) is None,
        },
{
    url::Url::parse(base)?.join(relative).map(String::from)
}

} // verus!
