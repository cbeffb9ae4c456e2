use shell_words::ParseError;
use vstd::prelude::*;

verus! {

/// An error of the shell: a message for the user.
#[derive(Debug)]
pub struct Error {
    pub msg: String,
}

/// `shell_words::ParseError`, the crate's error for a missing closing quote.
#[verifier::external_type_specification]
#[verifier::external_body]
pub struct ExParseError(ParseError);

/// `<shell_words::ParseError as Display>::fmt`, through `to_string`: the crate writes the
/// fixed text "missing closing quote".
#[verifier::external_body]
fn parse_error_text(e: &ParseError) -> (r: String)
    ensures
        r@ == "missing closing quote"@,
{
    e.to_string()
}

impl From<&str> for Error {
    fn from(value: &str) -> (e: Error)
        ensures
            e.msg@ == value@,
    {
        Error { msg: value.to_owned() }
    }
}

/// What `from` makes of a `&str` is stated on `from` itself, over the message's
/// characters: a specification cannot build the `String` that the message is.
impl vstd::std_specs::convert::FromSpecImpl<&str> for Error {
    open spec fn obeys_from_spec() -> bool {
        false
    }

    open spec fn from_spec(v: &str) -> Error {
        arbitrary()
    }
}

impl From<ParseError> for Error {
    fn from(value: ParseError) -> (e: Error)
        ensures
            e.msg@ == "missing closing quote"@,
    {
        Error { msg: parse_error_text(&value) }
    }
}

/// What `from` makes of a `ParseError` is stated on `from` itself, over the message's
/// characters: a specification cannot build the `String` that the message is.
impl vstd::std_specs::convert::FromSpecImpl<ParseError> for Error {
    open spec fn obeys_from_spec() -> bool {
        false
    }

    open spec fn from_spec(v: ParseError) -> Error {
        arbitrary()
    }
}

} // verus!
