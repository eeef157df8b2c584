//! How a filter that cannot be read is reported.

use vstd::prelude::*;
use winnow::combinator::fail;
use winnow::error::ContextError;
use winnow::token::take;
use winnow::Parser;

use crate::text;

verus! {

/// What `winnow` says of a text that does not parse from its `at`-th character
/// on.
pub uninterp spec fn parse_failure(text: Seq<char>, at: nat) -> Seq<char>;

/// The text with a caret under one of its places, each on a line of its own.
/// The caret is as far in as there are bytes before the place.
pub open spec fn pointed_at(text: Seq<char>, at: nat) -> Seq<char> {
    text + "\n"@ + Seq::new(text::byte_len(text.take(at as int)), |i: int| ' ') + "^\n"@
}

/// `Parser::parse` of a parser that takes `at` characters and then fails, and
/// the message that `ParseError` then displays. Of a text of one line the
/// message is the text with a caret at the place. How it shows a text of many
/// lines is left to its name.
#[verifier::external_body]
pub(crate) fn failure_text(text: &str, at: usize) -> (r: String)
    requires
        at <= text@.len(),
    ensures
        r@ == parse_failure(text@, at as nat),
        !text@.contains('\n') ==> r@ == pointed_at(text@, at as nat),
{
    match (take(at), fail::<&str, (), ContextError>).parse(text) {
        Ok(_) => String::new(),
        Err(e) => e.to_string(),
    }
}

} // verus!
