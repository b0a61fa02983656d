//! From a result page to the paraphrase of the word that was looked up.

use crate::description::{answer, parse, parsed, Answer};
use crate::error::{Error, ErrorKind};
use crate::page::{description_of, extract_description, OPEN_TAG};
use crate::paraphrase::{is_clean, Paraphrase, ParaphraseView};
use crate::search::contains;
use vstd::prelude::*;
use vstd::string::*;

verus! {

/// What `page` says of `input`: what its description says, and an error where
/// it has none.
pub open spec fn translated(input: Seq<char>, page: Seq<u8>) -> Answer {
    match description_of(page) {
        Some(description) => parsed(input, description),
        None => Err(ErrorKind::Page),
    }
}

/// A page in which the opening of the description stands nowhere has no
/// description, whatever was looked up.
pub proof fn lemma_page_without_description(input: Seq<char>, page: Seq<u8>)
    requires
        !contains(page, OPEN_TAG.spec_bytes()),
    ensures
        description_of(page) is None,
        translated(input, page) == Err::<Option<ParaphraseView>, ErrorKind>(ErrorKind::Page),
{
}

/// The paraphrase of `input` that the result page `page` gives. Returns
/// `Ok(None)` where the dictionary has no entry, `Error::PageError` where the
/// page has no description, and `Error::Utf8Error` where the text of the
/// result is not valid UTF-8.
pub fn translate(input: &str, page: &[u8]) -> (r: Result<Option<Paraphrase>, Error>)
    ensures
        answer(r) == translated(input@, page@),
        r matches Ok(Some(p)) ==> is_clean(p@),
        !contains(page@, OPEN_TAG.spec_bytes()) ==> r matches Err(Error::PageError),
{
    match extract_description(page) {
        Ok(description) => parse(input, description),
        Err(e) => Err(e),
    }
}

} // verus!
