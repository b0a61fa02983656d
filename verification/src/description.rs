//! Reading a description: whether it gives a result for the query, and if so,
//! which paraphrase.

use crate::error::{Error, ErrorKind};
use crate::escape::{escape_text, escaped};
use crate::paraphrase::{is_clean, paraphrase_of, Paraphrase, ParaphraseView};
use crate::search::starts_with;
use crate::text::{trim, trimmed};
use vstd::prelude::*;
use vstd::string::*;
use vstd::utf8::{decode_utf8, encode_utf8, encode_utf8_decode_utf8, valid_utf8};

verus! {

/// The words with which the description of a result begins.
pub const MARKER: &'static str = "必应词典为您提供";

/// The number of bytes that stand before the text of a result beside the
/// query itself: those of `MARKER`, and those of the words that follow the
/// query.
pub const BOILERPLATE_LEN: usize = 36;

/// The number of bytes that stand before the text of a result for `query`:
/// the boilerplate, and the query as the page carries it.
pub open spec fn prefix_len(query: Seq<char>) -> nat {
    encode_utf8(escaped(query)).len() + BOILERPLATE_LEN as nat
}

/// `description` gives a result for `query`: it begins with `MARKER` and
/// goes on beyond the prefix.
pub open spec fn is_result(query: Seq<char>, description: Seq<u8>) -> bool {
    &&& MARKER.spec_bytes().is_prefix_of(description)
    &&& description.len() > prefix_len(query)
}

/// The bytes of `description` that follow the prefix for `query`.
pub open spec fn body_of(query: Seq<char>, description: Seq<u8>) -> Seq<u8> {
    description.skip(prefix_len(query) as int)
}

/// What a lookup comes to: a paraphrase, none where the dictionary has no
/// entry, or the kind of the error.
pub type Answer = Result<Option<ParaphraseView>, ErrorKind>;

/// What the result of a lookup holds.
pub open spec fn answer(r: Result<Option<Paraphrase>, Error>) -> Answer {
    match r {
        Ok(Some(p)) => Ok(Some(p@)),
        Ok(None) => Ok(None),
        Err(e) => Err(e.kind()),
    }
}

/// What `description` says of `query`. Where it gives no result there is no
/// paraphrase; where it gives one, the bytes after the prefix are decoded,
/// trimmed and read as a paraphrase, and bytes that are not UTF-8 are an error.
pub open spec fn parsed(query: Seq<char>, description: Seq<u8>) -> Answer {
    if !is_result(query, description) {
        Ok(None)
    } else if !valid_utf8(body_of(query, description)) {
        Err(ErrorKind::Utf8)
    } else {
        Ok(Some(paraphrase_of(query, trimmed(decode_utf8(body_of(query, description))))))
    }
}

/// A description that ends with its prefix, or before, gives no result: there
/// is nothing to decode.
pub proof fn lemma_nothing_after_prefix(query: Seq<char>, description: Seq<u8>)
    requires
        description.len() <= prefix_len(query),
    ensures
        parsed(query, description) == Ok::<Option<ParaphraseView>, ErrorKind>(None),
{
}

/// Two readings of the same description for the same query agree: on whether
/// there is a paraphrase, on what it holds, and on the kind of the error.
pub proof fn lemma_parse_agrees(
    query: Seq<char>,
    description: Seq<u8>,
    first: Result<Option<Paraphrase>, Error>,
    second: Result<Option<Paraphrase>, Error>,
)
    requires
        answer(first) == parsed(query, description),
        answer(second) == parsed(query, description),
    ensures
        answer(first) == answer(second),
        first matches Ok(Some(p)) ==> second matches Ok(Some(q)) && p@ == q@,
{
}

/// Reads `description` for `query`. Returns `Ok(None)` where it gives no
/// result, the paraphrase where it gives one, and `Error::Utf8Error` where the
/// text of the result is not valid UTF-8.
pub fn parse(query: &str, description: &[u8]) -> (r: Result<Option<Paraphrase>, Error>)
    ensures
        answer(r) == parsed(query@, description@),
        r matches Ok(Some(p)) ==> is_clean(p@),
        description@.len() <= prefix_len(query@) ==> r matches Ok(None),
{
    let carried = escape_text(query);
    let query_len = carried.as_str().as_bytes().len();
    let len = description.len();
    if len < BOILERPLATE_LEN || len - BOILERPLATE_LEN <= query_len || !starts_with(
        description,
        MARKER.as_bytes(),
    ) {
        return Ok(None);
    }
    let body = &description[query_len + BOILERPLATE_LEN..len];
    assert(body@ =~= body_of(query@, description@));
    match core::str::from_utf8(body) {
        Ok(text) => {
            proof {
                encode_utf8_decode_utf8(text@);
            }
            Ok(Some(Paraphrase::parse(query, trim(text))))
        },
        Err(e) => Err(Error::Utf8Error(e)),
    }
}

} // verus!
