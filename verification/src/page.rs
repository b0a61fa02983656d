//! The description that a result page carries in its markup.

use crate::error::Error;
use crate::search::{contains, find, first_occurrence, lemma_first_at_unique};
use vstd::prelude::*;
use vstd::string::*;

verus! {

/// What stands before the description in a page.
pub const OPEN_TAG: &'static str = "<meta name=\"description\" content=\"";

/// What stands after the description in a page.
pub const CLOSE_TAG: &'static str = "\" />";

/// The description in `page`: what stands between the first `OPEN_TAG` and
/// the first `CLOSE_TAG` after it. There is none where either is missing.
pub open spec fn description_of(page: Seq<u8>) -> Option<Seq<u8>> {
    let open = OPEN_TAG.spec_bytes();
    let close = CLOSE_TAG.spec_bytes();
    if contains(page, open) {
        let rest = page.skip(first_occurrence(page, open) + open.len());
        if contains(rest, close) {
            Some(rest.take(first_occurrence(rest, close)))
        } else {
            None
        }
    } else {
        None
    }
}

/// The description in `page`, as the bytes that stand there: nothing is
/// decoded. Fails with `Error::PageError` where the page has none.
pub fn extract_description(page: &[u8]) -> (r: Result<&[u8], Error>)
    ensures
        match r {
            Ok(d) => description_of(page@) == Some(d@),
            Err(e) => description_of(page@) is None && e is PageError,
        },
        !contains(page@, OPEN_TAG.spec_bytes()) ==> r is Err,
{
    let open = OPEN_TAG.as_bytes();
    let close = CLOSE_TAG.as_bytes();
    match find(page, open) {
        None => Err(Error::PageError),
        Some(start) => {
            proof {
                lemma_first_at_unique(page@, open@, start as int);
            }
            let end = page.len();
            assert(start + open@.len() <= end);
            let rest = &page[start + open.len()..end];
            assert(rest@ =~= page@.skip(start + open@.len()));
            match find(rest, close) {
                None => Err(Error::PageError),
                Some(len) => {
                    proof {
                        lemma_first_at_unique(rest@, close@, len as int);
                    }
                    let description = &rest[0..len];
                    assert(description@ =~= rest@.take(len as int));
                    Ok(description)
                },
            }
        },
    }
}

} // verus!
