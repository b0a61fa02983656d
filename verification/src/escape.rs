//! The form in which a page carries a query inside its markup.

use vstd::prelude::*;

verus! {

/// What stands for `c` in HTML text: an entity for `&`, `<` and `>`, and the
/// character itself for every other.
pub open spec fn escaped_char(c: char) -> Seq<char> {
    if c == '&' {
        seq!['&', 'a', 'm', 'p', ';']
    } else if c == '<' {
        seq!['&', 'l', 't', ';']
    } else if c == '>' {
        seq!['&', 'g', 't', ';']
    } else {
        seq![c]
    }
}

/// `s` as HTML text: each character replaced by what stands for it.
pub open spec fn escaped(s: Seq<char>) -> Seq<char> {
    s.map_values(|c: char| escaped_char(c)).flatten()
}

/// `text` as HTML text. This is `html_escape::encode_text`, which replaces
/// `&` by `&amp;`, `<` by `&lt;` and `>` by `&gt;` and keeps everything else.
/// The contract is taken on trust.
#[verifier::external_body]
pub(crate) fn escape_text(text: &str) -> (r: String)
    ensures
        r@ == escaped(text@),
{
    html_escape::encode_text(text).into_owned()
}

} // verus!
