//! Text as a sequence of characters: trimming, splitting and joining, each
//! held to a definition over `Seq<char>`.

use crate::search::{
    contains, first_at, first_occurrence, lemma_first_at_unique, lemma_first_occurrence,
    lemma_occurs_at_skip, occurs_at,
};
use vstd::prelude::*;
use vstd::string::*;

verus! {

/// The characters that carry Unicode's `White_Space` property.
pub open spec fn whitespace(c: char) -> bool {
    ||| ('\u{9}' <= c && c <= '\u{d}')
    ||| c == ' '
    ||| c == '\u{85}'
    ||| c == '\u{a0}'
    ||| c == '\u{1680}'
    ||| ('\u{2000}' <= c && c <= '\u{200a}')
    ||| c == '\u{2028}'
    ||| c == '\u{2029}'
    ||| c == '\u{202f}'
    ||| c == '\u{205f}'
    ||| c == '\u{3000}'
}

/// `s` without its leading whitespace.
pub open spec fn trimmed_start(s: Seq<char>) -> Seq<char>
    decreases s.len(),
{
    if s.len() > 0 && whitespace(s[0]) {
        trimmed_start(s.drop_first())
    } else {
        s
    }
}

/// `s` without its trailing whitespace.
pub open spec fn trimmed_end(s: Seq<char>) -> Seq<char>
    decreases s.len(),
{
    if s.len() > 0 && whitespace(s.last()) {
        trimmed_end(s.drop_last())
    } else {
        s
    }
}

/// `s` without its leading and trailing whitespace.
pub open spec fn trimmed(s: Seq<char>) -> Seq<char> {
    trimmed_end(trimmed_start(s))
}

/// `s` without the run of `c` at its end.
pub open spec fn stripped_end(s: Seq<char>, c: char) -> Seq<char>
    decreases s.len(),
{
    if s.len() > 0 && s.last() == c {
        stripped_end(s.drop_last(), c)
    } else {
        s
    }
}

/// The pieces into which the occurrences of `sep` cut `s`, found from the left
/// and not overlapping. There is always at least one piece, and a piece may be
/// empty. An empty `sep` cuts nowhere.
pub open spec fn pieces(s: Seq<char>, sep: Seq<char>) -> Seq<Seq<char>>
    decreases s.len(),
    via pieces_decreases
{
    if sep.len() > 0 && contains(s, sep) {
        let i = first_occurrence(s, sep);
        seq![s.take(i)] + pieces(s.skip(i + sep.len()), sep)
    } else {
        seq![s]
    }
}

#[via_fn]
proof fn pieces_decreases(s: Seq<char>, sep: Seq<char>) {
    if sep.len() > 0 && contains(s, sep) {
        lemma_first_occurrence(s, sep);
    }
}

/// The items of `parts` in order, with `sep` between each two neighbours.
pub open spec fn joined(parts: Seq<Seq<char>>, sep: Seq<char>) -> Seq<char>
    decreases parts.len(),
{
    if parts.len() == 0 {
        Seq::empty()
    } else if parts.len() == 1 {
        parts[0]
    } else {
        joined(parts.drop_last(), sep) + sep + parts.last()
    }
}

/// What a list of strings holds, as sequences of characters.
pub open spec fn texts(v: Seq<String>) -> Seq<Seq<char>> {
    v.map_values(|s: String| s@)
}

/// Trimming at the start removes exactly the leading run of whitespace.
pub proof fn lemma_trimmed_start(s: Seq<char>, a: int)
    requires
        0 <= a <= s.len(),
        forall|j: int| 0 <= j < a ==> whitespace(s[j]),
        a == s.len() || !whitespace(s[a]),
    ensures
        trimmed_start(s) == s.skip(a),
    decreases a,
{
    if a == 0 {
        assert(s.skip(0) =~= s);
    } else {
        let rest = s.drop_first();
        assert forall|j: int| 0 <= j < a - 1 implies whitespace(rest[j]) by {
            assert(rest[j] == s[j + 1]);
        }
        lemma_trimmed_start(rest, a - 1);
        assert(rest.skip(a - 1) =~= s.skip(a));
    }
}

/// Trimming at the end removes exactly the trailing run of whitespace.
pub proof fn lemma_trimmed_end(s: Seq<char>, b: int)
    requires
        0 <= b <= s.len(),
        forall|j: int| b <= j < s.len() ==> whitespace(s[j]),
        b == 0 || !whitespace(s[b - 1]),
    ensures
        trimmed_end(s) == s.take(b),
    decreases s.len() - b,
{
    if b == s.len() {
        assert(s.take(b) =~= s);
    } else {
        let init = s.drop_last();
        lemma_trimmed_end(init, b);
        assert(init.take(b) =~= s.take(b));
    }
}

/// Stripping `c` from the end removes exactly the trailing run of `c`.
pub proof fn lemma_stripped_end(s: Seq<char>, c: char, b: int)
    requires
        0 <= b <= s.len(),
        forall|j: int| b <= j < s.len() ==> s[j] == c,
        b == 0 || s[b - 1] != c,
    ensures
        stripped_end(s, c) == s.take(b),
    decreases s.len() - b,
{
    if b == s.len() {
        assert(s.take(b) =~= s);
    } else {
        let init = s.drop_last();
        lemma_stripped_end(init, c, b);
        assert(init.take(b) =~= s.take(b));
    }
}

/// What is left after stripping `c` from the end does not end in `c`.
pub proof fn lemma_stripped_end_last(s: Seq<char>, c: char)
    ensures
        stripped_end(s, c).len() == 0 || stripped_end(s, c).last() != c,
    decreases s.len(),
{
    if s.len() > 0 && s.last() == c {
        lemma_stripped_end_last(s.drop_last(), c);
    }
}

/// The characters of `s`, in order.
pub fn chars_of(s: &str) -> (r: Vec<char>)
    ensures
        r@ == s@,
{
    let mut out: Vec<char> = Vec::new();
    for c in it: s.chars()
        invariant
            it.seq() == s@,
            out@ == it.seq().take(it.index()),
    {
        out.push(c);
    }
    out
}

/// Whether `c` is whitespace.
pub fn is_whitespace(c: char) -> (r: bool)
    ensures
        r == whitespace(c),
{
    ('\u{9}' <= c && c <= '\u{d}') || c == ' ' || c == '\u{85}' || c == '\u{a0}' || c
        == '\u{1680}' || ('\u{2000}' <= c && c <= '\u{200a}') || c == '\u{2028}' || c
        == '\u{2029}' || c == '\u{202f}' || c == '\u{205f}' || c == '\u{3000}'
}

/// `text` without its leading and trailing whitespace.
pub fn trim(text: &str) -> (r: &str)
    ensures
        r@ == trimmed(text@),
{
    let chars = chars_of(text);
    let n = chars.len();
    let mut a: usize = 0;
    while a < n && is_whitespace(chars[a])
        invariant
            a <= n,
            n == chars@.len(),
            forall|j: int| 0 <= j < a ==> whitespace(chars@[j]),
        decreases n - a,
    {
        a += 1;
    }
    let mut b: usize = n;
    while b > a && is_whitespace(chars[b - 1])
        invariant
            a <= b <= n,
            n == chars@.len(),
            forall|j: int| b <= j < n ==> whitespace(chars@[j]),
        decreases b,
    {
        b -= 1;
    }
    proof {
        let rest = text@.skip(a as int);
        lemma_trimmed_start(text@, a as int);
        lemma_trimmed_end(rest, b - a);
        assert(rest.take(b - a) =~= text@.subrange(a as int, b as int));
    }
    text.substring_char(a, b)
}

/// `text` without the run of `c` at its end.
pub fn trim_end_matches(text: &str, c: char) -> (r: &str)
    ensures
        r@ == stripped_end(text@, c),
{
    let chars = chars_of(text);
    let mut b: usize = chars.len();
    while b > 0 && chars[b - 1] == c
        invariant
            b <= chars@.len(),
            forall|j: int| b <= j < chars@.len() ==> chars@[j] == c,
        decreases b,
    {
        b -= 1;
    }
    proof {
        lemma_stripped_end(text@, c, b as int);
    }
    text.substring_char(0, b)
}

/// Whether `needle` stands in `hay` at index `i`.
fn matches_at(hay: &Vec<char>, needle: &Vec<char>, i: usize) -> (r: bool)
    requires
        i + needle@.len() <= hay@.len(),
    ensures
        r == occurs_at(hay@, needle@, i as int),
{
    let n = hay.len();
    let mut k: usize = 0;
    while k < needle.len()
        invariant
            k <= needle@.len(),
            i + needle@.len() <= hay@.len(),
            hay@.len() == n,
            forall|j: int| 0 <= j < k ==> hay@[i + j] == needle@[j],
        decreases needle.len() - k,
    {
        if hay[i + k] != needle[k] {
            assert(hay@.subrange(i as int, i + needle@.len())[k as int] != needle@[k as int]);
            return false;
        }
        k += 1;
    }
    assert(hay@.subrange(i as int, i + needle@.len()) =~= needle@);
    true
}

/// Whether `text` begins with `prefix`.
pub fn starts_with(text: &str, prefix: &str) -> (r: bool)
    ensures
        r == prefix@.is_prefix_of(text@),
{
    let hay = chars_of(text);
    let needle = chars_of(prefix);
    if needle.len() > hay.len() {
        return false;
    }
    matches_at(&hay, &needle, 0)
}

/// The pieces into which the occurrences of `sep` cut `text`. An empty `sep`
/// cuts nowhere: the text is then the one piece.
pub fn split(text: &str, sep: &str) -> (r: Vec<String>)
    ensures
        texts(r@) == pieces(text@, sep@),
{
    let chars = chars_of(text);
    let pat = chars_of(sep);
    let n = chars.len();
    let m = pat.len();
    let mut parts: Vec<String> = Vec::new();
    let mut start: usize = 0;
    let mut i: usize = 0;
    assert(text@.skip(0) =~= text@);
    assert(texts(parts@) + pieces(text@, sep@) =~= pieces(text@, sep@));
    while m > 0 && m <= n - i
        invariant
            start <= i <= n,
            n == text@.len(),
            m == sep@.len(),
            chars@ == text@,
            pat@ == sep@,
            pieces(text@, sep@) == texts(parts@) + pieces(text@.skip(start as int), sep@),
            forall|j: int| start <= j < i ==> !occurs_at(text@, sep@, j),
        decreases n - i,
    {
        if matches_at(&chars, &pat, i) {
            let piece = text.substring_char(start, i).to_owned();
            proof {
                let rest = text@.skip(start as int);
                assert forall|j: int| 0 <= j < i - start implies !occurs_at(rest, sep@, j) by {
                    lemma_occurs_at_skip(text@, sep@, start as int, j);
                }
                lemma_occurs_at_skip(text@, sep@, start as int, i - start);
                assert(first_at(rest, sep@, i - start));
                lemma_first_at_unique(rest, sep@, i - start);
                assert(rest.take(i - start) =~= piece@);
                assert(rest.skip(i - start + m) =~= text@.skip(i + m));
                assert(texts(parts@.push(piece)) =~= texts(parts@).push(piece@));
                assert(texts(parts@).push(piece@) + pieces(text@.skip(i + m), sep@) =~= texts(
                    parts@,
                ) + pieces(rest, sep@));
            }
            parts.push(piece);
            i = i + m;
            start = i;
        } else {
            i += 1;
        }
    }
    let piece = text.substring_char(start, n).to_owned();
    proof {
        let rest = text@.skip(start as int);
        if m > 0 {
            assert forall|j: int| !occurs_at(rest, sep@, j) by {
                if 0 <= j {
                    lemma_occurs_at_skip(text@, sep@, start as int, j);
                }
            }
        }
        assert(piece@ =~= rest);
        assert(texts(parts@.push(piece)) =~= texts(parts@).push(piece@));
        assert(texts(parts@).push(piece@) =~= texts(parts@) + pieces(rest, sep@));
    }
    parts.push(piece);
    parts
}

/// The strings of `parts` in order, with `sep` between each two neighbours.
pub fn join(parts: &Vec<String>, sep: &str) -> (r: String)
    ensures
        r@ == joined(texts(parts@), sep@),
{
    let mut out = String::new();
    let mut i: usize = 0;
    while i < parts.len()
        invariant
            i <= parts@.len(),
            out@ == joined(texts(parts@).take(i as int), sep@),
        decreases parts.len() - i,
    {
        proof {
            let upto = texts(parts@).take(i + 1);
            assert(upto.drop_last() =~= texts(parts@).take(i as int));
            assert(upto.last() == parts@[i as int]@);
            if i == 0 {
                assert(out@ + parts@[i as int]@ =~= parts@[i as int]@);
            }
        }
        if i > 0 {
            out.append(sep);
        }
        out.append(parts[i].as_str());
        i += 1;
    }
    assert(texts(parts@).take(parts@.len() as int) =~= texts(parts@));
    out
}

} // verus!
