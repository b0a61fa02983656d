//! The paraphrase of a word or phrase, and the rules by which the text of a
//! description is read into one.

use crate::text::{
    join, joined, lemma_stripped_end_last, pieces, split, starts_with, stripped_end, texts,
    trim_end_matches,
};
use vstd::prelude::*;
use vstd::string::*;

verus! {

/// What separates the parts of a description.
pub const COMMA: &'static str = "，";

/// What separates the senses inside one part.
pub const SENSE_BREAK: &'static str = "； ";

/// What may be left at the end of a sense, and is taken off.
pub const SEMICOLON: char = '；';

/// The mark of a British pronunciation.
pub const BRITISH: &'static str = "英";

/// The mark of an American pronunciation.
pub const AMERICAN: &'static str = "美";

/// The mark of a pronunciation in pinyin.
pub const PINYIN: &'static str = "拼音";

/// What ends a line of the rendered paraphrase.
pub const NEWLINE: &'static str = "\n";

/// The paraphrase of a word or phrase.
#[derive(Debug, Clone)]
pub struct Paraphrase {
    /// The word or phrase that was looked up.
    pub input: String,
    /// The parts that give a pronunciation, in the order in which they came.
    pub pronunciations: Vec<String>,
    /// The senses, each with its part of speech, in the order in which they came.
    pub genders: Vec<String>,
}

/// What a [`Paraphrase`] holds, as sequences of characters.
pub struct ParaphraseView {
    pub input: Seq<char>,
    pub pronunciations: Seq<Seq<char>>,
    pub genders: Seq<Seq<char>>,
}

impl View for Paraphrase {
    type V = ParaphraseView;

    open spec fn view(&self) -> ParaphraseView {
        ParaphraseView {
            input: self.input@,
            pronunciations: texts(self.pronunciations@),
            genders: texts(self.genders@),
        }
    }
}

/// A part gives a pronunciation where it begins with one of the three marks.
pub open spec fn is_pronunciation(part: Seq<char>) -> bool {
    ||| BRITISH@.is_prefix_of(part)
    ||| AMERICAN@.is_prefix_of(part)
    ||| PINYIN@.is_prefix_of(part)
}

/// The senses that a part holds: its pieces between sense breaks, each
/// without the semicolons at its end.
pub open spec fn senses(part: Seq<char>) -> Seq<Seq<char>> {
    pieces(part, SENSE_BREAK@).map_values(|sense: Seq<char>| stripped_end(sense, SEMICOLON))
}

/// The test by which a part counts as a pronunciation.
pub open spec fn pronounces() -> spec_fn(Seq<char>) -> bool {
    |part: Seq<char>| is_pronunciation(part)
}

/// The test by which a part counts as a list of senses.
pub open spec fn describes() -> spec_fn(Seq<char>) -> bool {
    |part: Seq<char>| !is_pronunciation(part)
}

/// The pronunciations among `parts`, in order.
pub open spec fn pronunciations_of(parts: Seq<Seq<char>>) -> Seq<Seq<char>> {
    parts.filter(pronounces())
}

/// The senses of all `parts` that give no pronunciation, in order.
pub open spec fn genders_of(parts: Seq<Seq<char>>) -> Seq<Seq<char>> {
    parts.filter(describes()).map_values(|part: Seq<char>| senses(part)).flatten()
}

/// The paraphrase of `input` that the text `body` gives: `body` is cut at each
/// comma, and each part goes to the pronunciations as it is, or to the genders
/// as its senses.
pub open spec fn paraphrase_of(input: Seq<char>, body: Seq<char>) -> ParaphraseView {
    let parts = pieces(body, COMMA@);
    ParaphraseView {
        input,
        pronunciations: pronunciations_of(parts),
        genders: genders_of(parts),
    }
}

/// The text of a paraphrase: the input on a line of its own; the
/// pronunciations, where there are any, on one line with commas between them;
/// then the genders, one to a line.
pub open spec fn rendered(p: ParaphraseView) -> Seq<char> {
    let head = p.input + NEWLINE@;
    let tail = joined(p.genders, NEWLINE@);
    if p.pronunciations.len() > 0 {
        head + joined(p.pronunciations, COMMA@) + NEWLINE@ + tail
    } else {
        head + tail
    }
}

/// One more part adds itself to the pronunciations if it is one, and nothing
/// otherwise.
pub proof fn lemma_pronunciations_push(parts: Seq<Seq<char>>, part: Seq<char>)
    ensures
        pronunciations_of(parts.push(part)) == if is_pronunciation(part) {
            pronunciations_of(parts).push(part)
        } else {
            pronunciations_of(parts)
        },
{
    parts.lemma_filter_push(part, pronounces());
}

/// One more part adds its senses to the genders unless it is a pronunciation.
pub proof fn lemma_genders_push(parts: Seq<Seq<char>>, part: Seq<char>)
    ensures
        genders_of(parts.push(part)) == if is_pronunciation(part) {
            genders_of(parts)
        } else {
            genders_of(parts) + senses(part)
        },
{
    parts.lemma_filter_push(part, describes());
    if !is_pronunciation(part) {
        let kept = parts.filter(describes());
        let f = |part: Seq<char>| senses(part);
        assert(kept.push(part).map_values(f) =~= kept.map_values(f).push(senses(part)));
        kept.map_values(f).lemma_flatten_push(senses(part));
    }
}

/// Every pronunciation begins with one of the three marks, and no gender ends
/// in a semicolon.
pub open spec fn is_clean(p: ParaphraseView) -> bool {
    &&& forall|k: int|
        0 <= k < p.pronunciations.len() ==> is_pronunciation(#[trigger] p.pronunciations[k])
    &&& forall|k: int|
        0 <= k < p.genders.len() ==> {
            let g = #[trigger] p.genders[k];
            g.len() == 0 || g.last() != SEMICOLON
        }
}

/// Whatever the parts, the pronunciations among them begin with a mark, and
/// the senses of the others do not end in a semicolon.
proof fn lemma_entries(parts: Seq<Seq<char>>)
    ensures
        forall|k: int|
            0 <= k < pronunciations_of(parts).len() ==> is_pronunciation(
                #[trigger] pronunciations_of(parts)[k],
            ),
        forall|k: int|
            0 <= k < genders_of(parts).len() ==> {
                let g = #[trigger] genders_of(parts)[k];
                g.len() == 0 || g.last() != SEMICOLON
            },
    decreases parts.len(),
{
    if parts.len() > 0 {
        let init = parts.drop_last();
        let part = parts.last();
        assert(init.push(part) =~= parts);
        lemma_entries(init);
        lemma_pronunciations_push(init, part);
        lemma_genders_push(init, part);
        if !is_pronunciation(part) {
            assert forall|j: int| 0 <= j < senses(part).len() implies {
                let g = #[trigger] senses(part)[j];
                g.len() == 0 || g.last() != SEMICOLON
            } by {
                lemma_stripped_end_last(pieces(part, SENSE_BREAK@)[j], SEMICOLON);
            }
        }
    } else {
        assert(parts.filter(pronounces()).len() == 0);
        assert(parts.filter(describes()).len() == 0);
        assert(genders_of(parts) =~= Seq::empty());
    }
}

/// Whatever the text, the paraphrase read from it is clean.
pub proof fn lemma_paraphrase_is_clean(input: Seq<char>, body: Seq<char>)
    ensures
        is_clean(paraphrase_of(input, body)),
{
    lemma_entries(pieces(body, COMMA@));
}

/// Whether `part` begins with one of the three marks of a pronunciation.
fn marks_pronunciation(part: &str) -> (r: bool)
    ensures
        r == is_pronunciation(part@),
{
    starts_with(part, BRITISH) || starts_with(part, AMERICAN) || starts_with(part, PINYIN)
}

impl Paraphrase {
    /// Reads the text `paraphrase` of a description into the paraphrase of
    /// `input`.
    pub fn parse(input: &str, paraphrase: &str) -> (p: Paraphrase)
        ensures
            p@ == paraphrase_of(input@, paraphrase@),
            is_clean(p@),
    {
        let parts = split(paraphrase, COMMA);
        let mut pronunciations: Vec<String> = Vec::new();
        let mut genders: Vec<String> = Vec::new();
        let mut i: usize = 0;
        while i < parts.len()
            invariant
                i <= parts@.len(),
                texts(pronunciations@) == pronunciations_of(texts(parts@).take(i as int)),
                texts(genders@) == genders_of(texts(parts@).take(i as int)),
            decreases parts.len() - i,
        {
            let part = &parts[i];
            let ghost before = texts(parts@).take(i as int);
            proof {
                assert(texts(parts@).take(i + 1) =~= before.push(part@));
                lemma_pronunciations_push(before, part@);
                lemma_genders_push(before, part@);
            }
            if marks_pronunciation(part.as_str()) {
                let entry = part.clone();
                assert(texts(pronunciations@.push(entry)) =~= texts(pronunciations@).push(entry@));
                pronunciations.push(entry);
            } else {
                let found = split(part.as_str(), SENSE_BREAK);
                let mut k: usize = 0;
                assert(senses(part@).take(0) =~= Seq::empty());
                assert(texts(genders@) + senses(part@).take(0) =~= texts(genders@));
                while k < found.len()
                    invariant
                        k <= found@.len(),
                        texts(found@) == pieces(part@, SENSE_BREAK@),
                        texts(genders@) == genders_of(before) + senses(part@).take(k as int),
                    decreases found.len() - k,
                {
                    let sense = trim_end_matches(found[k].as_str(), SEMICOLON).to_owned();
                    proof {
                        assert(texts(found@)[k as int] == found@[k as int]@);
                        assert(senses(part@).take(k + 1) =~= senses(part@).take(k as int).push(
                            sense@,
                        ));
                        assert(texts(genders@.push(sense)) =~= texts(genders@).push(sense@));
                        assert(texts(genders@).push(sense@) =~= genders_of(before) + senses(
                            part@,
                        ).take(k + 1));
                    }
                    genders.push(sense);
                    k += 1;
                }
                assert(senses(part@).take(found@.len() as int) =~= senses(part@));
            }
            i += 1;
        }
        proof {
            assert(texts(parts@).take(parts@.len() as int) =~= texts(parts@));
            lemma_paraphrase_is_clean(input@, paraphrase@);
        }
        Paraphrase { input: input.to_owned(), pronunciations, genders }
    }

    /// The pronunciations on one line, with commas between them.
    pub fn pronunciations_to_string(&self) -> (r: String)
        ensures
            r@ == joined(self@.pronunciations, COMMA@),
    {
        join(&self.pronunciations, COMMA)
    }

    /// The genders, one to a line.
    pub fn genders_to_string(&self) -> (r: String)
        ensures
            r@ == joined(self@.genders, NEWLINE@),
    {
        join(&self.genders, NEWLINE)
    }

    /// The text of this paraphrase.
    pub fn to_string(&self) -> (r: String)
        ensures
            r@ == rendered(self@),
    {
        let mut out = self.input.clone();
        out.append(NEWLINE);
        if self.pronunciations.len() > 0 {
            out.append(self.pronunciations_to_string().as_str());
            out.append(NEWLINE);
        }
        out.append(self.genders_to_string().as_str());
        out
    }
}

} // verus!
