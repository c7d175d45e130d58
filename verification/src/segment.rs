//! Segmentation of mixed Latin and CJK text into normalised tokens.

use crate::chars::CharClass;
use crate::lexicon::{is_noise_ascii, noise, stripped, trim_punctuation};
use crate::text::{
    all_ascii, all_digits, chars_of, is_all_ascii, is_stretch_of, lower_ascii_text,
    lowered_ascii, rows, split_words, texts, words,
};
use vstd::prelude::*;

verus! {

/// `jieba_rs::Jieba`, the segmenter of the outside crate, as a value of which
/// nothing is known.
#[verifier::external_type_specification]
#[verifier::external_body]
pub struct ExJieba(jieba_rs::Jieba);

/// The words into which the segmenter with its bundled dictionary cuts a
/// text, with its model for unknown words switched on.
pub uninterp spec fn jieba_cut(text: Seq<char>) -> Seq<Seq<char>>;

/// A segmenter for Chinese-aware word splitting. It always holds the
/// dictionary that ships with it, so what it returns depends on the text
/// alone.
pub struct Segmenter {
    inner: jieba_rs::Jieba,
}

/// `jieba_rs::Jieba::new` builds a segmenter and loads the dictionary that is
/// compiled into the crate. Nothing is claimed of the value.
#[verifier::external_body]
fn bundled_jieba() -> (inner: jieba_rs::Jieba) {
    jieba_rs::Jieba::new()
}

/// `jieba_rs::Jieba::cut` with the unknown-word model on. The segmenter was
/// built with the bundled dictionary and never changed since, so the words
/// are those that `jieba_cut` names for the text.
#[verifier::external_body]
fn cut_words(segmenter: &Segmenter, text: &str) -> (found: Vec<String>)
    ensures
        texts(found@) == jieba_cut(text@),
{
    segmenter.inner.cut(text, true).into_iter().map(String::from).collect()
}

/// The token of one piece of an ASCII word: the piece without punctuation at
/// its ends and in small letters, unless that is noise.
pub open spec fn ascii_token(piece: Seq<char>) -> Option<Seq<char>> {
    let token = lowered_ascii(stripped(piece));
    if noise(token) {
        None
    } else {
        Some(token)
    }
}

/// The tokens of the pieces of an ASCII word, in their order.
pub open spec fn ascii_tokens(pieces: Seq<Seq<char>>) -> Seq<Seq<char>>
    decreases pieces.len(),
{
    if pieces.len() == 0 {
        Seq::empty()
    } else {
        match ascii_token(pieces.last()) {
            Some(token) => ascii_tokens(pieces.drop_last()).push(token),
            None => ascii_tokens(pieces.drop_last()),
        }
    }
}

/// The tokens that one word of the segmenter gives. A word that is ASCII
/// alone once the punctuation at its ends is gone is split at white space
/// and each piece is cleaned; any other word gives itself without the
/// punctuation at its ends.
pub open spec fn word_tokens(word: Seq<char>) -> Seq<Seq<char>> {
    if all_ascii(stripped(word)) {
        ascii_tokens(words(stripped(word)))
    } else {
        seq![stripped(word)]
    }
}

/// The tokens of a sequence of words, in their order.
pub open spec fn tokens_of(found: Seq<Seq<char>>) -> Seq<Seq<char>>
    decreases found.len(),
{
    if found.len() == 0 {
        Seq::empty()
    } else {
        tokens_of(found.drop_last()) + word_tokens(found.last())
    }
}

/// The tokens of a text.
pub open spec fn tokens(text: Seq<char>) -> Seq<Seq<char>> {
    if text.len() == 0 {
        Seq::empty()
    } else {
        tokens_of(jieba_cut(text))
    }
}

/// A text holds no ASCII capital letter.
pub open spec fn is_lowered(token: Seq<char>) -> bool {
    forall|i: int| 0 <= i < token.len() ==> !crate::chars::is_ascii_uppercase(#[trigger] token[i])
}

/// A text holds no white space.
pub open spec fn is_unbroken(token: Seq<char>) -> bool {
    forall|i: int| 0 <= i < token.len() ==> !crate::chars::is_whitespace(#[trigger] token[i])
}

/// A token is never empty and has no punctuation at its ends. A token of
/// ASCII alone is in small letters, holds no white space, has at least two
/// characters and is no number.
pub open spec fn is_token(token: Seq<char>) -> bool {
    &&& token.len() > 0
    &&& !CharClass::Punctuation.has(token[0])
    &&& !CharClass::Punctuation.has(token.last())
    &&& all_ascii(token) ==> {
        &&& is_lowered(token)
        &&& is_unbroken(token)
        &&& token.len() >= 2
        &&& !all_digits(token)
    }
}

/// Appends the tokens of one word to `out`.
pub fn push_word_tokens(out: &mut Vec<Vec<char>>, word: &Vec<char>)
    ensures
        rows(final(out)@) == rows(old(out)@) + word_tokens(word@),
{
    let core = trim_punctuation(word);
    if is_all_ascii(&core) {
        let pieces = split_words(&core);
        let mut i: usize = 0;
        while i < pieces.len()
            invariant
                i <= pieces.len(),
                rows(out@) == rows(old(out)@) + ascii_tokens(rows(pieces@).take(i as int)),
            decreases pieces.len() - i,
        {
            assert(rows(pieces@).take(i + 1).drop_last() == rows(pieces@).take(i as int));
            let cleaned = trim_punctuation(&pieces[i]);
            let token = lower_ascii_text(&cleaned);
            if !is_noise_ascii(&token) {
                proof {
                    crate::text::lemma_rows_push(out@, token);
                }
                out.push(token);
                assert(rows(out@) =~= rows(old(out)@) + ascii_tokens(
                    rows(pieces@).take(i + 1),
                ));
            }
            i += 1;
        }
        assert(rows(pieces@).take(i as int) == rows(pieces@));
    } else {
        proof {
            crate::text::lemma_rows_push(out@, core);
        }
        out.push(core);
    }
}

/// Cleans the words of a segmenter into tokens, in the order of the words.
/// No token is empty or has punctuation at its ends, and a token of ASCII
/// alone is in small letters, without white space, of two characters or
/// more, and no number.
pub fn tokens_from_words(found: &Vec<String>) -> (out: Vec<Vec<char>>)
    ensures
        rows(out@) == tokens_of(texts(found@)),
        forall|i: int| 0 <= i < out@.len() ==> is_token(#[trigger] out@[i]@),
{
    let mut out: Vec<Vec<char>> = Vec::new();
    let mut i: usize = 0;
    while i < found.len()
        invariant
            i <= found.len(),
            rows(out@) == tokens_of(texts(found@).take(i as int)),
        decreases found.len() - i,
    {
        assert(texts(found@).take(i + 1).drop_last() == texts(found@).take(i as int));
        let word = chars_of(found[i].as_str());
        push_word_tokens(&mut out, &word);
        i += 1;
    }
    assert(texts(found@).take(i as int) == texts(found@));
    proof {
        lemma_tokens_are_clean(texts(found@));
        assert forall|i: int| 0 <= i < out@.len() implies is_token(#[trigger] out@[i]@) by {
            assert(rows(out@)[i] == out@[i]@);
        }
    }
    out
}

impl Segmenter {
    /// A segmenter with the bundled dictionary.
    pub fn new() -> (segmenter: Self) {
        Segmenter { inner: bundled_jieba() }
    }

    /// Splits a text into tokens, in the order of the words that the
    /// segmenter finds. An empty text has none. No token is empty or has
    /// punctuation at its ends, and a token of ASCII alone is in small
    /// letters, without white space, of two characters or more, and no
    /// number.
    pub fn tokenize(&self, text: &str) -> (out: Vec<Vec<char>>)
        ensures
            rows(out@) == tokens(text@),
            forall|i: int| 0 <= i < out@.len() ==> is_token(#[trigger] out@[i]@),
    {
        if text.is_empty() {
            let out: Vec<Vec<char>> = Vec::new();
            return out;
        }
        let found = cut_words(self, text);
        tokens_from_words(&found)
    }
}

/// Every token of the words is a token: not empty and without punctuation
/// at its ends; and if it is ASCII alone, in small letters, without white
/// space, of two characters or more, and no number.
pub proof fn lemma_tokens_are_clean(found: Seq<Seq<char>>)
    ensures
        forall|i: int| 0 <= i < tokens_of(found).len() ==> is_token(#[trigger] tokens_of(found)[i]),
    decreases found.len(),
{
    if found.len() > 0 {
        lemma_tokens_are_clean(found.drop_last());
        lemma_word_tokens_are_clean(found.last());
        let head = tokens_of(found.drop_last());
        assert forall|i: int| 0 <= i < tokens_of(found).len() implies is_token(
            #[trigger] tokens_of(found)[i],
        ) by {
        }
    }
}

/// The tokens keep the order of the words: the tokens of the first `k`
/// words come first, and the tokens of the other words follow.
pub proof fn lemma_tokens_keep_word_order(found: Seq<Seq<char>>, k: int)
    requires
        0 <= k <= found.len(),
    ensures
        tokens_of(found) == tokens_of(found.take(k)) + tokens_of(found.skip(k)),
    decreases found.len(),
{
    if k == found.len() {
        assert(found.take(k) =~= found);
    } else {
        let rest = found.drop_last();
        lemma_tokens_keep_word_order(rest, k);
        assert(rest.take(k) =~= found.take(k));
        assert(rest.skip(k) =~= found.skip(k).drop_last());
    }
}

/// The token is a stretch of the word, as it stands or in small letters.
pub open spec fn stems_from(token: Seq<char>, word: Seq<char>) -> bool {
    exists|part: Seq<char>|
        #[trigger] is_stretch_of(part, word) && (token == part || token == lowered_ascii(part))
}

/// Every token of a word is a stretch of the word, as it stands or in small
/// letters.
pub proof fn lemma_word_tokens_stem_from_word(word: Seq<char>)
    ensures
        forall|i: int|
            0 <= i < word_tokens(word).len() ==> stems_from(#[trigger] word_tokens(word)[i], word),
{
    let core = stripped(word);
    crate::text::lemma_trim_is_stretch(word, CharClass::Punctuation);
    if all_ascii(core) {
        crate::text::lemma_words_are_stretches(core);
        assert forall|i: int| 0 <= i < words(core).len() implies is_stretch_of(
            #[trigger] words(core)[i],
            word,
        ) by {
            crate::text::lemma_stretch_of_stretch(words(core)[i], core, word);
        }
        lemma_ascii_tokens_stem_from(words(core), word);
    }
}

proof fn lemma_ascii_tokens_stem_from(pieces: Seq<Seq<char>>, word: Seq<char>)
    ensures
        (forall|i: int| 0 <= i < pieces.len() ==> is_stretch_of(#[trigger] pieces[i], word))
            ==> forall|i: int|
            0 <= i < ascii_tokens(pieces).len() ==> stems_from(
                #[trigger] ascii_tokens(pieces)[i],
                word,
            ),
    decreases pieces.len(),
{
    if pieces.len() > 0 && (forall|i: int|
        0 <= i < pieces.len() ==> is_stretch_of(#[trigger] pieces[i], word)) {
        let rest = pieces.drop_last();
        assert forall|i: int| 0 <= i < rest.len() implies is_stretch_of(#[trigger] rest[i], word) by {
        }
        lemma_ascii_tokens_stem_from(rest, word);
        let piece = pieces.last();
        let part = stripped(piece);
        let head = ascii_tokens(rest);
        crate::text::lemma_trim_is_stretch(piece, CharClass::Punctuation);
        crate::text::lemma_stretch_of_stretch(part, piece, word);
        assert forall|i: int| 0 <= i < ascii_tokens(pieces).len() implies stems_from(
            #[trigger] ascii_tokens(pieces)[i],
            word,
        ) by {
        }
    }
}

/// Every token stems from one of the words: it is a stretch of that word,
/// as it stands or in small letters.
pub proof fn lemma_tokens_stem_from_words(found: Seq<Seq<char>>)
    ensures
        forall|i: int|
            0 <= i < tokens_of(found).len() ==> exists|j: int|
                0 <= j < found.len() && stems_from(#[trigger] tokens_of(found)[i], #[trigger] found[j]),
    decreases found.len(),
{
    if found.len() > 0 {
        let rest = found.drop_last();
        lemma_tokens_stem_from_words(rest);
        lemma_word_tokens_stem_from_word(found.last());
        let head = tokens_of(rest);
        assert forall|i: int| 0 <= i < tokens_of(found).len() implies exists|j: int|
            0 <= j < found.len() && stems_from(#[trigger] tokens_of(found)[i], #[trigger] found[j]) by {
        }
    }
}

/// An empty text has no token.
pub proof fn lemma_empty_text_has_no_token(text: Seq<char>)
    requires
        text.len() == 0,
    ensures
        tokens(text).len() == 0,
{
}

proof fn lemma_word_tokens_are_clean(word: Seq<char>)
    ensures
        forall|i: int| 0 <= i < word_tokens(word).len() ==> is_token(#[trigger] word_tokens(word)[i]),
{
    let core = stripped(word);
    if all_ascii(core) {
        crate::text::lemma_words_are_unbroken(core);
        lemma_ascii_tokens_are_clean(words(core));
    } else {
        crate::text::lemma_trim_edges(word, CharClass::Punctuation);
    }
}

/// Making a character small neither makes nor unmakes punctuation or white
/// space, and leaves no capital letter.
proof fn lemma_lower_keeps_class(c: char)
    ensures
        CharClass::Punctuation.has(crate::chars::lower_ascii(c)) == CharClass::Punctuation.has(c),
        crate::chars::is_whitespace(crate::chars::lower_ascii(c)) == crate::chars::is_whitespace(c),
        !crate::chars::is_ascii_uppercase(crate::chars::lower_ascii(c)),
{
}

/// The token of a piece without white space is a token.
proof fn lemma_ascii_token_is_clean(piece: Seq<char>)
    requires
        is_unbroken(piece),
        !noise(lowered_ascii(stripped(piece))),
    ensures
        is_token(lowered_ascii(stripped(piece))),
{
    let core = stripped(piece);
    let token = lowered_ascii(core);
    crate::text::lemma_trim_edges(piece, CharClass::Punctuation);
    lemma_lower_keeps_class(core[0]);
    lemma_lower_keeps_class(core.last());
    assert forall|k: int| 0 <= k < token.len() implies !crate::chars::is_ascii_uppercase(
        #[trigger] token[k],
    ) && !crate::chars::is_whitespace(token[k]) by {
        lemma_lower_keeps_class(core[k]);
    }
    if all_ascii(token) {
        crate::text::lemma_ascii_byte_len(token);
    }
}

proof fn lemma_ascii_tokens_are_clean(pieces: Seq<Seq<char>>)
    requires
        forall|i: int| 0 <= i < pieces.len() ==> is_unbroken(#[trigger] pieces[i]),
    ensures
        forall|i: int| 0 <= i < ascii_tokens(pieces).len() ==> is_token(#[trigger] ascii_tokens(pieces)[i]),
    decreases pieces.len(),
{
    if pieces.len() > 0 {
        let rest = pieces.drop_last();
        assert forall|i: int| 0 <= i < rest.len() implies is_unbroken(#[trigger] rest[i]) by {
        }
        lemma_ascii_tokens_are_clean(rest);
        let piece = pieces.last();
        let token = lowered_ascii(stripped(piece));
        let head = ascii_tokens(rest);
        if !noise(token) {
            lemma_ascii_token_is_clean(piece);
            assert forall|i: int| 0 <= i < ascii_tokens(pieces).len() implies is_token(
                #[trigger] ascii_tokens(pieces)[i],
            ) by {
            }
        }
    }
}

} // verus!
