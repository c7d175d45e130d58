//! Keyword ranking: how often each normalised token occurs, the boost that
//! curated vocabulary terms receive, and the order in which keywords come
//! out.

use crate::chars::CharClass;
use crate::lexicon::{
    carries_signal, countable, has_signal, is_countable, normalize_token, normalized, stopword_table,
};
use crate::text::{
    all_ascii, chars_of, compare, count_occurrences, is_all_ascii, lex_less, occurrences, rows,
    same, trim, trim_class, Order,
};
use vstd::prelude::*;

verus! {

/// The largest number of keywords that come out.
pub const KEYWORD_CAP: usize = 8;

/// What each occurrence of a vocabulary term adds to its count.
pub const BOOST_FACTOR: usize = 3;

/// A normalised token with the number of times it was counted.
pub struct Entry {
    pub token: Vec<char>,
    pub count: usize,
}

/// What `str::to_lowercase` returns for a text: its lower case as Unicode
/// defines it.
pub uninterp spec fn unicode_lowercase(text: Seq<char>) -> Seq<char>;

/// `str::to_lowercase` returns the lower case of the text as a new string.
pub assume_specification[ str::to_lowercase ](text: &str) -> (lowered: String)
    ensures
        lowered@ == unicode_lowercase(text@),
;

/// A count that has outgrown the machine's integers stays at the largest.
pub open spec fn capped(n: nat) -> nat {
    if n > usize::MAX {
        usize::MAX as nat
    } else {
        n
    }
}

/// The number of countable tokens whose normal form is `key`.
pub open spec fn tally(tokens: Seq<Seq<char>>, key: Seq<char>) -> nat
    decreases tokens.len(),
{
    if tokens.len() == 0 {
        0
    } else {
        tally(tokens.drop_last(), key) + if countable(tokens.last()) && normalized(tokens.last())
            == key {
            1nat
        } else {
            0nat
        }
    }
}

/// A vocabulary term as it is looked for: without white space at its ends.
pub open spec fn term_text(term: Seq<char>) -> Seq<char> {
    trim(term, CharClass::Whitespace)
}

/// The key under which the occurrences of a vocabulary term are counted.
pub open spec fn term_key(term: Seq<char>) -> Seq<char> {
    normalized(term_text(term))
}

/// How often a vocabulary term occurs in the text. A term of ASCII alone is
/// looked for by its key in the lower-cased text, any other term as it
/// stands in the text itself. In an empty text nothing occurs, and an empty
/// term occurs nowhere.
pub open spec fn term_hits(text: Seq<char>, lowered: Seq<char>, term: Seq<char>) -> nat {
    if text.len() == 0 || term_text(term).len() == 0 {
        0
    } else if all_ascii(term_text(term)) {
        occurrences(lowered, term_key(term))
    } else {
        occurrences(text, term_text(term))
    }
}

/// What the vocabulary adds to the count of `key`: three for each occurrence
/// of each term with that key.
pub open spec fn boost(
    text: Seq<char>,
    lowered: Seq<char>,
    vocabulary: Seq<Seq<char>>,
    key: Seq<char>,
) -> nat
    decreases vocabulary.len(),
{
    if vocabulary.len() == 0 {
        0
    } else {
        boost(text, lowered, vocabulary.drop_last(), key) + if term_key(vocabulary.last()) == key {
            3 * term_hits(text, lowered, vocabulary.last())
        } else {
            0nat
        }
    }
}

/// The score of `key`: its tally among the tokens and its boost from the
/// vocabulary.
pub open spec fn score(
    tokens: Seq<Seq<char>>,
    text: Seq<char>,
    lowered: Seq<char>,
    vocabulary: Seq<Seq<char>>,
    key: Seq<char>,
) -> nat {
    tally(tokens, key) + boost(text, lowered, vocabulary, key)
}

/// Whether an entry for `key` is in the list.
pub open spec fn listed(entries: Seq<Entry>, key: Seq<char>) -> bool {
    exists|i: int| 0 <= i < entries.len() && (#[trigger] entries[i]).token@ == key
}

/// The count that the list holds for `key`; zero if it holds none.
pub open spec fn count_of(entries: Seq<Entry>, key: Seq<char>) -> nat {
    if listed(entries, key) {
        entries[choose|i: int| 0 <= i < entries.len() && (#[trigger] entries[i]).token@ == key].count as nat
    } else {
        0
    }
}

/// No two entries have the same token, and every count is positive.
pub open spec fn is_tally(entries: Seq<Entry>) -> bool {
    &&& forall|i: int, j: int|
        0 <= i < j < entries.len() ==> (#[trigger] entries[i]).token@ != (#[trigger] entries[j]).token@
    &&& forall|i: int| 0 <= i < entries.len() ==> (#[trigger] entries[i]).count > 0
}

/// The count that a tally holds for the token of its `i`-th entry is the
/// count of that entry.
pub proof fn lemma_count_at(entries: Seq<Entry>, i: int)
    requires
        is_tally(entries),
        0 <= i < entries.len(),
    ensures
        listed(entries, entries[i].token@),
        count_of(entries, entries[i].token@) == entries[i].count,
{
}

/// No key is counted more often than there are tokens.
pub proof fn lemma_tally_bound(tokens: Seq<Seq<char>>, key: Seq<char>)
    ensures
        tally(tokens, key) <= tokens.len(),
    decreases tokens.len(),
{
    if tokens.len() > 0 {
        lemma_tally_bound(tokens.drop_last(), key);
    }
}

/// The position of the entry for `key`, if there is one.
pub fn find_entry(entries: &Vec<Entry>, key: &Vec<char>) -> (found: Option<usize>)
    ensures
        match found {
            Some(i) => i < entries.len() && entries[i as int].token@ == key@,
            None => !listed(entries@, key@),
        },
{
    let mut i: usize = 0;
    while i < entries.len()
        invariant
            i <= entries.len(),
            forall|k: int| 0 <= k < i ==> (#[trigger] entries[k]).token@ != key@,
        decreases entries.len() - i,
    {
        if same(&entries[i].token, key) {
            return Some(i);
        }
        i += 1;
    }
    None
}

/// Adds `by` to the count of `key`, with a new entry if there is none yet.
pub fn bump(entries: &mut Vec<Entry>, key: Vec<char>, by: usize)
    requires
        is_tally(old(entries)@),
        by > 0,
    ensures
        is_tally(final(entries)@),
        count_of(final(entries)@, key@) == capped(count_of(old(entries)@, key@) + by as nat),
        forall|other: Seq<char>|
            other != key@ ==> count_of(final(entries)@, other) == count_of(old(entries)@, other),
{
    let ghost before = entries@;
    match find_entry(entries, &key) {
        Some(i) => {
            let count = entries[i].count;
            let raised: usize = if by > usize::MAX - count {
                usize::MAX
            } else {
                count + by
            };
            let token = key;
            entries.set(i, Entry { token, count: raised });
            proof {
                lemma_count_at(before, i as int);
                assert forall|a: int, b: int| 0 <= a < b < entries@.len() implies (
                #[trigger] entries@[a]).token@ != (#[trigger] entries@[b]).token@ by {
                }
                lemma_count_at(entries@, i as int);
                assert forall|other: Seq<char>| other != key@ implies count_of(entries@, other)
                    == count_of(before, other) by {
                    lemma_count_elsewhere(before, entries@, i as int, other);
                }
            }
        },
        None => {
            entries.push(Entry { token: key, count: by });
            proof {
                let last = entries@.len() - 1;
                assert forall|a: int, b: int| 0 <= a < b < entries@.len() implies (
                #[trigger] entries@[a]).token@ != (#[trigger] entries@[b]).token@ by {
                }
                lemma_count_at(entries@, last);
                assert forall|other: Seq<char>| other != key@ implies count_of(entries@, other)
                    == count_of(before, other) by {
                    lemma_count_grown(before, entries@, other);
                }
            }
        },
    }
}

/// Replacing one entry by another with the same token leaves the counts of
/// all other keys as they were.
proof fn lemma_count_elsewhere(before: Seq<Entry>, after: Seq<Entry>, at: int, other: Seq<char>)
    requires
        is_tally(before),
        is_tally(after),
        0 <= at < before.len(),
        after.len() == before.len(),
        forall|i: int| 0 <= i < before.len() && i != at ==> after[i] == before[i],
        after[at].token@ == before[at].token@,
        other != before[at].token@,
    ensures
        count_of(after, other) == count_of(before, other),
{
    if listed(before, other) {
        let i = choose|i: int| 0 <= i < before.len() && (#[trigger] before[i]).token@ == other;
        lemma_count_at(before, i);
        lemma_count_at(after, i);
    }
}

/// A new entry at the end leaves the counts of all other keys as they were.
proof fn lemma_count_grown(before: Seq<Entry>, after: Seq<Entry>, other: Seq<char>)
    requires
        is_tally(before),
        is_tally(after),
        after.len() == before.len() + 1,
        forall|i: int| 0 <= i < before.len() ==> after[i] == before[i],
        other != after[before.len() as int].token@,
    ensures
        count_of(after, other) == count_of(before, other),
{
    if listed(before, other) {
        let i = choose|i: int| 0 <= i < before.len() && (#[trigger] before[i]).token@ == other;
        lemma_count_at(before, i);
        lemma_count_at(after, i);
    }
}

/// Counts the countable tokens under their normal forms.
pub fn count_tokens(tokens: &Vec<Vec<char>>) -> (entries: Vec<Entry>)
    ensures
        is_tally(entries@),
        forall|key: Seq<char>| #[trigger] count_of(entries@, key) == tally(rows(tokens@), key),
{
    let table = stopword_table();
    let mut entries: Vec<Entry> = Vec::new();
    let mut i: usize = 0;
    assert(rows(tokens@).take(0) =~= Seq::<Seq<char>>::empty());
    while i < tokens.len()
        invariant
            i <= tokens.len(),
            rows(table@) == crate::lexicon::stopwords(),
            is_tally(entries@),
            forall|key: Seq<char>| #[trigger]
                count_of(entries@, key) == tally(rows(tokens@).take(i as int), key),
        decreases tokens.len() - i,
    {
        assert(rows(tokens@).take(i + 1).drop_last() == rows(tokens@).take(i as int));
        if is_countable(&tokens[i], &table) {
            let key = normalize_token(&tokens[i]);
            proof {
                lemma_tally_bound(rows(tokens@).take(i as int), key@);
            }
            bump(&mut entries, key, 1);
        }
        assert forall|key: Seq<char>| #[trigger]
            count_of(entries@, key) == tally(rows(tokens@).take(i + 1), key) by {
        }
        i += 1;
    }
    assert(rows(tokens@).take(i as int) == rows(tokens@));
    entries
}


/// Three times the number of hits, or the largest machine integer if that
/// is less.
fn boost_of(hits: usize) -> (by: usize)
    ensures
        by == capped(3 * hits as nat),
{
    if hits > usize::MAX / BOOST_FACTOR {
        usize::MAX
    } else {
        hits * BOOST_FACTOR
    }
}

/// Counts how often a vocabulary term occurs in the text; `lowered` is the
/// text in lower case.
pub fn count_term_hits(text: &Vec<char>, lowered: &Vec<char>, term: &Vec<char>) -> (hits: usize)
    ensures
        hits == term_hits(text@, lowered@, term@),
{
    let cleaned = trim_class(term, CharClass::Whitespace);
    if text.len() == 0 || cleaned.len() == 0 {
        0
    } else if is_all_ascii(&cleaned) {
        let key = normalize_token(&cleaned);
        count_occurrences(lowered, &key)
    } else {
        count_occurrences(text, &cleaned)
    }
}

/// Raises the count of every vocabulary term that occurs in the text by
/// three for each occurrence, with a new entry where the term had none.
/// `lowered` is the text in lower case.
pub fn boost_vocabulary_terms(
    entries: &mut Vec<Entry>,
    text: &Vec<char>,
    lowered: &Vec<char>,
    vocabulary: &Vec<Vec<char>>,
)
    requires
        is_tally(old(entries)@),
    ensures
        is_tally(final(entries)@),
        forall|key: Seq<char>| #[trigger]
            count_of(final(entries)@, key) == capped(
                count_of(old(entries)@, key) + boost(text@, lowered@, rows(vocabulary@), key),
            ),
{
    let mut i: usize = 0;
    while i < vocabulary.len()
        invariant
            i <= vocabulary.len(),
            is_tally(entries@),
            forall|key: Seq<char>| #[trigger]
                count_of(entries@, key) == capped(
                    count_of(old(entries)@, key) + boost(
                        text@,
                        lowered@,
                        rows(vocabulary@).take(i as int),
                        key,
                    ),
                ),
        decreases vocabulary.len() - i,
    {
        assert(rows(vocabulary@).take(i + 1).drop_last() == rows(vocabulary@).take(i as int));
        let ghost before = entries@;
        let hits = count_term_hits(text, lowered, &vocabulary[i]);
        if hits > 0 {
            let cleaned = trim_class(&vocabulary[i], CharClass::Whitespace);
            let key = normalize_token(&cleaned);
            bump(entries, key, boost_of(hits));
        }
        assert forall|key: Seq<char>| #[trigger]
            count_of(entries@, key) == capped(
                count_of(old(entries)@, key) + boost(
                    text@,
                    lowered@,
                    rows(vocabulary@).take(i + 1),
                    key,
                ),
            ) by {
            assert(count_of(before, key) == capped(
                count_of(old(entries)@, key) + boost(
                    text@,
                    lowered@,
                    rows(vocabulary@).take(i as int),
                    key,
                ),
            ));
        }
        i += 1;
    }
    assert(rows(vocabulary@).take(i as int) == rows(vocabulary@));
}

/// The order of the ranking: the higher count first; of equal counts the
/// token of more characters first; of equal lengths the token that comes
/// first in the dictionary.
pub open spec fn outranks(a: Seq<char>, a_count: nat, b: Seq<char>, b_count: nat) -> bool {
    ||| a_count > b_count
    ||| a_count == b_count && a.len() > b.len()
    ||| a_count == b_count && a.len() == b.len() && lex_less(a, b)
}

impl Entry {
    /// Whether this entry comes before `other` in the ranking.
    pub open spec fn before(self, other: Entry) -> bool {
        outranks(self.token@, self.count as nat, other.token@, other.count as nat)
    }

    /// Whether this entry comes before `other` in the ranking.
    pub fn ranks_before(&self, other: &Entry) -> (yes: bool)
        ensures
            yes == self.before(*other),
    {
        if self.count != other.count {
            return self.count > other.count;
        }
        if self.token.len() != other.token.len() {
            return self.token.len() > other.token.len();
        }
        match compare(&self.token, &other.token) {
            Order::Before => true,
            _ => false,
        }
    }
}

/// Every entry comes before all that follow it.
pub open spec fn is_ranked(entries: Seq<Entry>) -> bool {
    forall|i: int, j: int|
        0 <= i < j < entries.len() ==> (#[trigger] entries[i]).before(#[trigger] entries[j])
}

/// The ranking is transitive.
pub proof fn lemma_outranks_transitive(
    a: Seq<char>,
    a_count: nat,
    b: Seq<char>,
    b_count: nat,
    c: Seq<char>,
    c_count: nat,
)
    requires
        outranks(a, a_count, b, b_count),
        outranks(b, b_count, c, c_count),
    ensures
        outranks(a, a_count, c, c_count),
{
    if a_count == b_count && b_count == c_count && a.len() == b.len() && b.len() == c.len() {
        crate::text::lemma_lex_transitive(a, b, c);
    }
}

/// Of two different tokens one outranks the other.
pub proof fn lemma_outranks_total(a: Seq<char>, a_count: nat, b: Seq<char>, b_count: nat)
    ensures
        a == b || outranks(a, a_count, b, b_count) || outranks(b, b_count, a, a_count),
{
    crate::text::lemma_lex_total(a, b);
}

/// Of two tokens at most one outranks the other, and none outranks itself
/// at the same count.
pub proof fn lemma_outranks_asymmetric(a: Seq<char>, a_count: nat, b: Seq<char>, b_count: nat)
    ensures
        outranks(a, a_count, b, b_count) ==> !outranks(b, b_count, a, a_count),
{
    crate::text::lemma_lex_asymmetric(a, b);
    crate::text::lemma_lex_asymmetric(b, a);
}

/// An entry put into a tally that has none for its token: the tally then
/// holds its count, and the counts of all other keys as before.
proof fn lemma_count_inserted(before: Seq<Entry>, at: int, entry: Entry)
    requires
        is_tally(before),
        0 <= at <= before.len(),
        !listed(before, entry.token@),
        entry.count > 0,
    ensures
        is_tally(before.insert(at, entry)),
        count_of(before.insert(at, entry), entry.token@) == entry.count,
        forall|other: Seq<char>|
            other != entry.token@ ==> count_of(before.insert(at, entry), other) == count_of(
                before,
                other,
            ),
{
    let after = before.insert(at, entry);
    assert forall|i: int| 0 <= i < after.len() implies (#[trigger] after[i]).count > 0 by {
    }
    assert forall|i: int, j: int| 0 <= i < j < after.len() implies (#[trigger] after[i]).token@ != (
    #[trigger] after[j]).token@ by {
    }
    lemma_count_at(after, at);
    assert forall|other: Seq<char>| other != entry.token@ implies count_of(after, other)
        == count_of(before, other) by {
        if listed(before, other) {
            let i = choose|i: int| 0 <= i < before.len() && (#[trigger] before[i]).token@ == other;
            let to = if i < at {
                i
            } else {
                i + 1
            };
            lemma_count_at(before, i);
            lemma_count_at(after, to);
        }
    }
}

/// Puts the entries in the order of the ranking.
pub fn rank(entries: Vec<Entry>) -> (ranked: Vec<Entry>)
    requires
        is_tally(entries@),
    ensures
        is_tally(ranked@),
        is_ranked(ranked@),
        forall|key: Seq<char>| #[trigger] count_of(ranked@, key) == count_of(entries@, key),
{
    let mut rest = entries;
    let mut ranked: Vec<Entry> = Vec::new();
    while rest.len() > 0
        invariant
            is_tally(rest@),
            is_tally(ranked@),
            is_ranked(ranked@),
            forall|key: Seq<char>| listed(ranked@, key) ==> !listed(rest@, key),
            forall|key: Seq<char>| #[trigger]
                count_of(ranked@, key) + count_of(rest@, key) == count_of(entries@, key),
        decreases rest.len(),
    {
        let ghost rest_before = rest@;
        let ghost ranked_before = ranked@;
        let entry = rest.pop().unwrap();
        proof {
            lemma_count_at(rest_before, rest_before.len() - 1);
            assert(is_tally(rest@)) by {
                assert forall|i: int, j: int| 0 <= i < j < rest@.len() implies (
                #[trigger] rest@[i]).token@ != (#[trigger] rest@[j]).token@ by {
                }
                assert forall|i: int| 0 <= i < rest@.len() implies (#[trigger] rest@[i]).count
                    > 0 by {
                    assert(rest@[i] == rest_before[i]);
                }
            }
            assert(!listed(rest@, entry.token@)) by {
                if listed(rest@, entry.token@) {
                    let i = choose|i: int|
                        0 <= i < rest@.len() && (#[trigger] rest@[i]).token@ == entry.token@;
                }
            }
        }
        let mut at: usize = 0;
        while at < ranked.len() && !entry.ranks_before(&ranked[at])
            invariant
                at <= ranked.len(),
                forall|j: int| 0 <= j < at ==> !entry.before(#[trigger] ranked@[j]),
            decreases ranked.len() - at,
        {
            at += 1;
        }
        proof {
            lemma_count_inserted(ranked_before, at as int, entry);
            let after = ranked_before.insert(at as int, entry);
            assert forall|i: int, j: int| 0 <= i < j < after.len() implies (#[trigger] after[i]).before(
                #[trigger] after[j],
            ) by {
                if j < at {
                    assert(after[i] == ranked_before[i] && after[j] == ranked_before[j]);
                } else if j == at {
                    lemma_outranks_total(
                        entry.token@,
                        entry.count as nat,
                        ranked_before[i].token@,
                        ranked_before[i].count as nat,
                    );
                } else if i == at {
                    if j - 1 > at {
                        lemma_outranks_transitive(
                            entry.token@,
                            entry.count as nat,
                            ranked_before[at as int].token@,
                            ranked_before[at as int].count as nat,
                            ranked_before[j - 1].token@,
                            ranked_before[j - 1].count as nat,
                        );
                    }
                }
            }
            assert forall|key: Seq<char>| #[trigger]
                count_of(after, key) + count_of(rest@, key) == count_of(entries@, key) by {
                assert(count_of(ranked_before, key) + count_of(rest_before, key) == count_of(
                    entries@,
                    key,
                ));
                if key != entry.token@ {
                    lemma_count_grown(rest@, rest_before, key);
                }
            }
            assert forall|key: Seq<char>| listed(after, key) implies !listed(rest@, key) by {
                if key != entry.token@ {
                    let j = choose|j: int|
                        0 <= j < after.len() && (#[trigger] after[j]).token@ == key;
                    assert(listed(ranked_before, key));
                    if listed(rest@, key) {
                        let i = choose|i: int|
                            0 <= i < rest@.len() && (#[trigger] rest@[i]).token@ == key;
                    }
                }
            }
        }
        ranked.insert(at, entry);
    }
    ranked
}


/// The keyword that stands in when no token qualifies.
pub open spec fn fallback_keyword() -> Seq<char> {
    "general"@
}

/// The score of `key` as it is held in machine integers.
pub open spec fn weight(
    tokens: Seq<Seq<char>>,
    text: Seq<char>,
    lowered: Seq<char>,
    vocabulary: Seq<Seq<char>>,
    key: Seq<char>,
) -> nat {
    capped(score(tokens, text, lowered, vocabulary, key))
}

/// `out` is the list of keywords for the given weights. If no key has a
/// positive weight and carries signal, it is the fallback keyword alone.
/// Otherwise it holds at most eight such keys, in the order of the ranking,
/// and every such key that is left out is outranked by the eighth.
pub open spec fn is_keyword_list(
    out: Seq<Seq<char>>,
    tokens: Seq<Seq<char>>,
    text: Seq<char>,
    lowered: Seq<char>,
    vocabulary: Seq<Seq<char>>,
) -> bool {
    if forall|key: Seq<char>|
        !(#[trigger] weight(tokens, text, lowered, vocabulary, key) > 0 && has_signal(key)) {
        out == seq![fallback_keyword()]
    } else {
        &&& 1 <= out.len() <= 8
        &&& forall|i: int|
            0 <= i < out.len() ==> weight(tokens, text, lowered, vocabulary, #[trigger] out[i]) > 0
                && has_signal(out[i])
        &&& forall|i: int, j: int|
            0 <= i < j < out.len() ==> outranks(
                #[trigger] out[i],
                weight(tokens, text, lowered, vocabulary, out[i]),
                #[trigger] out[j],
                weight(tokens, text, lowered, vocabulary, out[j]),
            )
        &&& forall|key: Seq<char>|
            #[trigger] weight(tokens, text, lowered, vocabulary, key) > 0 && has_signal(key)
                && !out.contains(key) ==> out.len() == 8 && outranks(
                out[7],
                weight(tokens, text, lowered, vocabulary, out[7]),
                key,
                weight(tokens, text, lowered, vocabulary, key),
            )
    }
}

/// `out` is the selection from a ranked tally: the tokens of the first eight
/// entries that carry signal, or the fallback keyword if there is none.
pub open spec fn is_selection(out: Seq<Seq<char>>, ranked: Seq<Entry>) -> bool {
    if forall|m: int| 0 <= m < ranked.len() ==> !has_signal((#[trigger] ranked[m]).token@) {
        out == seq![fallback_keyword()]
    } else {
        &&& 1 <= out.len() <= 8
        &&& forall|i: int|
            0 <= i < out.len() ==> listed(ranked, #[trigger] out[i]) && has_signal(out[i])
        &&& forall|i: int, j: int|
            0 <= i < j < out.len() ==> outranks(
                #[trigger] out[i],
                count_of(ranked, out[i]),
                #[trigger] out[j],
                count_of(ranked, out[j]),
            )
        &&& forall|key: Seq<char>|
            #[trigger] listed(ranked, key) && has_signal(key) && !out.contains(key) ==> out.len()
                == 8 && outranks(out[7], count_of(ranked, out[7]), key, count_of(ranked, key))
    }
}

/// Takes the tokens of the first eight entries that carry signal; if there
/// is none, the fallback keyword.
pub fn select(ranked: &Vec<Entry>) -> (out: Vec<Vec<char>>)
    requires
        is_tally(ranked@),
        is_ranked(ranked@),
    ensures
        is_selection(rows(out@), ranked@),
{
    let mut out: Vec<Vec<char>> = Vec::new();
    let ghost mut picked: Seq<int> = Seq::empty();
    let mut i: usize = 0;
    while i < ranked.len() && out.len() < KEYWORD_CAP
        invariant
            i <= ranked.len(),
            out.len() <= 8,
            picked.len() == out.len(),
            forall|j: int|
                0 <= j < picked.len() ==> 0 <= #[trigger] picked[j] < i && out[j]@
                    == ranked[picked[j]].token@ && has_signal(out[j]@),
            forall|a: int, b: int|
                0 <= a < b < picked.len() ==> #[trigger] picked[a] < #[trigger] picked[b],
            forall|m: int|
                0 <= m < i && has_signal((#[trigger] ranked[m]).token@) ==> exists|j: int|
                    0 <= j < picked.len() && #[trigger] picked[j] == m,
        decreases ranked.len() - i,
    {
        if carries_signal(&ranked[i].token) {
            let token = ranked[i].token.clone();
            out.push(token);
            proof {
                let ghost earlier = picked;
                picked = picked.push(i as int);
                assert forall|m: int|
                    0 <= m < i + 1 && has_signal((#[trigger] ranked[m]).token@) implies exists|
                    j: int,
                |
                    0 <= j < picked.len() && #[trigger] picked[j] == m by {
                    if m < i {
                        let j = choose|j: int| 0 <= j < earlier.len() && #[trigger] earlier[j] == m;
                        assert(picked[j] == m);
                    } else {
                        assert(picked[picked.len() - 1] == m);
                    }
                }
            }
        }
        i += 1;
    }
    if out.len() == 0 {
        out.push(chars_of("general"));
        proof {
            assert(rows(out@) =~= seq![fallback_keyword()]);
            assert forall|m: int| 0 <= m < ranked.len() implies !has_signal(
                (#[trigger] ranked[m]).token@,
            ) by {
                if has_signal(ranked[m].token@) {
                    let j = choose|j: int| 0 <= j < picked.len() && #[trigger] picked[j] == m;
                }
            }
        }
        return out;
    }
    proof {
        let shown = rows(out@);
        assert(has_signal(ranked[picked[0]].token@));
        assert forall|k: int| 0 <= k < shown.len() implies listed(ranked@, #[trigger] shown[k])
            && has_signal(shown[k]) && count_of(ranked@, shown[k]) == ranked[picked[k]].count by {
            lemma_count_at(ranked@, picked[k]);
        }
        assert forall|a: int, b: int| 0 <= a < b < shown.len() implies outranks(
            #[trigger] shown[a],
            count_of(ranked@, shown[a]),
            #[trigger] shown[b],
            count_of(ranked@, shown[b]),
        ) by {
        }
        assert forall|key: Seq<char>|
            #[trigger] listed(ranked@, key) && has_signal(key) && !shown.contains(
                key,
            ) implies shown.len() == 8 && outranks(
            shown[7],
            count_of(ranked@, shown[7]),
            key,
            count_of(ranked@, key),
        ) by {
            let m = choose|m: int| 0 <= m < ranked.len() && (#[trigger] ranked[m]).token@ == key;
            lemma_count_at(ranked@, m);
            if m < i {
                let j = choose|j: int| 0 <= j < picked.len() && #[trigger] picked[j] == m;
                assert(shown[j] == key);
            }
        }
    }
    out
}

/// Ranks the tokens of a text into at most eight keywords. `text` is the
/// text that the tokens came from and `lowered` is that text in lower case;
/// both are searched for the terms of the vocabulary.
pub fn extract_keywords(
    tokens: &Vec<Vec<char>>,
    text: &Vec<char>,
    lowered: &Vec<char>,
    vocabulary: &Vec<Vec<char>>,
) -> (out: Vec<Vec<char>>)
    ensures
        is_keyword_list(rows(out@), rows(tokens@), text@, lowered@, rows(vocabulary@)),
{
    let mut entries = count_tokens(tokens);
    let ghost counted = entries@;
    boost_vocabulary_terms(&mut entries, text, lowered, vocabulary);
    let ghost boosted = entries@;
    let ranked = rank(entries);
    let out = select(&ranked);
    proof {
        assert forall|key: Seq<char>|
            count_of(ranked@, key) == #[trigger] weight(
                rows(tokens@),
                text@,
                lowered@,
                rows(vocabulary@),
                key,
            ) by {
            assert(count_of(boosted, key) == capped(
                count_of(counted, key) + boost(text@, lowered@, rows(vocabulary@), key),
            ));
        }
        assert forall|key: Seq<char>| listed(ranked@, key) == (count_of(ranked@, key) > 0) by {
            if listed(ranked@, key) {
                let m = choose|m: int|
                    0 <= m < ranked.len() && (#[trigger] ranked[m]).token@ == key;
                lemma_count_at(ranked@, m);
            }
        }
        let shown = rows(out@);
        if forall|m: int| 0 <= m < ranked.len() ==> !has_signal((#[trigger] ranked[m]).token@) {
            assert forall|key: Seq<char>|
                !(#[trigger] weight(rows(tokens@), text@, lowered@, rows(vocabulary@), key) > 0
                    && has_signal(key)) by {
                if listed(ranked@, key) {
                    let m = choose|m: int|
                        0 <= m < ranked.len() && (#[trigger] ranked[m]).token@ == key;
                }
            }
        } else {
            let m = choose|m: int| 0 <= m < ranked.len() && has_signal((#[trigger] ranked[m]).token@);
            lemma_count_at(ranked@, m);
            assert(weight(rows(tokens@), text@, lowered@, rows(vocabulary@), ranked[m].token@) > 0);
            assert forall|key: Seq<char>|
                #[trigger] weight(rows(tokens@), text@, lowered@, rows(vocabulary@), key) > 0
                    && has_signal(key) && !shown.contains(key) implies shown.len() == 8
                && outranks(
                shown[7],
                weight(rows(tokens@), text@, lowered@, rows(vocabulary@), shown[7]),
                key,
                weight(rows(tokens@), text@, lowered@, rows(vocabulary@), key),
            ) by {
            }
        }
    }
    out
}


/// Some key has a positive weight and carries signal.
pub open spec fn has_candidate(
    tokens: Seq<Seq<char>>,
    text: Seq<char>,
    lowered: Seq<char>,
    vocabulary: Seq<Seq<char>>,
) -> bool {
    !forall|key: Seq<char>|
        !(#[trigger] weight(tokens, text, lowered, vocabulary, key) > 0 && has_signal(key))
}

/// Two keyword lists for the same weights cannot differ first at a place
/// where the key of the one outranks the key of the other.
proof fn lemma_no_early_difference(
    x: Seq<Seq<char>>,
    y: Seq<Seq<char>>,
    tokens: Seq<Seq<char>>,
    text: Seq<char>,
    lowered: Seq<char>,
    vocabulary: Seq<Seq<char>>,
    i: int,
)
    requires
        has_candidate(tokens, text, lowered, vocabulary),
        is_keyword_list(x, tokens, text, lowered, vocabulary),
        is_keyword_list(y, tokens, text, lowered, vocabulary),
        0 <= i < x.len(),
        i < y.len(),
        forall|k: int| 0 <= k < i ==> x[k] == y[k],
    ensures
        !outranks(
            x[i],
            weight(tokens, text, lowered, vocabulary, x[i]),
            y[i],
            weight(tokens, text, lowered, vocabulary, y[i]),
        ),
{
    let a = x[i];
    let b = y[i];
    let wa = weight(tokens, text, lowered, vocabulary, a);
    let wb = weight(tokens, text, lowered, vocabulary, b);
    lemma_outranks_asymmetric(a, wa, b, wb);
    lemma_outranks_asymmetric(a, wa, a, wa);
    if outranks(a, wa, b, wb) && !y.contains(a) && i < 7 {
        let last = y[7];
        let wl = weight(tokens, text, lowered, vocabulary, last);
        lemma_outranks_transitive(b, wb, last, wl, a, wa);
    }
}

proof fn lemma_lists_agree(
    x: Seq<Seq<char>>,
    y: Seq<Seq<char>>,
    tokens: Seq<Seq<char>>,
    text: Seq<char>,
    lowered: Seq<char>,
    vocabulary: Seq<Seq<char>>,
    n: int,
)
    requires
        has_candidate(tokens, text, lowered, vocabulary),
        is_keyword_list(x, tokens, text, lowered, vocabulary),
        is_keyword_list(y, tokens, text, lowered, vocabulary),
        0 <= n <= x.len(),
        n <= y.len(),
    ensures
        forall|k: int| 0 <= k < n ==> x[k] == y[k],
    decreases n,
{
    if n > 0 {
        lemma_lists_agree(x, y, tokens, text, lowered, vocabulary, n - 1);
        let i = n - 1;
        if x[i] != y[i] {
            lemma_outranks_total(
                x[i],
                weight(tokens, text, lowered, vocabulary, x[i]),
                y[i],
                weight(tokens, text, lowered, vocabulary, y[i]),
            );
            if outranks(
                x[i],
                weight(tokens, text, lowered, vocabulary, x[i]),
                y[i],
                weight(tokens, text, lowered, vocabulary, y[i]),
            ) {
                lemma_no_early_difference(x, y, tokens, text, lowered, vocabulary, i);
            } else {
                lemma_no_early_difference(y, x, tokens, text, lowered, vocabulary, i);
            }
        }
    }
}

/// Of two keyword lists that agree as far as both reach, neither is the
/// shorter one.
proof fn lemma_not_shorter(
    x: Seq<Seq<char>>,
    y: Seq<Seq<char>>,
    tokens: Seq<Seq<char>>,
    text: Seq<char>,
    lowered: Seq<char>,
    vocabulary: Seq<Seq<char>>,
)
    requires
        has_candidate(tokens, text, lowered, vocabulary),
        is_keyword_list(x, tokens, text, lowered, vocabulary),
        is_keyword_list(y, tokens, text, lowered, vocabulary),
        forall|k: int| 0 <= k < x.len() && k < y.len() ==> x[k] == y[k],
    ensures
        x.len() >= y.len(),
{
    if x.len() < y.len() {
        let n = x.len() as int;
        let key = y[n];
        let wk = weight(tokens, text, lowered, vocabulary, key);
        lemma_outranks_asymmetric(key, wk, key, wk);
    }
}

/// The keywords are determined by the weights: two lists that both are
/// keyword lists for the same tokens, text and vocabulary are equal.
pub proof fn lemma_keyword_list_unique(
    x: Seq<Seq<char>>,
    y: Seq<Seq<char>>,
    tokens: Seq<Seq<char>>,
    text: Seq<char>,
    lowered: Seq<char>,
    vocabulary: Seq<Seq<char>>,
)
    requires
        is_keyword_list(x, tokens, text, lowered, vocabulary),
        is_keyword_list(y, tokens, text, lowered, vocabulary),
    ensures
        x == y,
{
    if has_candidate(tokens, text, lowered, vocabulary) {
        let n = if x.len() <= y.len() {
            x.len() as int
        } else {
            y.len() as int
        };
        lemma_lists_agree(x, y, tokens, text, lowered, vocabulary, n);
        lemma_not_shorter(x, y, tokens, text, lowered, vocabulary);
        lemma_not_shorter(y, x, tokens, text, lowered, vocabulary);
    }
}

/// A keyword list is never empty and never longer than eight.
pub proof fn lemma_keyword_list_len(
    out: Seq<Seq<char>>,
    tokens: Seq<Seq<char>>,
    text: Seq<char>,
    lowered: Seq<char>,
    vocabulary: Seq<Seq<char>>,
)
    requires
        is_keyword_list(out, tokens, text, lowered, vocabulary),
    ensures
        1 <= out.len() <= 8,
{
}

/// The boost of two vocabularies one behind the other is the sum of their
/// boosts.
pub proof fn lemma_boost_of_parts(
    text: Seq<char>,
    lowered: Seq<char>,
    first: Seq<Seq<char>>,
    second: Seq<Seq<char>>,
    key: Seq<char>,
)
    ensures
        boost(text, lowered, first + second, key) == boost(text, lowered, first, key) + boost(
            text,
            lowered,
            second,
            key,
        ),
    decreases second.len(),
{
    if second.len() == 0 {
        assert(first + second =~= first);
    } else {
        assert((first + second).drop_last() =~= first + second.drop_last());
        assert((first + second).last() == second.last());
        lemma_boost_of_parts(text, lowered, first, second.drop_last(), key);
    }
}

/// The order in which the vocabulary holds its terms does not matter to
/// the weights: two parts of a vocabulary may change places.
pub proof fn lemma_weight_ignores_order(
    tokens: Seq<Seq<char>>,
    text: Seq<char>,
    lowered: Seq<char>,
    first: Seq<Seq<char>>,
    second: Seq<Seq<char>>,
    key: Seq<char>,
)
    ensures
        weight(tokens, text, lowered, first + second, key) == weight(
            tokens,
            text,
            lowered,
            second + first,
            key,
        ),
{
    lemma_boost_of_parts(text, lowered, first, second, key);
    lemma_boost_of_parts(text, lowered, second, first, key);
}

/// One more vocabulary term adds to the weight of its own key and leaves
/// the weight of every other key as it was.
pub proof fn lemma_term_raises_own_key(
    tokens: Seq<Seq<char>>,
    text: Seq<char>,
    lowered: Seq<char>,
    vocabulary: Seq<Seq<char>>,
    term: Seq<char>,
    other: Seq<char>,
)
    ensures
        weight(tokens, text, lowered, vocabulary.push(term), term_key(term)) >= weight(
            tokens,
            text,
            lowered,
            vocabulary,
            term_key(term),
        ),
        other != term_key(term) ==> weight(tokens, text, lowered, vocabulary.push(term), other)
            == weight(tokens, text, lowered, vocabulary, other),
{
    assert(vocabulary.push(term).drop_last() == vocabulary);
}

/// Boosting never costs a term its rank: if, without a vocabulary term, the
/// key of the term outranks another key, it still does so once the term is
/// added to the vocabulary.
pub proof fn lemma_boost_keeps_rank(
    tokens: Seq<Seq<char>>,
    text: Seq<char>,
    lowered: Seq<char>,
    vocabulary: Seq<Seq<char>>,
    term: Seq<char>,
    other: Seq<char>,
)
    requires
        other != term_key(term),
        outranks(
            term_key(term),
            weight(tokens, text, lowered, vocabulary, term_key(term)),
            other,
            weight(tokens, text, lowered, vocabulary, other),
        ),
    ensures
        outranks(
            term_key(term),
            weight(tokens, text, lowered, vocabulary.push(term), term_key(term)),
            other,
            weight(tokens, text, lowered, vocabulary.push(term), other),
        ),
{
    lemma_term_raises_own_key(tokens, text, lowered, vocabulary, term, other);
}

/// A vocabulary term that occurs in the text gives its key a positive
/// weight, so that the key can be ranked at all.
pub proof fn lemma_found_term_has_weight(
    tokens: Seq<Seq<char>>,
    text: Seq<char>,
    lowered: Seq<char>,
    vocabulary: Seq<Seq<char>>,
    term: Seq<char>,
)
    requires
        term_hits(text, lowered, term) >= 1,
    ensures
        weight(tokens, text, lowered, vocabulary.push(term), term_key(term)) >= 3,
{
}


/// A list without repetition whose members all occur in another list is no
/// longer than that list.
proof fn lemma_distinct_members_fit(inner: Seq<Seq<char>>, outer: Seq<Seq<char>>)
    requires
        inner.no_duplicates(),
        forall|i: int| 0 <= i < inner.len() ==> outer.contains(#[trigger] inner[i]),
    ensures
        inner.len() <= outer.len(),
{
    inner.unique_seq_to_set();
    outer.lemma_cardinality_of_set();
    vstd::seq_lib::seq_to_set_is_finite(outer);
    assert(inner.to_set().subset_of(outer.to_set())) by {
        assert forall|x: Seq<char>| inner.to_set().contains(x) implies outer.to_set().contains(
            x,
        ) by {
        }
    }
    vstd::set_lib::lemma_len_subset(inner.to_set(), outer.to_set());
}

/// The keys at the head of a keyword list are all different.
proof fn lemma_keyword_list_is_distinct(
    out: Seq<Seq<char>>,
    tokens: Seq<Seq<char>>,
    text: Seq<char>,
    lowered: Seq<char>,
    vocabulary: Seq<Seq<char>>,
    n: int,
)
    requires
        has_candidate(tokens, text, lowered, vocabulary),
        is_keyword_list(out, tokens, text, lowered, vocabulary),
        0 <= n <= out.len(),
    ensures
        out.take(n).no_duplicates(),
{
    assert forall|x: int, y: int| 0 <= x < n && 0 <= y < n && x != y implies out.take(n)[x]
        != out.take(n)[y] by {
        let a = out[x];
        let wa = weight(tokens, text, lowered, vocabulary, a);
        lemma_outranks_asymmetric(a, wa, a, wa);
        if y < x {
            assert(outranks(
                out[y],
                weight(tokens, text, lowered, vocabulary, out[y]),
                out[x],
                wa,
            ));
        }
    }
}

/// A key that outranks the key of a new term once the term is in the
/// vocabulary stood before that key in the keyword list without the term.
proof fn lemma_outranking_key_stood_before(
    before: Seq<Seq<char>>,
    tokens: Seq<Seq<char>>,
    text: Seq<char>,
    lowered: Seq<char>,
    vocabulary: Seq<Seq<char>>,
    term: Seq<char>,
    i: int,
    other: Seq<char>,
)
    requires
        has_candidate(tokens, text, lowered, vocabulary),
        is_keyword_list(before, tokens, text, lowered, vocabulary),
        0 <= i < before.len(),
        before[i] == term_key(term),
        other != term_key(term),
        weight(tokens, text, lowered, vocabulary.push(term), other) > 0,
        has_signal(other),
        outranks(
            other,
            weight(tokens, text, lowered, vocabulary.push(term), other),
            term_key(term),
            weight(tokens, text, lowered, vocabulary.push(term), term_key(term)),
        ),
    ensures
        before.take(i).contains(other),
{
    let key = term_key(term);
    let grown = vocabulary.push(term);
    let w0k = weight(tokens, text, lowered, vocabulary, key);
    let w0o = weight(tokens, text, lowered, vocabulary, other);
    let w1k = weight(tokens, text, lowered, grown, key);
    let w1o = weight(tokens, text, lowered, grown, other);
    lemma_term_raises_own_key(tokens, text, lowered, vocabulary, term, other);
    lemma_outranks_total(other, w0o, key, w0k);
    lemma_outranks_asymmetric(other, w1o, key, w1k);
    lemma_outranks_asymmetric(other, w0o, key, w0k);
    if before.contains(other) {
        let p = choose|p: int| 0 <= p < before.len() && before[p] == other;
        assert(before.take(i)[p] == other);
    } else {
        let last = before[7];
        let wl = weight(tokens, text, lowered, vocabulary, last);
        if i < 7 {
            lemma_outranks_transitive(key, w0k, last, wl, other, w0o);
        }
    }
}

/// Boosting never costs a term its place: if the key of a term stands at
/// place `i` of the keyword list, then in the keyword list for the
/// vocabulary with the term added it stands at place `i` or before.
pub proof fn lemma_boost_keeps_place(
    before: Seq<Seq<char>>,
    after: Seq<Seq<char>>,
    tokens: Seq<Seq<char>>,
    text: Seq<char>,
    lowered: Seq<char>,
    vocabulary: Seq<Seq<char>>,
    term: Seq<char>,
    i: int,
)
    requires
        is_keyword_list(before, tokens, text, lowered, vocabulary),
        is_keyword_list(after, tokens, text, lowered, vocabulary.push(term)),
        0 <= i < before.len(),
        before[i] == term_key(term),
    ensures
        exists|j: int| 0 <= j <= i && j < after.len() && after[j] == term_key(term),
{
    let key = term_key(term);
    let grown = vocabulary.push(term);
    let w1k = weight(tokens, text, lowered, grown, key);
    lemma_term_raises_own_key(tokens, text, lowered, vocabulary, term, key);
    if !has_candidate(tokens, text, lowered, vocabulary) {
        if has_candidate(tokens, text, lowered, grown) {
            let first = after[0];
            lemma_term_raises_own_key(tokens, text, lowered, vocabulary, term, first);
        }
    } else {
        let reach = if after.contains(key) {
            choose|j: int| 0 <= j < after.len() && after[j] == key
        } else {
            after.len() as int
        };
        let head = after.take(reach);
        lemma_keyword_list_is_distinct(after, tokens, text, lowered, grown, reach);
        assert forall|m: int| 0 <= m < head.len() implies before.take(i).contains(
            #[trigger] head[m],
        ) by {
            let other = after[m];
            let w1o = weight(tokens, text, lowered, grown, other);
            lemma_outranks_asymmetric(key, w1k, key, w1k);
            if !after.contains(key) && m < 7 {
                let last = after[7];
                let wl = weight(tokens, text, lowered, grown, last);
                lemma_outranks_transitive(other, w1o, last, wl, key, w1k);
            }
            lemma_outranking_key_stood_before(
                before,
                tokens,
                text,
                lowered,
                vocabulary,
                term,
                i,
                other,
            );
        }
        lemma_distinct_members_fit(head, before.take(i));
    }
}

} // verus!
