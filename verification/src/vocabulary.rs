//! The vocabulary: a set of curated terms, each in its normal form, kept in
//! ascending order.

use crate::chars::CharClass;
use crate::json::{json_list, json_of_list_pretty, parse_list, print_list_pretty, result_text};
use crate::ordered::{insert_sorted, is_ascending, remove_sorted};
use crate::text::{
    all_ascii, chars_of, is_all_ascii, lower_ascii_text, lowered_ascii, rows, string_of, texts,
    texts_of, trim, trim_class,
};
use vstd::prelude::*;

verus! {

/// The normal form of a vocabulary term: without white space at its ends,
/// and in small letters if all of it is ASCII.
pub open spec fn normal_term(term: Seq<char>) -> Seq<char> {
    if all_ascii(trim(term, CharClass::Whitespace)) {
        lowered_ascii(trim(term, CharClass::Whitespace))
    } else {
        trim(term, CharClass::Whitespace)
    }
}

/// Why the vocabulary refuses a term.
#[derive(Clone, Copy, Debug, PartialEq, Eq, Structural)]
pub enum VocabularyError {
    /// Nothing is left of the term in its normal form.
    EmptyTerm,
}

/// A set of terms in their normal form.
pub struct Vocabulary {
    terms: Vec<Vec<char>>,
}

/// The normal form of a vocabulary term held as characters.
pub fn normal_term_of(term: &Vec<char>) -> (out: Vec<char>)
    ensures
        out@ == normal_term(term@),
{
    let cleaned = trim_class(term, CharClass::Whitespace);
    if is_all_ascii(&cleaned) {
        lower_ascii_text(&cleaned)
    } else {
        cleaned
    }
}

/// Brings a vocabulary term into its normal form.
pub fn normalize_vocab_term(term: &str) -> (out: String)
    ensures
        out@ == normal_term(term@),
{
    let chars = chars_of(term);
    let normal = normal_term_of(&chars);
    string_of(&normal)
}

impl VocabularyError {
    /// The text shown to the user for this error: `请输入有效的词条`.
    pub fn message(&self) -> (text: String)
        ensures
            text@ == "\u{8bf7}\u{8f93}\u{5165}\u{6709}\u{6548}\u{7684}\u{8bcd}\u{6761}"@,
    {
        "\u{8bf7}\u{8f93}\u{5165}\u{6709}\u{6548}\u{7684}\u{8bcd}\u{6761}".to_owned()
    }
}

impl Vocabulary {
    /// The terms in ascending order.
    pub closed spec fn view(&self) -> Seq<Seq<char>> {
        rows(self.terms@)
    }

    /// The terms are in ascending order, so none occurs twice, and none is
    /// empty.
    pub closed spec fn wf(&self) -> bool {
        &&& is_ascending(rows(self.terms@))
        &&& forall|i: int| 0 <= i < self.terms@.len() ==> (#[trigger] self.terms@[i])@.len() > 0
    }

    /// A well-formed vocabulary is in ascending order and holds no empty
    /// term.
    pub proof fn lemma_wf(&self)
        requires
            self.wf(),
        ensures
            is_ascending(self@),
            forall|i: int| 0 <= i < self@.len() ==> (#[trigger] self@[i]).len() > 0,
    {
    }

    /// The empty vocabulary.
    pub fn new() -> (vocabulary: Self)
        ensures
            vocabulary.wf(),
            vocabulary@.len() == 0,
    {
        Vocabulary { terms: Vec::new() }
    }

    /// The vocabulary of the given entries: each in its normal form, the
    /// empty ones left out.
    pub fn load(entries: &Vec<String>) -> (vocabulary: Self)
        ensures
            vocabulary.wf(),
            forall|x: Seq<char>|
                vocabulary@.contains(x) <==> x.len() > 0 && exists|i: int|
                    0 <= i < entries@.len() && normal_term(#[trigger] entries@[i]@) == x,
    {
        let mut vocabulary = Vocabulary::new();
        let mut i: usize = 0;
        while i < entries.len()
            invariant
                i <= entries.len(),
                vocabulary.wf(),
                forall|x: Seq<char>|
                    vocabulary@.contains(x) <==> x.len() > 0 && exists|k: int|
                        0 <= k < i && normal_term(#[trigger] entries@[k]@) == x,
            decreases entries.len() - i,
        {
            let ghost before = vocabulary@;
            let chars = chars_of(entries[i].as_str());
            let normal = normal_term_of(&chars);
            if normal.len() > 0 {
                vocabulary.put(normal);
            }
            proof {
                assert forall|x: Seq<char>|
                    vocabulary@.contains(x) <==> x.len() > 0 && exists|k: int|
                        0 <= k < i + 1 && normal_term(#[trigger] entries@[k]@) == x by {
                    if x.len() > 0 && exists|k: int|
                        0 <= k < i + 1 && normal_term(#[trigger] entries@[k]@) == x {
                        let k = choose|k: int|
                            0 <= k < i + 1 && normal_term(#[trigger] entries@[k]@) == x;
                    }
                    if before.contains(x) {
                        let k = choose|k: int|
                            0 <= k < i && normal_term(#[trigger] entries@[k]@) == x;
                    }
                }
            }
            i += 1;
        }
        vocabulary
    }

    /// The vocabulary that a file holds as a JSON list of strings; the empty
    /// vocabulary if the text is no such list.
    pub fn from_json(data: &str) -> (vocabulary: Self)
        ensures
            vocabulary.wf(),
            json_list(data@) is None ==> vocabulary@.len() == 0,
            json_list(data@) matches Some(entries) ==> forall|x: Seq<char>|
                vocabulary@.contains(x) <==> x.len() > 0 && exists|i: int|
                    0 <= i < entries.len() && normal_term(#[trigger] entries[i]) == x,
    {
        match parse_list(data) {
            Some(entries) => {
                let vocabulary = Vocabulary::load(&entries);
                proof {
                    let given = json_list(data@)->Some_0;
                    assert forall|x: Seq<char>|
                        vocabulary@.contains(x) <==> x.len() > 0 && exists|i: int|
                            0 <= i < given.len() && normal_term(#[trigger] given[i]) == x by {
                        if vocabulary@.contains(x) {
                            let i = choose|i: int|
                                0 <= i < entries@.len() && normal_term(#[trigger] entries@[i]@)
                                    == x;
                            assert(given[i] == entries@[i]@);
                        }
                        if x.len() > 0 && exists|i: int|
                            0 <= i < given.len() && normal_term(#[trigger] given[i]) == x {
                            let i = choose|i: int|
                                0 <= i < given.len() && normal_term(#[trigger] given[i]) == x;
                        }
                    }
                }
                vocabulary
            },
            None => Vocabulary::new(),
        }
    }

    /// The vocabulary as a JSON list of strings with one term on a line, in
    /// ascending order.
    pub fn to_json(&self) -> (text: Result<String, String>)
        ensures
            result_text(text) == json_of_list_pretty(self@),
    {
        print_list_pretty(&self.list())
    }

    /// Puts a term that is in its normal form and not empty into the set.
    fn put(&mut self, normal: Vec<char>) -> (grown: bool)
        requires
            old(self).wf(),
            normal@.len() > 0,
        ensures
            final(self).wf(),
            grown == !old(self)@.contains(normal@),
            forall|x: Seq<char>| final(self)@.contains(x) <==> old(self)@.contains(x) || x == normal@,
    {
        let ghost item = normal@;
        let grown = insert_sorted(&mut self.terms, normal);
        proof {
            assert forall|i: int| 0 <= i < self.terms@.len() implies (#[trigger] self.terms@[i])@.len()
                > 0 by {
                let x = rows(self.terms@)[i];
                assert(rows(self.terms@).contains(x));
            }
        }
        grown
    }

    /// Adds a term in its normal form. A term of which nothing is left is
    /// refused. Returns whether the vocabulary grew; a term that it held
    /// already leaves it as it was.
    pub fn add(&mut self, term: &str) -> (result: Result<bool, VocabularyError>)
        requires
            old(self).wf(),
        ensures
            final(self).wf(),
            normal_term(term@).len() == 0 <==> result is Err,
            result is Err ==> final(self)@ == old(self)@,
            result matches Ok(grown) ==> {
                &&& grown == !old(self)@.contains(normal_term(term@))
                &&& forall|x: Seq<char>|
                    final(self)@.contains(x) <==> old(self)@.contains(x) || x == normal_term(term@)
            },
    {
        let chars = chars_of(term);
        let normal = normal_term_of(&chars);
        if normal.len() == 0 {
            return Err(VocabularyError::EmptyTerm);
        }
        Ok(self.put(normal))
    }

    /// Takes the normal form of a term out of the vocabulary, and returns
    /// whether the vocabulary held it.
    pub fn remove(&mut self, term: &str) -> (shrunk: bool)
        requires
            old(self).wf(),
        ensures
            final(self).wf(),
            shrunk == old(self)@.contains(normal_term(term@)),
            forall|x: Seq<char>|
                final(self)@.contains(x) <==> old(self)@.contains(x) && x != normal_term(term@),
    {
        let chars = chars_of(term);
        let normal = normal_term_of(&chars);
        let shrunk = remove_sorted(&mut self.terms, &normal);
        proof {
            assert forall|i: int| 0 <= i < self.terms@.len() implies (#[trigger] self.terms@[i])@.len()
                > 0 by {
                let x = rows(self.terms@)[i];
                assert(rows(self.terms@).contains(x));
            }
        }
        shrunk
    }

    /// Whether the vocabulary holds the normal form of a term.
    pub fn holds(&self, term: &str) -> (yes: bool)
        ensures
            yes == self@.contains(normal_term(term@)),
    {
        let chars = chars_of(term);
        let normal = normal_term_of(&chars);
        crate::lexicon::is_listed(&self.terms, &normal)
    }

    /// The terms in ascending order.
    pub fn list(&self) -> (out: Vec<String>)
        ensures
            texts(out@) == self@,
    {
        texts_of(&self.terms)
    }

    /// The number of terms.
    pub fn len(&self) -> (n: usize)
        ensures
            n == self@.len(),
    {
        self.terms.len()
    }
}

} // verus!
