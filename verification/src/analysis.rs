//! The analysis of a prompt text: a summary, ranked tags, and what the text
//! is about.

use crate::chars::CharClass;
use crate::ident::{fresh_id, is_identifier};
use crate::extract::{
    derive_role, derive_theme, derive_topic, extract_targets, is_target_list, role, theme, topic,
};
use crate::keywords::{
    boost, extract_keywords, fallback_keyword, is_keyword_list, lemma_keyword_list_unique,
    unicode_lowercase, weight,
};
use crate::ordered::lemma_head_unique;
use crate::segment::{tokens, Segmenter};
use crate::text::{
    append, chars_of, prefix, rows, string_of, take_prefix, texts, texts_of, trim, trim_class,
};
use vstd::prelude::*;

verus! {

/// The number of characters of the text that a summary shows.
pub const PREVIEW_LEN: usize = 160;

/// The result of analysing one text.
#[derive(Debug, Clone)]
pub struct PromptAnalysis {
    pub id: String,
    pub summary: String,
    pub suggested_tags: Vec<String>,
    pub length: usize,
    pub topic: Option<String>,
    pub theme: Option<String>,
    pub role: String,
    pub target_entities: Vec<String>,
}

/// The summary of an empty text: `请输入有效的提示词以触发分析`.
pub open spec fn empty_summary() -> Seq<char> {
    "\u{8bf7}\u{8f93}\u{5165}\u{6709}\u{6548}\u{7684}\u{63d0}\u{793a}\u{8bcd}\u{4ee5}\u{89e6}\u{53d1}\u{5206}\u{6790}"@
}

/// What a summary starts with: `提示词概览：`.
pub open spec fn summary_lead() -> Seq<char> {
    "\u{63d0}\u{793a}\u{8bcd}\u{6982}\u{89c8}\u{ff1a}"@
}

/// The summary of a text: a fixed message if it is empty, else its first 160
/// characters behind a fixed lead.
pub open spec fn summary_of(text: Seq<char>) -> Seq<char> {
    if text.len() == 0 {
        empty_summary()
    } else {
        summary_lead() + prefix(text, 160)
    }
}

/// The text of an optional string.
pub open spec fn text_of(value: Option<String>) -> Option<Seq<char>> {
    match value {
        Some(s) => Some(s@),
        None => None,
    }
}

impl PromptAnalysis {
    /// Whether this is the analysis of `text`, read as the given tokens,
    /// with `lowered` for its lower case and with the given vocabulary. The
    /// identifier is left open.
    pub open spec fn describes(
        self,
        text: Seq<char>,
        tokens: Seq<Seq<char>>,
        lowered: Seq<char>,
        vocabulary: Seq<Seq<char>>,
    ) -> bool {
        &&& self.summary@ == summary_of(text)
        &&& is_keyword_list(texts(self.suggested_tags@), tokens, text, lowered, vocabulary)
        &&& self.length == text.len()
        &&& is_target_list(texts(self.target_entities@), tokens)
        &&& text_of(self.theme) == theme(
            texts(self.suggested_tags@),
            texts(self.target_entities@),
            text,
        )
        &&& text_of(self.topic) == topic(text)
        &&& self.role@ == role(text)
    }
}

/// The string of an optional row of characters.
fn text_string(value: Option<Vec<char>>) -> (out: Option<String>)
    ensures
        text_of(out) == match value {
            Some(v) => Some(v@),
            None => None,
        },
{
    match value {
        Some(v) => Some(string_of(&v)),
        None => None,
    }
}

/// The terms of a vocabulary as rows of characters.
fn terms_of(vocabulary: &[String]) -> (out: Vec<Vec<char>>)
    ensures
        rows(out@) == texts(vocabulary@),
{
    let mut out: Vec<Vec<char>> = Vec::new();
    let mut i: usize = 0;
    while i < vocabulary.len()
        invariant
            i <= vocabulary.len(),
            out.len() == i,
            forall|k: int| 0 <= k < i ==> out[k]@ == vocabulary[k]@,
        decreases vocabulary.len() - i,
    {
        out.push(chars_of(vocabulary[i].as_str()));
        i += 1;
    }
    out
}

/// The summary of a text.
pub fn summarize_text(text: &Vec<char>) -> (out: Vec<char>)
    ensures
        out@ == summary_of(text@),
{
    if text.len() == 0 {
        chars_of(
            "\u{8bf7}\u{8f93}\u{5165}\u{6709}\u{6548}\u{7684}\u{63d0}\u{793a}\u{8bcd}\u{4ee5}\u{89e6}\u{53d1}\u{5206}\u{6790}",
        )
    } else {
        let mut out = chars_of("\u{63d0}\u{793a}\u{8bcd}\u{6982}\u{89c8}\u{ff1a}");
        let shown = take_prefix(text, PREVIEW_LEN);
        append(&mut out, &shown);
        out
    }
}

/// Puts an analysis together from a text without white space at its ends,
/// its tokens, its lower case, and the vocabulary.
pub fn assemble(
    id: String,
    text: &Vec<char>,
    tokens: &Vec<Vec<char>>,
    lowered: &Vec<char>,
    vocabulary: &Vec<Vec<char>>,
) -> (analysis: PromptAnalysis)
    ensures
        analysis.id@ == id@,
        analysis.describes(text@, rows(tokens@), lowered@, rows(vocabulary@)),
        1 <= analysis.suggested_tags@.len() <= 8,
        analysis.target_entities@.len() <= 5,
{
    let summary = summarize_text(text);
    let keywords = extract_keywords(tokens, text, lowered, vocabulary);
    let targets = extract_targets(tokens);
    let theme = derive_theme(&keywords, &targets, text);
    let topic = derive_topic(text);
    let role = derive_role(text);
    let analysis = PromptAnalysis {
        id,
        summary: string_of(&summary),
        suggested_tags: texts_of(&keywords),
        length: text.len(),
        topic: text_string(topic),
        theme: text_string(theme),
        role: string_of(&role),
        target_entities: texts_of(&targets),
    };
    proof {
        crate::keywords::lemma_keyword_list_len(
            rows(keywords@),
            rows(tokens@),
            text@,
            lowered@,
            rows(vocabulary@),
        );
    }
    analysis
}

impl Segmenter {
    /// Analyses a text with the given vocabulary. White space at the ends of
    /// the text does not count.
    pub fn summarize(&self, body: &str, vocabulary: &[String]) -> (analysis: PromptAnalysis)
        ensures
            is_identifier(analysis.id@),
            analysis.describes(
                trim(body@, CharClass::Whitespace),
                tokens(trim(body@, CharClass::Whitespace)),
                unicode_lowercase(trim(body@, CharClass::Whitespace)),
                texts(vocabulary@),
            ),
            1 <= analysis.suggested_tags@.len() <= 8,
            analysis.target_entities@.len() <= 5,
            trim(body@, CharClass::Whitespace).len() == 0 ==> analysis.summary@ == empty_summary()
                && analysis.length == 0 && texts(analysis.suggested_tags@) == seq![
                fallback_keyword(),
            ],
    {
        let whole = chars_of(body);
        let text = trim_class(&whole, CharClass::Whitespace);
        let plain = string_of(&text);
        let found = self.tokenize(plain.as_str());
        let lowered = chars_of(plain.to_lowercase().as_str());
        let terms = terms_of(vocabulary);
        let analysis = assemble(fresh_id(), &text, &found, &lowered, &terms);
        proof {
            if text@.len() == 0 {
                lemma_empty_text_falls_back(
                    texts(analysis.suggested_tags@),
                    text@,
                    rows(found@),
                    lowered@,
                    texts(vocabulary@),
                );
            }
        }
        analysis
    }
}

/// Analyses a text with the given vocabulary, with a segmenter of its own.
pub fn summarize_prompt_with_vocab(body: &str, vocabulary: &[String]) -> (analysis:
    PromptAnalysis)
    ensures
        is_identifier(analysis.id@),
        analysis.describes(
            trim(body@, CharClass::Whitespace),
            tokens(trim(body@, CharClass::Whitespace)),
            unicode_lowercase(trim(body@, CharClass::Whitespace)),
            texts(vocabulary@),
        ),
        1 <= analysis.suggested_tags@.len() <= 8,
        analysis.target_entities@.len() <= 5,
        trim(body@, CharClass::Whitespace).len() == 0 ==> analysis.summary@ == empty_summary()
            && analysis.length == 0 && texts(analysis.suggested_tags@) == seq![fallback_keyword()],
{
    let segmenter = Segmenter::new();
    segmenter.summarize(body, vocabulary)
}

/// Analyses a text without a vocabulary.
pub fn summarize_prompt(body: &str) -> (analysis: PromptAnalysis)
    ensures
        is_identifier(analysis.id@),
        analysis.describes(
            trim(body@, CharClass::Whitespace),
            tokens(trim(body@, CharClass::Whitespace)),
            unicode_lowercase(trim(body@, CharClass::Whitespace)),
            Seq::empty(),
        ),
        1 <= analysis.suggested_tags@.len() <= 8,
        analysis.target_entities@.len() <= 5,
        trim(body@, CharClass::Whitespace).len() == 0 ==> analysis.summary@ == empty_summary()
            && analysis.length == 0 && texts(analysis.suggested_tags@) == seq![fallback_keyword()],
{
    let vocabulary: Vec<String> = Vec::new();
    assert(texts(vocabulary@) =~= Seq::<Seq<char>>::empty());
    summarize_prompt_with_vocab(body, vocabulary.as_slice())
}

/// In an empty text no vocabulary term occurs.
pub proof fn lemma_empty_text_has_no_boost(
    text: Seq<char>,
    lowered: Seq<char>,
    vocabulary: Seq<Seq<char>>,
    key: Seq<char>,
)
    requires
        text.len() == 0,
    ensures
        boost(text, lowered, vocabulary, key) == 0,
    decreases vocabulary.len(),
{
    if vocabulary.len() > 0 {
        lemma_empty_text_has_no_boost(text, lowered, vocabulary.drop_last(), key);
    }
}

/// The keywords of an empty text are the fallback keyword alone.
pub proof fn lemma_empty_text_falls_back(
    out: Seq<Seq<char>>,
    text: Seq<char>,
    tokens: Seq<Seq<char>>,
    lowered: Seq<char>,
    vocabulary: Seq<Seq<char>>,
)
    requires
        text.len() == 0,
        tokens.len() == 0,
        is_keyword_list(out, tokens, text, lowered, vocabulary),
    ensures
        out == seq![fallback_keyword()],
{
    assert forall|key: Seq<char>| #[trigger]
        weight(tokens, text, lowered, vocabulary, key) == 0 by {
        lemma_empty_text_has_no_boost(text, lowered, vocabulary, key);
    }
}

/// The analysis is determined by the text, its tokens and the vocabulary:
/// two analyses of the same input agree in everything but the identifier.
pub proof fn lemma_analysis_determined(
    first: PromptAnalysis,
    second: PromptAnalysis,
    text: Seq<char>,
    tokens: Seq<Seq<char>>,
    lowered: Seq<char>,
    vocabulary: Seq<Seq<char>>,
)
    requires
        first.describes(text, tokens, lowered, vocabulary),
        second.describes(text, tokens, lowered, vocabulary),
    ensures
        texts(first.suggested_tags@) == texts(second.suggested_tags@),
        texts(first.target_entities@) == texts(second.target_entities@),
        text_of(first.theme) == text_of(second.theme),
        text_of(first.topic) == text_of(second.topic),
        first.role@ == second.role@,
        first.summary@ == second.summary@,
        first.length == second.length,
{
    lemma_keyword_list_unique(
        texts(first.suggested_tags@),
        texts(second.suggested_tags@),
        tokens,
        text,
        lowered,
        vocabulary,
    );
    lemma_head_unique(
        texts(first.target_entities@),
        texts(second.target_entities@),
        crate::extract::announced(tokens, tokens.len() as int),
        5,
    );
}

/// The pipeline is repeatable: two analyses that it may return for the same
/// text and the same vocabulary agree in everything but the identifier.
pub proof fn lemma_summaries_agree(
    first: PromptAnalysis,
    second: PromptAnalysis,
    body: Seq<char>,
    vocabulary: Seq<Seq<char>>,
)
    requires
        first.describes(
            trim(body, CharClass::Whitespace),
            tokens(trim(body, CharClass::Whitespace)),
            unicode_lowercase(trim(body, CharClass::Whitespace)),
            vocabulary,
        ),
        second.describes(
            trim(body, CharClass::Whitespace),
            tokens(trim(body, CharClass::Whitespace)),
            unicode_lowercase(trim(body, CharClass::Whitespace)),
            vocabulary,
        ),
    ensures
        texts(first.suggested_tags@) == texts(second.suggested_tags@),
        texts(first.target_entities@) == texts(second.target_entities@),
        text_of(first.theme) == text_of(second.theme),
        text_of(first.topic) == text_of(second.topic),
        first.role@ == second.role@,
        first.summary@ == second.summary@,
        first.length == second.length,
{
    lemma_analysis_determined(
        first,
        second,
        trim(body, CharClass::Whitespace),
        tokens(trim(body, CharClass::Whitespace)),
        unicode_lowercase(trim(body, CharClass::Whitespace)),
        vocabulary,
    );
}

} // verus!
