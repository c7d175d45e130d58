//! What is taken from the capture source: which texts look like prompts,
//! which are new, and how a captured prompt is titled and laid out.

use crate::analysis::{text_of, PromptAnalysis};
use crate::chars::CharClass;
use crate::extract::{table_of, theme_separator};
use crate::text::{
    append, chars_of, contains, has_part, join, join_with, prefix, rows, rows_of, same, split,
    split_class, string_of, take_prefix, texts, trim, trim_class,
};
use vstd::prelude::*;

verus! {

/// The smallest number of characters of a prompt.
pub const MIN_PROMPT_LEN: usize = 8;

/// The largest number of characters of a prompt.
pub const MAX_PROMPT_LEN: usize = 600;

/// The largest number of lines of a prompt.
pub const MAX_PROMPT_LINES: usize = 12;

/// The number of dialogue lines at which a text is no prompt.
pub const DIALOGUE_LINES: usize = 6;

/// The number of address marks at which a text is no prompt.
pub const ADDRESS_MARKS: usize = 3;

/// The number of characters of a title.
pub const TITLE_LEN: usize = 80;

/// The title of a text without a first line: `剪贴板导入`.
pub open spec fn default_title() -> Seq<char> {
    "\u{526a}\u{8d34}\u{677f}\u{5bfc}\u{5165}"@
}

/// The title of a text: the first 80 characters of its first line without
/// the white space at its ends, or the default title if nothing is left.
pub open spec fn title_of(body: Seq<char>) -> Seq<char> {
    let line = trim(split(body, CharClass::LineBreak)[0], CharClass::Whitespace);
    if line.len() == 0 {
        default_title()
    } else {
        prefix(line, 80)
    }
}

/// A line reads like dialogue if it holds a colon, `:` or `：`.
pub open spec fn is_dialogue(line: Seq<char>) -> bool {
    line.contains(':') || line.contains('\u{ff1a}')
}

/// The number of lines that read like dialogue.
pub open spec fn dialogue_count(lines: Seq<Seq<char>>) -> nat
    decreases lines.len(),
{
    if lines.len() == 0 {
        0
    } else {
        dialogue_count(lines.drop_last()) + if is_dialogue(lines.last()) {
            1nat
        } else {
            0nat
        }
    }
}

/// The marks of a web address.
pub open spec fn address_marks() -> Seq<Seq<char>> {
    seq!["http://"@, "https://"@, ".com"@, ".net"@, ".org"@]
}

/// The number of texts of `table` that `text` contains.
pub open spec fn contained_count(text: Seq<char>, table: Seq<Seq<char>>) -> nat
    decreases table.len(),
{
    if table.len() == 0 {
        0
    } else {
        contained_count(text, table.drop_last()) + if contains(text, table.last()) {
            1nat
        } else {
            0nat
        }
    }
}

/// Whether a text, white space at its ends aside, can be a prompt: it has 8
/// to 600 characters, at most 12 lines, fewer than 6 lines of dialogue, and
/// fewer than 3 of the marks of a web address.
pub open spec fn potential_prompt(text: Seq<char>) -> bool {
    let body = trim(text, CharClass::Whitespace);
    &&& 8 <= body.len() <= 600
    &&& split(body, CharClass::LineBreak).len() <= 12
    &&& dialogue_count(split(body, CharClass::LineBreak)) < 6
    &&& contained_count(body, address_marks()) < 3
}

/// `角色：`
pub open spec fn role_label() -> Seq<char> {
    "\u{89d2}\u{8272}\u{ff1a}"@
}

/// `主题：`
pub open spec fn theme_label() -> Seq<char> {
    "\u{4e3b}\u{9898}\u{ff1a}"@
}

/// `对象：`
pub open spec fn target_label() -> Seq<char> {
    "\u{5bf9}\u{8c61}\u{ff1a}"@
}

/// `关键词：`
pub open spec fn keyword_label() -> Seq<char> {
    "\u{5173}\u{952e}\u{8bcd}\u{ff1a}"@
}

/// `摘要：`
pub open spec fn summary_label() -> Seq<char> {
    "\u{6458}\u{8981}\u{ff1a}"@
}

/// `原文：`
pub open spec fn source_label() -> Seq<char> {
    "\u{539f}\u{6587}\u{ff1a}"@
}

/// The theme of an analysis, or else its topic.
pub open spec fn subject(analysis: PromptAnalysis) -> Option<Seq<char>> {
    match text_of(analysis.theme) {
        Some(theme) => Some(theme),
        None => text_of(analysis.topic),
    }
}

/// The lines of a laid-out prompt: the role if there is one, the subject if
/// there is one, the targets if there are any, then the keywords, the
/// summary, and the text itself under its label.
pub open spec fn layout_lines(analysis: PromptAnalysis, source: Seq<char>) -> Seq<Seq<char>> {
    let role = if analysis.role@.len() > 0 {
        seq![role_label() + analysis.role@]
    } else {
        Seq::empty()
    };
    let theme = match subject(analysis) {
        Some(found) => seq![theme_label() + found],
        None => Seq::empty(),
    };
    let targets = if analysis.target_entities@.len() > 0 {
        seq![target_label() + join(texts(analysis.target_entities@), theme_separator())]
    } else {
        Seq::empty()
    };
    role + theme + targets + seq![
        keyword_label() + join(texts(analysis.suggested_tags@), theme_separator()),
        summary_label() + analysis.summary@,
        source_label(),
        trim(source, CharClass::Whitespace),
    ]
}

/// The laid-out prompt: its lines with a line feed between each two.
pub open spec fn layout(analysis: PromptAnalysis, source: Seq<char>) -> Seq<char> {
    join(layout_lines(analysis, source), seq!['\n'])
}

/// Derives the title of a captured text.
pub fn derive_title(body: &str) -> (title: String)
    ensures
        title@ == title_of(body@),
{
    let chars = chars_of(body);
    let lines = split_class(&chars, CharClass::LineBreak);
    proof {
        crate::text::lemma_split_nonempty(chars@, CharClass::LineBreak);
    }
    let line = trim_class(&lines[0], CharClass::Whitespace);
    if line.len() == 0 {
        "\u{526a}\u{8d34}\u{677f}\u{5bfc}\u{5165}".to_owned()
    } else {
        let shown = take_prefix(&line, TITLE_LEN);
        string_of(&shown)
    }
}

/// Whether the text holds the character.
pub fn has_char(text: &Vec<char>, c: char) -> (yes: bool)
    ensures
        yes == text@.contains(c),
{
    let mut i: usize = 0;
    while i < text.len()
        invariant
            i <= text.len(),
            forall|k: int| 0 <= k < i ==> text@[k] != c,
        decreases text.len() - i,
    {
        if text[i] == c {
            return true;
        }
        i += 1;
    }
    false
}

/// Counts the lines that read like dialogue.
pub fn count_dialogue(lines: &Vec<Vec<char>>) -> (count: usize)
    ensures
        count == dialogue_count(rows(lines@)),
{
    let mut count: usize = 0;
    let mut i: usize = 0;
    while i < lines.len()
        invariant
            i <= lines.len(),
            count <= i,
            count == dialogue_count(rows(lines@).take(i as int)),
        decreases lines.len() - i,
    {
        assert(rows(lines@).take(i + 1).drop_last() == rows(lines@).take(i as int));
        if has_char(&lines[i], ':') || has_char(&lines[i], '\u{ff1a}') {
            count += 1;
        }
        i += 1;
    }
    assert(rows(lines@).take(i as int) == rows(lines@));
    count
}

/// Counts the texts of `table` that `text` contains.
pub fn count_contained(text: &Vec<char>, table: &Vec<Vec<char>>) -> (count: usize)
    ensures
        count == contained_count(text@, rows(table@)),
{
    let mut count: usize = 0;
    let mut i: usize = 0;
    while i < table.len()
        invariant
            i <= table.len(),
            count <= i,
            count == contained_count(text@, rows(table@).take(i as int)),
        decreases table.len() - i,
    {
        assert(rows(table@).take(i + 1).drop_last() == rows(table@).take(i as int));
        if has_part(text, &table[i]) {
            count += 1;
        }
        i += 1;
    }
    assert(rows(table@).take(i as int) == rows(table@));
    count
}

/// The marks of a web address as rows of characters.
pub fn address_mark_table() -> (table: Vec<Vec<char>>)
    ensures
        rows(table@) == address_marks(),
{
    let list: Vec<&'static str> = vec!["http://", "https://", ".com", ".net", ".org"];
    let table = table_of(&list);
    table
}

/// Whether a text, held as characters, can be a prompt.
pub fn looks_like_prompt(text: &Vec<char>) -> (yes: bool)
    ensures
        yes == potential_prompt(text@),
{
    let body = trim_class(text, CharClass::Whitespace);
    if body.len() < MIN_PROMPT_LEN || body.len() > MAX_PROMPT_LEN {
        return false;
    }
    let lines = split_class(&body, CharClass::LineBreak);
    if lines.len() > MAX_PROMPT_LINES {
        return false;
    }
    if count_dialogue(&lines) >= DIALOGUE_LINES {
        return false;
    }
    let marks = address_mark_table();
    if count_contained(&body, &marks) >= ADDRESS_MARKS {
        return false;
    }
    true
}

/// Whether a text can be a prompt.
pub fn is_potential_prompt(text: &str) -> (yes: bool)
    ensures
        yes == potential_prompt(text@),
{
    let chars = chars_of(text);
    looks_like_prompt(&chars)
}

/// A label with a text behind it.
fn labelled(label: &str, value: &Vec<char>) -> (line: Vec<char>)
    ensures
        line@ == label@ + value@,
{
    let mut line = chars_of(label);
    append(&mut line, value);
    line
}

/// Lays out a captured prompt with what its analysis found.
pub fn build_structured_body(analysis: &PromptAnalysis, source: &str) -> (out: String)
    ensures
        out@ == layout(*analysis, source@),
{
    let separator = chars_of("\u{3001}");
    let mut lines: Vec<Vec<char>> = Vec::new();
    if !analysis.role.as_str().is_empty() {
        let role = chars_of(analysis.role.as_str());
        let line = labelled("\u{89d2}\u{8272}\u{ff1a}", &role);
        proof {
            crate::text::lemma_rows_push(lines@, line);
        }
        lines.push(line);
    }
    let subject = match &analysis.theme {
        Some(theme) => Some(chars_of(theme.as_str())),
        None => match &analysis.topic {
            Some(topic) => Some(chars_of(topic.as_str())),
            None => None,
        },
    };
    match subject {
        Some(found) => {
            let line = labelled("\u{4e3b}\u{9898}\u{ff1a}", &found);
            proof {
                crate::text::lemma_rows_push(lines@, line);
            }
            lines.push(line);
        },
        None => {},
    }
    if analysis.target_entities.len() > 0 {
        let targets = rows_of(&analysis.target_entities);
        let joined = join_with(&targets, &separator);
        let line = labelled("\u{5bf9}\u{8c61}\u{ff1a}", &joined);
        proof {
            crate::text::lemma_rows_push(lines@, line);
        }
        lines.push(line);
    }
    let tags = rows_of(&analysis.suggested_tags);
    let joined = join_with(&tags, &separator);
    let keyword_line = labelled("\u{5173}\u{952e}\u{8bcd}\u{ff1a}", &joined);
    proof {
        crate::text::lemma_rows_push(lines@, keyword_line);
    }
    lines.push(keyword_line);
    let summary = chars_of(analysis.summary.as_str());
    let summary_line = labelled("\u{6458}\u{8981}\u{ff1a}", &summary);
    proof {
        crate::text::lemma_rows_push(lines@, summary_line);
    }
    lines.push(summary_line);
    let source_line = chars_of("\u{539f}\u{6587}\u{ff1a}");
    proof {
        crate::text::lemma_rows_push(lines@, source_line);
    }
    lines.push(source_line);
    let whole = chars_of(source);
    let body = trim_class(&whole, CharClass::Whitespace);
    proof {
        crate::text::lemma_rows_push(lines@, body);
    }
    lines.push(body);
    let feed = chars_of("\n");
    proof {
        reveal_strlit("\n");
        assert(feed@ =~= seq!['\n']);
        assert(rows(lines@) =~= layout_lines(*analysis, source@));
    }
    let out = join_with(&lines, &feed);
    string_of(&out)
}

/// The filter in front of the capture: it lets a text through if it can be
/// a prompt and differs from the text it let through last.
pub struct CaptureFilter {
    last: Vec<char>,
}

impl CaptureFilter {
    /// The text that was let through last; empty at the start.
    pub closed spec fn last_seen(&self) -> Seq<char> {
        self.last@
    }

    /// A filter that has let nothing through yet.
    pub fn new() -> (filter: Self)
        ensures
            filter.last_seen().len() == 0,
    {
        CaptureFilter { last: Vec::new() }
    }

    /// Takes in a text from the capture source. The text without the white
    /// space at its ends is let through, and remembered, if it can be a
    /// prompt and is not the text remembered; otherwise nothing comes out
    /// and nothing changes.
    pub fn screen(&mut self, text: &str) -> (candidate: Option<String>)
        ensures
            match candidate {
                Some(found) => {
                    &&& found@ == trim(text@, CharClass::Whitespace)
                    &&& potential_prompt(found@)
                    &&& found@ != old(self).last_seen()
                    &&& final(self).last_seen() == found@
                },
                None => {
                    &&& !potential_prompt(trim(text@, CharClass::Whitespace)) || trim(
                        text@,
                        CharClass::Whitespace,
                    ) == old(self).last_seen()
                    &&& final(self).last_seen() == old(self).last_seen()
                },
            },
    {
        let chars = chars_of(text);
        let body = trim_class(&chars, CharClass::Whitespace);
        if !looks_like_prompt(&body) {
            return None;
        }
        if same(&body, &self.last) {
            return None;
        }
        let found = string_of(&body);
        self.last = body;
        Some(found)
    }
}

} // verus!
