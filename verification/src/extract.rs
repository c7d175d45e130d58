//! What a text is about: the audience it names, its topic, its theme and
//! the role it assigns.

use crate::chars::CharClass;
use crate::lexicon::{is_meaningful, meaningful, normalize_token, normalized};
use crate::ordered::{is_head_of_sorted_set, sorted_head};
use crate::text::{
    chars_of, contains, cut_first, has_part, join, join_with, prefix, remove_first, rows, same,
    split, split_class, take_prefix, trim, trim_class,
};
use vstd::prelude::*;

verus! {

/// The largest number of targets that come out.
pub const TARGET_CAP: usize = 5;

/// The largest number of characters of a topic.
pub const TOPIC_LEN: usize = 32;

/// The number of characters at the start of a text in which a role is looked for.
pub const ROLE_WINDOW: usize = 200;

/// The largest number of characters of a role.
pub const ROLE_LEN: usize = 48;

/// The markers that announce an audience or a purpose:
/// `面向` `针对` `给` `为` `适合` `提供给` `适用于`.
pub open spec fn target_markers() -> Seq<Seq<char>> {
    seq![
        "\u{9762}\u{5411}"@,
        "\u{9488}\u{5bf9}"@,
        "\u{7ed9}"@,
        "\u{4e3a}"@,
        "\u{9002}\u{5408}"@,
        "\u{63d0}\u{4f9b}\u{7ed9}"@,
        "\u{9002}\u{7528}\u{4e8e}"@,
    ]
}

/// The patterns that announce a role:
/// `作为` `你是` `你将` `担任` `扮演` `role:` `角色`.
pub open spec fn role_patterns() -> Seq<Seq<char>> {
    seq![
        "\u{4f5c}\u{4e3a}"@,
        "\u{4f60}\u{662f}"@,
        "\u{4f60}\u{5c06}"@,
        "\u{62c5}\u{4efb}"@,
        "\u{626e}\u{6f14}"@,
        "role:"@,
        "\u{89d2}\u{8272}"@,
    ]
}

/// The role of a text that assigns none: `空`.
pub open spec fn no_role() -> Seq<char> {
    "\u{7a7a}"@
}

/// What stands between the targets of a theme: `、`.
pub open spec fn theme_separator() -> Seq<char> {
    "\u{3001}"@
}

/// The first text of `table`, from position `from` on, that `hay` contains.
pub open spec fn first_contained(hay: Seq<char>, table: Seq<Seq<char>>, from: int) -> Option<int>
    decreases table.len() - from,
{
    if from < 0 || from >= table.len() {
        None
    } else if contains(hay, table[from]) {
        Some(from)
    } else {
        first_contained(hay, table, from + 1)
    }
}

/// The target that the token at position `at` announces. If the token holds
/// a marker, the target is what is left of the token without the marker, or
/// else the following token, whichever is meaningful first.
pub open spec fn target_at(tokens: Seq<Seq<char>>, at: int) -> Option<Seq<char>> {
    match first_contained(tokens[at], target_markers(), 0) {
        None => None,
        Some(m) => {
            let tail = trim(remove_first(tokens[at], target_markers()[m]), CharClass::Whitespace);
            if meaningful(tail) {
                Some(normalized(tail))
            } else if at + 1 < tokens.len() && meaningful(tokens[at + 1]) {
                Some(normalized(tokens[at + 1]))
            } else {
                None
            }
        },
    }
}

/// The targets that the first `upto` tokens announce, in their order.
pub open spec fn announced(tokens: Seq<Seq<char>>, upto: int) -> Seq<Seq<char>>
    decreases upto,
{
    if upto <= 0 {
        Seq::empty()
    } else {
        match target_at(tokens, upto - 1) {
            Some(target) => announced(tokens, upto - 1).push(target),
            None => announced(tokens, upto - 1),
        }
    }
}

/// `out` is the list of targets of the tokens: the first five of the
/// distinct announced targets in ascending order.
pub open spec fn is_target_list(out: Seq<Seq<char>>, tokens: Seq<Seq<char>>) -> bool {
    is_head_of_sorted_set(out, announced(tokens, tokens.len() as int), 5)
}

/// The first line, from position `from` on, that is not blank, without the
/// white space at its ends.
pub open spec fn first_line(lines: Seq<Seq<char>>, from: int) -> Option<Seq<char>>
    decreases lines.len() - from,
{
    if from < 0 || from >= lines.len() {
        None
    } else if trim(lines[from], CharClass::Whitespace).len() > 0 {
        Some(trim(lines[from], CharClass::Whitespace))
    } else {
        first_line(lines, from + 1)
    }
}

/// The topic of a text: the first 32 characters of its first line that is
/// not blank.
pub open spec fn topic(text: Seq<char>) -> Option<Seq<char>> {
    match first_line(split(text, CharClass::LineBreak), 0) {
        Some(line) => Some(prefix(line, 32)),
        None => None,
    }
}

/// The first keyword, from position `from` on, that is not the fallback
/// keyword.
pub open spec fn first_proper(keywords: Seq<Seq<char>>, from: int) -> Option<Seq<char>>
    decreases keywords.len() - from,
{
    if from < 0 || from >= keywords.len() {
        None
    } else if keywords[from] != crate::keywords::fallback_keyword() {
        Some(keywords[from])
    } else {
        first_proper(keywords, from + 1)
    }
}

/// The theme of a text: its targets joined by `、`; without targets its first
/// proper keyword; without that its topic.
pub open spec fn theme(keywords: Seq<Seq<char>>, targets: Seq<Seq<char>>, text: Seq<char>) -> Option<
    Seq<char>,
> {
    if targets.len() > 0 {
        Some(join(targets, theme_separator()))
    } else {
        match first_proper(keywords, 0) {
            Some(keyword) => Some(keyword),
            None => topic(text),
        }
    }
}

/// The first clause, from position `from` on, that is not blank and holds a
/// role pattern, without the white space at its ends.
pub open spec fn first_role_clause(clauses: Seq<Seq<char>>, from: int) -> Option<Seq<char>>
    decreases clauses.len() - from,
{
    if from < 0 || from >= clauses.len() {
        None
    } else if trim(clauses[from], CharClass::Whitespace).len() > 0 && first_contained(
        trim(clauses[from], CharClass::Whitespace),
        role_patterns(),
        0,
    ) is Some {
        Some(trim(clauses[from], CharClass::Whitespace))
    } else {
        first_role_clause(clauses, from + 1)
    }
}

/// The role that a text assigns: the first 48 characters of the first clause
/// with a role pattern among the first 200 characters; `空` if there is none.
pub open spec fn role(text: Seq<char>) -> Seq<char> {
    match first_role_clause(split(prefix(text, 200), CharClass::ClauseBreak), 0) {
        Some(clause) => prefix(clause, 48),
        None => no_role(),
    }
}

/// The rows of characters of a list of words.
pub fn table_of(list: &Vec<&'static str>) -> (table: Vec<Vec<char>>)
    ensures
        table.len() == list.len(),
        forall|k: int| 0 <= k < list.len() ==> (#[trigger] table@[k])@ == list@[k]@,
{
    let mut table: Vec<Vec<char>> = Vec::new();
    let mut i: usize = 0;
    while i < list.len()
        invariant
            i <= list.len(),
            table.len() == i,
            forall|k: int| 0 <= k < i ==> (#[trigger] table@[k])@ == list@[k]@,
        decreases list.len() - i,
    {
        table.push(chars_of(list[i]));
        i += 1;
    }
    table
}

/// The target markers as rows of characters.
pub fn marker_table() -> (table: Vec<Vec<char>>)
    ensures
        rows(table@) == target_markers(),
{
    let list: Vec<&'static str> = vec![
        "\u{9762}\u{5411}",
        "\u{9488}\u{5bf9}",
        "\u{7ed9}",
        "\u{4e3a}",
        "\u{9002}\u{5408}",
        "\u{63d0}\u{4f9b}\u{7ed9}",
        "\u{9002}\u{7528}\u{4e8e}",
    ];
    let table = table_of(&list);
    table
}

/// The role patterns as rows of characters.
pub fn pattern_table() -> (table: Vec<Vec<char>>)
    ensures
        rows(table@) == role_patterns(),
{
    let list: Vec<&'static str> = vec![
        "\u{4f5c}\u{4e3a}",
        "\u{4f60}\u{662f}",
        "\u{4f60}\u{5c06}",
        "\u{62c5}\u{4efb}",
        "\u{626e}\u{6f14}",
        "role:",
        "\u{89d2}\u{8272}",
    ];
    let table = table_of(&list);
    table
}

/// The position of the first text of `table` that `hay` contains.
pub fn find_listed_part(hay: &Vec<char>, table: &Vec<Vec<char>>) -> (found: Option<usize>)
    ensures
        match found {
            Some(i) => first_contained(hay@, rows(table@), 0) == Some(i as int) && i < table.len(),
            None => first_contained(hay@, rows(table@), 0) is None,
        },
{
    let mut i: usize = 0;
    while i < table.len()
        invariant
            i <= table.len(),
            first_contained(hay@, rows(table@), 0) == first_contained(hay@, rows(table@), i as int),
        decreases table.len() - i,
    {
        if has_part(hay, &table[i]) {
            return Some(i);
        }
        i += 1;
    }
    None
}

/// The target that the token at position `at` announces, if any.
pub fn find_target(tokens: &Vec<Vec<char>>, at: usize, markers: &Vec<Vec<char>>) -> (found: Option<
    Vec<char>,
>)
    requires
        at < tokens.len(),
        rows(markers@) == target_markers(),
    ensures
        match found {
            Some(target) => target_at(rows(tokens@), at as int) == Some(target@),
            None => target_at(rows(tokens@), at as int) is None,
        },
{
    match find_listed_part(&tokens[at], markers) {
        None => None,
        Some(m) => {
            let cut = cut_first(&tokens[at], &markers[m]);
            let tail = trim_class(&cut, CharClass::Whitespace);
            if is_meaningful(&tail) {
                Some(normalize_token(&tail))
            } else if at + 1 < tokens.len() {
                if is_meaningful(&tokens[at + 1]) {
                    Some(normalize_token(&tokens[at + 1]))
                } else {
                    None
                }
            } else {
                None
            }
        },
    }
}

/// The targets that the tokens announce: the first five of the distinct
/// ones in ascending order.
pub fn extract_targets(tokens: &Vec<Vec<char>>) -> (out: Vec<Vec<char>>)
    ensures
        is_target_list(rows(out@), rows(tokens@)),
        out.len() <= 5,
{
    let markers = marker_table();
    let mut found: Vec<Vec<char>> = Vec::new();
    let mut i: usize = 0;
    while i < tokens.len()
        invariant
            i <= tokens.len(),
            rows(markers@) == target_markers(),
            rows(found@) == announced(rows(tokens@), i as int),
        decreases tokens.len() - i,
    {
        match find_target(tokens, i, &markers) {
            Some(target) => {
                proof {
                    crate::text::lemma_rows_push(found@, target);
                }
                found.push(target);
            },
            None => {},
        }
        i += 1;
    }
    sorted_head(&found, TARGET_CAP)
}

/// The first line that is not blank, cut to 32 characters.
pub fn derive_topic(text: &Vec<char>) -> (out: Option<Vec<char>>)
    ensures
        match out {
            Some(line) => topic(text@) == Some(line@),
            None => topic(text@) is None,
        },
{
    let lines = split_class(text, CharClass::LineBreak);
    let mut i: usize = 0;
    while i < lines.len()
        invariant
            i <= lines.len(),
            rows(lines@) == split(text@, CharClass::LineBreak),
            first_line(rows(lines@), 0) == first_line(rows(lines@), i as int),
        decreases lines.len() - i,
    {
        let line = trim_class(&lines[i], CharClass::Whitespace);
        if line.len() > 0 {
            return Some(take_prefix(&line, TOPIC_LEN));
        }
        i += 1;
    }
    None
}

/// The targets joined by `、`; without targets the first keyword that is not
/// the fallback; without that the topic.
pub fn derive_theme(keywords: &Vec<Vec<char>>, targets: &Vec<Vec<char>>, text: &Vec<char>) -> (out:
    Option<Vec<char>>)
    ensures
        match out {
            Some(found) => theme(rows(keywords@), rows(targets@), text@) == Some(found@),
            None => theme(rows(keywords@), rows(targets@), text@) is None,
        },
{
    if targets.len() > 0 {
        let separator = chars_of("\u{3001}");
        return Some(join_with(targets, &separator));
    }
    let general = chars_of("general");
    let mut i: usize = 0;
    while i < keywords.len()
        invariant
            i <= keywords.len(),
            targets.len() == 0,
            general@ == crate::keywords::fallback_keyword(),
            first_proper(rows(keywords@), 0) == first_proper(rows(keywords@), i as int),
        decreases keywords.len() - i,
    {
        if !same(&keywords[i], &general) {
            let keyword = keywords[i].clone();
            return Some(keyword);
        }
        i += 1;
    }
    derive_topic(text)
}

/// The first clause with a role pattern among the first 200 characters, cut
/// to 48 characters; `空` if there is none.
pub fn derive_role(text: &Vec<char>) -> (out: Vec<char>)
    ensures
        out@ == role(text@),
{
    let window = take_prefix(text, ROLE_WINDOW);
    let patterns = pattern_table();
    let clauses = split_class(&window, CharClass::ClauseBreak);
    let mut i: usize = 0;
    while i < clauses.len()
        invariant
            i <= clauses.len(),
            rows(patterns@) == role_patterns(),
            rows(clauses@) == split(prefix(text@, 200), CharClass::ClauseBreak),
            first_role_clause(rows(clauses@), 0) == first_role_clause(rows(clauses@), i as int),
        decreases clauses.len() - i,
    {
        let clause = trim_class(&clauses[i], CharClass::Whitespace);
        if clause.len() > 0 && find_listed_part(&clause, &patterns).is_some() {
            return take_prefix(&clause, ROLE_LEN);
        }
        i += 1;
    }
    chars_of("\u{7a7a}")
}

} // verus!
