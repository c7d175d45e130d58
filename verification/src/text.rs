//! Operations on text held as a vector of characters, each with its meaning
//! on `Seq<char>`.

use crate::chars::{
    ascii, ascii_digit, is_ascii, is_ascii_digit, lower_ascii, to_lower_ascii, utf8_width,
    width_in_utf8, CharClass,
};
use vstd::prelude::*;

verus! {

/// `String::push` appends the character to the end of the string.
pub assume_specification[ String::push ](s: &mut String, c: char)
    ensures
        final(s)@ == old(s)@.push(c),
;

/// Every character of the text is one of ASCII.
pub open spec fn all_ascii(s: Seq<char>) -> bool {
    forall|i: int| 0 <= i < s.len() ==> is_ascii(#[trigger] s[i])
}

/// Every character of the text is a digit.
pub open spec fn all_digits(s: Seq<char>) -> bool {
    forall|i: int| 0 <= i < s.len() ==> is_ascii_digit(#[trigger] s[i])
}

/// Some character of the text is a digit.
pub open spec fn any_digit(s: Seq<char>) -> bool {
    exists|i: int| 0 <= i < s.len() && is_ascii_digit(#[trigger] s[i])
}

/// The text with every ASCII capital letter made small.
pub open spec fn lowered_ascii(s: Seq<char>) -> Seq<char> {
    Seq::new(s.len(), |i: int| lower_ascii(s[i]))
}

/// The number of bytes that the text takes in UTF-8.
pub open spec fn byte_len(s: Seq<char>) -> nat
    decreases s.len(),
{
    if s.len() == 0 {
        0
    } else {
        byte_len(s.drop_last()) + utf8_width(s.last())
    }
}

/// The first `n` characters of the text, or all of it if it has fewer.
pub open spec fn prefix(s: Seq<char>, n: int) -> Seq<char> {
    if s.len() <= n {
        s
    } else {
        s.take(n)
    }
}

/// The number of characters of `class` at the start of the text.
pub open spec fn lead(s: Seq<char>, class: CharClass) -> int
    decreases s.len(),
{
    if s.len() > 0 && class.has(s[0]) {
        1 + lead(s.drop_first(), class)
    } else {
        0
    }
}

/// The number of characters of `class` at the end of the text.
pub open spec fn trail(s: Seq<char>, class: CharClass) -> int
    decreases s.len(),
{
    if s.len() > 0 && class.has(s.last()) {
        1 + trail(s.drop_last(), class)
    } else {
        0
    }
}

/// The text without the characters of `class` at its start.
pub open spec fn trim_start(s: Seq<char>, class: CharClass) -> Seq<char> {
    s.skip(lead(s, class))
}

/// The text without the characters of `class` at its end.
pub open spec fn trim_end(s: Seq<char>, class: CharClass) -> Seq<char> {
    s.take(s.len() - trail(s, class))
}

/// The text without the characters of `class` at its start and at its end.
pub open spec fn trim(s: Seq<char>, class: CharClass) -> Seq<char> {
    trim_end(trim_start(s, class), class)
}

/// `lead` counts no more characters than the text has.
pub proof fn lemma_lead_bound(s: Seq<char>, class: CharClass)
    ensures
        0 <= lead(s, class) <= s.len(),
    decreases s.len(),
{
    if s.len() > 0 && class.has(s[0]) {
        lemma_lead_bound(s.drop_first(), class);
    }
}

/// `trail` counts no more characters than the text has.
pub proof fn lemma_trail_bound(s: Seq<char>, class: CharClass)
    ensures
        0 <= trail(s, class) <= s.len(),
    decreases s.len(),
{
    if s.len() > 0 && class.has(s.last()) {
        lemma_trail_bound(s.drop_last(), class);
    }
}

/// `lead` is the first position that holds no character of the class.
pub proof fn lemma_lead_is(s: Seq<char>, class: CharClass, a: int)
    requires
        0 <= a <= s.len(),
        forall|k: int| 0 <= k < a ==> class.has(#[trigger] s[k]),
        a == s.len() || !class.has(s[a]),
    ensures
        lead(s, class) == a,
    decreases a,
{
    if a > 0 {
        let rest = s.drop_first();
        assert forall|k: int| 0 <= k < a - 1 implies class.has(#[trigger] rest[k]) by {
        }
        lemma_lead_is(rest, class, a - 1);
    }
}

/// `trail` counts back to the last position that holds no character of the
/// class.
pub proof fn lemma_trail_is(s: Seq<char>, class: CharClass, n: int)
    requires
        0 <= n <= s.len(),
        forall|k: int| s.len() - n <= k < s.len() ==> class.has(#[trigger] s[k]),
        n == s.len() || !class.has(s[s.len() - n - 1]),
    ensures
        trail(s, class) == n,
    decreases n,
{
    if n > 0 {
        let rest = s.drop_last();
        assert forall|k: int| rest.len() - (n - 1) <= k < rest.len() implies class.has(
            #[trigger] rest[k],
        ) by {
        }
        lemma_trail_is(rest, class, n - 1);
    }
}

/// What `trim` leaves neither starts nor ends with a character of the class,
/// and it is a stretch of the text.
pub proof fn lemma_trim_edges(s: Seq<char>, class: CharClass)
    ensures
        trim(s, class).len() > 0 ==> !class.has(trim(s, class)[0]) && !class.has(
            trim(s, class).last(),
        ),
        trim(s, class).len() <= s.len(),
        0 <= lead(s, class),
        lead(s, class) + trim(s, class).len() <= s.len(),
        trim(s, class) == s.subrange(lead(s, class), lead(s, class) + trim(s, class).len()),
{
    lemma_lead_bound(s, class);
    let t = trim_start(s, class);
    lemma_trail_bound(t, class);
    lemma_lead_first(s, class);
    lemma_trail_last(t, class);
}

proof fn lemma_lead_first(s: Seq<char>, class: CharClass)
    ensures
        lead(s, class) < s.len() ==> !class.has(s[lead(s, class)]),
        0 <= lead(s, class) <= s.len(),
    decreases s.len(),
{
    if s.len() > 0 && class.has(s[0]) {
        lemma_lead_first(s.drop_first(), class);
    }
}

proof fn lemma_trail_last(s: Seq<char>, class: CharClass)
    ensures
        trail(s, class) < s.len() ==> !class.has(s[s.len() - trail(s, class) - 1]),
        0 <= trail(s, class) <= s.len(),
    decreases s.len(),
{
    if s.len() > 0 && class.has(s.last()) {
        lemma_trail_last(s.drop_last(), class);
    }
}

/// Copies the characters of a string into a vector.
pub fn chars_of(s: &str) -> (out: Vec<char>)
    ensures
        out@ == s@,
{
    let mut out: Vec<char> = Vec::new();
    for c in it: s.chars()
        invariant
            out@ == it.seq().take(it.index() as int),
            it.seq() == s@,
    {
        out.push(c);
    }
    out
}

/// Builds a string from the characters of a vector.
pub fn string_of(v: &Vec<char>) -> (out: String)
    ensures
        out@ == v@,
{
    let mut out = String::new();
    let mut i: usize = 0;
    while i < v.len()
        invariant
            i <= v.len(),
            out@ == v@.take(i as int),
        decreases v.len() - i,
    {
        out.push(v[i]);
        i += 1;
    }
    out
}

/// Copies the characters from position `from` up to position `to`.
pub fn slice(v: &Vec<char>, from: usize, to: usize) -> (out: Vec<char>)
    requires
        from <= to <= v.len(),
    ensures
        out@ == v@.subrange(from as int, to as int),
{
    let mut out: Vec<char> = Vec::new();
    let mut i: usize = from;
    while i < to
        invariant
            from <= i <= to <= v.len(),
            out@ == v@.subrange(from as int, i as int),
        decreases to - i,
    {
        out.push(v[i]);
        i += 1;
    }
    out
}

/// The first `n` characters of the text, or all of it if it has fewer.
pub fn take_prefix(v: &Vec<char>, n: usize) -> (out: Vec<char>)
    ensures
        out@ == prefix(v@, n as int),
{
    if v.len() <= n {
        let out = slice(v, 0, v.len());
        out
    } else {
        slice(v, 0, n)
    }
}

/// Whether two texts hold the same characters.
pub fn same(a: &Vec<char>, b: &Vec<char>) -> (equal: bool)
    ensures
        equal == (a@ == b@),
{
    if a.len() != b.len() {
        return false;
    }
    let mut i: usize = 0;
    while i < a.len()
        invariant
            i <= a.len(),
            a.len() == b.len(),
            forall|k: int| 0 <= k < i ==> a[k] == b[k],
        decreases a.len() - i,
    {
        if a[i] != b[i] {
            return false;
        }
        i += 1;
    }
    assert(a@ =~= b@);
    true
}

/// Whether every character of the text is one of ASCII.
pub fn is_all_ascii(v: &Vec<char>) -> (yes: bool)
    ensures
        yes == all_ascii(v@),
{
    let mut i: usize = 0;
    while i < v.len()
        invariant
            i <= v.len(),
            forall|k: int| 0 <= k < i ==> is_ascii(#[trigger] v@[k]),
        decreases v.len() - i,
    {
        if !ascii(v[i]) {
            return false;
        }
        i += 1;
    }
    true
}

/// Whether every character of the text is a digit.
pub fn is_all_digits(v: &Vec<char>) -> (yes: bool)
    ensures
        yes == all_digits(v@),
{
    let mut i: usize = 0;
    while i < v.len()
        invariant
            i <= v.len(),
            forall|k: int| 0 <= k < i ==> is_ascii_digit(#[trigger] v@[k]),
        decreases v.len() - i,
    {
        if !ascii_digit(v[i]) {
            return false;
        }
        i += 1;
    }
    true
}

/// Whether some character of the text is a digit.
pub fn has_digit(v: &Vec<char>) -> (yes: bool)
    ensures
        yes == any_digit(v@),
{
    let mut i: usize = 0;
    while i < v.len()
        invariant
            i <= v.len(),
            forall|k: int| 0 <= k < i ==> !is_ascii_digit(#[trigger] v@[k]),
        decreases v.len() - i,
    {
        if ascii_digit(v[i]) {
            return true;
        }
        i += 1;
    }
    false
}

/// The text with every ASCII capital letter made small.
pub fn lower_ascii_text(v: &Vec<char>) -> (out: Vec<char>)
    ensures
        out@ == lowered_ascii(v@),
{
    let mut out: Vec<char> = Vec::new();
    let mut i: usize = 0;
    while i < v.len()
        invariant
            i <= v.len(),
            out@.len() == i,
            forall|k: int| 0 <= k < i ==> out@[k] == lower_ascii(v@[k]),
        decreases v.len() - i,
    {
        out.push(to_lower_ascii(v[i]));
        i += 1;
    }
    out
}

/// Whether the text takes at least `n` bytes in UTF-8.
pub fn has_bytes(v: &Vec<char>, n: usize) -> (yes: bool)
    ensures
        yes == (byte_len(v@) >= n),
{
    let mut total: usize = 0;
    let mut i: usize = 0;
    while i < v.len()
        invariant
            i <= v.len(),
            total == byte_len(v@.take(i as int)),
            total < n || n == 0,
        decreases v.len() - i,
    {
        if total >= n {
            proof {
                lemma_byte_len_grows(v@, i as int);
            }
            return true;
        }
        assert(v@.take(i + 1).drop_last() == v@.take(i as int));
        let width = width_in_utf8(v[i]);
        if width >= n - total {
            proof {
                lemma_byte_len_grows(v@, i + 1);
            }
            return true;
        }
        total += width;
        i += 1;
    }
    assert(v@.take(i as int) == v@);
    total >= n
}

/// A prefix takes no more bytes than the whole.
pub proof fn lemma_byte_len_grows(s: Seq<char>, i: int)
    requires
        0 <= i <= s.len(),
    ensures
        byte_len(s.take(i)) <= byte_len(s),
    decreases s.len() - i,
{
    if i < s.len() {
        assert(s.take(i + 1).drop_last() == s.take(i));
        lemma_byte_len_grows(s, i + 1);
    } else {
        assert(s.take(i) == s);
    }
}

/// Removes the characters of `class` from the end.
pub fn trim_end_class(v: &Vec<char>, class: CharClass) -> (out: Vec<char>)
    ensures
        out@ == trim_end(v@, class),
{
    let n = v.len();
    let mut b: usize = n;
    while b > 0 && class.contains(v[b - 1])
        invariant
            b <= n,
            n == v.len(),
            forall|k: int| b <= k < n ==> class.has(#[trigger] v@[k]),
        decreases b,
    {
        b -= 1;
    }
    proof {
        lemma_trail_is(v@, class, n - b);
    }
    slice(v, 0, b)
}

/// Removes the characters of `class` from both ends.
pub fn trim_class(v: &Vec<char>, class: CharClass) -> (out: Vec<char>)
    ensures
        out@ == trim(v@, class),
{
    let n = v.len();
    let mut a: usize = 0;
    while a < n && class.contains(v[a])
        invariant
            a <= n,
            n == v.len(),
            forall|k: int| 0 <= k < a ==> class.has(#[trigger] v@[k]),
        decreases n - a,
    {
        a += 1;
    }
    let mut b: usize = n;
    while b > a && class.contains(v[b - 1])
        invariant
            a <= b <= n,
            n == v.len(),
            forall|k: int| b <= k < n ==> class.has(#[trigger] v@[k]),
        decreases b,
    {
        b -= 1;
    }
    proof {
        lemma_lead_is(v@, class, a as int);
        let t = trim_start(v@, class);
        assert forall|k: int| t.len() - (n - b) <= k < t.len() implies class.has(
            #[trigger] t[k],
        ) by {
        }
        lemma_trail_is(t, class, n - b);
    }
    slice(v, a, b)
}


/// The texts that a vector of character rows holds.
pub open spec fn rows(v: Seq<Vec<char>>) -> Seq<Seq<char>> {
    Seq::new(v.len(), |i: int| v[i]@)
}

/// The texts that a vector of strings holds.
pub open spec fn texts(v: Seq<String>) -> Seq<Seq<char>> {
    Seq::new(v.len(), |i: int| v[i]@)
}

/// Whether `needle` stands in `hay` at position `i`.
pub open spec fn occurs_at(hay: Seq<char>, needle: Seq<char>, i: int) -> bool {
    0 <= i && i + needle.len() <= hay.len() && hay.subrange(i, i + needle.len()) == needle
}

/// The first position at or after `from` at which `needle` stands in `hay`.
pub open spec fn find_from(hay: Seq<char>, needle: Seq<char>, from: int) -> Option<int>
    decreases hay.len() - from + 1,
{
    if from < 0 || from + needle.len() > hay.len() {
        None
    } else if occurs_at(hay, needle, from) {
        Some(from)
    } else {
        find_from(hay, needle, from + 1)
    }
}

/// The first position at which `needle` stands in `hay`.
pub open spec fn find(hay: Seq<char>, needle: Seq<char>) -> Option<int> {
    find_from(hay, needle, 0)
}

/// `needle` stands somewhere in `hay`.
pub open spec fn contains(hay: Seq<char>, needle: Seq<char>) -> bool {
    find(hay, needle) is Some
}

/// `hay` without the first occurrence of `needle`.
pub open spec fn remove_first(hay: Seq<char>, needle: Seq<char>) -> Seq<char> {
    match find(hay, needle) {
        Some(i) => hay.take(i) + hay.skip(i + needle.len()),
        None => hay,
    }
}

/// The number of occurrences of `needle` in `hay` at or after `from`, counted
/// from the left without overlap.
pub open spec fn occurrences_from(hay: Seq<char>, needle: Seq<char>, from: int) -> nat
    decreases hay.len() - from,
{
    if needle.len() == 0 || from < 0 || from + needle.len() > hay.len() {
        0
    } else if occurs_at(hay, needle, from) {
        1 + occurrences_from(hay, needle, from + needle.len())
    } else {
        occurrences_from(hay, needle, from + 1)
    }
}

/// The number of occurrences of `needle` in `hay`, counted from the left
/// without overlap. An empty needle occurs nowhere.
pub open spec fn occurrences(hay: Seq<char>, needle: Seq<char>) -> nat {
    occurrences_from(hay, needle, 0)
}

/// The pieces of the text between the characters of `class`. There is one
/// piece more than there are such characters; a piece may be empty.
pub open spec fn split(s: Seq<char>, class: CharClass) -> Seq<Seq<char>>
    decreases s.len(),
{
    if s.len() == 0 {
        seq![Seq::<char>::empty()]
    } else {
        let before = split(s.drop_last(), class);
        if class.has(s.last()) {
            before.push(Seq::<char>::empty())
        } else {
            before.drop_last().push(before.last().push(s.last()))
        }
    }
}

/// The pieces that are not empty, in their order.
pub open spec fn without_empty(parts: Seq<Seq<char>>) -> Seq<Seq<char>>
    decreases parts.len(),
{
    if parts.len() == 0 {
        Seq::empty()
    } else if parts.last().len() == 0 {
        without_empty(parts.drop_last())
    } else {
        without_empty(parts.drop_last()).push(parts.last())
    }
}

/// The runs of characters between white space.
pub open spec fn words(s: Seq<char>) -> Seq<Seq<char>> {
    without_empty(split(s, CharClass::Whitespace))
}

/// The parts in a row, with `sep` between each two.
pub open spec fn join(parts: Seq<Seq<char>>, sep: Seq<char>) -> Seq<char>
    decreases parts.len(),
{
    if parts.len() == 0 {
        Seq::empty()
    } else if parts.len() == 1 {
        parts[0]
    } else {
        join(parts.drop_last(), sep) + sep + parts.last()
    }
}

/// The two texts hold the same characters before position `k`.
pub open spec fn agree_before(a: Seq<char>, b: Seq<char>, k: int) -> bool {
    &&& 0 <= k <= a.len()
    &&& k <= b.len()
    &&& forall|i: int| 0 <= i < k ==> a[i] == b[i]
}

/// The order of the dictionary by code point: `a` comes before `b` if it is
/// a proper start of `b`, or holds the smaller character where the two first
/// differ.
pub open spec fn lex_less(a: Seq<char>, b: Seq<char>) -> bool {
    exists|k: int| #[trigger]
        agree_before(a, b, k) && (k == a.len() && k < b.len() || k < a.len() && k < b.len() && a[k] < b[k])
}

/// How two values stand to each other in an order.
#[derive(Clone, Copy, Debug, PartialEq, Eq, Structural)]
pub enum Order {
    Before,
    Same,
    After,
}

/// A split gives at least one piece.
pub proof fn lemma_split_nonempty(s: Seq<char>, class: CharClass)
    ensures
        split(s, class).len() >= 1,
    decreases s.len(),
{
    if s.len() > 0 {
        lemma_split_nonempty(s.drop_last(), class);
    }
}

/// What `without_empty` keeps is not empty.
pub proof fn lemma_without_empty(parts: Seq<Seq<char>>)
    ensures
        without_empty(parts).len() <= parts.len(),
        forall|i: int|
            0 <= i < without_empty(parts).len() ==> (#[trigger] without_empty(parts)[i]).len() > 0,
    decreases parts.len(),
{
    if parts.len() > 0 {
        lemma_without_empty(parts.drop_last());
    }
}

/// No piece of a split holds a character of the class at which the text
/// was split.
pub proof fn lemma_split_pieces_hold_no_break(s: Seq<char>, class: CharClass)
    ensures
        forall|i: int, k: int|
            0 <= i < split(s, class).len() && 0 <= k < split(s, class)[i].len() ==> !class.has(
                #[trigger] split(s, class)[i][k],
            ),
    decreases s.len(),
{
    if s.len() > 0 {
        lemma_split_pieces_hold_no_break(s.drop_last(), class);
        lemma_split_nonempty(s.drop_last(), class);
        let before = split(s.drop_last(), class);
        let after = split(s, class);
        assert forall|i: int, k: int|
            0 <= i < after.len() && 0 <= k < after[i].len() implies !class.has(
            #[trigger] after[i][k],
        ) by {
            if i < before.len() - 1 || (class.has(s.last()) && i < before.len()) {
                assert(after[i] == before[i]);
            } else if !class.has(s.last()) && k < before.last().len() {
                assert(after[i][k] == before[before.len() - 1][k]);
            }
        }
    }
}

/// What `without_empty` keeps are pieces of the list.
pub proof fn lemma_without_empty_keeps_pieces(parts: Seq<Seq<char>>)
    ensures
        forall|i: int|
            0 <= i < without_empty(parts).len() ==> parts.contains(#[trigger] without_empty(parts)[i]),
    decreases parts.len(),
{
    if parts.len() > 0 {
        let rest = parts.drop_last();
        lemma_without_empty_keeps_pieces(rest);
        assert forall|i: int| 0 <= i < without_empty(parts).len() implies parts.contains(
            #[trigger] without_empty(parts)[i],
        ) by {
            let kept = without_empty(parts)[i];
            if i < without_empty(rest).len() {
                let j = choose|j: int| 0 <= j < rest.len() && rest[j] == kept;
                assert(parts[j] == kept);
            } else {
                assert(parts[parts.len() - 1] == kept);
            }
        }
    }
}

/// The `n` characters of the text from position `at` on.
pub open spec fn stretch(whole: Seq<char>, at: int, n: int) -> Seq<char> {
    whole.subrange(at, at + n)
}

/// `part` stands somewhere in `whole`, character by character.
pub open spec fn is_stretch_of(part: Seq<char>, whole: Seq<char>) -> bool {
    exists|at: int|
        0 <= at && at + part.len() <= whole.len() && part == #[trigger] stretch(
            whole,
            at,
            part.len() as int,
        )
}

/// A stretch of a stretch of a text is a stretch of the text.
pub proof fn lemma_stretch_of_stretch(inner: Seq<char>, middle: Seq<char>, whole: Seq<char>)
    requires
        is_stretch_of(inner, middle),
        is_stretch_of(middle, whole),
    ensures
        is_stretch_of(inner, whole),
{
    let a = choose|at: int|
        0 <= at && at + inner.len() <= middle.len() && inner == #[trigger] stretch(
            middle,
            at,
            inner.len() as int,
        );
    let b = choose|at: int|
        0 <= at && at + middle.len() <= whole.len() && middle == #[trigger] stretch(
            whole,
            at,
            middle.len() as int,
        );
    assert(inner =~= stretch(whole, a + b, inner.len() as int));
}

/// What `trim` leaves is a stretch of the text.
pub proof fn lemma_trim_is_stretch(s: Seq<char>, class: CharClass)
    ensures
        is_stretch_of(trim(s, class), s),
{
    lemma_trim_edges(s, class);
    assert(trim(s, class) == stretch(s, lead(s, class), trim(s, class).len() as int));
}

/// Every piece of a split is a stretch of the text, and the last piece is
/// the end of the text.
pub proof fn lemma_split_pieces_are_stretches(s: Seq<char>, class: CharClass)
    ensures
        split(s, class).len() >= 1,
        forall|i: int| 0 <= i < split(s, class).len() ==> is_stretch_of(#[trigger] split(s, class)[i], s),
        split(s, class).last().len() <= s.len(),
        split(s, class).last() == stretch(
            s,
            s.len() - split(s, class).last().len(),
            split(s, class).last().len() as int,
        ),
    decreases s.len(),
{
    let after = split(s, class);
    if s.len() == 0 {
        assert(after[0] =~= stretch(s, 0, 0));
    } else {
        let shorter = s.drop_last();
        lemma_split_pieces_are_stretches(shorter, class);
        let before = split(shorter, class);
        let end: int = if class.has(s.last()) {
            0
        } else {
            (before.last().len() + 1) as int
        };
        assert(after.last() =~= stretch(s, s.len() - end, end));
        assert forall|i: int| 0 <= i < after.len() implies is_stretch_of(#[trigger] after[i], s) by {
            if i < after.len() - 1 {
                let at = choose|at: int|
                    0 <= at && at + before[i].len() <= shorter.len() && before[i]
                        == #[trigger] stretch(shorter, at, before[i].len() as int);
                assert(before[i] =~= stretch(s, at, before[i].len() as int));
            }
        }
    }
}

/// Every word of a text is a stretch of the text.
pub proof fn lemma_words_are_stretches(s: Seq<char>)
    ensures
        forall|i: int| 0 <= i < words(s).len() ==> is_stretch_of(#[trigger] words(s)[i], s),
{
    let parts = split(s, CharClass::Whitespace);
    lemma_split_pieces_are_stretches(s, CharClass::Whitespace);
    lemma_without_empty_keeps_pieces(parts);
    assert forall|i: int| 0 <= i < words(s).len() implies is_stretch_of(
        #[trigger] words(s)[i],
        s,
    ) by {
    }
}

/// No word of a text holds white space.
pub proof fn lemma_words_are_unbroken(s: Seq<char>)
    ensures
        forall|i: int, k: int|
            0 <= i < words(s).len() && 0 <= k < words(s)[i].len() ==> !crate::chars::is_whitespace(
                #[trigger] words(s)[i][k],
            ),
{
    let parts = split(s, CharClass::Whitespace);
    lemma_split_pieces_hold_no_break(s, CharClass::Whitespace);
    lemma_without_empty_keeps_pieces(parts);
    assert forall|i: int, k: int|
        0 <= i < words(s).len() && 0 <= k < words(s)[i].len() implies !crate::chars::is_whitespace(
        #[trigger] words(s)[i][k],
    ) by {
    }
}

/// A text of ASCII alone takes as many bytes as it has characters.
pub proof fn lemma_ascii_byte_len(s: Seq<char>)
    requires
        all_ascii(s),
    ensures
        byte_len(s) == s.len(),
    decreases s.len(),
{
    if s.len() > 0 {
        let rest = s.drop_last();
        assert forall|i: int| 0 <= i < rest.len() implies is_ascii(#[trigger] rest[i]) by {
        }
        lemma_ascii_byte_len(rest);
    }
}

/// No word of a text is empty.
pub proof fn lemma_words_are_not_empty(s: Seq<char>)
    ensures
        forall|i: int| 0 <= i < words(s).len() ==> (#[trigger] words(s)[i]).len() > 0,
{
    lemma_without_empty(split(s, CharClass::Whitespace));
}

/// What `find` returns is the first place where the needle stands.
pub proof fn lemma_find_from(hay: Seq<char>, needle: Seq<char>, from: int)
    requires
        0 <= from,
    ensures
        match find_from(hay, needle, from) {
            Some(i) => from <= i && occurs_at(hay, needle, i) && forall|j: int|
                from <= j < i ==> !occurs_at(hay, needle, j),
            None => forall|j: int| from <= j ==> !occurs_at(hay, needle, j),
        },
    decreases hay.len() - from + 1,
{
    if from + needle.len() <= hay.len() && !occurs_at(hay, needle, from) {
        lemma_find_from(hay, needle, from + 1);
    }
}

/// No text comes before itself, and of two texts at most one comes before
/// the other.
pub proof fn lemma_lex_asymmetric(a: Seq<char>, b: Seq<char>)
    ensures
        lex_less(a, b) ==> !lex_less(b, a) && a != b,
{
    if lex_less(a, b) {
        let k = choose|k: int| #[trigger]
            agree_before(a, b, k) && (k == a.len() && k < b.len() || k < a.len() && k < b.len()
                && a[k] < b[k]);
        if lex_less(b, a) {
            let m = choose|m: int| #[trigger]
                agree_before(b, a, m) && (m == b.len() && m < a.len() || m < b.len() && m
                    < a.len() && b[m] < a[m]);
        }
    }
}

/// The order is transitive.
pub proof fn lemma_lex_transitive(a: Seq<char>, b: Seq<char>, c: Seq<char>)
    requires
        lex_less(a, b),
        lex_less(b, c),
    ensures
        lex_less(a, c),
{
    let k = choose|k: int| #[trigger]
        agree_before(a, b, k) && (k == a.len() && k < b.len() || k < a.len() && k < b.len() && a[k] < b[k]);
    let m = choose|m: int| #[trigger]
        agree_before(b, c, m) && (m == b.len() && m < c.len() || m < b.len() && m < c.len() && b[m] < c[m]);
    let n = if k < m {
        k
    } else {
        m
    };
    assert forall|i: int| 0 <= i < n implies a[i] == c[i] by {
    }
    assert(agree_before(a, c, n));
}

/// Of two different texts one comes before the other.
pub proof fn lemma_lex_total(a: Seq<char>, b: Seq<char>)
    ensures
        a == b || lex_less(a, b) || lex_less(b, a),
{
    if a != b {
        lemma_first_difference(a, b, 0);
    }
}

proof fn lemma_first_difference(a: Seq<char>, b: Seq<char>, k: int)
    requires
        agree_before(a, b, k),
    ensures
        a == b || lex_less(a, b) || lex_less(b, a),
    decreases a.len() - k,
{
    if k == a.len() && k == b.len() {
        assert(a =~= b);
    } else if k == a.len() || (k < b.len() && a[k] < b[k]) {
        assert(agree_before(a, b, k));
    } else if k == b.len() || b[k] < a[k] {
        assert(agree_before(b, a, k));
    } else {
        lemma_first_difference(a, b, k + 1);
    }
}

/// Whether `needle` stands in `hay` at position `at`.
pub fn matches_at(hay: &Vec<char>, needle: &Vec<char>, at: usize) -> (yes: bool)
    ensures
        yes == occurs_at(hay@, needle@, at as int),
{
    if needle.len() > hay.len() || at > hay.len() - needle.len() {
        return false;
    }
    let mut j: usize = 0;
    while j < needle.len()
        invariant
            j <= needle.len(),
            at + needle.len() <= hay.len(),
            forall|k: int| 0 <= k < j ==> hay@[at + k] == needle@[k],
        decreases needle.len() - j,
    {
        if hay[at + j] != needle[j] {
            return false;
        }
        j += 1;
    }
    assert(hay@.subrange(at as int, at + needle.len()) =~= needle@);
    true
}

/// The first position at which `needle` stands in `hay`.
pub fn find_first(hay: &Vec<char>, needle: &Vec<char>) -> (found: Option<usize>)
    ensures
        match found {
            Some(i) => find(hay@, needle@) == Some(i as int),
            None => find(hay@, needle@) is None,
        },
{
    if needle.len() > hay.len() {
        return None;
    }
    if needle.len() == 0 {
        assert(hay@.subrange(0, 0) =~= needle@);
        return Some(0);
    }
    let last: usize = hay.len() - needle.len();
    let mut i: usize = 0;
    while i <= last
        invariant
            i <= last + 1,
            last < hay.len(),
            last == hay.len() - needle.len(),
            find(hay@, needle@) == find_from(hay@, needle@, i as int),
        decreases last + 1 - i,
    {
        if matches_at(hay, needle, i) {
            return Some(i);
        }
        i += 1;
    }
    None
}

/// Whether `needle` stands somewhere in `hay`.
pub fn has_part(hay: &Vec<char>, needle: &Vec<char>) -> (yes: bool)
    ensures
        yes == contains(hay@, needle@),
{
    find_first(hay, needle).is_some()
}

/// Cuts the first occurrence of `needle` out of `hay`.
pub fn cut_first(hay: &Vec<char>, needle: &Vec<char>) -> (out: Vec<char>)
    ensures
        out@ == remove_first(hay@, needle@),
{
    match find_first(hay, needle) {
        Some(i) => {
            proof {
                lemma_find_from(hay@, needle@, 0);
            }
            let mut out = slice(hay, 0, i);
            let mut j: usize = i + needle.len();
            while j < hay.len()
                invariant
                    i + needle.len() <= j <= hay.len(),
                    out@ == hay@.take(i as int) + hay@.subrange(i + needle.len(), j as int),
                decreases hay.len() - j,
            {
                out.push(hay[j]);
                assert(hay@.subrange(i + needle.len(), j as int).push(hay@[j as int])
                    =~= hay@.subrange(i + needle.len(), j + 1));
                j += 1;
            }
            assert(hay@.subrange(i + needle.len(), hay.len() as int) =~= hay@.skip(
                i + needle.len(),
            ));
            out
        },
        None => {
            let out = slice(hay, 0, hay.len());
            out
        },
    }
}

/// Counts the occurrences of `needle` in `hay` from the left, without
/// overlap.
pub fn count_occurrences(hay: &Vec<char>, needle: &Vec<char>) -> (count: usize)
    ensures
        count == occurrences(hay@, needle@),
        count <= hay.len(),
{
    if needle.len() == 0 || needle.len() > hay.len() {
        return 0;
    }
    let last: usize = hay.len() - needle.len();
    let mut count: usize = 0;
    let mut i: usize = 0;
    while i <= last
        invariant
            0 < needle.len() <= hay.len(),
            last == hay.len() - needle.len(),
            i <= hay.len(),
            count <= i,
            count + occurrences_from(hay@, needle@, i as int) == occurrences(hay@, needle@),
        decreases hay.len() - i,
    {
        if matches_at(hay, needle, i) {
            count += 1;
            i += needle.len();
        } else {
            i += 1;
        }
    }
    count
}

/// The rows of a grown vector are the rows before with the new row behind.
pub proof fn lemma_rows_push(before: Seq<Vec<char>>, row: Vec<char>)
    ensures
        rows(before.push(row)) == rows(before).push(row@),
{
}

/// Splits the text at every character of `class`.
pub fn split_class(v: &Vec<char>, class: CharClass) -> (parts: Vec<Vec<char>>)
    ensures
        rows(parts@) == split(v@, class),
{
    let mut parts: Vec<Vec<char>> = Vec::new();
    let mut current: Vec<char> = Vec::new();
    let mut i: usize = 0;
    while i < v.len()
        invariant
            i <= v.len(),
            rows(parts@).push(current@) == split(v@.take(i as int), class),
        decreases v.len() - i,
    {
        assert(v@.take(i + 1).drop_last() == v@.take(i as int));
        if class.contains(v[i]) {
            proof {
                lemma_rows_push(parts@, current);
            }
            parts.push(current);
            current = Vec::new();
        } else {
            current.push(v[i]);
        }
        i += 1;
    }
    assert(v@.take(i as int) == v@);
    proof {
        lemma_rows_push(parts@, current);
    }
    parts.push(current);
    parts
}

/// The runs of characters between white space.
pub fn split_words(v: &Vec<char>) -> (parts: Vec<Vec<char>>)
    ensures
        rows(parts@) == words(v@),
{
    let pieces = split_class(v, CharClass::Whitespace);
    let mut parts: Vec<Vec<char>> = Vec::new();
    let mut i: usize = 0;
    while i < pieces.len()
        invariant
            i <= pieces.len(),
            rows(parts@) == without_empty(rows(pieces@).take(i as int)),
        decreases pieces.len() - i,
    {
        assert(rows(pieces@).take(i + 1).drop_last() == rows(pieces@).take(i as int));
        if pieces[i].len() > 0 {
            let piece = pieces[i].clone();
            proof {
                lemma_rows_push(parts@, piece);
            }
            parts.push(piece);
        }
        i += 1;
    }
    assert(rows(pieces@).take(i as int) == rows(pieces@));
    parts
}

/// Appends the characters of `tail` to `out`.
pub fn append(out: &mut Vec<char>, tail: &Vec<char>)
    ensures
        final(out)@ == old(out)@ + tail@,
{
    let mut i: usize = 0;
    while i < tail.len()
        invariant
            i <= tail.len(),
            out@ == old(out)@ + tail@.take(i as int),
        decreases tail.len() - i,
    {
        out.push(tail[i]);
        i += 1;
    }
}

/// Puts the parts in a row, with `sep` between each two.
pub fn join_with(parts: &Vec<Vec<char>>, sep: &Vec<char>) -> (out: Vec<char>)
    ensures
        out@ == join(rows(parts@), sep@),
{
    let mut out: Vec<char> = Vec::new();
    let mut i: usize = 0;
    while i < parts.len()
        invariant
            i <= parts.len(),
            out@ == join(rows(parts@).take(i as int), sep@),
        decreases parts.len() - i,
    {
        assert(rows(parts@).take(i + 1).drop_last() == rows(parts@).take(i as int));
        if i > 0 {
            append(&mut out, sep);
        }
        append(&mut out, &parts[i]);
        i += 1;
    }
    assert(rows(parts@).take(i as int) == rows(parts@));
    out
}

/// Compares two texts in the order of the dictionary by code point.
pub fn compare(a: &Vec<char>, b: &Vec<char>) -> (order: Order)
    ensures
        order == Order::Before <==> lex_less(a@, b@),
        order == Order::Same <==> a@ == b@,
        order == Order::After <==> lex_less(b@, a@),
{
    proof {
        lemma_lex_asymmetric(a@, b@);
        lemma_lex_asymmetric(b@, a@);
    }
    let mut i: usize = 0;
    while i < a.len() && i < b.len()
        invariant
            agree_before(a@, b@, i as int),
            agree_before(b@, a@, i as int),
        decreases a.len() - i,
    {
        if a[i] < b[i] {
            return Order::Before;
        }
        if b[i] < a[i] {
            return Order::After;
        }
        i += 1;
    }
    if i < b.len() {
        Order::Before
    } else if i < a.len() {
        Order::After
    } else {
        assert(a@ =~= b@);
        Order::Same
    }
}

/// Copies each string of a vector into a vector of characters.
pub fn rows_of(list: &Vec<String>) -> (out: Vec<Vec<char>>)
    ensures
        rows(out@) == texts(list@),
{
    let mut out: Vec<Vec<char>> = Vec::new();
    let mut i: usize = 0;
    while i < list.len()
        invariant
            i <= list.len(),
            out.len() == i,
            forall|k: int| 0 <= k < i ==> out[k]@ == list[k]@,
        decreases list.len() - i,
    {
        out.push(chars_of(list[i].as_str()));
        i += 1;
    }
    out
}

/// Builds a string from each row of characters.
pub fn texts_of(list: &Vec<Vec<char>>) -> (out: Vec<String>)
    ensures
        texts(out@) == rows(list@),
{
    let mut out: Vec<String> = Vec::new();
    let mut i: usize = 0;
    while i < list.len()
        invariant
            i <= list.len(),
            out.len() == i,
            forall|k: int| 0 <= k < i ==> out[k]@ == list[k]@,
        decreases list.len() - i,
    {
        out.push(string_of(&list[i]));
        i += 1;
    }
    out
}

} // verus!
