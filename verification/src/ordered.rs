//! Lists of texts kept in ascending order without repetition.

use crate::text::{compare, lex_less, lemma_lex_asymmetric, lemma_lex_total, lemma_lex_transitive, rows, Order};
use vstd::prelude::*;

verus! {

/// Every text comes before all that follow it; so no text occurs twice.
pub open spec fn is_ascending(list: Seq<Seq<char>>) -> bool {
    forall|i: int, j: int| 0 <= i < j < list.len() ==> lex_less(#[trigger] list[i], #[trigger] list[j])
}

/// `list` holds the texts of `items`, each once, in ascending order.
pub open spec fn is_sorted_set_of(list: Seq<Seq<char>>, items: Seq<Seq<char>>) -> bool {
    &&& is_ascending(list)
    &&& forall|x: Seq<char>| list.contains(x) <==> items.contains(x)
}

/// `out` holds the first `cap` of the distinct texts of `items` in ascending
/// order, or all of them if they are fewer.
pub open spec fn is_head_of_sorted_set(out: Seq<Seq<char>>, items: Seq<Seq<char>>, cap: int) -> bool {
    &&& is_ascending(out)
    &&& out.len() <= cap
    &&& forall|i: int| 0 <= i < out.len() ==> items.contains(#[trigger] out[i])
    &&& forall|x: Seq<char>|
        items.contains(x) && !out.contains(x) ==> out.len() == cap && cap > 0 && lex_less(
            out[cap - 1],
            x,
        )
}

/// Two ascending lists with the same members are equal.
pub proof fn lemma_sorted_set_unique(x: Seq<Seq<char>>, y: Seq<Seq<char>>, items: Seq<Seq<char>>)
    requires
        is_sorted_set_of(x, items),
        is_sorted_set_of(y, items),
    ensures
        x == y,
{
    lemma_head_unique(x, y, items, if x.len() >= y.len() {
        x.len() as int
    } else {
        y.len() as int
    });
}

/// The first `cap` of the distinct texts in ascending order are determined
/// by the texts.
pub proof fn lemma_head_unique(x: Seq<Seq<char>>, y: Seq<Seq<char>>, items: Seq<Seq<char>>, cap: int)
    requires
        is_head_of_sorted_set(x, items, cap) || (is_sorted_set_of(x, items) && x.len() <= cap),
        is_head_of_sorted_set(y, items, cap) || (is_sorted_set_of(y, items) && y.len() <= cap),
    ensures
        x == y,
{
    assert(is_head_of_sorted_set(x, items, cap)) by {
        if !is_head_of_sorted_set(x, items, cap) {
            assert forall|i: int| 0 <= i < x.len() implies items.contains(#[trigger] x[i]) by {
            }
        }
    }
    assert(is_head_of_sorted_set(y, items, cap)) by {
        if !is_head_of_sorted_set(y, items, cap) {
            assert forall|i: int| 0 <= i < y.len() implies items.contains(#[trigger] y[i]) by {
            }
        }
    }
    let n = if x.len() <= y.len() {
        x.len() as int
    } else {
        y.len() as int
    };
    lemma_heads_agree(x, y, items, cap, n);
    lemma_head_not_shorter(x, y, items, cap);
    lemma_head_not_shorter(y, x, items, cap);
}

proof fn lemma_head_no_early_difference(
    x: Seq<Seq<char>>,
    y: Seq<Seq<char>>,
    items: Seq<Seq<char>>,
    cap: int,
    i: int,
)
    requires
        is_head_of_sorted_set(x, items, cap),
        is_head_of_sorted_set(y, items, cap),
        0 <= i < x.len(),
        i < y.len(),
        forall|k: int| 0 <= k < i ==> x[k] == y[k],
    ensures
        !lex_less(x[i], y[i]),
{
    let a = x[i];
    let b = y[i];
    lemma_lex_asymmetric(a, b);
    lemma_lex_asymmetric(a, a);
    if lex_less(a, b) && !y.contains(a) && i < cap - 1 {
        lemma_lex_transitive(b, y[cap - 1], a);
    }
}

proof fn lemma_heads_agree(x: Seq<Seq<char>>, y: Seq<Seq<char>>, items: Seq<Seq<char>>, cap: int, n: int)
    requires
        is_head_of_sorted_set(x, items, cap),
        is_head_of_sorted_set(y, items, cap),
        0 <= n <= x.len(),
        n <= y.len(),
    ensures
        forall|k: int| 0 <= k < n ==> x[k] == y[k],
    decreases n,
{
    if n > 0 {
        lemma_heads_agree(x, y, items, cap, n - 1);
        let i = n - 1;
        if x[i] != y[i] {
            lemma_lex_total(x[i], y[i]);
            lemma_head_no_early_difference(x, y, items, cap, i);
            lemma_head_no_early_difference(y, x, items, cap, i);
        }
    }
}

proof fn lemma_head_not_shorter(x: Seq<Seq<char>>, y: Seq<Seq<char>>, items: Seq<Seq<char>>, cap: int)
    requires
        is_head_of_sorted_set(x, items, cap),
        is_head_of_sorted_set(y, items, cap),
        forall|k: int| 0 <= k < x.len() && k < y.len() ==> x[k] == y[k],
    ensures
        x.len() >= y.len(),
{
    if x.len() < y.len() {
        let n = x.len() as int;
        let key = y[n];
        lemma_lex_asymmetric(key, key);
    }
}

/// Whether `a` comes before `b` in the order of the dictionary.
pub fn comes_before(a: &Vec<char>, b: &Vec<char>) -> (yes: bool)
    ensures
        yes == lex_less(a@, b@),
{
    match compare(a, b) {
        Order::Before => true,
        _ => false,
    }
}

/// Puts `item` into an ascending list unless the list holds it already, and
/// tells whether the list grew.
pub fn insert_sorted(list: &mut Vec<Vec<char>>, item: Vec<char>) -> (grown: bool)
    requires
        is_ascending(rows(old(list)@)),
    ensures
        is_ascending(rows(final(list)@)),
        grown == !rows(old(list)@).contains(item@),
        forall|x: Seq<char>|
            rows(final(list)@).contains(x) <==> rows(old(list)@).contains(x) || x == item@,
        grown ==> final(list)@.len() == old(list)@.len() + 1,
        !grown ==> final(list)@ == old(list)@,
{
    let ghost before = rows(list@);
    let mut at: usize = 0;
    while at < list.len() && comes_before(&list[at], &item)
        invariant
            at <= list.len(),
            list@ == old(list)@,
            before == rows(list@),
            forall|k: int| 0 <= k < at ==> lex_less(#[trigger] before[k], item@),
        decreases list.len() - at,
    {
        at += 1;
    }
    if at < list.len() && crate::text::same(&list[at], &item) {
        proof {
            assert(before[at as int] == item@);
        }
        return false;
    }
    proof {
        if at < list.len() {
            lemma_lex_total(item@, before[at as int]);
        }
        assert(!before.contains(item@)) by {
            if before.contains(item@) {
                let m = choose|m: int| 0 <= m < before.len() && before[m] == item@;
                lemma_lex_asymmetric(item@, item@);
                if m > at {
                    lemma_lex_asymmetric(item@, before[at as int]);
                }
            }
        }
    }
    list.insert(at, item);
    proof {
        let after = rows(list@);
        assert(after =~= before.insert(at as int, item@));
        assert forall|i: int, j: int| 0 <= i < j < after.len() implies lex_less(
            #[trigger] after[i],
            #[trigger] after[j],
        ) by {
            if i == at && j - 1 > at {
                lemma_lex_transitive(item@, before[at as int], before[j - 1]);
            }
        }
        assert forall|x: Seq<char>| after.contains(x) <==> before.contains(x) || x == item@ by {
            if after.contains(x) {
                let m = choose|m: int| 0 <= m < after.len() && after[m] == x;
            }
            if before.contains(x) {
                let m = choose|m: int| 0 <= m < before.len() && before[m] == x;
                if m < at {
                    assert(after[m] == x);
                } else {
                    assert(after[m + 1] == x);
                }
            }
            if x == item@ {
                assert(after[at as int] == x);
            }
        }
    }
    true
}

/// Takes `item` out of an ascending list, and tells whether the list held it.
pub fn remove_sorted(list: &mut Vec<Vec<char>>, item: &Vec<char>) -> (shrunk: bool)
    requires
        is_ascending(rows(old(list)@)),
    ensures
        is_ascending(rows(final(list)@)),
        shrunk == rows(old(list)@).contains(item@),
        forall|x: Seq<char>|
            rows(final(list)@).contains(x) <==> rows(old(list)@).contains(x) && x != item@,
        !shrunk ==> final(list)@ == old(list)@,
{
    let ghost before = rows(list@);
    let mut at: usize = 0;
    while at < list.len()
        invariant
            at <= list.len(),
            list@ == old(list)@,
            before == rows(list@),
            is_ascending(before),
            forall|k: int| 0 <= k < at ==> #[trigger] before[k] != item@,
        decreases list.len() - at,
    {
        if crate::text::same(&list[at], item) {
            assert(before[at as int] == item@);
            list.remove(at);
            proof {
                let after = rows(list@);
                assert(after =~= before.remove(at as int));
                assert forall|i: int, j: int| 0 <= i < j < after.len() implies lex_less(
                    #[trigger] after[i],
                    #[trigger] after[j],
                ) by {
                    let a = if i < at {
                        i
                    } else {
                        i + 1
                    };
                }
                assert forall|x: Seq<char>| after.contains(x) <==> before.contains(x) && x
                    != item@ by {
                    if after.contains(x) {
                        let m = choose|m: int| 0 <= m < after.len() && after[m] == x;
                        let a = if m < at {
                            m
                        } else {
                            m + 1
                        };
                        lemma_lex_asymmetric(before[a], before[at as int]);
                        lemma_lex_asymmetric(before[at as int], before[a]);
                    }
                    if before.contains(x) && x != item@ {
                        let m = choose|m: int| 0 <= m < before.len() && before[m] == x;
                        if m < at {
                            assert(after[m] == x);
                        } else {
                            assert(after[m - 1] == x);
                        }
                    }
                }
            }
            return true;
        }
        at += 1;
    }
    false
}

/// The distinct texts of `items` in ascending order.
pub fn sorted_distinct(items: &Vec<Vec<char>>) -> (list: Vec<Vec<char>>)
    ensures
        is_sorted_set_of(rows(list@), rows(items@)),
{
    let mut list: Vec<Vec<char>> = Vec::new();
    let mut i: usize = 0;
    while i < items.len()
        invariant
            i <= items.len(),
            is_ascending(rows(list@)),
            forall|x: Seq<char>|
                rows(list@).contains(x) <==> rows(items@).take(i as int).contains(x),
        decreases items.len() - i,
    {
        let item = items[i].clone();
        insert_sorted(&mut list, item);
        proof {
            let seen = rows(items@).take(i as int);
            let wider = rows(items@).take(i + 1);
            assert forall|x: Seq<char>| rows(list@).contains(x) <==> wider.contains(x) by {
                if x == item@ {
                    assert(wider[i as int] == x);
                }
            }
        }
        i += 1;
    }
    assert(rows(items@).take(i as int) == rows(items@));
    list
}

/// The first `cap` texts of an ascending list.
pub fn head(list: &Vec<Vec<char>>, cap: usize) -> (out: Vec<Vec<char>>)
    ensures
        rows(out@) == crate::text::rows(list@).take(
            if list.len() <= cap {
                list.len() as int
            } else {
                cap as int
            },
        ),
{
    let n: usize = if list.len() <= cap {
        list.len()
    } else {
        cap
    };
    let mut out: Vec<Vec<char>> = Vec::new();
    let mut i: usize = 0;
    while i < n
        invariant
            i <= n <= list.len(),
            out.len() == i,
            forall|k: int| 0 <= k < i ==> out[k]@ == list[k]@,
        decreases n - i,
    {
        let item = list[i].clone();
        out.push(item);
        i += 1;
    }
    out
}

/// The first `cap` of the distinct texts of `items` in ascending order.
pub fn sorted_head(items: &Vec<Vec<char>>, cap: usize) -> (out: Vec<Vec<char>>)
    requires
        cap > 0,
    ensures
        is_head_of_sorted_set(rows(out@), rows(items@), cap as int),
{
    let list = sorted_distinct(items);
    let out = head(&list, cap);
    proof {
        let all = rows(list@);
        let shown = rows(out@);
        assert forall|i: int| 0 <= i < shown.len() implies rows(items@).contains(
            #[trigger] shown[i],
        ) by {
        }
        assert forall|x: Seq<char>|
            rows(items@).contains(x) && !shown.contains(x) implies shown.len() == cap
            && lex_less(shown[cap - 1], x) by {
            let m = choose|m: int| 0 <= m < all.len() && all[m] == x;
            if m < shown.len() {
                assert(shown[m] == x);
            }
        }
    }
    out
}

} // verus!
