use promptlab_core::chars::{
    ascii, ascii_digit, punctuation, to_lower_ascii, whitespace, width_in_utf8, CharClass,
};
use promptlab_core::lexicon::{
    carries_signal, is_countable, is_listed, is_meaningful, is_noise_ascii, is_numeric_token,
    normalize_token, stopword_table, trim_punctuation,
};
use promptlab_core::ordered::{
    comes_before, head, insert_sorted, remove_sorted, sorted_distinct, sorted_head,
};
use promptlab_core::text::{
    append, chars_of, compare, count_occurrences, cut_first, find_first, has_bytes, has_digit,
    has_part, is_all_ascii, is_all_digits, join_with, lower_ascii_text, matches_at, rows_of, same,
    slice, split_class, split_words, string_of, take_prefix, texts_of, trim_class,
    trim_end_class, Order,
};

fn chars(text: &str) -> Vec<char> {
    text.chars().collect()
}

fn rows(list: &[&str]) -> Vec<Vec<char>> {
    list.iter().map(|text| chars(text)).collect()
}

#[test]
fn characters_are_classed() {
    assert!(ascii('~') && ascii('\u{7f}') && !ascii('\u{80}') && !ascii('中'));
    assert!(ascii_digit('0') && ascii_digit('9') && !ascii_digit('a') && !ascii_digit('٣'));
    for c in "!\"#$%&'()*+,-./:;<=>?@[\\]^_`{|}~，。！？、；：（）【】".chars() {
        assert!(punctuation(c), "{}", c);
        assert_eq!(punctuation(c), c.is_ascii_punctuation() || !c.is_ascii());
    }
    for c in "aZ09 中\u{300c}".chars() {
        assert!(!punctuation(c), "{}", c);
    }
    for code in 0u32..0x3100 {
        if let Some(c) = char::from_u32(code) {
            assert_eq!(whitespace(c), c.is_whitespace(), "{:x}", code);
            assert_eq!(to_lower_ascii(c), c.to_ascii_lowercase(), "{:x}", code);
            assert_eq!(width_in_utf8(c), c.len_utf8(), "{:x}", code);
            assert_eq!(ascii_digit(c), c.is_ascii_digit(), "{:x}", code);
            assert_eq!(CharClass::Whitespace.contains(c), c.is_whitespace());
        }
    }
    assert_eq!(width_in_utf8('\u{1f600}'), 4);
    assert_eq!(width_in_utf8('\u{ffff}'), 3);
    assert!(CharClass::ClauseBreak.contains('。') && CharClass::ClauseBreak.contains(';'));
    assert!(!CharClass::ClauseBreak.contains(':') && !CharClass::ClauseBreak.contains(','));
    assert!(CharClass::LineBreak.contains('\n') && !CharClass::LineBreak.contains('\r'));
    assert!(CharClass::TagBreak.contains('|') && CharClass::Slash.contains('/'));
}

#[test]
fn strings_and_characters_convert() {
    assert_eq!(chars_of("a中\u{1f600}"), vec!['a', '中', '\u{1f600}']);
    assert_eq!(string_of(&chars("a中\u{1f600}")), "a中\u{1f600}");
    assert_eq!(chars_of(""), Vec::<char>::new());
    let list = vec!["ab".to_string(), "".to_string(), "中".to_string()];
    assert_eq!(rows_of(&list), rows(&["ab", "", "中"]));
    assert_eq!(texts_of(&rows(&["ab", "", "中"])), list);
}

#[test]
fn text_is_trimmed() {
    assert_eq!(trim_class(&chars("  \t中 文\u{3000}\n"), CharClass::Whitespace), chars("中 文"));
    assert_eq!(trim_class(&chars(" \n "), CharClass::Whitespace), chars(""));
    assert_eq!(trim_class(&chars(""), CharClass::Whitespace), chars(""));
    assert_eq!(trim_class(&chars("（hello, world!）"), CharClass::Punctuation), chars("hello, world"));
    assert_eq!(trim_class(&chars("..."), CharClass::Punctuation), chars(""));
    assert_eq!(trim_end_class(&chars("//a/b//"), CharClass::Slash), chars("//a/b"));
    assert_eq!(trim_end_class(&chars("///"), CharClass::Slash), chars(""));
    for text in ["", " a ", "\u{a0}x\u{2003}y\u{85}", "\u{200b}z ", "\r\n中\r\n"] {
        assert_eq!(string_of(&trim_class(&chars(text), CharClass::Whitespace)), text.trim());
    }
}

#[test]
fn text_is_sliced() {
    assert_eq!(slice(&chars("abcdef"), 1, 4), chars("bcd"));
    assert_eq!(slice(&chars("abcdef"), 2, 2), chars(""));
    assert_eq!(take_prefix(&chars("abcdef"), 3), chars("abc"));
    assert_eq!(take_prefix(&chars("abc"), 3), chars("abc"));
    assert_eq!(take_prefix(&chars("ab"), 3), chars("ab"));
    assert_eq!(take_prefix(&chars("ab"), 0), chars(""));
    let mut out = chars("ab");
    append(&mut out, &chars("中c"));
    assert_eq!(out, chars("ab中c"));
}

#[test]
fn text_is_tested() {
    assert!(same(&chars("中a"), &chars("中a")) && !same(&chars("中a"), &chars("中b")));
    assert!(!same(&chars("a"), &chars("ab")));
    assert!(is_all_ascii(&chars("abc 1!")) && is_all_ascii(&chars("")) && !is_all_ascii(&chars("a中")));
    assert!(is_all_digits(&chars("0123")) && is_all_digits(&chars("")) && !is_all_digits(&chars("12a")));
    assert!(has_digit(&chars("ab1")) && !has_digit(&chars("abc")) && !has_digit(&chars("")));
    assert_eq!(lower_ascii_text(&chars("Hello, WORLD 中Ä")), chars("hello, world 中Ä"));
    assert!(has_bytes(&chars("abcd"), 4) && !has_bytes(&chars("abc"), 4));
    assert!(!has_bytes(&chars("中"), 4) && has_bytes(&chars("中"), 3) && has_bytes(&chars("\u{1f600}"), 4));
    assert!(has_bytes(&chars("中a"), 4) && has_bytes(&chars(""), 0) && !has_bytes(&chars(""), 1));
}

#[test]
fn parts_are_found() {
    let hay = chars("abcabcab");
    assert!(matches_at(&hay, &chars("abc"), 3) && !matches_at(&hay, &chars("abc"), 1));
    assert!(!matches_at(&hay, &chars("abc"), 6) && !matches_at(&hay, &chars("abc"), 100));
    assert_eq!(find_first(&hay, &chars("bca")), Some(1));
    assert_eq!(find_first(&hay, &chars("cab")), Some(2));
    assert_eq!(find_first(&hay, &chars("x")), None);
    assert_eq!(find_first(&hay, &chars("")), Some(0));
    assert_eq!(find_first(&chars(""), &chars("")), Some(0));
    assert_eq!(find_first(&chars("ab"), &chars("abc")), None);
    assert_eq!(find_first(&hay, &chars("abcabcab")), Some(0));
    assert!(has_part(&chars("请你扮演产品经理"), &chars("扮演")));
    assert!(!has_part(&chars("请你扮演产品经理"), &chars("演扮")));
    assert_eq!(cut_first(&hay, &chars("bc")), chars("aabcab"));
    assert_eq!(cut_first(&hay, &chars("zz")), hay);
    assert_eq!(cut_first(&chars("面向开发者"), &chars("面向")), chars("开发者"));
    assert_eq!(cut_first(&chars("ab"), &chars("ab")), chars(""));
}

#[test]
fn occurrences_are_counted_without_overlap() {
    assert_eq!(count_occurrences(&chars("aaaa"), &chars("aa")), 2);
    assert_eq!(count_occurrences(&chars("aaaaa"), &chars("aa")), 2);
    assert_eq!(count_occurrences(&chars("abababa"), &chars("aba")), 2);
    assert_eq!(count_occurrences(&chars("abc"), &chars("abc")), 1);
    assert_eq!(count_occurrences(&chars("abc"), &chars("abcd")), 0);
    assert_eq!(count_occurrences(&chars("abc"), &chars("")), 0);
    assert_eq!(count_occurrences(&chars(""), &chars("a")), 0);
    assert_eq!(count_occurrences(&chars("产品经理和产品"), &chars("产品")), 2);
    for (hay, needle) in [("aaaa", "aa"), ("abababa", "aba"), ("xxyxxxyx", "xx"), ("中中中", "中中")] {
        assert_eq!(count_occurrences(&chars(hay), &chars(needle)), hay.match_indices(needle).count());
    }
}

#[test]
fn text_is_split() {
    assert_eq!(split_class(&chars("a|b||c"), CharClass::TagBreak), rows(&["a", "b", "", "c"]));
    assert_eq!(split_class(&chars(""), CharClass::TagBreak), rows(&[""]));
    assert_eq!(split_class(&chars("|"), CharClass::TagBreak), rows(&["", ""]));
    assert_eq!(split_class(&chars("abc"), CharClass::TagBreak), rows(&["abc"]));
    assert_eq!(
        split_class(&chars("你是助手。请回答；谢谢.ok"), CharClass::ClauseBreak),
        rows(&["你是助手", "请回答", "谢谢", "ok"])
    );
    assert_eq!(split_words(&chars("  hello \t big\nworld ")), rows(&["hello", "big", "world"]));
    assert_eq!(split_words(&chars("   ")), Vec::<Vec<char>>::new());
    assert_eq!(split_words(&chars("")), Vec::<Vec<char>>::new());
    for text in ["a b", " a\u{3000}b\tc ", "", "x"] {
        let expected: Vec<Vec<char>> = text.split_whitespace().map(chars).collect();
        assert_eq!(split_words(&chars(text)), expected);
    }
}

#[test]
fn parts_are_joined() {
    assert_eq!(join_with(&rows(&["a", "b", "c"]), &chars("、")), chars("a、b、c"));
    assert_eq!(join_with(&rows(&["a"]), &chars("、")), chars("a"));
    assert_eq!(join_with(&rows(&[]), &chars("、")), chars(""));
    assert_eq!(join_with(&rows(&["", ""]), &chars("--")), chars("--"));
}

#[test]
fn texts_are_ordered() {
    assert_eq!(compare(&chars("abc"), &chars("abd")), Order::Before);
    assert_eq!(compare(&chars("abd"), &chars("abc")), Order::After);
    assert_eq!(compare(&chars("ab"), &chars("abc")), Order::Before);
    assert_eq!(compare(&chars("abc"), &chars("ab")), Order::After);
    assert_eq!(compare(&chars("abc"), &chars("abc")), Order::Same);
    assert_eq!(compare(&chars(""), &chars("")), Order::Same);
    assert_eq!(compare(&chars(""), &chars("a")), Order::Before);
    assert_eq!(compare(&chars("z"), &chars("中")), Order::Before);
    assert_eq!(compare(&chars("\u{ffff}"), &chars("\u{10000}")), Order::Before);
    assert!(comes_before(&chars("a"), &chars("b")) && !comes_before(&chars("b"), &chars("a")));
    assert!(!comes_before(&chars("a"), &chars("a")));
    let words = ["", "a", "ab", "b", "中", "产品", "\u{1f600}", "z"];
    for x in words {
        for y in words {
            let expected = match x.cmp(y) {
                std::cmp::Ordering::Less => Order::Before,
                std::cmp::Ordering::Equal => Order::Same,
                std::cmp::Ordering::Greater => Order::After,
            };
            assert_eq!(compare(&chars(x), &chars(y)), expected, "{} {}", x, y);
        }
    }
}

#[test]
fn sorted_lists_hold_each_text_once() {
    let mut list: Vec<Vec<char>> = Vec::new();
    assert!(insert_sorted(&mut list, chars("m")));
    assert!(insert_sorted(&mut list, chars("b")));
    assert!(insert_sorted(&mut list, chars("z")));
    assert!(!insert_sorted(&mut list, chars("m")));
    assert!(insert_sorted(&mut list, chars("中")));
    assert_eq!(list, rows(&["b", "m", "z", "中"]));
    assert!(remove_sorted(&mut list, &chars("m")));
    assert!(!remove_sorted(&mut list, &chars("m")));
    assert_eq!(list, rows(&["b", "z", "中"]));
    let items = rows(&["pear", "apple", "fig", "apple", "kiwi", "date", "fig", "plum"]);
    assert_eq!(sorted_distinct(&items), rows(&["apple", "date", "fig", "kiwi", "pear", "plum"]));
    assert_eq!(sorted_head(&items, 5), rows(&["apple", "date", "fig", "kiwi", "pear"]));
    assert_eq!(sorted_head(&items, 7), rows(&["apple", "date", "fig", "kiwi", "pear", "plum"]));
    assert_eq!(head(&items, 2), rows(&["pear", "apple"]));
    assert_eq!(head(&items, 0), rows(&[]));
    assert_eq!(sorted_distinct(&rows(&[])), rows(&[]));
}

#[test]
fn tokens_are_filtered() {
    assert_eq!(trim_punctuation(&chars("“hello!”")), chars("“hello!”"));
    assert_eq!(trim_punctuation(&chars("【提示】")), chars("提示"));
    assert_eq!(trim_punctuation(&chars("--a-b--")), chars("a-b"));
    assert_eq!(normalize_token(&chars("(Hello)")), chars("hello"));
    assert_eq!(normalize_token(&chars("，Hello世界！")), chars("Hello世界"));
    assert_eq!(normalize_token(&chars("!!")), chars(""));
    assert!(is_meaningful(&chars("ab")) && is_meaningful(&chars("产品")) && is_meaningful(&chars("a1")));
    assert!(!is_meaningful(&chars("a")) && !is_meaningful(&chars("产")) && !is_meaningful(&chars("42")));
    assert!(!is_meaningful(&chars("")) && !is_meaningful(&chars("...")) && !is_meaningful(&chars("(7)")));
    assert!(is_meaningful(&chars("\u{1f600}")));
    assert!(carries_signal(&chars("\u{1f600}")) && !carries_signal(&chars("中")) && carries_signal(&chars("ab")));
    assert!(is_numeric_token(&chars("42")) && is_numeric_token(&chars("gpt4")) && is_numeric_token(&chars("(3)")));
    assert!(!is_numeric_token(&chars("abc")) && !is_numeric_token(&chars("")) && !is_numeric_token(&chars("...")));
    assert!(is_noise_ascii(&chars("a")) && is_noise_ascii(&chars("")) && is_noise_ascii(&chars("2024")));
    assert!(!is_noise_ascii(&chars("ab")) && !is_noise_ascii(&chars("a1")) && !is_noise_ascii(&chars("中")));
    let table = stopword_table();
    assert_eq!(table.len(), 38);
    for word in ["", "的", "以及", "怎么", "the", "are", "into"] {
        assert!(is_listed(&table, &chars(word)), "{}", word);
    }
    for word in ["产品", "then", "a", "The"] {
        assert!(!is_listed(&table, &chars(word)), "{}", word);
    }
    assert!(is_countable(&chars("产品"), &table) && is_countable(&chars("Story"), &table));
    assert!(!is_countable(&chars("The"), &table) && !is_countable(&chars("用户"), &table));
    assert!(!is_countable(&chars("gpt4"), &table) && !is_countable(&chars("a"), &table));
}
