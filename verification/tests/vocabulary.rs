use promptlab_core::vocabulary::{normalize_vocab_term, Vocabulary, VocabularyError};

fn list(words: &[&str]) -> Vec<String> {
    words.iter().map(|word| word.to_string()).collect()
}

#[test]
fn terms_are_normalised() {
    assert_eq!(normalize_vocab_term("  Prompt Engineering "), "prompt engineering");
    assert_eq!(normalize_vocab_term("\tPRD\n"), "prd");
    assert_eq!(normalize_vocab_term(" 产品PRD "), "产品PRD");
    assert_eq!(normalize_vocab_term("   "), "");
    assert_eq!(normalize_vocab_term(""), "");
    assert_eq!(normalize_vocab_term("(Tag)"), "(tag)");
}

#[test]
fn added_terms_are_kept_once_and_in_order() {
    let mut vocabulary = Vocabulary::new();
    assert_eq!(vocabulary.len(), 0);
    assert_eq!(vocabulary.add(" Zebra "), Ok(true));
    assert_eq!(vocabulary.add("apple"), Ok(true));
    assert_eq!(vocabulary.add("产品经理"), Ok(true));
    assert_eq!(vocabulary.add("  APPLE"), Ok(false));
    assert_eq!(vocabulary.add("mango"), Ok(true));
    assert_eq!(vocabulary.list(), list(&["apple", "mango", "zebra", "产品经理"]));
    assert_eq!(vocabulary.len(), 4);
    assert!(vocabulary.holds("ZEBRA ") && !vocabulary.holds("zebr"));
}

#[test]
fn empty_term_is_refused() {
    let mut vocabulary = Vocabulary::new();
    assert_eq!(vocabulary.add("apple"), Ok(true));
    assert_eq!(vocabulary.add("   "), Err(VocabularyError::EmptyTerm));
    assert_eq!(vocabulary.add(""), Err(VocabularyError::EmptyTerm));
    assert_eq!(vocabulary.list(), list(&["apple"]));
    assert_eq!(VocabularyError::EmptyTerm.message(), "请输入有效的词条");
}

#[test]
fn removed_terms_are_gone() {
    let mut vocabulary = Vocabulary::load(&list(&["b", "a", "c"]));
    assert!(vocabulary.remove(" B "));
    assert!(!vocabulary.remove("b"));
    assert!(!vocabulary.remove("zz"));
    assert_eq!(vocabulary.list(), list(&["a", "c"]));
    assert!(vocabulary.remove("a"));
    assert!(vocabulary.remove("c"));
    assert_eq!(vocabulary.list(), list(&[]));
}

#[test]
fn loaded_entries_are_normalised_sorted_and_distinct() {
    let entries = list(&[" Pear", "apple ", "", "APPLE", "  ", "产品", "fig", "pear", "产品 "]);
    let vocabulary = Vocabulary::load(&entries);
    assert_eq!(vocabulary.list(), list(&["apple", "fig", "pear", "产品"]));
    assert_eq!(Vocabulary::load(&list(&[])).list(), list(&[]));
}

#[test]
fn vocabulary_is_read_from_and_written_as_json() {
    let vocabulary = Vocabulary::from_json("[\" Pear\", \"apple \", \"\", \"APPLE\", \"产品\"]");
    assert_eq!(vocabulary.list(), list(&["apple", "pear", "产品"]));
    assert_eq!(vocabulary.to_json(), Ok("[\n  \"apple\",\n  \"pear\",\n  \"产品\"\n]".to_string()));
    assert_eq!(Vocabulary::from_json("{\"no\": \"list\"}").list(), list(&[]));
    assert_eq!(Vocabulary::from_json("").list(), list(&[]));
    assert_eq!(Vocabulary::new().to_json(), Ok("[]".to_string()));
    let again = Vocabulary::from_json(&vocabulary.to_json().unwrap());
    assert_eq!(again.list(), vocabulary.list());
}
