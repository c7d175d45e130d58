use promptlab_core::segment::{push_word_tokens, tokens_from_words, Segmenter};

fn chars(text: &str) -> Vec<char> {
    text.chars().collect()
}

fn texts(tokens: &Vec<Vec<char>>) -> Vec<String> {
    tokens.iter().map(|token| token.iter().collect()).collect()
}

fn words(list: &[&str]) -> Vec<String> {
    list.iter().map(|word| word.to_string()).collect()
}

#[test]
fn words_are_cleaned_into_tokens() {
    let found = words(&["Hello World", " ", "（产品）", "a", "2024", "X1", "——", "", "(Big)", "，", "。。"]);
    assert_eq!(
        texts(&tokens_from_words(&found)),
        vec!["hello", "world", "产品", "x1", "——", "big"]
    );
    assert_eq!(texts(&tokens_from_words(&words(&[]))), Vec::<String>::new());
}

#[test]
fn word_is_judged_without_the_punctuation_at_its_ends() {
    let found = words(&["，H", "（Hello  World）", "【X1 20 y】", "。ab？", "（产品A）", "，42。", "！ ！"]);
    assert_eq!(texts(&tokens_from_words(&found)), vec!["hello", "world", "x1", "ab", "产品A"]);
}

#[test]
fn ascii_tokens_are_small_unbroken_and_no_numbers() {
    let segmenter = Segmenter::new();
    let texts_in = [
        "Hello, World! 42 a B2B 请你扮演产品经理，输出PRD模板 (Mixed) CASE x",
        "，H。 【Title】 ３ ＡＢ tab\tseparated  words\nnew line 2024-01-01 v1.2",
    ];
    for text in texts_in {
        for token in segmenter.tokenize(text) {
            let token: String = token.iter().collect();
            assert!(!token.is_empty());
            let first = token.chars().next().unwrap();
            let last = token.chars().last().unwrap();
            assert!(!first.is_ascii_punctuation() && !last.is_ascii_punctuation(), "{}", token);
            if token.is_ascii() {
                assert_eq!(token, token.to_lowercase());
                assert!(!token.contains(char::is_whitespace), "{}", token);
                assert!(token.len() >= 2, "{}", token);
                assert!(!token.chars().all(|c| c.is_ascii_digit()), "{}", token);
            }
        }
    }
}

#[test]
fn tokens_of_one_word_are_appended() {
    let mut out = vec![chars("first")];
    push_word_tokens(&mut out, &chars("  Some  (MORE), words! 7 x "));
    assert_eq!(texts(&out), vec!["first", "some", "more", "words"]);
    push_word_tokens(&mut out, &chars("【经理】"));
    assert_eq!(texts(&out), vec!["first", "some", "more", "words", "经理"]);
    push_word_tokens(&mut out, &chars("！"));
    assert_eq!(out.len(), 5);
}

#[test]
fn mixed_text_is_segmented() {
    let segmenter = Segmenter::new();
    let found = segmenter.tokenize("作为资深产品经理，请为新用户撰写 PRD 文档，面向开发团队。PRD 要包含目标。");
    assert_eq!(
        texts(&found),
        vec![
            "作为", "资深", "产品", "经理", "请", "为", "新", "用户", "撰写", "prd", "文档", "面向",
            "开发", "团队", "prd", "要", "包含", "目标"
        ]
    );
    assert_eq!(texts(&segmenter.tokenize("")), Vec::<String>::new());
    assert_eq!(texts(&segmenter.tokenize("Hello, World! 42 a")), vec!["hello", "world"]);
}

#[test]
fn segmentation_is_repeatable() {
    let segmenter = Segmenter::new();
    let other = Segmenter::new();
    let text = "请你扮演产品经理，输出PRD模板";
    assert_eq!(segmenter.tokenize(text), segmenter.tokenize(text));
    assert_eq!(segmenter.tokenize(text), other.tokenize(text));
    assert!(segmenter.tokenize(text).len() > 1);
}
