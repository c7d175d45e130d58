use promptlab_core::analysis::{summarize_prompt, summarize_prompt_with_vocab};
use promptlab_core::segment::Segmenter;

#[test]
fn role_play_prompt_is_recognised() {
    let analysis = summarize_prompt("请你扮演产品经理，输出PRD模板");
    assert!(analysis.role.contains("扮演"));
    assert_eq!(analysis.role, "请你扮演产品经理");
    assert!(analysis.theme.is_some());
    assert!(!analysis.theme.clone().unwrap().is_empty());
    assert_eq!(analysis.theme, Some("prd".to_string()));
    assert_eq!(analysis.topic, Some("请你扮演产品经理，输出PRD模板".to_string()));
    assert!(!analysis.suggested_tags.is_empty());
    assert_eq!(analysis.length, 16);
    assert_eq!(analysis.summary, "提示词概览：请你扮演产品经理，输出PRD模板");
    println!("{:?}", analysis);
}

#[test]
fn empty_text_gives_the_fallback() {
    let analysis = summarize_prompt("");
    assert_eq!(analysis.summary, "请输入有效的提示词以触发分析");
    assert_eq!(analysis.length, 0);
    assert_eq!(analysis.suggested_tags, vec!["general".to_string()]);
    assert_eq!(analysis.role, "空");
    assert_eq!(analysis.theme, None);
    assert_eq!(analysis.topic, None);
    assert!(analysis.target_entities.is_empty());
}

#[test]
fn blank_text_gives_the_fallback() {
    let analysis = summarize_prompt(" \t\n\u{3000} ");
    assert_eq!(analysis.summary, "请输入有效的提示词以触发分析");
    assert_eq!(analysis.length, 0);
    assert_eq!(analysis.suggested_tags, vec!["general".to_string()]);
}

#[test]
fn analysis_is_repeatable() {
    let segmenter = Segmenter::new();
    let vocabulary = vec!["prd".to_string(), "产品经理".to_string()];
    let text = "作为资深产品经理，请为新用户撰写 PRD 文档，面向开发团队。PRD 要包含目标。";
    let first = segmenter.summarize(text, &vocabulary);
    let second = segmenter.summarize(text, &vocabulary);
    assert_eq!(first.suggested_tags, second.suggested_tags);
    assert_eq!(first.theme, second.theme);
    assert_eq!(first.topic, second.topic);
    assert_eq!(first.role, second.role);
    assert_eq!(first.target_entities, second.target_entities);
    assert_ne!(first.id, second.id);
    println!("{:?}", first);
}

#[test]
fn vocabulary_term_is_boosted() {
    let text = "write a short story about a dragon and a knight; the dragon wins";
    let plain = summarize_prompt(text);
    let vocabulary = vec!["Knight".to_string()];
    let boosted = summarize_prompt_with_vocab(text, &vocabulary);
    assert_eq!(plain.suggested_tags[0], "dragon");
    assert_eq!(boosted.suggested_tags[0], "knight");
    println!("{:?} {:?}", plain.suggested_tags, boosted.suggested_tags);
}

#[test]
fn tags_are_never_empty_and_never_more_than_eight() {
    let segmenter = Segmenter::new();
    let texts = [
        "的 的 的",
        "a",
        "42",
        "！！！",
        "alpha bravo charlie delta echo foxtrot golf hotel india juliet kilo lima",
        "请你扮演产品经理，输出PRD模板",
        "   ",
    ];
    for text in texts {
        let analysis = segmenter.summarize(text, &[]);
        assert!(!analysis.suggested_tags.is_empty(), "{}", text);
        assert!(analysis.suggested_tags.len() <= 8, "{}", text);
        assert!(analysis.target_entities.len() <= 5, "{}", text);
    }
    assert_eq!(segmenter.summarize("的 的 的", &[]).suggested_tags, vec!["general"]);
    assert_eq!(
        segmenter
            .summarize("alpha bravo charlie delta echo foxtrot golf hotel india juliet kilo lima", &[])
            .suggested_tags,
        vec!["charlie", "foxtrot", "juliet", "alpha", "bravo", "delta", "hotel", "india"]
    );
}

#[test]
fn targets_are_never_more_than_five() {
    let segmenter = Segmenter::new();
    let analysis = segmenter.summarize("给学生 给老师 给医生 给律师 给工人 给农民 给司机", &[]);
    assert_eq!(analysis.target_entities, vec!["农民", "医生", "司机", "学生", "工人"]);
    assert_eq!(analysis.theme, Some("农民、医生、司机、学生、工人".to_string()));
    assert_eq!(analysis.topic, Some("给学生 给老师 给医生 给律师 给工人 给农民 给司机".to_string()));
}

#[test]
fn summary_shows_the_first_hundred_and_sixty_characters() {
    let body = format!("  {}  ", "长".repeat(200));
    let analysis = summarize_prompt(&body);
    assert_eq!(analysis.length, 200);
    assert_eq!(analysis.summary, format!("提示词概览：{}", "长".repeat(160)));
    let short = summarize_prompt(" short text ");
    assert_eq!(short.length, 10);
    assert_eq!(short.summary, "提示词概览：short text");
    assert_eq!(short.theme, Some("short".to_string()));
    assert_eq!(short.suggested_tags, vec!["short", "text"]);
}

#[test]
fn boosted_term_does_not_fall_in_rank() {
    let segmenter = Segmenter::new();
    let text = "compare the tiger with the lion; the tiger is fast, the lion is strong, the Zebra runs";
    let plain = segmenter.summarize(text, &[]);
    let place = |tags: &Vec<String>, word: &str| tags.iter().position(|tag| tag == word);
    for term in ["zebra", "lion", "tiger", "strong", "runs"] {
        let boosted = segmenter.summarize(text, &[term.to_string()]);
        let before = place(&plain.suggested_tags, term).unwrap();
        let after = place(&boosted.suggested_tags, term).unwrap();
        assert!(after <= before, "{} {} {}", term, before, after);
        assert_eq!(after, 0, "{}", term);
    }
    assert_eq!(plain.suggested_tags, vec!["tiger", "lion", "compare", "strong", "zebra", "fast", "runs"]);
}

#[test]
fn identifier_is_fresh_and_well_formed() {
    let first = summarize_prompt("请你扮演产品经理");
    let second = summarize_prompt("请你扮演产品经理");
    assert_ne!(first.id, second.id);
    for id in [&first.id, &second.id] {
        assert_eq!(id.len(), 36);
        for (i, c) in id.chars().enumerate() {
            match i {
                8 | 13 | 18 | 23 => assert_eq!(c, '-'),
                _ => assert!(c.is_ascii_digit() || ('a'..='f').contains(&c)),
            }
        }
    }
}

#[test]
fn capital_letters_in_the_text_do_not_hide_a_term() {
    let text = "DRAGON tiger tiger";
    let plain = summarize_prompt(text);
    assert_eq!(plain.suggested_tags, vec!["tiger", "dragon"]);
    let boosted = summarize_prompt_with_vocab(text, &["dragon".to_string()]);
    assert_eq!(boosted.suggested_tags, vec!["dragon", "tiger"]);
    // a term with other characters than ASCII is looked for as it stands
    let small = summarize_prompt_with_vocab("ÉCOLE tiger tiger", &["école".to_string()]);
    assert_eq!(small.suggested_tags, vec!["tiger", "cole"]);
    let capital = summarize_prompt_with_vocab("ÉCOLE tiger tiger", &["ÉCOLE".to_string()]);
    assert_eq!(capital.suggested_tags, vec!["ÉCOLE", "tiger", "cole"]);
}

#[test]
fn order_of_the_vocabulary_does_not_matter() {
    let segmenter = Segmenter::new();
    let text = "compare the tiger with the lion; the tiger is fast, the lion is strong, the Zebra runs";
    let one = segmenter.summarize(text, &["zebra".to_string(), "lion".to_string(), "runs".to_string()]);
    let other = segmenter.summarize(text, &["runs".to_string(), "zebra".to_string(), "lion".to_string()]);
    assert_eq!(one.suggested_tags, other.suggested_tags);
    assert_eq!(one.suggested_tags, vec!["lion", "zebra", "runs", "tiger", "compare", "strong", "fast"]);
}

#[test]
fn topic_is_the_first_line_whatever_the_theme() {
    let analysis = summarize_prompt("alpha beta beta");
    assert_eq!(analysis.topic, Some("alpha beta beta".to_string()));
    assert_eq!(analysis.theme, Some("beta".to_string()));
    assert_eq!(analysis.suggested_tags, vec!["beta", "alpha"]);
    let lines = summarize_prompt("\n  \n  write a story about the sea and the sky above it  \nsecond line");
    assert_eq!(lines.topic, Some("write a story about the sea and ".to_string()));
    assert_eq!(lines.theme, Some("second".to_string()));
    let bare = summarize_prompt("的 的");
    assert_eq!(bare.topic, Some("的 的".to_string()));
    assert_eq!(bare.theme, Some("的 的".to_string()));
}
