use promptlab_core::analysis::PromptAnalysis;
use promptlab_core::capture::{
    address_mark_table, build_structured_body, count_contained, count_dialogue, derive_title,
    has_char, is_potential_prompt, CaptureFilter,
};
use promptlab_core::remote::chat_endpoint;

fn chars(text: &str) -> Vec<char> {
    text.chars().collect()
}

fn rows(list: &[&str]) -> Vec<Vec<char>> {
    list.iter().map(|text| chars(text)).collect()
}

fn analysis() -> PromptAnalysis {
    PromptAnalysis {
        id: "id-1".to_string(),
        summary: "提示词概览：你是律师".to_string(),
        suggested_tags: vec!["律师".to_string(), "合同".to_string()],
        length: 4,
        topic: Some("topic".to_string()),
        theme: Some("theme".to_string()),
        role: "你是律师".to_string(),
        target_entities: vec!["客户".to_string(), "法官".to_string()],
    }
}

#[test]
fn title_is_the_first_line() {
    assert_eq!(derive_title("  First line  \nsecond"), "First line");
    assert_eq!(derive_title("\nsecond"), "剪贴板导入");
    assert_eq!(derive_title(""), "剪贴板导入");
    assert_eq!(derive_title("   "), "剪贴板导入");
    assert_eq!(derive_title("only\r\nnext"), "only");
    let long = "题".repeat(100);
    assert_eq!(derive_title(&long), "题".repeat(80));
    assert_eq!(derive_title(&"题".repeat(80)), "题".repeat(80));
}

#[test]
fn short_and_long_texts_are_no_prompts() {
    assert!(!is_potential_prompt(""));
    assert!(!is_potential_prompt("   "));
    assert!(!is_potential_prompt("1234567"));
    assert!(!is_potential_prompt("  1234567  "));
    assert!(is_potential_prompt("12345678"));
    assert!(is_potential_prompt("请你扮演产品经理"));
    assert!(!is_potential_prompt("请你扮演产品经"));
    assert!(is_potential_prompt(&"a".repeat(600)));
    assert!(!is_potential_prompt(&"a".repeat(601)));
    assert!(is_potential_prompt(&format!("  {}  ", "a".repeat(600))));
}

#[test]
fn many_lines_are_no_prompt() {
    let twelve = vec!["line of text"; 12].join("\n");
    let thirteen = vec!["line of text"; 13].join("\n");
    assert!(is_potential_prompt(&twelve));
    assert!(!is_potential_prompt(&thirteen));
    assert!(is_potential_prompt(&format!("{}\n\n", twelve)));
}

#[test]
fn dialogue_is_no_prompt() {
    let five = "A: hi\nB: hello\nA：fine\nB: ok\nA: bye\nthe end";
    let six = "A: hi\nB: hello\nA：fine\nB: ok\nA: bye\nB: bye";
    assert!(is_potential_prompt(five));
    assert!(!is_potential_prompt(six));
    assert_eq!(count_dialogue(&rows(&["a:b", "c", "d：e", "::", ""])), 3);
    assert!(has_char(&chars("a:b"), ':') && !has_char(&chars("a：b"), ':') && !has_char(&chars(""), ':'));
}

#[test]
fn web_addresses_are_no_prompt() {
    assert!(is_potential_prompt("see https://example.org for more"));
    assert!(!is_potential_prompt("see http://example.com and https://example.org"));
    assert!(!is_potential_prompt("mail me at a.com or b.net or c.org"));
    assert!(is_potential_prompt("mail me at a.com or b.net today"));
    let marks = address_mark_table();
    assert_eq!(marks, rows(&["http://", "https://", ".com", ".net", ".org"]));
    assert_eq!(count_contained(&chars("https://a.com https://b.com"), &marks), 2);
    assert_eq!(count_contained(&chars("plain"), &marks), 0);
    assert_eq!(count_contained(&chars("http://x.com.net.org https://"), &marks), 5);
}

#[test]
fn captured_prompt_is_laid_out() {
    let full = analysis();
    assert_eq!(
        build_structured_body(&full, "  你是律师，请审阅合同 \n"),
        "角色：你是律师\n主题：theme\n对象：客户、法官\n关键词：律师、合同\n摘要：提示词概览：你是律师\n原文：\n你是律师，请审阅合同"
    );
    let mut bare = analysis();
    bare.role = String::new();
    bare.theme = None;
    bare.target_entities = Vec::new();
    assert_eq!(
        build_structured_body(&bare, "text"),
        "主题：topic\n关键词：律师、合同\n摘要：提示词概览：你是律师\n原文：\ntext"
    );
    bare.topic = None;
    bare.suggested_tags = vec!["general".to_string()];
    assert_eq!(
        build_structured_body(&bare, ""),
        "关键词：general\n摘要：提示词概览：你是律师\n原文：\n"
    );
}

#[test]
fn filter_lets_a_new_prompt_through_once() {
    let mut filter = CaptureFilter::new();
    assert_eq!(filter.screen("short"), None);
    assert_eq!(filter.screen("  请你扮演产品经理 \n"), Some("请你扮演产品经理".to_string()));
    assert_eq!(filter.screen("请你扮演产品经理"), None);
    assert_eq!(filter.screen("\t请你扮演产品经理"), None);
    assert_eq!(filter.screen("short"), None);
    assert_eq!(filter.screen("请你扮演产品经理"), None);
    assert_eq!(filter.screen("请你扮演项目经理"), Some("请你扮演项目经理".to_string()));
    assert_eq!(filter.screen("请你扮演产品经理"), Some("请你扮演产品经理".to_string()));
}

#[test]
fn endpoint_is_the_base_with_the_chat_path() {
    assert_eq!(chat_endpoint("https://host/v1"), "https://host/v1/chat/completions");
    assert_eq!(chat_endpoint("https://host/v1///"), "https://host/v1/chat/completions");
    assert_eq!(chat_endpoint(""), "/chat/completions");
    assert_eq!(chat_endpoint("/"), "/chat/completions");
}
