use promptlab_core::storage::{Analysis, Prompt};
use promptlab_core::json::{normal_json, read_string_list};
use promptlab_core::storage::NewAnalysis;
use promptlab_core::table::{
    cell_of, column_index, encode_records, export_columns, export_records, export_row,
    export_table, flatten, frame_table, import_table, join_tags, plan_import, read_row,
    split_tags, Exported,
};

fn list(words: &[&str]) -> Vec<String> {
    words.iter().map(|word| word.to_string()).collect()
}

fn prompt() -> Prompt {
    Prompt {
        id: "pr-a".to_string(),
        title: "T".to_string(),
        body: "line1\nline2\r\nline3".to_string(),
        language: None,
        model_hint: Some("m".to_string()),
        metadata: "{\"a\":1}".to_string(),
        created_at: "2024-01-01T00:00:00+00:00".to_string(),
        updated_at: "2024-01-02T00:00:00+00:00".to_string(),
    }
}

fn analysis() -> Analysis {
    Analysis {
        id: "a1".to_string(),
        prompt_id: "pr-a".to_string(),
        summary: "S, x".to_string(),
        tags: list(&["a", "b"]),
        classification: "{\"k\":true}".to_string(),
        qwen_model: None,
        created_at: "2024-01-03T00:00:00+00:00".to_string(),
    }
}

const HEAD: &str = "id,title,body,language,model_hint,metadata,created_at,updated_at,latest_summary,latest_tags,classification\n";

#[test]
fn columns_are_fixed() {
    assert_eq!(
        export_columns(),
        list(&[
            "id", "title", "body", "language", "model_hint", "metadata", "created_at",
            "updated_at", "latest_summary", "latest_tags", "classification"
        ])
    );
}

#[test]
fn cells_are_written() {
    assert_eq!(flatten("a\nb\r\nc\rd"), "a b  c d");
    assert_eq!(flatten(""), "");
    assert_eq!(join_tags(&list(&["a", "b", "c"])), "a|b|c");
    assert_eq!(join_tags(&list(&[])), "");
    assert_eq!(
        export_row(&prompt(), None),
        list(&[
            "pr-a", "T", "line1 line2  line3", "", "m", "{\"a\":1}", "2024-01-01T00:00:00+00:00",
            "2024-01-02T00:00:00+00:00", "", "", "null"
        ])
    );
    assert_eq!(
        export_row(&prompt(), Some(&analysis())),
        list(&[
            "pr-a", "T", "line1 line2  line3", "", "m", "{\"a\":1}", "2024-01-01T00:00:00+00:00",
            "2024-01-02T00:00:00+00:00", "S, x", "a|b", "{\"k\":true}"
        ])
    );
}

#[test]
fn table_is_written_with_mark_and_columns() {
    let none: Vec<Exported> = Vec::new();
    let mut expected = vec![0xEFu8, 0xBB, 0xBF];
    expected.extend_from_slice(HEAD.as_bytes());
    assert_eq!(export_table(&none), Ok(expected.clone()));
    let entries = vec![
        Exported { prompt: prompt(), latest: None },
        Exported { prompt: prompt(), latest: Some(analysis()) },
    ];
    expected.extend_from_slice(
        "pr-a,T,line1 line2  line3,,m,\"{\"\"a\"\":1}\",2024-01-01T00:00:00+00:00,2024-01-02T00:00:00+00:00,,,null\n"
            .as_bytes(),
    );
    expected.extend_from_slice(
        "pr-a,T,line1 line2  line3,,m,\"{\"\"a\"\":1}\",2024-01-01T00:00:00+00:00,2024-01-02T00:00:00+00:00,\"S, x\",a|b,\"{\"\"k\"\":true}\"\n"
            .as_bytes(),
    );
    assert_eq!(export_table(&entries), Ok(expected));
}

#[test]
fn tags_are_read_from_a_cell() {
    assert_eq!(split_tags("a| b ||c"), list(&["a", "b", "c"]));
    assert_eq!(split_tags(""), list(&[]));
    assert_eq!(split_tags(" | "), list(&[]));
    assert_eq!(split_tags("single"), list(&["single"]));
    assert_eq!(split_tags("产品| 经理"), list(&["产品", "经理"]));
}

#[test]
fn json_is_brought_into_compact_form() {
    assert_eq!(normal_json("{ \"x\" : [1, 2 , true], \"y\": null }"), "{\"x\":[1,2,true],\"y\":null}");
    assert_eq!(normal_json(" null "), "null");
    assert_eq!(normal_json("\"text\""), "\"text\"");
    assert_eq!(normal_json("not json"), "null");
    assert_eq!(normal_json(""), "null");
    assert_eq!(normal_json("{\"open\":"), "null");
}

#[test]
fn string_lists_are_read_and_written() {
    assert_eq!(read_string_list("[\"a\", \"b c\",\"\\u4ea7\\u54c1\"]"), list(&["a", "b c", "产品"]));
    assert_eq!(read_string_list("[]"), list(&[]));
    assert_eq!(read_string_list("[1, 2]"), list(&[]));
    assert_eq!(read_string_list("{\"a\": 1}"), list(&[]));
    assert_eq!(read_string_list("not json"), list(&[]));
    let analysis = NewAnalysis {
        prompt_id: "pr-a".to_string(),
        summary: "S".to_string(),
        tags: list(&["a", "say \"hi\"", "产品"]),
        classification: "null".to_string(),
        qwen_model: None,
    };
    assert_eq!(analysis.tags_json(), Ok("[\"a\",\"say \\\"hi\\\"\",\"产品\"]".to_string()));
}

#[test]
fn columns_are_found_by_name() {
    let headers = list(&["title", "body", "title", "Body"]);
    assert_eq!(column_index(&headers, "title"), Some(0));
    assert_eq!(column_index(&headers, "body"), Some(1));
    assert_eq!(column_index(&headers, "Body"), Some(3));
    assert_eq!(column_index(&headers, "language"), None);
    let record = list(&["T", "B"]);
    assert_eq!(cell_of(&headers, &record, "body"), Some("B".to_string()));
    assert_eq!(cell_of(&headers, &record, "Body"), None);
    assert_eq!(cell_of(&headers, &record, "language"), None);
}

#[test]
fn row_is_read_under_its_headers() {
    let headers = list(&["title", "body", "latest_tags", "classification", "metadata", "latest_summary", "language"]);
    let record = list(&["T1", " body one ", "a| b ||c", "null", "{\"x\": 1}", "", "zh"]);
    let row = read_row(&headers, &record).unwrap();
    assert_eq!(row.title, "T1");
    assert_eq!(row.body, "body one");
    assert_eq!(row.language, Some("zh".to_string()));
    assert_eq!(row.model_hint, None);
    assert_eq!(row.metadata, "{\"x\":1}");
    assert_eq!(row.summary, "");
    assert_eq!(row.tags, list(&["a", "b", "c"]));
    assert_eq!(row.classification, "null");
    let prompt = row.prompt();
    assert_eq!(prompt.title, "T1");
    assert_eq!(prompt.body, "body one");
    assert_eq!(prompt.language, Some("zh".to_string()));
    assert_eq!(prompt.metadata, "{\"x\":1}");
    let analysis = row.analysis("pr-z".to_string()).unwrap();
    assert_eq!(analysis.prompt_id, "pr-z");
    assert_eq!(analysis.summary, "Imported");
    assert_eq!(analysis.tags, list(&["a", "b", "c"]));
    assert_eq!(analysis.classification, "null");
    assert_eq!(analysis.qwen_model, None);
    assert!(read_row(&headers, &list(&["T", "   ", "a", "null", "", "s", ""])).is_none());
    assert!(read_row(&list(&["title"]), &list(&["T"])).is_none());
}

#[test]
fn row_without_title_column_is_titled_by_its_body() {
    let headers = list(&["body", "latest_summary", "classification"]);
    let row = read_row(&headers, &list(&["  first line\nsecond ", "  Sum ", "{\"k\": 1}"])).unwrap();
    assert_eq!(row.title, "first line");
    assert_eq!(row.body, "first line\nsecond");
    assert_eq!(row.summary, "Sum");
    assert_eq!(row.metadata, "null");
    assert_eq!(row.classification, "{\"k\":1}");
    assert_eq!(row.analysis("p".to_string()).unwrap().summary, "Sum");
    let plain = read_row(&headers, &list(&["body text", "", "oops"])).unwrap();
    assert_eq!(plain.classification, "null");
    assert!(plain.analysis("p".to_string()).is_none());
    let bare = read_row(&list(&["body"]), &list(&["body text"])).unwrap();
    assert_eq!(bare.classification, "null");
    assert!(bare.analysis("p".to_string()).is_none());
}

#[test]
fn table_is_read() {
    let data = "title,body,latest_tags,classification,metadata,latest_summary\nT1, body one ,a| b ||c,null,\"{\"\"x\"\": 1}\",\n,   ,,,,\n,second body,,\"{\"\"k\"\":1}\",not json,  Sum \n";
    let plan = import_table(data);
    assert_eq!(plan.failure, None);
    assert_eq!(plan.entries.len(), 3);
    let first = plan.entries[0].clone().unwrap();
    assert_eq!(first.title, "T1");
    assert_eq!(first.body, "body one");
    assert_eq!(first.metadata, "{\"x\":1}");
    assert_eq!(first.tags, list(&["a", "b", "c"]));
    assert!(plan.entries[1].is_none());
    let third = plan.entries[2].clone().unwrap();
    assert_eq!(third.title, "");
    assert_eq!(third.body, "second body");
    assert_eq!(third.metadata, "null");
    assert_eq!(third.summary, "Sum");
    assert_eq!(third.classification, "{\"k\":1}");
    assert_eq!(third.language, None);
}

#[test]
fn reading_stops_at_a_refused_record() {
    let plan = import_table("body,x\nfoo,1\nbar\nbaz,2\n");
    assert_eq!(plan.entries.len(), 1);
    assert_eq!(plan.entries[0].clone().unwrap().body, "foo");
    let message = plan.failure.unwrap();
    assert!(message.contains("found record with 1 fields"), "{}", message);
    let empty = import_table("");
    assert_eq!(empty.entries.len(), 0);
    assert_eq!(empty.failure, None);
    let only_headers = import_table("title,body\n");
    assert_eq!(only_headers.entries.len(), 0);
    assert_eq!(only_headers.failure, None);
}

#[test]
fn records_are_planned() {
    let records = vec![
        Ok(list(&["body"])),
        Ok(list(&["one"])),
        Ok(list(&[" "])),
        Err("broken".to_string()),
        Ok(list(&["never"])),
    ];
    let plan = plan_import(&records);
    assert_eq!(plan.entries.len(), 2);
    assert_eq!(plan.entries[0].clone().unwrap().body, "one");
    assert!(plan.entries[1].is_none());
    assert_eq!(plan.failure, Some("broken".to_string()));
    let refused = plan_import(&vec![Err("no headers".to_string()), Ok(list(&["x"]))]);
    assert_eq!(refused.entries.len(), 0);
    assert_eq!(refused.failure, Some("no headers".to_string()));
    let nothing = plan_import(&Vec::new());
    assert_eq!(nothing.entries.len(), 0);
    assert_eq!(nothing.failure, None);
}

#[test]
fn written_table_reads_back() {
    let entries = vec![Exported { prompt: prompt(), latest: Some(analysis()) }];
    let bytes = export_table(&entries).unwrap();
    let text = String::from_utf8(bytes).unwrap();
    let plan = import_table(&text);
    assert_eq!(plan.failure, None);
    assert_eq!(plan.entries.len(), 1);
    let row = plan.entries[0].clone().unwrap();
    assert_eq!(row.title, "T");
    assert_eq!(row.body, "line1 line2  line3");
    assert_eq!(row.language, Some(String::new()));
    assert_eq!(row.model_hint, Some("m".to_string()));
    assert_eq!(row.metadata, "{\"a\":1}");
    assert_eq!(row.summary, "S, x");
    assert_eq!(row.tags, list(&["a", "b"]));
    assert_eq!(row.classification, "{\"k\":true}");
}

#[test]
fn table_is_built_in_three_steps() {
    let entries = vec![Exported { prompt: prompt(), latest: None }];
    let records = export_records(&entries);
    assert_eq!(records.len(), 2);
    assert_eq!(records[0], export_columns());
    assert_eq!(records[1], export_row(&prompt(), None));
    let lines = encode_records(&vec![list(&["a", "b,c", "say \"hi\""]), list(&["", "x\ny", "z"])]).unwrap();
    assert_eq!(lines[0], b"a,\"b,c\",\"say \"\"hi\"\"\"\n".to_vec());
    assert_eq!(lines[1], b",\"x\ny\",z\n".to_vec());
    assert_eq!(encode_records(&Vec::new()), Ok(Vec::new()));
    assert_eq!(
        frame_table(&vec![b"ab\n".to_vec(), Vec::new(), b"c\n".to_vec()]),
        vec![0xEF, 0xBB, 0xBF, b'a', b'b', b'\n', b'c', b'\n']
    );
    assert_eq!(frame_table(&Vec::new()), vec![0xEF, 0xBB, 0xBF]);
    let whole = frame_table(&encode_records(&records).unwrap());
    assert_eq!(Ok(whole), export_table(&entries));
}
