use blog_tools::metadata::{extract_metadata, rg_line_fields, rg_matches};

#[test]
fn title_and_tags_from_front_matter() {
    let (title, tags) = extract_metadata("+++\ntitle = \"Hello\"\ntags = [\"a\",\"b\"]\n+++\ntitle = \"ignored\"\n");
    assert_eq!(title, "Hello");
    assert_eq!(tags, vec!["a".to_string(), "b".to_string()]);
}

#[test]
fn spaced_tags_are_trimmed_and_unquoted() {
    let (title, tags) = extract_metadata("+++\ntitle = \"Hello\"\ntags = [\"a\", \"b\"]\n+++\nbody");
    assert_eq!(title, "Hello");
    assert_eq!(tags, vec!["a".to_string(), "b".to_string()]);
}

#[test]
fn ripgrep_match_lines_give_path_and_text() {
    let lines = [
        r#"{"type":"begin","data":{"path":{"text":"content/a.md"}}}"#,
        r#"{"type":"match","data":{"path":{"text":"content/a.md"},"lines":{"text":"hello rust\n"},"line_number":3,"absolute_offset":10,"submatches":[{"match":{"text":"rust"},"start":6,"end":10}]}}"#,
        r#"{"type":"end","data":{"path":{"text":"content/a.md"},"binary_offset":null,"stats":{"matches":1}}}"#,
        "not json",
        r#"{"type":"match","data":{"path":{"text":"content/b.md"},"lines":{"text":"more"},"line_number":1}}"#,
        r#"{"data":{"path":"content/c.md","lines":{"text":"path not an object"}}}"#,
        r#"{"type":"summary","data":{"elapsed_total":{"human":"0.01s"},"stats":{"matches":2}}}"#,
    ];
    let out = lines.join("\n") + "\n";
    let m = rg_matches(&out);
    assert_eq!(
        m,
        vec![
            ("content/a.md".to_string(), "hello rust\n".to_string()),
            ("content/b.md".to_string(), "more".to_string()),
        ]
    );
    assert!(rg_matches("").is_empty());
    assert_eq!(
        rg_line_fields(r#"{"data":{"path":{"text":"p"},"lines":{"text":"t"}}}"#),
        Some(("p".to_string(), "t".to_string()))
    );
    assert_eq!(rg_line_fields(r#"{"data":{"path":{"text":"p"},"lines":{"text":3}}}"#), None);
}

#[test]
fn no_front_matter_gives_nothing() {
    let (title, tags) = extract_metadata("title = \"x\"\n");
    assert_eq!(title, "");
    assert!(tags.is_empty());
}
