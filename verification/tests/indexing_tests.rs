use blog_tools::indexing::plan_documents;

#[test]
fn plan_covers_headings_lines_and_skips() {
    let content = "# 标题一\nplain line\n\n> quote\n| table |\n- item\n* star\n```rust\n---\n## Sub\n### Third\n#### Deep\n#nospace\n  indented  \n";
    let tags = vec!["rust".to_string(), "test".to_string()];
    let docs = plan_documents("Post", content, &tags, "/blog/post");
    assert_eq!(docs.len(), 13);

    let main = &docs[0];
    assert_eq!(main.title, "Post");
    assert_eq!(main.content, content);
    assert_eq!(main.line_number, 1);
    assert!(main.line_content.is_none());
    assert_eq!(main.tags, "rust,test");
    assert_eq!(main.path, "/blog/post");

    for d in &docs[1..4] {
        assert_eq!(d.line_number, 1);
        assert_eq!(d.line_content.as_deref(), Some("# 标题一"));
        assert_eq!(d.content, "标题一 (1级标题)");
        assert_eq!(d.tags, "rust,test");
    }
    assert_eq!(docs[4].line_number, 2);
    assert_eq!(docs[4].content, "plain line");
    assert_eq!(docs[4].line_content.as_deref(), Some("plain line"));
    for d in &docs[5..8] {
        assert_eq!(d.line_number, 10);
        assert_eq!(d.content, "Sub (2级标题)");
    }
    for d in &docs[8..10] {
        assert_eq!(d.line_number, 11);
        assert_eq!(d.content, "Third (3级标题)");
    }
    for d in &docs[10..12] {
        assert_eq!(d.line_number, 12);
        assert_eq!(d.content, "Deep (4级标题)");
    }
    assert_eq!(docs[12].line_number, 14);
    assert_eq!(docs[12].content, "indented");
}

#[test]
fn heading_level_counts_hashes_before_first_space() {
    let docs = plan_documents("T", "#a#b c\n#  spaced heading \n", &vec![], "/p");
    // level 2: three copies; level 1: three copies
    assert_eq!(docs.len(), 7);
    assert_eq!(docs[1].content, "c (2级标题)");
    assert_eq!(docs[4].content, "spaced heading (1级标题)");
    assert_eq!(docs[4].line_content.as_deref(), Some("#  spaced heading"));
    assert_eq!(docs[0].tags, "");
}

#[test]
fn empty_content_has_only_main_document() {
    let docs = plan_documents("T", "", &vec!["a".to_string()], "/p");
    assert_eq!(docs.len(), 1);
    assert_eq!(docs[0].tags, "a");
}

#[test]
fn crlf_lines_are_numbered_like_lines() {
    let docs = plan_documents("T", "first\r\n\r\nthird\r\n", &vec![], "/p");
    assert_eq!(docs.len(), 3);
    assert_eq!(docs[1].content, "first");
    assert_eq!(docs[2].line_number, 3);
    assert_eq!(docs[2].content, "third");
}
