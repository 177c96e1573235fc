use blog_tools::front_matter::{
    date_text, parse_front_matter, split_front_matter, BlogPost,
    DateError, FrontMatter, FrontMatterParse, Taxonomies, TomlDate,
};

fn toml_date(v: &toml::Value) -> TomlDate {
    match v {
        toml::Value::String(s) => TomlDate::Text(s.clone()),
        toml::Value::Datetime(dt) => TomlDate::Datetime(dt.to_string()),
        toml::Value::Integer(i) => TomlDate::Integer(*i),
        toml::Value::Table(t) => TomlDate::Table(t.get("date").map(|d| d.to_string())),
        _ => TomlDate::Other,
    }
}

#[test]
fn test_parse_front_matter() {
    let content = r#"
+++
title = "测试文章"
date = "2024-01-01"
description = "这是一篇测试文章"

[taxonomies]
tags = ["rust", "test"]
+++

这是文章内容。
"#;

    let result = parse_front_matter(content, "default", "2000-01-01".to_string());
    let (front, content) = match result {
        FrontMatterParse::Toml(front, body) => (front, body),
        FrontMatterParse::Defaulted(..) => panic!("front matter not found"),
    };
    let table: toml::Table = toml::from_str(&front).unwrap();
    assert_eq!(table.get("title").and_then(|v| v.as_str()), Some("测试文章"));
    let date = date_text(&toml_date(table.get("date").unwrap())).ok().unwrap();
    assert_eq!(date, "2024-01-01");
    assert_eq!(
        table.get("description").and_then(|v| v.as_str()).map(|s| s.to_string()),
        Some("这是一篇测试文章".to_string())
    );
    let tags: Vec<String> = table["taxonomies"]["tags"]
        .as_array()
        .unwrap()
        .iter()
        .map(|v| v.as_str().unwrap().to_string())
        .collect();
    assert_eq!(tags, vec!["rust".to_string(), "test".to_string()]);
    assert!(content.contains("这是文章内容。"));
}

#[test]
fn test_parse_front_matter_with_unquoted_date() {
    let content = r#"
+++
title = "测试文章"
date = 2024-01-18
description = "这是一篇测试文章"

[taxonomies]
tags = ["rust", "test"]
+++

这是文章内容。
"#;

    let result = parse_front_matter(content, "default", "2000-01-01".to_string());
    let front = match result {
        FrontMatterParse::Toml(front, _) => front,
        FrontMatterParse::Defaulted(..) => panic!("front matter not found"),
    };
    let table: toml::Table = toml::from_str(&front).unwrap();
    assert_eq!(table.get("title").and_then(|v| v.as_str()), Some("测试文章"));
    let date = date_text(&toml_date(table.get("date").unwrap())).ok().unwrap();
    assert_eq!(date, "2024-01-18");
}

#[test]
fn split_keeps_front_matter_and_body_lines() {
    let content = "\n\n+++\ntitle = \"a\"\n+++\nline one\r\nline two";
    let (front, body) = split_front_matter(content).unwrap();
    assert_eq!(front, "title = \"a\"\n");
    assert_eq!(body, "line one\nline two\n");
}

#[test]
fn split_without_closing_fence_has_empty_body() {
    let (front, body) = split_front_matter("+++\ntitle = \"a\"\ndate = 1").unwrap();
    assert_eq!(front, "title = \"a\"\ndate = 1\n");
    assert_eq!(body, "");
}

#[test]
fn split_fence_may_be_indented() {
    let (front, body) = split_front_matter("  +++  \nx = 1\n +++\nbody").unwrap();
    assert_eq!(front, "x = 1\n");
    assert_eq!(body, "body\n");
}

#[test]
fn no_front_matter_gives_defaults_and_empty_body() {
    assert!(split_front_matter("# Title\n\ntext").is_none());
    match parse_front_matter("# Title\n\ntext", "fallback", "2024-05-06".to_string()) {
        FrontMatterParse::Defaulted(fm, body) => {
            assert_eq!(fm.title, "fallback");
            assert_eq!(fm.date, "2024-05-06");
            assert!(fm.description.is_none());
            assert!(fm.taxonomies.is_none());
            assert_eq!(body, "");
        }
        FrontMatterParse::Toml(..) => panic!("unexpected front matter"),
    }
    match parse_front_matter("", "t", "2031-01-02".to_string()) {
        FrontMatterParse::Defaulted(fm, body) => {
            assert_eq!(fm.title, "t");
            assert_eq!(fm.date, "2031-01-02");
            assert_eq!(body, "");
        }
        FrontMatterParse::Toml(..) => panic!("unexpected front matter"),
    }
}

#[test]
fn date_forms() {
    assert_eq!(date_text(&TomlDate::Text("2024-01-01".to_string())).ok().unwrap(), "2024-01-01");
    assert_eq!(date_text(&TomlDate::Integer(20240118)).ok().unwrap(), "20240118");
    assert_eq!(date_text(&TomlDate::Integer(-42)).ok().unwrap(), "-42");
    assert_eq!(date_text(&TomlDate::Integer(0)).ok().unwrap(), "0");
    assert_eq!(
        date_text(&TomlDate::Table(Some("\"2024-02-02\"".to_string()))).ok().unwrap(),
        "\"2024-02-02\""
    );
    assert!(matches!(date_text(&TomlDate::Table(None)), Err(DateError::InvalidFormat)));
    assert!(matches!(date_text(&TomlDate::Other), Err(DateError::InvalidFormat)));
}

#[test]
fn blog_post_from_parts() {
    let fm = FrontMatter {
        title: "标题".to_string(),
        date: "2024-01-01".to_string(),
        description: None,
        taxonomies: Some(Taxonomies { tags: Some(vec!["a".to_string(), "b".to_string()]) }),
    };
    let post = BlogPost::from_parts("content/blog/hello.md", fm, "body\n".to_string());
    assert_eq!(post.title, "标题");
    assert_eq!(post.path, "/blog/hello");
    assert_eq!(post.tags, vec!["a".to_string(), "b".to_string()]);
    assert_eq!(post.content, "body\n");
    let mut hasher = std::collections::hash_map::DefaultHasher::new();
    std::hash::Hash::hash(&"body\n".to_string(), &mut hasher);
    assert_eq!(post.content_hash, std::hash::Hasher::finish(&hasher));

    let fm = FrontMatter {
        title: "x".to_string(),
        date: String::new(),
        description: None,
        taxonomies: Some(Taxonomies { tags: None }),
    };
    let same = FrontMatter {
        title: "y".to_string(),
        date: String::new(),
        description: None,
        taxonomies: None,
    };
    let first = BlogPost::from_parts("a.md", same, "same body".to_string());
    let other = FrontMatter {
        title: "z".to_string(),
        date: String::new(),
        description: None,
        taxonomies: None,
    };
    let second = BlogPost::from_parts("b.md", other, "same body".to_string());
    assert_eq!(first.content_hash, second.content_hash);
    assert_ne!(first.content_hash, post.content_hash);

    let post = BlogPost::from_parts("/", fm, String::new());
    assert_eq!(post.path, "/blog/");
    assert!(post.tags.is_empty());
    assert_eq!(blog_tools::front_matter::fallback_title_of("/"), "未命名文章");
    assert_eq!(blog_tools::front_matter::fallback_title_of("x/hello.md"), "hello");
}
