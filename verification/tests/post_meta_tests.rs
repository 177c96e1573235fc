use blog_tools::post_meta::{NewPost, PostMetadata, SavePostRequest};

fn metadata() -> PostMetadata {
    PostMetadata {
        title: "My Post".to_string(),
        date: "2024-01-01".to_string(),
        description: "D".to_string(),
        tags: vec!["a".to_string(), "中文".to_string()],
        categories: Some(vec!["c".to_string()]),
        draft: Some(false),
        weight: Some(-3),
        author: Some("me".to_string()),
        cover_image: None,
        series: None,
        language: Some("zh".to_string()),
    }
}

#[test]
fn to_toml_renders_present_fields() {
    assert_eq!(
        metadata().to_toml(),
        "+++\ntitle = \"My Post\"\ndate = \"2024-01-01\"\ndescription = \"D\"\ntags = [\"a\", \"中文\"]\ncategories = [\"c\"]\ndraft = false\nweight = -3\nauthor = \"me\"\nlanguage = \"zh\"\n\n+++"
    );
}

#[test]
fn to_toml_of_defaults() {
    let m = PostMetadata::dated("2024-02-03".to_string());
    assert_eq!(
        m.to_toml(),
        "+++\ntitle = \"\"\ndate = \"2024-02-03\"\ndescription = \"\"\ntags = []\ndraft = true\n\n+++"
    );
    assert!(blog_tools::post_check::check_date_format(&m.to_toml()).is_ok());
    let d = PostMetadata::dated("2030-12-31".to_string());
    assert_eq!(d.date, "2030-12-31");
    assert_eq!(d.draft, Some(true));
    assert!(d.tags.is_empty());
}

#[test]
fn saved_post_file() {
    let req = SavePostRequest { metadata: metadata(), content: "text".to_string() };
    assert_eq!(req.file_name(), "my-post.md");
    assert_eq!(req.file_content(), format!("{}\n\n{}", metadata().to_toml(), "text"));
    let p = NewPost {
        title: "t".to_string(),
        content: "c".to_string(),
        description: None,
        tags: vec![],
    };
    assert_eq!(p.title, "t");
}

#[test]
fn to_toml_escapes_tags_like_debug() {
    let mut m = PostMetadata::dated("d".to_string());
    m.tags = vec!["a\"b".to_string(), "c\\d".to_string()];
    m.draft = None;
    assert_eq!(
        m.to_toml(),
        "+++\ntitle = \"\"\ndate = \"d\"\ndescription = \"\"\ntags = [\"a\\\"b\", \"c\\\\d\"]\n\n+++"
    );
}
