use blog_tools::post_check::{
    check_content_length, check_date_format, check_description, check_frontmatter,
    check_tags_format, check_title_format, fix_post_content_on,
    new_post_content, post_file_stem, post_issues, PostError,
};

const GOOD: &str = "+++\ntitle = \"T\"\ndate = 2024-01-01\ndescription = \"D\"\n[taxonomies]\ntags = [\"a\"]\n+++\n\nbody\n";

#[test]
fn sound_post_has_no_issues() {
    assert!(post_issues(GOOD, false).is_empty());
    assert!(check_frontmatter(GOOD).is_ok());
    assert!(check_title_format(GOOD).is_ok());
    assert!(check_date_format(GOOD).is_ok());
    assert!(check_description(GOOD).is_ok());
    assert!(check_tags_format(GOOD).is_ok());
    assert!(check_content_length(GOOD).is_ok());
}

#[test]
fn each_check_reports_its_error() {
    assert!(matches!(check_frontmatter("title = \"T\""), Err(PostError::MissingFrontmatter)));
    assert!(matches!(check_title_format("+++\ntitle = T"), Err(PostError::InvalidTitleFormat)));
    assert!(matches!(check_date_format("+++\ndate=1"), Err(PostError::MissingDate)));
    assert!(matches!(
        check_date_format("+++\ntitle = \"a\"\ndate = soon\n+++"),
        Err(PostError::InvalidDateFormat)
    ));
    assert!(matches!(check_description("description = D"), Err(PostError::MissingDescription)));
    assert!(matches!(check_tags_format("[taxonomies]\ntags = \"a\""), Err(PostError::InvalidTagsFormat)));
    assert!(check_tags_format("tags = x").is_ok());
    assert!(matches!(check_content_length("+++\n\n  \n\t"), Err(PostError::EmptyContent)));
    assert!(check_content_length("+++\nno empty line").is_ok());
    assert!(check_content_length("+++\n\n+++\n\n").is_ok());
}

#[test]
fn issues_in_check_order_and_index_skips() {
    let issues = post_issues("no front matter", false);
    let msgs: Vec<&str> = issues.iter().map(|e| e.message()).collect();
    assert_eq!(msgs, vec!["缺少前置元数据", "标题格式无效", "缺少日期", "缺少描述"]);
    let index_issues = post_issues("no front matter", true);
    assert_eq!(index_issues.len(), 2);
    let empty = post_issues("+++\ntitle = \"T\"\ndate = 2024-01-01\ndescription = \"D\"\n[taxonomies]\n+++\n\n", false);
    let msgs: Vec<&str> = empty.iter().map(|e| e.message()).collect();
    assert_eq!(msgs, vec!["标签格式无效", "文章内容为空"]);
}

#[test]
fn messages_suggestions_and_fixability() {
    assert_eq!(PostError::InvalidDateFormat.message(), "日期格式无效");
    assert_eq!(PostError::MissingDate.fix_suggestion(), "添加: date = YYYY-MM-DD");
    assert_eq!(
        PostError::MissingFrontmatter.fix_suggestion(),
        "添加前置元数据:\n+++\ntitle = \"标题\"\ndate = YYYY-MM-DD\ndescription = \"描述\"\n+++"
    );
    assert!(PostError::MissingDate.can_auto_fix());
    assert!(PostError::MissingDescription.can_auto_fix());
    assert!(PostError::InvalidDateFormat.can_auto_fix());
    assert!(PostError::EmptyContent.can_auto_fix());
    assert!(!PostError::MissingFrontmatter.can_auto_fix());
    assert!(!PostError::InvalidTitleFormat.can_auto_fix());
    assert!(!PostError::InvalidTagsFormat.can_auto_fix());
}

#[test]
fn date_format_is_checked() {
    assert!(check_date_format("+++\ndate = 2024-01-31\n+++").is_ok());
    assert!(check_date_format("+++\ndate = 2024-01-31 \r\n+++").is_ok());
    assert!(check_date_format("+++\ndate = 2024-01-31").is_ok());
    assert!(matches!(check_date_format("+++\ndate = 2024-1-31\n"), Err(PostError::InvalidDateFormat)));
    assert!(matches!(check_date_format("+++\ndate = 2024/01/31\n"), Err(PostError::InvalidDateFormat)));
    assert!(matches!(check_date_format("+++\ndate = \n2024-01-31"), Err(PostError::InvalidDateFormat)));
    assert!(check_date_format("+++\ndate = \"2024-01-31\"\n+++").is_ok());
    assert!(check_date_format("+++\ndate = '2024-01-31'\n+++").is_ok());
    assert!(matches!(check_date_format("+++\ndate = \"2024-01-31\n"), Err(PostError::InvalidDateFormat)));
    assert!(matches!(check_date_format("+++\ndate = \"2024-01-31'\n"), Err(PostError::InvalidDateFormat)));
    // a `date = ` inside another line is not the date line
    assert!(check_date_format("+++\ntitle = \"update = x\"\ndate = 2024-01-31\n+++").is_ok());
    assert!(check_date_format("+++\ntitle = \"update = x\"\n+++").is_ok());
    let issues = post_issues("+++\ntitle = \"T\"\ndate = soon\ndescription = \"D\"\n+++\n\nbody", false);
    let msgs: Vec<&str> = issues.iter().map(|e| e.message()).collect();
    assert_eq!(msgs, vec!["日期格式无效"]);
}

#[test]
fn fix_adds_one_date_line_inside_front_matter() {
    let fixed = fix_post_content_on("+++\ntitle = \"a\"\ndescription = \"d\"\n+++\n\nbody\n", "2024-01-01");
    assert_eq!(fixed, "+++\ndate = 2024-01-01\ntitle = \"a\"\ndescription = \"d\"\n+++\n\nbody\n");
    assert!(check_date_format(&fixed).is_ok());
}

#[test]
fn fix_replaces_invalid_date_value() {
    let fixed = fix_post_content_on("+++\ntitle = \"a\"\ndate = soon\ndescription = \"d\"\n+++\n\nbody\n", "2024-01-01");
    assert_eq!(fixed, "+++\ntitle = \"a\"\ndate = 2024-01-01\ndescription = \"d\"\n+++\n\nbody\n");
    assert!(check_date_format(&fixed).is_ok());
    assert_eq!(fix_post_content_on(&fixed, "2030-12-31"), fixed);
}

#[test]
fn fix_inserts_into_front_matter_and_fills_body() {
    let fixed = fix_post_content_on("+++\ntitle = \"T\"\n+++\n\n", "2024-05-06");
    assert_eq!(
        fixed,
        "+++\ndescription = \"待补充\"\ndate = 2024-05-06\ntitle = \"T\"\n+++\n\n\n\n这里是文章内容...\n"
    );
    assert_eq!(fix_post_content_on(&fixed, "2030-12-31"), fixed);
    assert!(check_date_format(&fixed).is_ok());
    assert!(check_description(&fixed).is_ok());
    assert!(check_content_length(&fixed).is_ok());
}

#[test]
fn fix_leaves_sound_post_alone() {
    assert_eq!(fix_post_content_on(GOOD, "2000-01-01"), GOOD);
}

#[test]
fn fix_keeps_quoted_dates() {
    let post = "+++\ntitle = \"update = x\"\ndate = \"2024-01-01\"\ndescription = \"d\"\n+++\n\nbody\n";
    assert!(check_date_format(post).is_ok());
    assert_eq!(fix_post_content_on(post, "2030-12-31"), post);
    let single = "+++\ntitle = \"a\"\ndate = '2024-01-01'\ndescription = \"d\"\n+++\n\nbody\n";
    assert_eq!(fix_post_content_on(single, "2030-12-31"), single);
}

#[test]
fn file_stem_from_title() {
    assert_eq!(post_file_stem("Hello World! Rust"), "hello-world-rust");
    assert_eq!(post_file_stem("Rust 异步编程"), "rust-异步编程");
    assert_eq!(post_file_stem("a_b.c"), "abc");
}

#[test]
fn new_post_template() {
    let tags = Some(vec!["a".to_string(), "b".to_string()]);
    assert_eq!(
        new_post_content("Hello", "2024-01-01", Some("d"), &tags),
        "+++\ntitle = \"Hello\"\ndate = 2024-01-01\ndescription = \"d\"\n\n[taxonomies]\ntags = [\"a\", \"b\"]\n+++\n\n在这里写文章内容...\n"
    );
    assert_eq!(
        new_post_content("Hello", "2024-01-01", None, &None),
        "+++\ntitle = \"Hello\"\ndate = 2024-01-01\ndescription = \"\"\n\n+++\n\n在这里写文章内容...\n"
    );
}

#[test]
fn fix_fills_blank_body_only() {
    let post = "+++\ntitle = \"T\"\ndate = 2024-01-01\ndescription = \"D\"\n+++\n\n \n";
    let fixed = fix_post_content_on(post, "2030-01-01");
    assert_eq!(fixed, format!("{}\n\n这里是文章内容...\n", post));
    assert!(check_content_length(&fixed).is_ok());
}

#[test]
fn fix_without_fence_only_fills_nothing_for_fields() {
    let fixed = fix_post_content_on("plain text", "2030-01-01");
    assert_eq!(fixed, "plain text");
}

#[test]
fn new_posts_pass_the_checks() {
    let tags = Some(vec!["rust".to_string(), "异步".to_string()]);
    let with_tags = new_post_content("Rust 异步", "2024-03-09", Some("描述"), &tags);
    assert!(post_issues(&with_tags, false).is_empty());
    let plain = new_post_content("Plain", "2024-03-09", None, &None);
    assert!(post_issues(&plain, false).is_empty());
    let dated_title = new_post_content("update = x", "2024-03-09", None, &None);
    assert!(post_issues(&dated_title, false).is_empty());
}
