use blog_tools::front_matter::fallback_title_of;
use blog_tools::paths::{
    blog_redirect_url, gallery_markdown_path, gallery_post, is_image_file, is_section_index,
    should_index_file,
};

#[test]
fn image_files_by_extension() {
    assert!(is_image_file("static/images/cat.JPG"));
    assert!(is_image_file("a.webp"));
    assert!(is_image_file("b.Jpeg"));
    assert!(!is_image_file("notes.txt"));
    assert!(!is_image_file("noext"));
    assert!(!is_image_file(".png"));
}

#[test]
fn indexable_posts() {
    assert!(should_index_file("content/blog/post.md"));
    assert!(!should_index_file("content/blog/_index.md"));
    assert!(!should_index_file("content/blog/.draft.md"));
    assert!(!should_index_file("content/blog/post.MD"));
    assert!(!should_index_file("content/blog/post.txt"));
    assert!(is_section_index("content/blog/_index.md"));
    assert!(!is_section_index("content/blog/index.md"));
}

#[test]
fn redirect_urls() {
    assert_eq!(blog_redirect_url("/rust-intro/#L5"), "http://127.0.0.1:1111/blog/rust-intro/#L5");
    assert_eq!(blog_redirect_url("rust-intro"), "http://127.0.0.1:1111/blog/rust-intro/");
    assert_eq!(blog_redirect_url("//a//#"), "http://127.0.0.1:1111/blog/a/");
    assert_eq!(blog_redirect_url("a#b#c"), "http://127.0.0.1:1111/blog/a/#b");
}

#[test]
fn gallery_post_template() {
    let file_name = "cat.png";
    let date = "2024-01-01";
    let expected = format!(
        r#"+++
title = "{}"
date = {}
description = "图片描述"

[taxonomies]
tags = ["图片"]

[extra]
image = "/images/{}"
+++

这是一张图片的描述...
"#,
        file_name, date, file_name
    );
    assert_eq!(gallery_post(file_name, date), expected);
    assert_eq!(gallery_markdown_path("../../content/gallery", "cat"), "../../content/gallery/cat.md");
}

#[test]
fn file_stems_follow_the_last_dot() {
    assert_eq!(fallback_title_of("x/archive.tar.gz"), "archive.tar");
    assert_eq!(fallback_title_of("x/.hidden"), ".hidden");
    assert_eq!(fallback_title_of("x/.hidden.md"), ".hidden");
    assert_eq!(fallback_title_of("x/plain"), "plain");
    assert_eq!(fallback_title_of("x//post.md/./"), "post");
    assert_eq!(fallback_title_of("x/.."), "未命名文章");
    assert!(is_image_file("x/.hidden.png"));
}
