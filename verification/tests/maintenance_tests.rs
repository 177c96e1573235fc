use blog_tools::front_matter::BlogPost;
use blog_tools::maintenance::{index_health, post_documents, stale_paths};
use blog_tools::search::split_tags;
use blog_tools::text::join_strings;

fn post(path: &str) -> BlogPost {
    BlogPost {
        title: "T".to_string(),
        content: "# H\nline\n".to_string(),
        tags: vec!["a".to_string(), "b".to_string()],
        path: path.to_string(),
        content_hash: 0,
    }
}

#[test]
fn stale_paths_once_each() {
    let existing = vec!["/a".to_string(), "/b".to_string(), "/a".to_string(), "/c".to_string()];
    let stale = stale_paths(&existing, &vec![post("/b")]);
    assert_eq!(stale, vec!["/a".to_string(), "/c".to_string()]);
    assert!(stale_paths(&vec![], &vec![post("/b")]).is_empty());
}

#[test]
fn health() {
    assert!(!index_health(0, 1));
    assert!(!index_health(5, 0));
    assert!(index_health(5, 1));
}

#[test]
fn post_documents_of_a_post() {
    let docs = post_documents(&post("/p"));
    assert_eq!(docs.len(), 5);
    assert_eq!(docs[0].tags, "a,b");
    assert_eq!(docs[1].content, "H (1级标题)");
    assert_eq!(docs[4].content, "line");
}

#[test]
fn tags_roundtrip_through_index() {
    let tags = vec!["rust".to_string(), "测试".to_string()];
    assert_eq!(split_tags(&join_strings(&tags, ",")), tags);
}
