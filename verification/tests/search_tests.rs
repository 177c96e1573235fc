use blog_tools::excerpt::line_context;
use blog_tools::search::{
    rank_results, split_tags, stage_one_groups, stage_one_results, DocHit, LineHit, PathDoc,
    PostText, SearchProgress, SearchResult,
};

fn hit(path: &str, title: &str, line: Option<&str>, number: Option<u64>, rank: u32, score: u32) -> LineHit {
    LineHit {
        path: path.to_string(),
        title: title.to_string(),
        line_content: line.map(|s| s.to_string()),
        line_number: number,
        line_rank: rank,
        title_rank: rank * 2,
        line_score: score,
        title_score: score * 2,
    }
}

fn result(title: &str, score: u32) -> SearchResult {
    SearchResult {
        title: title.to_string(),
        excerpt: String::new(),
        path: format!("/{}", title),
        tags: vec![],
        score_key: score,
        anchor: "L1".to_string(),
    }
}

#[test]
fn stage_one_groups_by_post_and_keeps_last_best() {
    let content_a = "Rust intro\nline two about Rust\n".to_string();
    let files = vec![
        PostText { path: "/a".to_string(), content: Some(content_a.clone()) },
        PostText { path: "/c".to_string(), content: None },
    ];
    let hits = vec![
        hit("/a", "Rust intro", Some("line two about Rust"), Some(2), 10, 100),
        hit("/b", "Other", Some("nothing"), Some(1), 50, 500),
        hit("/c", "Rust unreadable", Some("rust"), Some(1), 90, 900),
        LineHit {
            path: "/a".to_string(),
            title: "Rust intro".to_string(),
            line_content: None,
            line_number: None,
            line_rank: 10,
            title_rank: 20,
            line_score: 100,
            title_score: 300,
        },
    ];
    let groups = stage_one_groups("rust", &hits, &files);
    assert_eq!(groups.len(), 1);
    assert_eq!(groups[0].path, "/a");
    assert_eq!(groups[0].rank, 20);
    assert_eq!(groups[0].score, 300);
    assert_eq!(groups[0].line, 1);
    assert_eq!(groups[0].context, line_context(&content_a, 1).0);

    let docs = vec![Some(PathDoc { title: "Rust intro".to_string(), tags: "x,y".to_string() })];
    let results = stage_one_results(&groups, &docs);
    assert_eq!(results.len(), 1);
    assert_eq!(results[0].title, "Rust intro");
    assert_eq!(results[0].tags, vec!["x".to_string(), "y".to_string()]);
    assert_eq!(results[0].score_key, 300);
    assert_eq!(results[0].anchor, "L1");
    assert_eq!(results[0].excerpt, line_context(&content_a, 1).0);

    let none = stage_one_results(&groups, &vec![None]);
    assert!(none.is_empty());
}

#[test]
fn stage_one_line_match_points_at_its_line() {
    let content = "a\nb\nThe Line\n".to_string();
    let files = vec![PostText { path: "/p".to_string(), content: Some(content.clone()) }];
    let hits = vec![hit("/p", "Title", Some("The Line"), Some(3), 7, 70)];
    let groups = stage_one_groups("line", &hits, &files);
    assert_eq!(groups.len(), 1);
    assert_eq!(groups[0].line, 3);
    assert_eq!(groups[0].score, 70);
    assert_eq!(groups[0].context, line_context(&content, 3).0);
    let results = stage_one_results(&groups, &vec![Some(PathDoc { title: "T".to_string(), tags: String::new() })]);
    assert_eq!(results[0].anchor, "L3");
    assert_eq!(results[0].tags, vec![String::new()]);
}

#[test]
fn content_stage_runs_when_first_stage_is_empty() {
    let mut progress = SearchProgress::start(&vec![], &vec![]);
    assert!(progress.needs_more());
    let hits = vec![
        DocHit {
            path: "/c".to_string(),
            title: "C".to_string(),
            tags: "t".to_string(),
            body: "no\nhas Rust here\n".to_string(),
            score_key: 5,
        },
        DocHit {
            path: "/c".to_string(),
            title: "C again".to_string(),
            tags: "t".to_string(),
            body: "rust".to_string(),
            score_key: 50,
        },
        DocHit {
            path: "/d".to_string(),
            title: "D".to_string(),
            tags: String::new(),
            body: "nothing".to_string(),
            score_key: 9,
        },
    ];
    progress.add_content_hits("rust", &hits);
    assert!(!progress.needs_more());
    let results = progress.finish();
    assert_eq!(results.len(), 1);
    assert_eq!(results[0].title, "C");
    assert_eq!(results[0].anchor, "L2");
    assert_eq!(results[0].excerpt, "    1 | no\n➤   2 | has Rust here");
    assert_eq!(results[0].tags, vec!["t".to_string()]);
}

#[test]
fn title_stage_skips_posts_seen_by_content_stage() {
    let mut progress = SearchProgress::start(&vec![], &vec![]);
    let content_hits = vec![DocHit {
        path: "/d".to_string(),
        title: "D".to_string(),
        tags: String::new(),
        body: "nothing".to_string(),
        score_key: 9,
    }];
    progress.add_content_hits("zzz", &content_hits);
    assert!(progress.needs_more());
    let title_hits = vec![
        DocHit {
            path: "/d".to_string(),
            title: "D".to_string(),
            tags: String::new(),
            body: "nothing".to_string(),
            score_key: 9,
        },
        DocHit {
            path: "/e".to_string(),
            title: "E".to_string(),
            tags: "a,b".to_string(),
            body: "\n  \nfirst\nsecond".to_string(),
            score_key: 3,
        },
    ];
    progress.add_title_hits(&title_hits);
    let results = progress.finish();
    assert_eq!(results.len(), 1);
    assert_eq!(results[0].path, "/e");
    assert_eq!(results[0].excerpt, "  first");
    assert_eq!(results[0].anchor, "L1");
    assert_eq!(results[0].tags, vec!["a".to_string(), "b".to_string()]);
}

#[test]
fn title_stage_with_blank_content_shows_two_spaces() {
    let mut progress = SearchProgress::start(&vec![], &vec![]);
    progress.add_title_hits(&vec![DocHit {
        path: "/x".to_string(),
        title: "X".to_string(),
        tags: String::new(),
        body: " \n\t".to_string(),
        score_key: 1,
    }]);
    let results = progress.finish();
    assert_eq!(results[0].excerpt, "  ");
}

#[test]
fn ranking_is_stable_and_descending() {
    let ranked = rank_results(vec![result("a", 5), result("b", 9), result("c", 5), result("d", 9)]);
    let titles: Vec<&str> = ranked.iter().map(|r| r.title.as_str()).collect();
    assert_eq!(titles, vec!["b", "d", "a", "c"]);
    assert!(rank_results(vec![]).is_empty());
}

#[test]
fn tags_split_at_every_comma() {
    assert_eq!(split_tags("rust,test"), vec!["rust".to_string(), "test".to_string()]);
    assert_eq!(split_tags(""), vec![String::new()]);
    assert_eq!(split_tags("a,,b,"), vec!["a".to_string(), String::new(), "b".to_string(), String::new()]);
}
