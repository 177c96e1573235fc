use blog_tools::excerpt::{find_matching_excerpt, line_context};

fn numbered(n: usize) -> String {
    (1..=n).map(|i| format!("l{}\n", i)).collect()
}

fn expected_block(lines: &[&str], start: usize, end: usize, target: usize) -> String {
    let mut out = Vec::new();
    for i in start..end {
        let num = i + 1;
        if num == target {
            out.push(format!("➤ {: >3} | {}", num, lines[i]));
        } else {
            out.push(format!("  {: >3} | {}", num, lines[i]));
        }
    }
    out.join("\n")
}

#[test]
fn context_shows_five_lines_around() {
    let content = numbered(20);
    let lines: Vec<&str> = content.lines().collect();
    let (ctx, line) = line_context(&content, 10);
    assert_eq!(line, 10);
    assert_eq!(ctx, expected_block(&lines, 4, 15, 10));
    assert!(ctx.starts_with("    5 | l5\n"));
    assert!(ctx.contains("\n➤  10 | l10\n"));
    assert!(ctx.ends_with("   15 | l15"));
}

#[test]
fn context_at_edges() {
    let content = numbered(3);
    let lines: Vec<&str> = content.lines().collect();
    assert_eq!(line_context(&content, 1).0, expected_block(&lines, 0, 3, 1));
    assert_eq!(line_context(&content, 3).0, expected_block(&lines, 0, 3, 3));
    assert_eq!(line_context(&content, 4), (String::new(), 4));
    assert_eq!(line_context("", 1), (String::new(), 1));
}

#[test]
fn context_pads_to_three_digits_only() {
    let content = numbered(1200);
    let (ctx, _) = line_context(&content, 1000);
    assert!(ctx.contains("➤ 1000 | l1000"));
    assert!(ctx.contains("  995 | l995"));
}

#[test]
fn excerpt_finds_first_line_ignoring_case() {
    let content = "Alpha\nBETA gamma\nbeta\n";
    let lines: Vec<&str> = content.lines().collect();
    let (e, n) = find_matching_excerpt(content, "BeTa").unwrap();
    assert_eq!(n, 2);
    assert_eq!(e, expected_block(&lines, 0, 3, 2));
    assert!(find_matching_excerpt(content, "delta").is_none());
    assert!(find_matching_excerpt("", "x").is_none());
}
