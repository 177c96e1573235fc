//! Assembling search results from the hits of the index.
//!
//! A search runs in up to three stages.  The first looks at titles and
//! single lines: every hit whose title or line contains the query (ignoring
//! case) becomes a candidate with the context of the matching line, the
//! candidates are grouped by post, and each post is shown once with its
//! best candidate.  Only when that gives nothing, the whole contents are
//! searched, each post at most once, with an excerpt around its first
//! matching line.  Only when that gives nothing either, titles alone are
//! searched and a post's first non-blank line is shown.  The results are
//! finally ordered by decreasing score, equal scores keeping their order.
//!
//! Scores are carried as order-preserving keys: the bit pattern of a
//! non-negative `f32` score, which orders as the score does.

use vstd::prelude::*;
use crate::excerpt::{find_matching_excerpt, line_context, line_context_spec, line_matches, matching_excerpt};
use crate::indexing::opt_view;
use crate::text::{
    chars_of, contains_chars, decimal, decimal_chars, is_blank, lines, lowercase, lowercase_chars,
    push_chars, push_str, split, split_chars, str_lines, string_of, string_views, trim, vec_views,
};

verus! {

/// The query of a search request.
pub struct SearchQuery {
    pub q: String,
}

/// One entry of the search results.
pub struct SearchResult {
    pub title: String,
    pub excerpt: String,
    pub path: String,
    pub tags: Vec<String>,
    /// Order-preserving key of the score (0 to 100) shown for the entry.
    pub score_key: u32,
    /// "L" followed by the line number the entry points at.
    pub anchor: String,
}

/// Mathematical model of a [`SearchResult`].
pub struct ResultView {
    pub title: Seq<char>,
    pub excerpt: Seq<char>,
    pub path: Seq<char>,
    pub tags: Seq<Seq<char>>,
    pub score_key: u32,
    pub anchor: Seq<char>,
}

impl View for SearchResult {
    type V = ResultView;

    open spec fn view(&self) -> ResultView {
        ResultView {
            title: self.title@,
            excerpt: self.excerpt@,
            path: self.path@,
            tags: string_views(self.tags@),
            score_key: self.score_key,
            anchor: self.anchor@,
        }
    }
}

pub open spec fn result_views(v: Seq<SearchResult>) -> Seq<ResultView> {
    v.map_values(|r: SearchResult| r@)
}

/// The anchor "L<n>".
pub open spec fn anchor_of(n: nat) -> Seq<char> {
    seq!['L'] + decimal(n)
}

/// Tags as stored in the index (joined with ',') split back into a list.
pub open spec fn tags_of(text: Seq<char>) -> Seq<Seq<char>> {
    split(text, ',')
}

/// The stored tag text split at every ','.
pub fn split_tags(text: &str) -> (r: Vec<String>)
    ensures
        string_views(r@) == tags_of(text@),
{
    let cs = chars_of(text);
    let r = split_chars(&cs, ',');
    assert(string_views(r@) =~= split(cs@, ','));
    r
}

fn anchor_string(n: u64) -> (r: String)
    ensures
        r@ == anchor_of(n as nat),
{
    let mut r = String::new();
    push_str(&mut r, "L");
    let d = decimal_chars(n);
    push_chars(&mut r, &d);
    proof {
        reveal_strlit("L");
    }
    r
}

// ---------------------------------------------------------------------------
// First stage: titles and lines
// ---------------------------------------------------------------------------

/// A hit of the title and line search.
pub struct LineHit {
    pub path: String,
    pub title: String,
    /// The stored line, absent for a post's main document.
    pub line_content: Option<String>,
    /// The stored line number, when the document has one.
    pub line_number: Option<u64>,
    /// Ranking key of the hit's score, for a match on the line.
    pub line_rank: u32,
    /// Ranking key of twice the hit's score, for a match on the title.
    pub title_rank: u32,
    /// Key of the normalized score shown for a match on the line.
    pub line_score: u32,
    /// Key of the normalized score shown for a match on the title.
    pub title_score: u32,
}

/// The text of a post file, as read by the caller (`None` when reading failed).
pub struct PostText {
    pub path: String,
    pub content: Option<String>,
}

/// A candidate for a post's entry in the first stage.
pub struct Candidate {
    pub path: Seq<char>,
    pub rank: u32,
    pub score: u32,
    pub line: u64,
    pub context: Seq<char>,
}

/// The text of the file `path`: the first entry of `files` for it.
pub open spec fn file_text(files: Seq<PostText>, path: Seq<char>) -> Option<Seq<char>>
    decreases files.len(),
{
    if files.len() == 0 {
        None
    } else if files[0].path@ == path {
        opt_view(files[0].content)
    } else {
        file_text(files.drop_first(), path)
    }
}

/// The line a hit points at: its stored line number, or 1.
pub open spec fn hit_line(hit: LineHit) -> u64 {
    match hit.line_number {
        Some(n) => n,
        None => 1,
    }
}

/// Candidates of one hit: first for a title match, then for a line match,
/// each only when the post's file could be read.
pub open spec fn hit_candidates(query: Seq<char>, hit: LineHit, files: Seq<PostText>) -> Seq<
    Candidate,
> {
    let title_part = match file_text(files, hit.path@) {
        Some(c) => if line_matches(hit.title@, query) {
            seq![
                Candidate {
                    path: hit.path@,
                    rank: hit.title_rank,
                    score: hit.title_score,
                    line: 1,
                    context: line_context_spec(c, 1),
                },
            ]
        } else {
            seq![]
        },
        None => seq![],
    };
    let line_part = match (file_text(files, hit.path@), hit.line_content) {
        (Some(c), Some(lc)) => if line_matches(lc@, query) {
            seq![
                Candidate {
                    path: hit.path@,
                    rank: hit.line_rank,
                    score: hit.line_score,
                    line: hit_line(hit),
                    context: line_context_spec(c, hit_line(hit) as nat),
                },
            ]
        } else {
            seq![]
        },
        _ => seq![],
    };
    title_part + line_part
}

/// Candidates of all hits, in hit order.
pub open spec fn candidates(query: Seq<char>, hits: Seq<LineHit>, files: Seq<PostText>) -> Seq<
    Candidate,
>
    decreases hits.len(),
{
    if hits.len() == 0 {
        seq![]
    } else {
        candidates(query, hits.drop_last(), files) + hit_candidates(query, hits.last(), files)
    }
}

/// The posts of the candidates, each once, in order of first appearance.
pub open spec fn group_paths(cs: Seq<Candidate>) -> Seq<Seq<char>>
    decreases cs.len(),
{
    if cs.len() == 0 {
        seq![]
    } else {
        let prev = group_paths(cs.drop_last());
        if prev.contains(cs.last().path) {
            prev
        } else {
            prev.push(cs.last().path)
        }
    }
}

/// The best candidate of post `path`: the one with the highest rank, the
/// last one among equals (as `Iterator::max_by` picks).
pub open spec fn best_candidate(cs: Seq<Candidate>, path: Seq<char>) -> Option<Candidate>
    decreases cs.len(),
{
    if cs.len() == 0 {
        None
    } else {
        let prev = best_candidate(cs.drop_last(), path);
        let c = cs.last();
        if c.path == path {
            match prev {
                Some(b) => if b.rank <= c.rank {
                    Some(c)
                } else {
                    Some(b)
                },
                None => Some(c),
            }
        } else {
            prev
        }
    }
}

/// The best candidate of each post, posts in order of first appearance.
pub struct MatchGroup {
    pub path: String,
    pub rank: u32,
    pub score: u32,
    pub line: u64,
    pub context: String,
}

impl View for MatchGroup {
    type V = Candidate;

    open spec fn view(&self) -> Candidate {
        Candidate {
            path: self.path@,
            rank: self.rank,
            score: self.score,
            line: self.line,
            context: self.context@,
        }
    }
}

/// The groups of the first stage.
pub open spec fn stage_one_groups_spec(query: Seq<char>, hits: Seq<LineHit>, files: Seq<PostText>) -> Seq<
    Candidate,
> {
    let cs = candidates(query, hits, files);
    group_paths(cs).map_values(|p: Seq<char>| best_candidate(cs, p).unwrap())
}

pub open spec fn group_views(v: Seq<MatchGroup>) -> Seq<Candidate> {
    v.map_values(|g: MatchGroup| g@)
}

/// Hits whose line numbers are usable (counted from 1).
pub open spec fn valid_line_hits(hits: Seq<LineHit>) -> bool {
    forall|i: int| 0 <= i < hits.len() ==> #[trigger] hit_line(hits[i]) >= 1
}

fn lookup_file<'a>(files: &'a Vec<PostText>, path: &String) -> (r: Option<&'a String>)
    ensures
        match (r, file_text(files@, path@)) {
            (Some(s), Some(t)) => s@ == t,
            (None, None) => true,
            _ => false,
        },
{
    let mut i: usize = 0;
    assert(files@.skip(0) == files@);
    while i < files.len()
        invariant
            0 <= i <= files.len(),
            file_text(files@, path@) == file_text(files@.skip(i as int), path@),
        decreases files.len() - i,
    {
        if files[i].path == *path {
            assert(files@.skip(i as int)[0] == files@[i as int]);
            return match &files[i].content {
                Some(c) => Some(c),
                None => None,
            };
        }
        assert(files@.skip(i as int).drop_first() == files@.skip(i + 1));
        i = i + 1;
    }
    None
}

fn copy_string(s: &String) -> (r: String)
    ensures
        r@ == s@,
{
    s.clone()
}

fn push_candidate(out: &mut Vec<MatchGroup>, path: &String, rank: u32, score: u32, line: u64, content: &String)
    requires
        line >= 1,
    ensures
        group_views(final(out)@) == group_views(old(out)@).push(
            Candidate { path: path@, rank, score, line, context: line_context_spec(content@, line as nat) },
        ),
{
    let (context, _) = line_context(content.as_str(), line);
    let g = MatchGroup { path: copy_string(path), rank, score, line, context };
    let ghost prev = out@;
    out.push(g);
    assert(out@ == prev.push(g));
    assert(group_views(prev.push(g)) == group_views(prev).push(g@));
}

fn matches_query(text: &String, query_low: &Vec<char>, query: Ghost<Seq<char>>) -> (r: bool)
    requires
        query_low@ == lowercase(query@),
    ensures
        r == line_matches(text@, query@),
{
    let cs = chars_of(text.as_str());
    let low = lowercase_chars(&cs);
    contains_chars(&low, query_low)
}

fn hit_candidates_exec(
    query_low: &Vec<char>,
    query: Ghost<Seq<char>>,
    hit: &LineHit,
    files: &Vec<PostText>,
    out: &mut Vec<MatchGroup>,
)
    requires
        query_low@ == lowercase(query@),
        hit_line(*hit) >= 1,
    ensures
        group_views(final(out)@) == group_views(old(out)@) + hit_candidates(query@, *hit, files@),
{
    let ghost start = group_views(out@);
    let file = lookup_file(files, &hit.path);
    let ghost title_part: Seq<Candidate> = seq![];
    match file {
        Some(content) => {
            if matches_query(&hit.title, query_low, query) {
                push_candidate(out, &hit.path, hit.title_rank, hit.title_score, 1, content);
                proof {
                    title_part = seq![
                        Candidate {
                            path: hit.path@,
                            rank: hit.title_rank,
                            score: hit.title_score,
                            line: 1,
                            context: line_context_spec(content@, 1),
                        },
                    ];
                }
            }
            assert(group_views(out@) == start + title_part);
            let ghost mid = group_views(out@);
            let line = match hit.line_number {
                Some(n) => n,
                None => 1,
            };
            match &hit.line_content {
                Some(lc) => {
                    if matches_query(lc, query_low, query) {
                        push_candidate(out, &hit.path, hit.line_rank, hit.line_score, line, content);
                    } else {
                        assert(group_views(out@) == mid + Seq::<Candidate>::empty());
                    }
                },
                None => {
                    assert(group_views(out@) == mid + Seq::<Candidate>::empty());
                },
            }
        },
        None => {
            assert(group_views(out@) == start + Seq::<Candidate>::empty());
        },
    }
}

/// Candidates of all hits, in hit order.
fn all_candidates(query: &str, hits: &Vec<LineHit>, files: &Vec<PostText>) -> (r: Vec<MatchGroup>)
    requires
        valid_line_hits(hits@),
    ensures
        group_views(r@) == candidates(query@, hits@, files@),
{
    let q = chars_of(query);
    let ql = lowercase_chars(&q);
    let mut out: Vec<MatchGroup> = Vec::new();
    let mut i: usize = 0;
    while i < hits.len()
        invariant
            0 <= i <= hits.len(),
            ql@ == lowercase(query@),
            valid_line_hits(hits@),
            group_views(out@) == candidates(query@, hits@.take(i as int), files@),
        decreases hits.len() - i,
    {
        assert(hits@.take(i + 1).drop_last() == hits@.take(i as int));
        assert(hit_line(hits@[i as int]) >= 1);
        hit_candidates_exec(&ql, Ghost(query@), &hits[i], files, &mut out);
        i = i + 1;
    }
    assert(hits@.take(hits.len() as int) == hits@);
    out
}

/// Every grouped post has a best candidate.
proof fn lemma_grouped_has_best(cs: Seq<Candidate>, p: Seq<char>)
    requires
        group_paths(cs).contains(p),
    ensures
        best_candidate(cs, p) is Some,
    decreases cs.len(),
{
    if cs.len() > 0 {
        let prev = group_paths(cs.drop_last());
        if prev.contains(p) {
            lemma_grouped_has_best(cs.drop_last(), p);
        } else {
            assert(group_paths(cs) == prev.push(cs.last().path));
            let k = choose|k: int| 0 <= k < group_paths(cs).len() && group_paths(cs)[k] == p;
            assert(k == prev.len());
        }
    }
}

fn contains_string(v: &Vec<String>, s: &String) -> (r: bool)
    ensures
        r == string_views(v@).contains(s@),
{
    let mut i: usize = 0;
    while i < v.len()
        invariant
            0 <= i <= v.len(),
            forall|k: int| 0 <= k < i ==> v@[k]@ != s@,
        decreases v.len() - i,
    {
        if v[i] == *s {
            assert(string_views(v@)[i as int] == s@);
            return true;
        }
        i = i + 1;
    }
    proof {
        if string_views(v@).contains(s@) {
            let k = choose|k: int| 0 <= k < string_views(v@).len() && string_views(v@)[k] == s@;
            assert(v@[k]@ == s@);
        }
    }
    false
}

fn copy_group(g: &MatchGroup) -> (r: MatchGroup)
    ensures
        r@ == g@,
{
    MatchGroup {
        path: g.path.clone(),
        rank: g.rank,
        score: g.score,
        line: g.line,
        context: g.context.clone(),
    }
}

/// First stage, grouping: the best candidate of each post, posts in order
/// of first appearance among the candidates.  `files` holds the text of
/// the posts' files as read by the caller.
pub fn stage_one_groups(query: &str, hits: &Vec<LineHit>, files: &Vec<PostText>) -> (r: Vec<
    MatchGroup,
>)
    requires
        valid_line_hits(hits@),
    ensures
        group_views(r@) == stage_one_groups_spec(query@, hits@, files@),
{
    let cands = all_candidates(query, hits, files);
    let ghost cs = group_views(cands@);
    let mut paths: Vec<String> = Vec::new();
    let mut i: usize = 0;
    while i < cands.len()
        invariant
            0 <= i <= cands.len(),
            cs == group_views(cands@),
            string_views(paths@) == group_paths(cs.take(i as int)),
        decreases cands.len() - i,
    {
        assert(cs.take(i + 1).drop_last() == cs.take(i as int));
        assert(cs.take(i + 1).last() == cands@[i as int]@);
        if !contains_string(&paths, &cands[i].path) {
            let ghost prev = paths@;
            paths.push(cands[i].path.clone());
            assert(string_views(paths@) == string_views(prev).push(cands@[i as int].path@));
        }
        i = i + 1;
    }
    assert(cs.take(cands.len() as int) == cs);
    let ghost gp = group_paths(cs);
    let mut out: Vec<MatchGroup> = Vec::new();
    let mut k: usize = 0;
    while k < paths.len()
        invariant
            0 <= k <= paths.len(),
            cs == group_views(cands@),
            string_views(paths@) == gp,
            gp == group_paths(cs),
            group_views(out@) == gp.take(k as int).map_values(|p: Seq<char>| best_candidate(cs, p).unwrap()),
        decreases paths.len() - k,
    {
        let p = &paths[k];
        let mut best: Option<usize> = None;
        let mut j: usize = 0;
        while j < cands.len()
            invariant
                0 <= j <= cands.len(),
                cs == group_views(cands@),
                match best {
                    Some(b) => b < j && best_candidate(cs.take(j as int), p@) == Some(cs[b as int]),
                    None => best_candidate(cs.take(j as int), p@) is None,
                },
            decreases cands.len() - j,
        {
            assert(cs.take(j + 1).drop_last() == cs.take(j as int));
            assert(cs.take(j + 1).last() == cands@[j as int]@);
            if cands[j].path == *p {
                match best {
                    Some(b) => {
                        if cands[b].rank <= cands[j].rank {
                            best = Some(j);
                        }
                    },
                    None => {
                        best = Some(j);
                    },
                }
            }
            j = j + 1;
        }
        assert(cs.take(cands.len() as int) == cs);
        proof {
            assert(gp[k as int] == p@);
            assert(gp.contains(p@));
            lemma_grouped_has_best(cs, p@);
        }
        let b = best.unwrap();
        let g = copy_group(&cands[b]);
        let ghost prev = out@;
        out.push(g);
        assert(out@ == prev.push(g));
        assert(group_views(prev.push(g)) == group_views(prev).push(g@));
        assert(gp.take(k + 1) == gp.take(k as int).push(gp[k as int]));
        assert(group_views(out@) =~= gp.take(k + 1).map_values(|p: Seq<char>| best_candidate(cs, p).unwrap()));
        k = k + 1;
    }
    assert(gp.take(paths.len() as int) == gp);
    out
}

// ---------------------------------------------------------------------------
// Results of the first stage
// ---------------------------------------------------------------------------

/// Title and stored tag text of a post, looked up by its path.
pub struct PathDoc {
    pub title: String,
    pub tags: String,
}

/// First stage results: one per group whose post was found by its path.
pub open spec fn stage_one_results_spec(groups: Seq<Candidate>, docs: Seq<Option<PathDoc>>) -> Seq<
    ResultView,
>
    decreases groups.len(),
{
    if groups.len() == 0 || docs.len() == 0 {
        seq![]
    } else {
        let prev = stage_one_results_spec(groups.drop_last(), docs.drop_last());
        let g = groups.last();
        match docs.last() {
            Some(d) => prev.push(
                ResultView {
                    title: d.title@,
                    excerpt: g.context,
                    path: g.path,
                    tags: tags_of(d.tags@),
                    score_key: g.score,
                    anchor: anchor_of(g.line as nat),
                },
            ),
            None => prev,
        }
    }
}

// ---------------------------------------------------------------------------
// Second and third stage
// ---------------------------------------------------------------------------

/// A hit of the content search or of the title search.
pub struct DocHit {
    pub path: String,
    pub title: String,
    /// Stored tag text.
    pub tags: String,
    /// The indexed body of the hit's post (its main document's content),
    /// whose lines the excerpt and the anchor are taken from.
    pub body: String,
    /// Key of the normalized score.
    pub score_key: u32,
}

/// One hit of the content search, given the posts already seen.
pub open spec fn content_step(query: Seq<char>, hit: DocHit, seen: Seq<Seq<char>>) -> (Seq<ResultView>, Seq<Seq<char>>) {
    if seen.contains(hit.path@) {
        (seq![], seen)
    } else {
        match matching_excerpt(hit.body@, query) {
            Some((e, n)) => (
                seq![
                    ResultView {
                        title: hit.title@,
                        excerpt: e,
                        path: hit.path@,
                        tags: tags_of(hit.tags@),
                        score_key: hit.score_key,
                        anchor: anchor_of(n),
                    },
                ],
                seen.push(hit.path@),
            ),
            None => (seq![], seen.push(hit.path@)),
        }
    }
}

/// Results of the content search and the posts seen after it.
pub open spec fn content_stage(query: Seq<char>, hits: Seq<DocHit>, seen: Seq<Seq<char>>) -> (Seq<ResultView>, Seq<Seq<char>>)
    decreases hits.len(),
{
    if hits.len() == 0 {
        (seq![], seen)
    } else {
        let (prev, seen1) = content_stage(query, hits.drop_last(), seen);
        let (more, seen2) = content_step(query, hits.last(), seen1);
        (prev + more, seen2)
    }
}

/// The first line of `ls` that is not blank, or the empty text.
pub open spec fn first_nonblank(ls: Seq<Seq<char>>) -> Seq<char>
    decreases ls.len(),
{
    if ls.len() == 0 {
        seq![]
    } else if trim(ls[0]).len() > 0 {
        ls[0]
    } else {
        first_nonblank(ls.drop_first())
    }
}

/// One hit of the title search, given the posts already seen.
pub open spec fn title_step(hit: DocHit, seen: Seq<Seq<char>>) -> (Seq<ResultView>, Seq<Seq<char>>) {
    if seen.contains(hit.path@) {
        (seq![], seen)
    } else {
        (
            seq![
                ResultView {
                    title: hit.title@,
                    excerpt: seq![' ', ' '] + first_nonblank(lines(hit.body@)),
                    path: hit.path@,
                    tags: tags_of(hit.tags@),
                    score_key: hit.score_key,
                    anchor: seq!['L', '1'],
                },
            ],
            seen.push(hit.path@),
        )
    }
}

/// Results of the title search and the posts seen after it.
pub open spec fn title_stage(hits: Seq<DocHit>, seen: Seq<Seq<char>>) -> (Seq<ResultView>, Seq<Seq<char>>)
    decreases hits.len(),
{
    if hits.len() == 0 {
        (seq![], seen)
    } else {
        let (prev, seen1) = title_stage(hits.drop_last(), seen);
        let (more, seen2) = title_step(hits.last(), seen1);
        (prev + more, seen2)
    }
}

// ---------------------------------------------------------------------------
// Ordering by score
// ---------------------------------------------------------------------------

/// Number of leading entries of `s` whose score key is at least `key`.
pub open spec fn leading_at_least(s: Seq<ResultView>, key: u32) -> nat
    decreases s.len(),
{
    if s.len() == 0 {
        0
    } else if s[0].score_key >= key {
        1 + leading_at_least(s.drop_first(), key)
    } else {
        0
    }
}

/// `x` inserted after the leading entries with a score at least its own.
pub open spec fn insert_by_score(s: Seq<ResultView>, x: ResultView) -> Seq<ResultView> {
    s.insert(leading_at_least(s, x.score_key) as int, x)
}

/// Stable ordering by decreasing score: equal scores keep their order.
pub open spec fn sort_by_score(s: Seq<ResultView>) -> Seq<ResultView>
    decreases s.len(),
{
    if s.len() == 0 {
        seq![]
    } else {
        insert_by_score(sort_by_score(s.drop_last()), s.last())
    }
}

/// Scores never increase along `s`.
pub open spec fn sorted_by_score(s: Seq<ResultView>) -> bool {
    forall|i: int, j: int| 0 <= i < j < s.len() ==> s[i].score_key >= s[j].score_key
}

proof fn lemma_leading_at_least(s: Seq<ResultView>, key: u32)
    ensures
        leading_at_least(s, key) <= s.len(),
        forall|i: int| 0 <= i < leading_at_least(s, key) ==> s[i].score_key >= key,
        leading_at_least(s, key) < s.len() ==> s[leading_at_least(s, key) as int].score_key < key,
    decreases s.len(),
{
    if s.len() > 0 && s[0].score_key >= key {
        lemma_leading_at_least(s.drop_first(), key);
        assert forall|i: int| 0 <= i < leading_at_least(s, key) implies s[i].score_key >= key by {
            if i > 0 {
                assert(s[i] == s.drop_first()[i - 1]);
            }
        }
    }
}

fn leading_at_least_exec(s: &Vec<SearchResult>, key: u32) -> (k: usize)
    ensures
        k as nat == leading_at_least(result_views(s@), key),
{
    let ghost v = result_views(s@);
    let mut k: usize = 0;
    assert(v.skip(0) == v);
    while k < s.len() && s[k].score_key >= key
        invariant
            0 <= k <= s.len(),
            v == result_views(s@),
            leading_at_least(v, key) == k + leading_at_least(v.skip(k as int), key),
        decreases s.len() - k,
    {
        assert(v.skip(k as int).drop_first() == v.skip(k + 1));
        k = k + 1;
    }
    k
}

/// Orders results by decreasing score; results with equal scores keep
/// their relative order (the stable `sort_by` of the search).
pub fn rank_results(results: Vec<SearchResult>) -> (r: Vec<SearchResult>)
    ensures
        result_views(r@) == sort_by_score(result_views(results@)),
{
    let ghost input = result_views(results@);
    let mut rest = results;
    let mut out: Vec<SearchResult> = Vec::new();
    let mut i: usize = 0;
    let n = rest.len();
    assert(input.skip(0) == input);
    while rest.len() > 0
        invariant
            i + rest.len() == n,
            n == input.len(),
            result_views(rest@) == input.skip(i as int),
            result_views(out@) == sort_by_score(input.take(i as int)),
        decreases rest.len(),
    {
        let ghost before = rest@;
        let x = rest.remove(0);
        assert(rest@ == before.subrange(1, before.len() as int));
        assert(result_views(rest@) =~= result_views(before).subrange(1, before.len() as int));
        assert(input.skip(i as int).subrange(1, before.len() as int) =~= input.skip(i + 1));
        assert(x == before[0]);
        assert(result_views(before)[0] == input.skip(i as int)[0]);
        assert(x@ == input[i as int]);
        let k = leading_at_least_exec(&out, x.score_key);
        proof {
            lemma_leading_at_least(result_views(out@), x.score_key);
        }
        let ghost prev = out@;
        out.insert(k, x);
        assert(out@ == prev.insert(k as int, x));
        assert(result_views(out@) =~= result_views(prev).insert(k as int, x@));
        assert(input.take(i + 1).drop_last() == input.take(i as int));
        i = i + 1;
    }
    assert(input.take(n as int) == input);
    out
}

/// Law: ordering by score gives a permutation of the results with scores
/// never increasing.
pub proof fn law_ranked_results_sorted_permutation(s: Seq<ResultView>)
    ensures
        sorted_by_score(sort_by_score(s)),
        sort_by_score(s).to_multiset() =~= s.to_multiset(),
    decreases s.len(),
{
    broadcast use vstd::seq_lib::group_to_multiset_ensures;
    if s.len() > 0 {
        law_ranked_results_sorted_permutation(s.drop_last());
        let t = sort_by_score(s.drop_last());
        let x = s.last();
        let k = leading_at_least(t, x.score_key) as int;
        lemma_leading_at_least(t, x.score_key);
        let u = t.insert(k, x);
        assert forall|i: int, j: int| 0 <= i < j < u.len() implies u[i].score_key >= u[j].score_key by {
            if j < k {
                assert(u[i] == t[i] && u[j] == t[j]);
            } else if j == k {
                assert(u[i] == t[i]);
            } else if i < k {
                assert(u[i] == t[i] && u[j] == t[j - 1]);
            } else if i == k {
                assert(u[j] == t[j - 1]);
                assert(t[k].score_key < x.score_key);
            } else {
                assert(u[i] == t[i - 1] && u[j] == t[j - 1]);
            }
        }
        assert(u.remove(k) =~= t);
        assert(u.to_multiset().remove(x) =~= t.to_multiset());
        assert(u.to_multiset().count(x) > 0) by {
            assert(u[k] == x);
            assert(u.contains(x));
        }
        assert(s =~= s.drop_last().push(x));
    }
}

// ---------------------------------------------------------------------------
// Executable stages
// ---------------------------------------------------------------------------

fn push_result(out: &mut Vec<SearchResult>, r: SearchResult)
    ensures
        result_views(final(out)@) == result_views(old(out)@).push(r@),
{
    let ghost prev = out@;
    out.push(r);
    assert(out@ == prev.push(r));
    assert(result_views(prev.push(r)) == result_views(prev).push(r@));
}

/// First stage results: for each group, in order, an entry with the title
/// and tags of the post document found by its path (`docs[i]` for
/// `groups[i]`), or nothing when none was found.
pub fn stage_one_results(groups: &Vec<MatchGroup>, docs: &Vec<Option<PathDoc>>) -> (r: Vec<SearchResult>)
    requires
        groups.len() == docs.len(),
    ensures
        result_views(r@) == stage_one_results_spec(group_views(groups@), docs@),
{
    let ghost gv = group_views(groups@);
    let mut out: Vec<SearchResult> = Vec::new();
    let mut i: usize = 0;
    while i < groups.len()
        invariant
            0 <= i <= groups.len() == docs.len(),
            gv == group_views(groups@),
            result_views(out@) == stage_one_results_spec(gv.take(i as int), docs@.take(i as int)),
        decreases groups.len() - i,
    {
        assert(gv.take(i + 1).drop_last() == gv.take(i as int));
        assert(docs@.take(i + 1).drop_last() == docs@.take(i as int));
        match &docs[i] {
            Some(d) => {
                let g = &groups[i];
                let r = SearchResult {
                    title: d.title.clone(),
                    excerpt: g.context.clone(),
                    path: g.path.clone(),
                    tags: split_tags(d.tags.as_str()),
                    score_key: g.score,
                    anchor: anchor_string(g.line),
                };
                push_result(&mut out, r);
            },
            None => {},
        }
        i = i + 1;
    }
    assert(gv.take(groups.len() as int) == gv);
    assert(docs@.take(groups.len() as int) == docs@);
    out
}

fn content_step_exec(query: &str, hit: &DocHit, seen: &mut Vec<String>, out: &mut Vec<SearchResult>)
    ensures
        ({
            let (more, s2) = content_step(query@, *hit, string_views(old(seen)@));
            &&& result_views(final(out)@) == result_views(old(out)@) + more
            &&& string_views(final(seen)@) == s2
        }),
{
    let ghost start = result_views(out@);
    if contains_string(seen, &hit.path) {
        assert(result_views(out@) == start + Seq::<ResultView>::empty());
        return;
    }
    let ghost prev_seen = seen@;
    seen.push(hit.path.clone());
    assert(string_views(seen@) == string_views(prev_seen).push(hit.path@));
    match find_matching_excerpt(hit.body.as_str(), query) {
        Some((e, n)) => {
            let r = SearchResult {
                title: hit.title.clone(),
                excerpt: e,
                path: hit.path.clone(),
                tags: split_tags(hit.tags.as_str()),
                score_key: hit.score_key,
                anchor: anchor_string(n as u64),
            };
            push_result(out, r);
        },
        None => {
            assert(result_views(out@) == start + Seq::<ResultView>::empty());
        },
    }
}

fn first_nonblank_exec(content: &str) -> (r: String)
    ensures
        r@ == first_nonblank(lines(content@)),
{
    let ls = str_lines(content);
    let ghost lv = vec_views(ls@);
    let mut i: usize = 0;
    assert(lv.skip(0) == lv);
    while i < ls.len()
        invariant
            0 <= i <= ls.len(),
            lv == vec_views(ls@),
            lv == lines(content@),
            first_nonblank(lv) == first_nonblank(lv.skip(i as int)),
        decreases ls.len() - i,
    {
        assert(lv.skip(i as int)[0] == ls@[i as int]@);
        if !is_blank(&ls[i]) {
            return string_of(&ls[i]);
        }
        assert(lv.skip(i as int).drop_first() == lv.skip(i + 1));
        i = i + 1;
    }
    String::new()
}

fn title_step_exec(hit: &DocHit, seen: &mut Vec<String>, out: &mut Vec<SearchResult>)
    ensures
        ({
            let (more, s2) = title_step(*hit, string_views(old(seen)@));
            &&& result_views(final(out)@) == result_views(old(out)@) + more
            &&& string_views(final(seen)@) == s2
        }),
{
    let ghost start = result_views(out@);
    if contains_string(seen, &hit.path) {
        assert(result_views(out@) == start + Seq::<ResultView>::empty());
        return;
    }
    let ghost prev_seen = seen@;
    seen.push(hit.path.clone());
    assert(string_views(seen@) == string_views(prev_seen).push(hit.path@));
    let mut excerpt = String::new();
    push_str(&mut excerpt, "  ");
    let first = first_nonblank_exec(hit.body.as_str());
    push_str(&mut excerpt, first.as_str());
    let mut anchor = String::new();
    push_str(&mut anchor, "L1");
    proof {
        reveal_strlit("  ");
        reveal_strlit("L1");
        assert("  "@ == seq![' ', ' ']);
        assert("L1"@ == seq!['L', '1']);
    }
    let r = SearchResult {
        title: hit.title.clone(),
        excerpt,
        path: hit.path.clone(),
        tags: split_tags(hit.tags.as_str()),
        score_key: hit.score_key,
        anchor,
    };
    push_result(out, r);
    assert(result_views(out@) == start + seq![r@]);
}

/// Model of a search in progress: the results so far and the posts seen.
pub struct ProgressView {
    pub results: Seq<ResultView>,
    pub seen: Seq<Seq<char>>,
}

/// A search in progress, between its stages.
pub struct SearchProgress {
    results: Vec<SearchResult>,
    seen: Vec<String>,
}

impl View for SearchProgress {
    type V = ProgressView;

    closed spec fn view(&self) -> ProgressView {
        ProgressView { results: result_views(self.results@), seen: string_views(self.seen@) }
    }
}

impl SearchProgress {
    /// The search after its first stage.
    pub fn start(groups: &Vec<MatchGroup>, docs: &Vec<Option<PathDoc>>) -> (r: SearchProgress)
        requires
            groups.len() == docs.len(),
        ensures
            r@.results == stage_one_results_spec(group_views(groups@), docs@),
            r@.seen == Seq::<Seq<char>>::empty(),
    {
        let results = stage_one_results(groups, docs);
        let seen: Vec<String> = Vec::new();
        assert(string_views(seen@) =~= Seq::<Seq<char>>::empty());
        SearchProgress { results, seen }
    }

    /// Whether the next stage is to run: nothing has been found so far.
    pub fn needs_more(&self) -> (r: bool)
        ensures
            r == (self@.results.len() == 0),
    {
        self.results.len() == 0
    }

    /// Second stage, run when nothing has been found: the hits of the
    /// content search, each post at most once, with an excerpt around the
    /// first line of the post's body that contains the query, anchored at
    /// that line's number in the body.
    pub fn add_content_hits(&mut self, query: &str, hits: &Vec<DocHit>)
        requires
            old(self)@.results.len() == 0,
        ensures
            ({
                let (more, seen) = content_stage(query@, hits@, old(self)@.seen);
                &&& final(self)@.results == old(self)@.results + more
                &&& final(self)@.seen == seen
            }),
    {
        let ghost r0 = self@.results;
        let ghost s0 = self@.seen;
        let mut i: usize = 0;
        assert(r0 + Seq::<ResultView>::empty() == r0);
        while i < hits.len()
            invariant
                0 <= i <= hits.len(),
                ({
                    let (more, seen) = content_stage(query@, hits@.take(i as int), s0);
                    &&& result_views(self.results@) == r0 + more
                    &&& string_views(self.seen@) == seen
                }),
            decreases hits.len() - i,
        {
            assert(hits@.take(i + 1).drop_last() == hits@.take(i as int));
            let ghost (m0, _) = content_stage(query@, hits@.take(i as int), s0);
            content_step_exec(query, &hits[i], &mut self.seen, &mut self.results);
            let ghost (m1, _) = content_stage(query@, hits@.take(i + 1), s0);
            assert(result_views(self.results@) == r0 + m1) by {
                let (more, _) = content_step(
                    query@,
                    hits@.take(i + 1).last(),
                    content_stage(query@, hits@.take(i as int), s0).1,
                );
                assert(m1 == m0 + more);
            }
            i = i + 1;
        }
        assert(hits@.take(hits.len() as int) == hits@);
    }

    /// Third stage, run when nothing has been found: the hits of the title
    /// search, each post not seen before at most once, shown with the first
    /// non-blank line of its body.
    pub fn add_title_hits(&mut self, hits: &Vec<DocHit>)
        requires
            old(self)@.results.len() == 0,
        ensures
            ({
                let (more, seen) = title_stage(hits@, old(self)@.seen);
                &&& final(self)@.results == old(self)@.results + more
                &&& final(self)@.seen == seen
            }),
    {
        let ghost r0 = self@.results;
        let ghost s0 = self@.seen;
        let mut i: usize = 0;
        assert(r0 + Seq::<ResultView>::empty() == r0);
        while i < hits.len()
            invariant
                0 <= i <= hits.len(),
                ({
                    let (more, seen) = title_stage(hits@.take(i as int), s0);
                    &&& result_views(self.results@) == r0 + more
                    &&& string_views(self.seen@) == seen
                }),
            decreases hits.len() - i,
        {
            assert(hits@.take(i + 1).drop_last() == hits@.take(i as int));
            let ghost (m0, _) = title_stage(hits@.take(i as int), s0);
            title_step_exec(&hits[i], &mut self.seen, &mut self.results);
            let ghost (m1, _) = title_stage(hits@.take(i + 1), s0);
            assert(result_views(self.results@) == r0 + m1) by {
                let (more, _) = title_step(
                    hits@.take(i + 1).last(),
                    title_stage(hits@.take(i as int), s0).1,
                );
                assert(m1 == m0 + more);
            }
            i = i + 1;
        }
        assert(hits@.take(hits.len() as int) == hits@);
    }

    /// The results, ordered by decreasing score.
    pub fn finish(self) -> (r: Vec<SearchResult>)
        ensures
            result_views(r@) == sort_by_score(self@.results),
    {
        rank_results(self.results)
    }
}

// ---------------------------------------------------------------------------
// Laws: each post is shown at most once
// ---------------------------------------------------------------------------

/// No two entries are for the same post.
pub open spec fn distinct_paths(rs: Seq<ResultView>) -> bool {
    forall|i: int, j: int| 0 <= i < j < rs.len() ==> rs[i].path != rs[j].path
}

proof fn lemma_group_paths_distinct(cs: Seq<Candidate>)
    ensures
        group_paths(cs).no_duplicates(),
    decreases cs.len(),
{
    if cs.len() > 0 {
        lemma_group_paths_distinct(cs.drop_last());
        let prev = group_paths(cs.drop_last());
        if !prev.contains(cs.last().path) {
            assert forall|i: int, j: int|
                0 <= i < prev.push(cs.last().path).len() && 0 <= j < prev.push(cs.last().path).len()
                    && i != j implies prev.push(cs.last().path)[i] != prev.push(cs.last().path)[j] by {
                if i == prev.len() as int {
                    assert(prev[j] != cs.last().path);
                } else if j == prev.len() as int {
                    assert(prev[i] != cs.last().path);
                }
            }
        }
    }
}

proof fn lemma_best_candidate_path(cs: Seq<Candidate>, p: Seq<char>)
    ensures
        best_candidate(cs, p) matches Some(c) ==> c.path == p,
    decreases cs.len(),
{
    if cs.len() > 0 {
        lemma_best_candidate_path(cs.drop_last(), p);
    }
}

/// Some group is for post `p`.
pub open spec fn has_group_for(groups: Seq<Candidate>, p: Seq<char>) -> bool {
    exists|i: int| 0 <= i < groups.len() && groups[i].path == p
}

proof fn lemma_stage_one_results_paths(groups: Seq<Candidate>, docs: Seq<Option<PathDoc>>)
    requires
        groups.len() == docs.len(),
        forall|i: int, j: int| 0 <= i < j < groups.len() ==> groups[i].path != groups[j].path,
    ensures
        distinct_paths(stage_one_results_spec(groups, docs)),
        forall|k: int|
            0 <= k < stage_one_results_spec(groups, docs).len() ==> has_group_for(
                groups,
                #[trigger] stage_one_results_spec(groups, docs)[k].path,
            ),
    decreases groups.len(),
{
    if groups.len() > 0 {
        let gs = groups.drop_last();
        let ds = docs.drop_last();
        lemma_stage_one_results_paths(gs, ds);
        let prev = stage_one_results_spec(gs, ds);
        let r = stage_one_results_spec(groups, docs);
        let n = groups.len() - 1;
        assert forall|k: int| 0 <= k < prev.len() implies #[trigger] prev[k].path != groups[n].path by {
            assert(has_group_for(gs, prev[k].path));
            let i = choose|i: int| 0 <= i < gs.len() && gs[i].path == prev[k].path;
            assert(groups[i].path != groups[n].path);
        }
        assert forall|k: int| 0 <= k < r.len() implies has_group_for(groups, #[trigger] r[k].path) by {
            if k < prev.len() {
                assert(r[k] == prev[k]);
                assert(has_group_for(gs, prev[k].path));
                let i = choose|i: int| 0 <= i < gs.len() && gs[i].path == prev[k].path;
                assert(groups[i] == gs[i]);
            } else {
                assert(groups[n].path == r[k].path);
            }
        }
        assert forall|i: int, j: int| 0 <= i < j < r.len() implies r[i].path != r[j].path by {
            if j < prev.len() {
                assert(r[i] == prev[i] && r[j] == prev[j]);
            } else {
                assert(r[i] == prev[i]);
                assert(r[j].path == groups[n].path);
            }
        }
    }
}

/// Law: the first stage shows each post at most once (its candidates are
/// grouped by post).
pub proof fn law_stage_one_one_entry_per_post(
    query: Seq<char>,
    hits: Seq<LineHit>,
    files: Seq<PostText>,
    docs: Seq<Option<PathDoc>>,
)
    requires
        docs.len() == stage_one_groups_spec(query, hits, files).len(),
    ensures
        distinct_paths(stage_one_results_spec(stage_one_groups_spec(query, hits, files), docs)),
{
    let cs = candidates(query, hits, files);
    let gp = group_paths(cs);
    let groups = stage_one_groups_spec(query, hits, files);
    lemma_group_paths_distinct(cs);
    assert forall|i: int| 0 <= i < groups.len() implies #[trigger] groups[i].path == gp[i] by {
        lemma_grouped_has_best(cs, gp[i]);
        lemma_best_candidate_path(cs, gp[i]);
    }
    assert forall|i: int, j: int| 0 <= i < j < groups.len() implies groups[i].path != groups[j].path by {
        assert(groups[i].path == gp[i]);
        assert(groups[j].path == gp[j]);
    }
    lemma_stage_one_results_paths(groups, docs);
}

/// Law: the content search shows each post at most once, and none that was
/// seen before it.
pub proof fn law_content_stage_one_entry_per_post(query: Seq<char>, hits: Seq<DocHit>, seen: Seq<Seq<char>>)
    ensures
        distinct_paths(content_stage(query, hits, seen).0),
        forall|k: int|
            0 <= k < content_stage(query, hits, seen).0.len() ==> !seen.contains(
                #[trigger] content_stage(query, hits, seen).0[k].path,
            ) && content_stage(query, hits, seen).1.contains(content_stage(query, hits, seen).0[k].path),
        forall|p: Seq<char>| seen.contains(p) ==> #[trigger] content_stage(query, hits, seen).1.contains(p),
    decreases hits.len(),
{
    if hits.len() > 0 {
        law_content_stage_one_entry_per_post(query, hits.drop_last(), seen);
        let (prev, s1) = content_stage(query, hits.drop_last(), seen);
        let h = hits.last();
        let (more, s2) = content_step(query, h, s1);
        let r = prev + more;
        assert forall|p: Seq<char>| s1.contains(p) implies s2.contains(p) by {
            if !s1.contains(h.path@) {
                let k = choose|k: int| 0 <= k < s1.len() && s1[k] == p;
                assert(s2[k] == p);
            }
        }
        if more.len() > 0 {
            assert(!s1.contains(h.path@));
            assert(s2 == s1.push(h.path@));
            assert(s2[s1.len() as int] == h.path@);
            assert(more[0].path == h.path@);
        }
        assert forall|k: int| 0 <= k < r.len() implies !seen.contains(#[trigger] r[k].path) && s2.contains(r[k].path) by {
            if k < prev.len() {
                assert(r[k] == prev[k]);
            } else {
                assert(r[k] == more[0]);
            }
        }
        assert forall|i: int, j: int| 0 <= i < j < r.len() implies r[i].path != r[j].path by {
            if j < prev.len() {
                assert(r[i] == prev[i] && r[j] == prev[j]);
            } else {
                assert(r[i] == prev[i]);
                assert(s1.contains(prev[i].path));
            }
        }
        assert forall|p: Seq<char>| seen.contains(p) implies s2.contains(p) by {
            assert(s1.contains(p));
        }
    }
}

/// Every post the content search went through is seen after it.
proof fn lemma_content_stage_sees_hits(query: Seq<char>, hits: Seq<DocHit>, seen: Seq<Seq<char>>)
    ensures
        forall|k: int|
            0 <= k < hits.len() ==> content_stage(query, hits, seen).1.contains(#[trigger] hits[k].path@),
    decreases hits.len(),
{
    if hits.len() > 0 {
        lemma_content_stage_sees_hits(query, hits.drop_last(), seen);
        let (prev, s1) = content_stage(query, hits.drop_last(), seen);
        let h = hits.last();
        let (more, s2) = content_step(query, h, s1);
        assert forall|p: Seq<char>| s1.contains(p) implies s2.contains(p) by {
            if !s1.contains(h.path@) {
                let k = choose|k: int| 0 <= k < s1.len() && s1[k] == p;
                assert(s2[k] == p);
            }
        }
        if !s1.contains(h.path@) {
            assert(s2[s1.len() as int] == h.path@);
        }
        assert forall|k: int| 0 <= k < hits.len() implies s2.contains(#[trigger] hits[k].path@) by {
            if k < hits.len() - 1 {
                assert(hits.drop_last()[k] == hits[k]);
            }
        }
    }
}

/// `j` is the first hit for post `p`.
pub open spec fn first_hit_for(hits: Seq<DocHit>, p: Seq<char>, j: int) -> bool {
    &&& 0 <= j < hits.len()
    &&& hits[j].path@ == p
    &&& forall|k: int| 0 <= k < j ==> hits[k].path@ != p
}

/// `r` shows the title and carries the score key of the first hit for its
/// post.
pub open spec fn from_first_hit(hits: Seq<DocHit>, r: ResultView) -> bool {
    exists|j: int|
        #[trigger] first_hit_for(hits, r.path, j) && r.score_key == hits[j].score_key && r.title
            == hits[j].title@
}

/// Law: each result of the content search is built from the first hit for
/// its post: it shows that hit's title and carries that hit's score key,
/// by which the results are then ranked.
pub proof fn law_content_results_keep_hit_scores(query: Seq<char>, hits: Seq<DocHit>, seen: Seq<Seq<char>>)
    ensures
        forall|i: int|
            0 <= i < content_stage(query, hits, seen).0.len() ==> from_first_hit(
                hits,
                #[trigger] content_stage(query, hits, seen).0[i],
            ),
    decreases hits.len(),
{
    if hits.len() > 0 {
        let hd = hits.drop_last();
        law_content_results_keep_hit_scores(query, hd, seen);
        lemma_content_stage_sees_hits(query, hd, seen);
        let (prev, s1) = content_stage(query, hd, seen);
        let h = hits.last();
        let (more, s2) = content_step(query, h, s1);
        let r = prev + more;
        assert(content_stage(query, hits, seen).0 == r);
        assert forall|i: int| 0 <= i < r.len() implies from_first_hit(hits, #[trigger] r[i]) by {
            if i < prev.len() {
                assert(r[i] == prev[i]);
                assert(from_first_hit(hd, prev[i]));
                let j = choose|j: int|
                    #[trigger] first_hit_for(hd, prev[i].path, j) && prev[i].score_key
                        == hd[j].score_key && prev[i].title == hd[j].title@;
                assert(hd[j] == hits[j]);
                assert forall|k: int| 0 <= k < j implies hits[k].path@ != prev[i].path by {
                    assert(hd[k] == hits[k]);
                }
                assert(first_hit_for(hits, r[i].path, j));
            } else {
                assert(r[i] == more[0]);
                assert(!s1.contains(h.path@));
                let j = hits.len() - 1;
                assert forall|k: int| 0 <= k < j implies hits[k].path@ != h.path@ by {
                    assert(hd[k] == hits[k]);
                    assert(s1.contains(hd[k].path@));
                }
                assert(first_hit_for(hits, r[i].path, j));
            }
        }
    }
}

/// Law: the title search shows each post at most once, and none that was
/// seen before it.
pub proof fn law_title_stage_one_entry_per_post(hits: Seq<DocHit>, seen: Seq<Seq<char>>)
    ensures
        distinct_paths(title_stage(hits, seen).0),
        forall|k: int|
            0 <= k < title_stage(hits, seen).0.len() ==> !seen.contains(
                #[trigger] title_stage(hits, seen).0[k].path,
            ) && title_stage(hits, seen).1.contains(title_stage(hits, seen).0[k].path),
        forall|p: Seq<char>| seen.contains(p) ==> #[trigger] title_stage(hits, seen).1.contains(p),
    decreases hits.len(),
{
    if hits.len() > 0 {
        law_title_stage_one_entry_per_post(hits.drop_last(), seen);
        let (prev, s1) = title_stage(hits.drop_last(), seen);
        let h = hits.last();
        let (more, s2) = title_step(h, s1);
        let r = prev + more;
        assert forall|p: Seq<char>| s1.contains(p) implies s2.contains(p) by {
            if !s1.contains(h.path@) {
                let k = choose|k: int| 0 <= k < s1.len() && s1[k] == p;
                assert(s2[k] == p);
            }
        }
        if more.len() > 0 {
            assert(!s1.contains(h.path@));
            assert(s2 == s1.push(h.path@));
            assert(s2[s1.len() as int] == h.path@);
            assert(more[0].path == h.path@);
        }
        assert forall|k: int| 0 <= k < r.len() implies !seen.contains(#[trigger] r[k].path) && s2.contains(r[k].path) by {
            if k < prev.len() {
                assert(r[k] == prev[k]);
            } else {
                assert(r[k] == more[0]);
            }
        }
        assert forall|i: int, j: int| 0 <= i < j < r.len() implies r[i].path != r[j].path by {
            if j < prev.len() {
                assert(r[i] == prev[i] && r[j] == prev[j]);
            } else {
                assert(r[i] == prev[i]);
                assert(s1.contains(prev[i].path));
            }
        }
        assert forall|p: Seq<char>| seen.contains(p) implies s2.contains(p) by {
            assert(s1.contains(p));
        }
    }
}

/// Some entry is for post `p`.
pub open spec fn has_entry_for(rs: Seq<ResultView>, p: Seq<char>) -> bool {
    exists|k: int| 0 <= k < rs.len() && rs[k].path == p
}

proof fn lemma_sort_keeps_distinct_paths(s: Seq<ResultView>)
    requires
        distinct_paths(s),
    ensures
        distinct_paths(sort_by_score(s)),
        forall|p: Seq<char>| has_entry_for(sort_by_score(s), p) <==> has_entry_for(s, p),
    decreases s.len(),
{
    if s.len() > 0 {
        let front = s.drop_last();
        let x = s.last();
        assert(distinct_paths(front));
        lemma_sort_keeps_distinct_paths(front);
        let t = sort_by_score(front);
        let k = leading_at_least(t, x.score_key) as int;
        lemma_leading_at_least(t, x.score_key);
        let u = t.insert(k, x);
        assert(!has_entry_for(front, x.path)) by {
            if has_entry_for(front, x.path) {
                let j = choose|j: int| 0 <= j < front.len() && front[j].path == x.path;
                assert(s[j].path == s[s.len() - 1].path);
            }
        }
        assert(!has_entry_for(t, x.path));
        assert forall|i: int, j: int| 0 <= i < j < u.len() implies u[i].path != u[j].path by {
            if j < k {
                assert(u[i] == t[i] && u[j] == t[j]);
            } else if j == k {
                assert(u[i] == t[i]);
                assert(u[j] == x);
            } else if i < k {
                assert(u[i] == t[i] && u[j] == t[j - 1]);
            } else if i == k {
                assert(u[i] == x);
                assert(u[j] == t[j - 1]);
            } else {
                assert(u[i] == t[i - 1] && u[j] == t[j - 1]);
            }
        }
        assert forall|p: Seq<char>| has_entry_for(u, p) <==> has_entry_for(s, p) by {
            if has_entry_for(u, p) {
                let i = choose|i: int| 0 <= i < u.len() && u[i].path == p;
                if i < k {
                    assert(u[i] == t[i]);
                } else if i == k {
                    assert(s[s.len() - 1] == x);
                } else {
                    assert(u[i] == t[i - 1]);
                }
                if p != x.path {
                    assert(has_entry_for(t, p));
                    assert(has_entry_for(front, p));
                    let j = choose|j: int| 0 <= j < front.len() && front[j].path == p;
                    assert(s[j] == front[j]);
                }
            }
            if has_entry_for(s, p) {
                let i = choose|i: int| 0 <= i < s.len() && s[i].path == p;
                if i == s.len() - 1 {
                    assert(u[k] == x);
                } else {
                    assert(front[i] == s[i]);
                    assert(has_entry_for(front, p));
                    assert(has_entry_for(t, p));
                    let j = choose|j: int| 0 <= j < t.len() && t[j].path == p;
                    if j < k {
                        assert(u[j] == t[j]);
                    } else {
                        assert(u[j + 1] == t[j]);
                    }
                }
            }
        }
    }
}

/// The results of a whole search: the first stage's, or else the content
/// search's, or else the title search's, ordered by score.
pub open spec fn search_outcome(
    groups: Seq<Candidate>,
    docs: Seq<Option<PathDoc>>,
    query: Seq<char>,
    content_hits: Seq<DocHit>,
    title_hits: Seq<DocHit>,
) -> Seq<ResultView> {
    let first = stage_one_results_spec(groups, docs);
    if first.len() > 0 {
        sort_by_score(first)
    } else {
        let (second, seen) = content_stage(query, content_hits, seq![]);
        if second.len() > 0 {
            sort_by_score(second)
        } else {
            sort_by_score(title_stage(title_hits, seen).0)
        }
    }
}

/// Law: a search shows each post at most once.
pub proof fn law_search_one_entry_per_post(
    query: Seq<char>,
    hits: Seq<LineHit>,
    files: Seq<PostText>,
    docs: Seq<Option<PathDoc>>,
    content_hits: Seq<DocHit>,
    title_hits: Seq<DocHit>,
)
    requires
        docs.len() == stage_one_groups_spec(query, hits, files).len(),
    ensures
        distinct_paths(
            search_outcome(
                stage_one_groups_spec(query, hits, files),
                docs,
                query,
                content_hits,
                title_hits,
            ),
        ),
{
    let groups = stage_one_groups_spec(query, hits, files);
    let first = stage_one_results_spec(groups, docs);
    if first.len() > 0 {
        law_stage_one_one_entry_per_post(query, hits, files, docs);
        lemma_sort_keeps_distinct_paths(first);
    } else {
        let (second, seen) = content_stage(query, content_hits, seq![]);
        law_content_stage_one_entry_per_post(query, content_hits, seq![]);
        if second.len() > 0 {
            lemma_sort_keeps_distinct_paths(second);
        } else {
            law_title_stage_one_entry_per_post(title_hits, seen);
            lemma_sort_keeps_distinct_paths(title_stage(title_hits, seen).0);
        }
    }
}

} // verus!
