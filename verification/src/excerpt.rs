//! Context excerpts around a line of a post: up to five lines before and
//! after, each with its right-aligned line number, the target line marked
//! with '➤'.

use vstd::prelude::*;
use crate::text::{
    chars_of, contains, contains_chars, decimal, join, join_strings, lines, lowercase,
    lowercase_chars, pad_left, padded_number, push_chars, push_str, str_lines, string_views, vec_views,
};

verus! {

/// The marker that precedes a line of an excerpt.
pub open spec fn line_marker(marked: bool) -> Seq<char> {
    if marked {
        seq!['➤', ' ']
    } else {
        seq![' ', ' ']
    }
}

/// One line of an excerpt: `"➤ {: >3} | {}"` for the marked line,
/// `"  {: >3} | {}"` for the others.
pub open spec fn context_line(line: Seq<char>, number: nat, marked: bool) -> Seq<char> {
    line_marker(marked) + pad_left(decimal(number), 3) + seq![' ', '|', ' '] + line
}

/// First line (0-based) of the window around line index `i`.
pub open spec fn window_start(i: int) -> int {
    if i >= 5 {
        i - 5
    } else {
        0
    }
}

/// End (exclusive, 0-based) of the window around line index `i` in `n` lines.
pub open spec fn window_end(i: int, n: int) -> int {
    if i + 6 <= n {
        i + 6
    } else {
        n
    }
}

/// The excerpt lines `ls[start..end]`, the line numbered `target` marked.
pub open spec fn context_lines(ls: Seq<Seq<char>>, start: int, end: int, target: nat) -> Seq<
    Seq<char>,
> {
    Seq::new(
        (end - start) as nat,
        |j: int| context_line(ls[start + j], (start + j + 1) as nat, start + j + 1 == target),
    )
}

/// The excerpt around the line numbered `target` (counted from 1) of `ls`.
pub open spec fn context_block(ls: Seq<Seq<char>>, target: nat) -> Seq<char> {
    let i = target - 1;
    join(context_lines(ls, window_start(i), window_end(i, ls.len() as int), target), seq!['\n'])
}

/// Context of line `target` of `content`, as the search shows it: empty when
/// the text has fewer lines.
pub open spec fn line_context_spec(content: Seq<char>, target: nat) -> Seq<char> {
    if target - 1 >= lines(content).len() {
        seq![]
    } else {
        context_block(lines(content), target)
    }
}

/// Whether a line matches a query, ignoring case.
pub open spec fn line_matches(line: Seq<char>, query: Seq<char>) -> bool {
    contains(lowercase(line), lowercase(query))
}

/// `i` is the first line of `ls` that matches `query`.
pub open spec fn is_first_matching_line(ls: Seq<Seq<char>>, query: Seq<char>, i: int) -> bool {
    0 <= i < ls.len() && line_matches(ls[i], query) && forall|j: int|
        0 <= j < i ==> !line_matches(#[trigger] ls[j], query)
}

/// The excerpt and line number of the first line of `content` that
/// contains `query`, ignoring case.
pub open spec fn matching_excerpt(content: Seq<char>, query: Seq<char>) -> Option<(Seq<char>, nat)> {
    let ls = lines(content);
    if exists|i: int| 0 <= i < ls.len() && line_matches(ls[i], query) {
        let i = choose|i: int| is_first_matching_line(ls, query, i);
        Some((context_block(ls, (i + 1) as nat), (i + 1) as nat))
    } else {
        None
    }
}

fn format_context_line(line: &Vec<char>, number: u64, marked: bool) -> (r: String)
    ensures
        r@ == context_line(line@, number as nat, marked),
{
    let mut r = String::new();
    if marked {
        push_str(&mut r, "➤ ");
    } else {
        push_str(&mut r, "  ");
    }
    let num = padded_number(number);
    push_chars(&mut r, &num);
    push_str(&mut r, " | ");
    push_chars(&mut r, line);
    proof {
        reveal_strlit("➤ ");
        reveal_strlit("  ");
        reveal_strlit(" | ");
    }
    r
}

/// The excerpt around the line numbered `target` of the lines `ls`.
fn build_context(ls: &Vec<Vec<char>>, target: u64) -> (r: String)
    requires
        1 <= target <= ls.len(),
    ensures
        r@ == context_block(vec_views(ls@), target as nat),
{
    let ghost lv = vec_views(ls@);
    let i: usize = (target - 1) as usize;
    let start: usize = if i >= 5 {
        i - 5
    } else {
        0
    };
    let end: usize = if ls.len() - i >= 6 {
        i + 6
    } else {
        ls.len()
    };
    let ghost expected = context_lines(lv, start as int, end as int, target as nat);
    let mut out: Vec<String> = Vec::new();
    let mut k: usize = start;
    while k < end
        invariant
            start <= k <= end <= ls.len(),
            lv == vec_views(ls@),
            expected == context_lines(lv, start as int, end as int, target as nat),
            out@.len() == k - start,
            forall|j: int| 0 <= j < out@.len() ==> #[trigger] out@[j]@ == expected[j],
        decreases end - k,
    {
        let s = format_context_line(&ls[k], (k + 1) as u64, (k + 1) as u64 == target);
        out.push(s);
        k = k + 1;
    }
    assert(string_views(out@) =~= expected);
    let r = join_strings(&out, "\n");
    proof {
        reveal_strlit("\n");
        assert("\n"@ == seq!['\n']);
        assert(start as int == window_start(target - 1));
        assert(end as int == window_end(target - 1, lv.len() as int));
    }
    r
}

/// The context of line `target` of a post's text `content`: the excerpt
/// around line `target` of `content` (empty when `content` has fewer lines),
/// and `target` itself.
pub fn line_context(content: &str, target: u64) -> (r: (String, u64))
    requires
        target >= 1,
    ensures
        r.0@ == line_context_spec(content@, target as nat),
        r.1 == target,
{
    let ls = str_lines(content);
    assert(vec_views(ls@) == lines(content@));
    if target - 1 >= ls.len() as u64 {
        return (String::new(), target);
    }
    (build_context(&ls, target), target)
}

/// The excerpt around the first line
/// of `content` that contains `query` (ignoring case) and that line's
/// number, or `None` when no line does.
pub fn find_matching_excerpt(content: &str, query: &str) -> (r: Option<(String, usize)>)
    ensures
        match (r, matching_excerpt(content@, query@)) {
            (Some((e, n)), Some((se, sn))) => e@ == se && n as nat == sn,
            (None, None) => true,
            _ => false,
        },
{
    let ls = str_lines(content);
    let ghost lv = vec_views(ls@);
    assert(lv == lines(content@));
    let q = chars_of(query);
    let ql = lowercase_chars(&q);
    let mut i: usize = 0;
    while i < ls.len()
        invariant
            0 <= i <= ls.len(),
            lv == vec_views(ls@),
            lv == lines(content@),
            ql@ == lowercase(query@),
            forall|j: int| 0 <= j < i ==> !line_matches(#[trigger] lv[j], query@),
        decreases ls.len() - i,
    {
        let low = lowercase_chars(&ls[i]);
        if contains_chars(&low, &ql) {
            assert(line_matches(lv[i as int], query@));
            assert(is_first_matching_line(lv, query@, i as int));
            let e = build_context(&ls, (i + 1) as u64);
            proof {
                let k = choose|k: int| is_first_matching_line(lv, query@, k);
                assert(k == i) by {
                    if k < i {
                        assert(!line_matches(lv[k], query@));
                    } else if k > i {
                        assert(!line_matches(lv[i as int], query@));
                    }
                }
            }
            return Some((e, i + 1));
        }
        i = i + 1;
    }
    None
}

/// Law: an excerpt shows at most five lines before and after its target
/// line, always the target line itself, and marks exactly that line.
pub proof fn law_context_window(ls: Seq<Seq<char>>, target: nat)
    requires
        1 <= target <= ls.len(),
    ensures
        ({
            let i = target - 1;
            let start = window_start(i);
            let cl = context_lines(ls, start, window_end(i, ls.len() as int), target);
            &&& 1 <= cl.len() <= 11
            &&& start <= i
            &&& i - start <= 5
            &&& cl[i - start] == context_line(ls[i], target, true)
            &&& forall|j: int| 0 <= j < cl.len() && j != i - start ==> #[trigger] cl[j] == context_line(
                ls[start + j],
                (start + j + 1) as nat,
                false,
            )
        }),
{
}

/// Law: the excerpt of a search is the excerpt around the line it points at.
pub proof fn law_matching_excerpt_context(content: Seq<char>, query: Seq<char>)
    ensures
        matching_excerpt(content, query) matches Some((e, n)) ==> 1 <= n <= lines(content).len()
            && e == line_context_spec(content, n) && line_matches(lines(content)[n - 1], query),
{
    let ls = lines(content);
    if exists|i: int| 0 <= i < ls.len() && line_matches(ls[i], query) {
        let w = choose|i: int| 0 <= i < ls.len() && line_matches(ls[i], query);
        lemma_first_match_from(ls, query, 0, w);
        let f = first_match_from(ls, query, 0, w);
        let i = choose|i: int| is_first_matching_line(ls, query, i);
        assert(i == f) by {
            if i < f {
                assert(!line_matches(ls[i], query));
            } else if i > f {
                assert(!line_matches(ls[f], query));
            }
        }
    }
}

proof fn lemma_first_match_from(ls: Seq<Seq<char>>, query: Seq<char>, j: int, w: int)
    requires
        0 <= j <= w < ls.len(),
        line_matches(ls[w], query),
        forall|k: int| 0 <= k < j ==> !line_matches(#[trigger] ls[k], query),
    ensures
        is_first_matching_line(ls, query, first_match_from(ls, query, j, w)),
    decreases w - j,
{
    if j < w && !line_matches(ls[j], query) {
        assert forall|k: int| 0 <= k < j + 1 implies !line_matches(#[trigger] ls[k], query) by {
            if k < j {
            }
        }
        lemma_first_match_from(ls, query, j + 1, w);
    }
}

/// The first line at or after `j` that matches, below a known match `w`.
pub open spec fn first_match_from(ls: Seq<Seq<char>>, query: Seq<char>, j: int, w: int) -> int
    decreases w - j,
{
    if j >= w || line_matches(ls[j], query) {
        j
    } else {
        first_match_from(ls, query, j + 1, w)
    }
}

} // verus!
