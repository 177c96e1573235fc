//! Format checks of blog posts, their automatic fixes, and new posts.

use vstd::prelude::*;
use crate::text::{
    chars_of, contains, contains_chars, find, find_chars, is_blank, is_first_occurrence,
    is_white_space, is_ws, lemma_find_is_first,
    lemma_find_first, lowercase, lowercase_chars, ascii_lower, occurs_at, push_str, slice_of, starts_with,
    join, starts_with_chars, string_of, string_views, trim, trim_end, trim_start,
};

verus! {

/// A problem found in a post.
pub enum PostError {
    MissingFrontmatter,
    InvalidTitleFormat,
    MissingDate,
    MissingDescription,
    InvalidTagsFormat,
    EmptyContent,
    InvalidDateFormat,
}

/// The message that describes a problem.
pub open spec fn message_text(e: PostError) -> Seq<char> {
    match e {
        PostError::MissingFrontmatter => "缺少前置元数据"@,
        PostError::InvalidTitleFormat => "标题格式无效"@,
        PostError::MissingDate => "缺少日期"@,
        PostError::MissingDescription => "缺少描述"@,
        PostError::InvalidTagsFormat => "标签格式无效"@,
        PostError::EmptyContent => "文章内容为空"@,
        PostError::InvalidDateFormat => "日期格式无效"@,
    }
}

/// How to fix a problem.
pub open spec fn suggestion_text(e: PostError) -> Seq<char> {
    match e {
        PostError::MissingFrontmatter => "添加前置元数据:\n+++\ntitle = \"标题\"\ndate = YYYY-MM-DD\ndescription = \"描述\"\n+++"@,
        PostError::InvalidTitleFormat => "修改为: title = \"文章标题\""@,
        PostError::MissingDate => "添加: date = YYYY-MM-DD"@,
        PostError::MissingDescription => "添加: description = \"文章描述\""@,
        PostError::InvalidTagsFormat => "修改为: [taxonomies]\ntags = [\"标签1\", \"标签2\"]"@,
        PostError::EmptyContent => "在 +++ 后添加文章内容"@,
        PostError::InvalidDateFormat => "使用正确的日期格式: YYYY-MM-DD"@,
    }
}

/// Problems that `fix_post_content` repairs.
pub open spec fn auto_fixable(e: PostError) -> bool {
    e is MissingDate || e is MissingDescription || e is InvalidDateFormat || e is EmptyContent
}

impl PostError {
    /// The message that describes the problem.
    pub fn message(&self) -> (r: &'static str)
        ensures
            r@ == message_text(*self),
    {
        match self {
            PostError::MissingFrontmatter => "缺少前置元数据",
            PostError::InvalidTitleFormat => "标题格式无效",
            PostError::MissingDate => "缺少日期",
            PostError::MissingDescription => "缺少描述",
            PostError::InvalidTagsFormat => "标签格式无效",
            PostError::EmptyContent => "文章内容为空",
            PostError::InvalidDateFormat => "日期格式无效",
        }
    }

    /// How to fix the problem.
    pub fn fix_suggestion(&self) -> (r: &'static str)
        ensures
            r@ == suggestion_text(*self),
    {
        match self {
            PostError::MissingFrontmatter => "添加前置元数据:\n+++\ntitle = \"标题\"\ndate = YYYY-MM-DD\ndescription = \"描述\"\n+++",
            PostError::InvalidTitleFormat => "修改为: title = \"文章标题\"",
            PostError::MissingDate => "添加: date = YYYY-MM-DD",
            PostError::MissingDescription => "添加: description = \"文章描述\"",
            PostError::InvalidTagsFormat => "修改为: [taxonomies]\ntags = [\"标签1\", \"标签2\"]",
            PostError::EmptyContent => "在 +++ 后添加文章内容",
            PostError::InvalidDateFormat => "使用正确的日期格式: YYYY-MM-DD",
        }
    }

    /// Whether the fix command repairs the problem.
    pub fn can_auto_fix(&self) -> (r: bool)
        ensures
            r == auto_fixable(*self),
    {
        match self {
            PostError::MissingDate => true,
            PostError::MissingDescription => true,
            PostError::InvalidDateFormat => true,
            PostError::EmptyContent => true,
            _ => false,
        }
    }
}

// ---------------------------------------------------------------------------
// Checks
// ---------------------------------------------------------------------------

/// The front matter fence "+++".
pub open spec fn fence() -> Seq<char> {
    seq!['+', '+', '+']
}

/// A front matter fence followed by an empty line, where the body starts.
pub open spec fn body_start() -> Seq<char> {
    seq!['+', '+', '+', '\n', '\n']
}

/// The post has a front matter: it starts with "+++".
pub open spec fn has_frontmatter(c: Seq<char>) -> bool {
    starts_with(c, fence())
}

pub open spec fn has_title(c: Seq<char>) -> bool {
    contains(c, "title = \""@)
}

pub open spec fn has_date(c: Seq<char>) -> bool {
    contains(c, "date = "@)
}

/// `s` up to its first line break.
pub open spec fn first_line(s: Seq<char>) -> Seq<char> {
    match find(s, seq!['\n']) {
        Some(k) => s.take(k),
        None => s,
    }
}

/// The key of the date line, with the line break before it: a line that
/// starts with `date = ` is an occurrence of it in "\n" followed by the text.
pub open spec fn date_key() -> Seq<char> {
    "\ndate = "@
}

/// The text with a line break in front, so every line starts after one.
pub open spec fn with_newline(c: Seq<char>) -> Seq<char> {
    seq!['\n'] + c
}

/// The post has a line that starts with `date = `: the front matter's date
/// key.
pub open spec fn has_date_line(c: Seq<char>) -> bool {
    contains(with_newline(c), date_key())
}

/// Where the value of the first line that starts with `date = ` begins.
pub open spec fn date_value_start(c: Seq<char>) -> int {
    match find(with_newline(c), date_key()) {
        Some(p) => p + 7,
        None => 0,
    }
}

/// The value of the date line, to the end of that line.
pub open spec fn date_value(c: Seq<char>) -> Seq<char> {
    first_line(c.skip(date_value_start(c)))
}

pub open spec fn is_digit(ch: char) -> bool {
    '0' <= ch && ch <= '9'
}

/// `v` has the form YYYY-MM-DD.
pub open spec fn is_date_text(v: Seq<char>) -> bool {
    &&& v.len() == 10
    &&& forall|j: int|
        0 <= j < 10 ==> if j == 4 || j == 7 {
            #[trigger] v[j] == '-'
        } else {
            is_digit(v[j])
        }
}

/// A date value: YYYY-MM-DD, bare or between a pair of double or single
/// quotes.
pub open spec fn is_date_value(v: Seq<char>) -> bool {
    ||| is_date_text(v)
    ||| (v.len() == 12 && (v[0] == '"' || v[0] == '\'') && v[11] == v[0] && is_date_text(
        v.subrange(1, 11),
    ))
}

/// Where the post has a date line, its value (without trailing white
/// space) is a date value.
pub open spec fn date_line_ok(c: Seq<char>) -> bool {
    has_date_line(c) ==> is_date_value(trim_end(date_value(c)))
}

pub open spec fn has_description(c: Seq<char>) -> bool {
    contains(c, "description = \""@)
}

/// A `[taxonomies]` table has a `tags = [` list.
pub open spec fn tags_well_formed(c: Seq<char>) -> bool {
    contains(c, "[taxonomies]"@) ==> contains(c, "tags = ["@)
}

/// The text after the first "+++\n\n" is not blank (or there is none).
pub open spec fn has_body(c: Seq<char>) -> bool {
    match find(c, body_start()) {
        Some(i) => trim(c.skip(i + 5)).len() > 0,
        None => true,
    }
}

fn literal(s: &str) -> (r: Vec<char>)
    ensures
        r@ == s@,
{
    chars_of(s)
}

/// The post starts with a front matter fence.
pub fn check_frontmatter(content: &str) -> (r: Result<(), PostError>)
    ensures
        r is Ok <==> has_frontmatter(content@),
        r matches Err(e) ==> e is MissingFrontmatter,
{
    let c = chars_of(content);
    let f = literal("+++");
    proof {
        reveal_strlit("+++");
        assert(f@ == fence());
    }
    if !starts_with_chars(&c, &f) {
        return Err(PostError::MissingFrontmatter);
    }
    Ok(())
}

/// The post has a `title = "` line.
pub fn check_title_format(content: &str) -> (r: Result<(), PostError>)
    ensures
        r is Ok <==> has_title(content@),
        r matches Err(e) ==> e is InvalidTitleFormat,
{
    let c = chars_of(content);
    if !contains_chars(&c, &literal("title = \"")) {
        return Err(PostError::InvalidTitleFormat);
    }
    Ok(())
}

/// Bounds `(s, e)` of the value of the date line: from after `date = ` to
/// the end of the line.
fn date_value_span(c: &Vec<char>) -> (r: Option<(usize, usize)>)
    ensures
        match r {
            Some((s, e)) => has_date_line(c@) && s == date_value_start(c@) && s <= e <= c@.len()
                && c@.subrange(s as int, e as int) == date_value(c@),
            None => !has_date_line(c@),
        },
{
    let key = literal("\ndate = ");
    proof {
        reveal_strlit("\ndate = ");
    }
    let mut nc: Vec<char> = vec!['\n'];
    append_chars(&mut nc, c);
    assert(nc@ == with_newline(c@));
    match find_chars(&nc, &key) {
        None => None,
        Some(i) => {
            assert(key@.len() == 8);
            assert(occurs_at(nc@, key@, i as int));
            assert(i + 7 <= c.len());
            let s = i + 7;
            let rest = slice_of(c, s, c.len());
            assert(rest@ == c@.skip(s as int));
            let nl: Vec<char> = vec!['\n'];
            assert(nl@ == seq!['\n']);
            match find_chars(&rest, &nl) {
                Some(k) => {
                    assert(occurs_at(rest@, nl@, k as int));
                    assert(c@.subrange(s as int, (s + k) as int) == rest@.take(k as int));
                    Some((s, s + k))
                },
                None => {
                    assert(c@.subrange(s as int, c.len() as int) == rest@);
                    Some((s, c.len()))
                },
            }
        },
    }
}

/// End of `c[s..e]` without its trailing white space.
fn trim_end_span(c: &Vec<char>, s: usize, e: usize) -> (r: usize)
    requires
        s <= e <= c.len(),
    ensures
        s <= r <= e,
        c@.subrange(s as int, r as int) == trim_end(c@.subrange(s as int, e as int)),
{
    let mut b = e;
    while b > s && is_white_space(c[b - 1])
        invariant
            s <= b <= e <= c.len(),
            trim_end(c@.subrange(s as int, b as int)) == trim_end(c@.subrange(s as int, e as int)),
        decreases b - s,
    {
        assert(c@.subrange(s as int, b as int).drop_last() == c@.subrange(s as int, b - 1));
        b = b - 1;
    }
    if b > s {
        assert(c@.subrange(s as int, b as int).last() == c@[b - 1]);
    }
    b
}

/// Whether `c[s..e]` is a date value: YYYY-MM-DD, bare or quoted.
fn is_date_value_span(c: &Vec<char>, s: usize, e: usize) -> (r: bool)
    requires
        s <= e <= c.len(),
    ensures
        r == is_date_value(c@.subrange(s as int, e as int)),
{
    let ghost v = c@.subrange(s as int, e as int);
    if is_date_span(c, s, e) {
        return true;
    }
    if e - s != 12 {
        return false;
    }
    let q = c[s];
    assert(v[0] == q && v[11] == c@[e - 1]);
    if (q == '"' || q == '\'') && c[e - 1] == q {
        let r = is_date_span(c, s + 1, e - 1);
        assert(v.subrange(1, 11) == c@.subrange(s + 1, e - 1));
        r
    } else {
        false
    }
}

/// Whether `c[s..e]` has the form YYYY-MM-DD.
fn is_date_span(c: &Vec<char>, s: usize, e: usize) -> (r: bool)
    requires
        s <= e <= c.len(),
    ensures
        r == is_date_text(c@.subrange(s as int, e as int)),
{
    let ghost v = c@.subrange(s as int, e as int);
    if e - s != 10 {
        return false;
    }
    let mut k: usize = 0;
    while k < 10
        invariant
            e - s == 10,
            s <= e <= c.len(),
            v == c@.subrange(s as int, e as int),
            0 <= k <= 10,
            forall|j: int|
                0 <= j < k ==> if j == 4 || j == 7 {
                    #[trigger] v[j] == '-'
                } else {
                    is_digit(v[j])
                },
        decreases 10 - k,
    {
        let ch = c[s + k];
        assert(v[k as int] == ch);
        let ok = if k == 4 || k == 7 {
            ch == '-'
        } else {
            '0' <= ch && ch <= '9'
        };
        if !ok {
            return false;
        }
        k = k + 1;
    }
    true
}

/// The post has a `date = `, and its date line, if any, holds YYYY-MM-DD,
/// bare or quoted.
pub fn check_date_format(content: &str) -> (r: Result<(), PostError>)
    ensures
        r is Ok <==> has_date(content@) && date_line_ok(content@),
        r matches Err(e) ==> (if has_date(content@) {
            e is InvalidDateFormat
        } else {
            e is MissingDate
        }),
{
    let c = chars_of(content);
    if !contains_chars(&c, &literal("date = ")) {
        return Err(PostError::MissingDate);
    }
    match date_value_span(&c) {
        None => Ok(()),
        Some((s, e)) => {
            let t = trim_end_span(&c, s, e);
            if is_date_value_span(&c, s, t) {
                Ok(())
            } else {
                Err(PostError::InvalidDateFormat)
            }
        },
    }
}

/// The post has a `description = "` line.
pub fn check_description(content: &str) -> (r: Result<(), PostError>)
    ensures
        r is Ok <==> has_description(content@),
        r matches Err(e) ==> e is MissingDescription,
{
    let c = chars_of(content);
    if !contains_chars(&c, &literal("description = \"")) {
        return Err(PostError::MissingDescription);
    }
    Ok(())
}

/// A `[taxonomies]` table comes with a `tags = [` list.
pub fn check_tags_format(content: &str) -> (r: Result<(), PostError>)
    ensures
        r is Ok <==> tags_well_formed(content@),
        r matches Err(e) ==> e is InvalidTagsFormat,
{
    let c = chars_of(content);
    if contains_chars(&c, &literal("[taxonomies]")) && !contains_chars(&c, &literal("tags = [")) {
        return Err(PostError::InvalidTagsFormat);
    }
    Ok(())
}

/// The body after the first "+++\n\n" is not blank.
pub fn check_content_length(content: &str) -> (r: Result<(), PostError>)
    ensures
        r is Ok <==> has_body(content@),
        r matches Err(e) ==> e is EmptyContent,
{
    let c = chars_of(content);
    let pat = literal("+++\n\n");
    proof {
        reveal_strlit("+++\n\n");
        assert(pat@ == body_start());
    }
    match find_chars(&c, &pat) {
        Some(start) => {
            assert(pat@.len() == 5);
            assert(start + 5 <= c.len());
            let rest = slice_of(&c, start + 5, c.len());
            assert(rest@ == c@.skip(start + 5));
            if is_blank(&rest) {
                return Err(PostError::EmptyContent);
            }
        },
        None => {},
    }
    Ok(())
}

/// The problems of a post, in the order they are checked: front matter
/// and title always; date, description, tags and body unless the post is
/// a section index (`_index.md`).
pub open spec fn post_issues_spec(c: Seq<char>, is_index: bool) -> Seq<PostError> {
    let base = (if has_frontmatter(c) {
        seq![]
    } else {
        seq![PostError::MissingFrontmatter]
    }) + (if has_title(c) {
        seq![]
    } else {
        seq![PostError::InvalidTitleFormat]
    });
    if is_index {
        base
    } else {
        base + (if !has_date(c) {
            seq![PostError::MissingDate]
        } else if !date_line_ok(c) {
            seq![PostError::InvalidDateFormat]
        } else {
            seq![]
        }) + (if has_description(c) {
            seq![]
        } else {
            seq![PostError::MissingDescription]
        }) + (if tags_well_formed(c) {
            seq![]
        } else {
            seq![PostError::InvalidTagsFormat]
        }) + (if has_body(c) {
            seq![]
        } else {
            seq![PostError::EmptyContent]
        })
    }
}

fn push_if_err(out: &mut Vec<PostError>, r: Result<(), PostError>)
    ensures
        final(out)@ == old(out)@ + match r {
            Ok(_) => Seq::<PostError>::empty(),
            Err(e) => seq![e],
        },
{
    match r {
        Ok(_) => {
            assert(out@ == out@ + Seq::<PostError>::empty());
        },
        Err(e) => {
            out.push(e);
        },
    }
}

/// The problems of a post whose text is `content`.
pub fn post_issues(content: &str, is_index: bool) -> (r: Vec<PostError>)
    ensures
        r@ == post_issues_spec(content@, is_index),
{
    let mut out: Vec<PostError> = Vec::new();
    push_if_err(&mut out, check_frontmatter(content));
    push_if_err(&mut out, check_title_format(content));
    if !is_index {
        push_if_err(&mut out, check_date_format(content));
        push_if_err(&mut out, check_description(content));
        push_if_err(&mut out, check_tags_format(content));
        push_if_err(&mut out, check_content_length(content));
    }
    assert(out@ =~= post_issues_spec(content@, is_index));
    out
}

// ---------------------------------------------------------------------------
// Fixes
// ---------------------------------------------------------------------------

/// `c` with `ins` inserted right after its first "+++" (the opening fence
/// of the front matter); unchanged when it has none.
pub open spec fn insert_after_fence(c: Seq<char>, ins: Seq<char>) -> Seq<char> {
    match find(c, fence()) {
        Some(p) => c.take(p + 3) + ins + c.skip(p + 3),
        None => c,
    }
}

/// The date line added to a front matter that has none.
pub open spec fn date_line(date: Seq<char>) -> Seq<char> {
    "\ndate = "@ + date
}

/// The description line added to a front matter that has none.
pub open spec fn description_line() -> Seq<char> {
    "\ndescription = \"待补充\""@
}

/// The text appended to a post whose body is blank.
pub open spec fn body_filler() -> Seq<char> {
    "\n\n这里是文章内容...\n"@
}

/// The date part of a fix: without any `date = `, a date line is added
/// after the opening fence; a date line whose value is neither a bare nor a
/// quoted YYYY-MM-DD gets `date` as its value.
pub open spec fn fix_date(c: Seq<char>, date: Seq<char>) -> Seq<char> {
    if !has_date(c) {
        insert_after_fence(c, date_line(date))
    } else if !date_line_ok(c) {
        c.take(date_value_start(c)) + date + c.skip(date_value_start(c) + date_value(c).len())
    } else {
        c
    }
}

/// The front matter part of a fix: the date fixed, then a description
/// line added after the opening fence when there is none.
pub open spec fn fixed_front(c: Seq<char>, date: Seq<char>) -> Seq<char> {
    let a = fix_date(c, date);
    if has_description(a) {
        a
    } else {
        insert_after_fence(a, description_line())
    }
}

/// The fixed post: date and description fixed inside the front matter,
/// a placeholder appended to a blank body.
pub open spec fn fixed_content(c: Seq<char>, date: Seq<char>) -> Seq<char> {
    if has_body(c) {
        fixed_front(c, date)
    } else {
        fixed_front(c, date) + body_filler()
    }
}

/// Appends `s` to `r`.
fn append_chars(r: &mut Vec<char>, s: &Vec<char>)
    ensures
        final(r)@ == old(r)@ + s@,
{
    let mut i: usize = 0;
    while i < s.len()
        invariant
            0 <= i <= s.len(),
            r@ == old(r)@ + s@.take(i as int),
        decreases s.len() - i,
    {
        r.push(s[i]);
        assert(s@.take(i + 1) == s@.take(i as int).push(s@[i as int]));
        i = i + 1;
    }
    assert(s@.take(s.len() as int) == s@);
}

/// `c` with `ins` inserted right after its first "+++".
fn insert_after_fence_exec(c: &Vec<char>, ins: &Vec<char>) -> (r: Vec<char>)
    ensures
        r@ == insert_after_fence(c@, ins@),
{
    let f = literal("+++");
    proof {
        reveal_strlit("+++");
        assert(f@ == fence());
    }
    match find_chars(c, &f) {
        None => slice_of(c, 0, c.len()),
        Some(p) => {
            assert(occurs_at(c@, f@, p as int));
            assert(p + 3 <= c.len());
            let mut r = slice_of(c, 0, p + 3);
            append_chars(&mut r, ins);
            let tail = slice_of(c, p + 3, c.len());
            append_chars(&mut r, &tail);
            assert(c@.subrange(0, p + 3) == c@.take(p + 3));
            assert(tail@ == c@.skip(p + 3));
            r
        },
    }
}

/// The date part of a fix, with `d` as the date to write.
fn fix_date_exec(c: &Vec<char>, d: &Vec<char>) -> (r: Vec<char>)
    ensures
        r@ == fix_date(c@, d@),
{
    if !contains_chars(c, &literal("date = ")) {
        let mut ins = literal("\ndate = ");
        append_chars(&mut ins, d);
        return insert_after_fence_exec(c, &ins);
    }
    match date_value_span(c) {
        None => slice_of(c, 0, c.len()),
        Some((s, e)) => {
            let t = trim_end_span(c, s, e);
            if is_date_value_span(c, s, t) {
                slice_of(c, 0, c.len())
            } else {
                let mut r = slice_of(c, 0, s);
                append_chars(&mut r, d);
                let tail = slice_of(c, e, c.len());
                append_chars(&mut r, &tail);
                assert(c@.subrange(0, s as int) == c@.take(s as int));
                assert(tail@ == c@.skip(s + date_value(c@).len()));
                r
            }
        },
    }
}

/// The fixed text of a post, with the date to write (the caller's today)
/// where the date is missing or its value is not a date.
pub fn fix_post_content_on(content: &str, date: &str) -> (r: String)
    ensures
        r@ == fixed_content(content@, date@),
{
    let c = chars_of(content);
    let d = chars_of(date);
    let a = fix_date_exec(&c, &d);
    let b = if contains_chars(&a, &literal("description = \"")) {
        a
    } else {
        insert_after_fence_exec(&a, &literal("\ndescription = \"待补充\""))
    };
    let mut out = string_of(&b);
    if check_content_length(content).is_err() {
        push_str(&mut out, "\n\n这里是文章内容...\n");
    }
    out
}

// ---------------------------------------------------------------------------
// Laws of the fixes
// ---------------------------------------------------------------------------

/// A post that passes the date, description and body checks is left as is.
pub proof fn law_fix_keeps_sound_post(c: Seq<char>, date: Seq<char>)
    requires
        has_date(c),
        date_line_ok(c),
        has_description(c),
        has_body(c),
    ensures
        fixed_content(c, date) == c,
{
}

/// No occurrence of `w` in `x + y` starts inside `x` when each position of
/// `x` differs from `w` in one of its first three characters.
proof fn lemma_no_start_in(x: Seq<char>, y: Seq<char>, w: Seq<char>)
    requires
        w.len() >= 1,
        forall|j: int|
            0 <= j < x.len() ==> #[trigger] x[j] != w[0] || (w.len() >= 2 && j + 1 < x.len() && x[j
                + 1] != w[1]) || (w.len() >= 3 && j + 2 < x.len() && x[j + 2] != w[2]),
    ensures
        forall|j: int| 0 <= j < x.len() ==> !occurs_at(x + y, w, j),
{
    let t = x + y;
    assert forall|j: int| 0 <= j < x.len() implies !occurs_at(t, w, j) by {
        if occurs_at(t, w, j) {
            assert(t.subrange(j, j + w.len())[0] == t[j]);
            assert(t[j] == x[j]);
            if w.len() >= 2 && j + 1 < x.len() {
                assert(t.subrange(j, j + w.len())[1] == t[j + 1]);
                assert(t[j + 1] == x[j + 1]);
            }
            if w.len() >= 3 && j + 2 < x.len() {
                assert(t.subrange(j, j + w.len())[2] == t[j + 2]);
                assert(t[j + 2] == x[j + 2]);
            }
        }
    }
}

/// A date line is a `date = `.
proof fn lemma_line_gives_date(c: Seq<char>)
    requires
        has_date_line(c),
    ensures
        has_date(c),
{
    reveal_strlit("\ndate = ");
    reveal_strlit("date = ");
    let k = date_key();
    assert(k =~= seq!['\n', 'd', 'a', 't', 'e', ' ', '=', ' ']);
    assert("date = "@ =~= seq!['d', 'a', 't', 'e', ' ', '=', ' ']);
    let p = choose|p: int| occurs_at(with_newline(c), k, p);
    assert(c.subrange(p, p + 7) =~= with_newline(c).subrange(p + 1, p + 8));
    assert(with_newline(c).subrange(p + 1, p + 8) =~= k.subrange(1, 8));
    assert(c.subrange(p, p + 7) =~= "date = "@);
    assert(occurs_at(c, "date = "@, p));
}

/// In a post that opens with "+++\n", the date line comes after that line.
proof fn lemma_date_line_after_fence(a: Seq<char>)
    requires
        starts_with(a, "+++\n"@),
        has_date_line(a),
    ensures
        find(with_newline(a), date_key()) matches Some(p) && p >= 4 && is_first_occurrence(
            with_newline(a),
            date_key(),
            p,
        ),
{
    reveal_strlit("+++\n");
    reveal_strlit("\ndate = ");
    let n = with_newline(a);
    let k = date_key();
    lemma_find_first(n, k);
    let p = find(n, k).unwrap();
    assert(a.take(4)[0] == '+' && a.take(4)[1] == '+' && a.take(4)[2] == '+');
    assert(p >= 4) by {
        if p < 4 {
            lemma_window_char(n, k, p, 0);
            if p == 0 {
                lemma_window_char(n, k, 0, 1);
            }
        }
    }
}

/// The first occurrence of `w` in `x + y`, when none starts inside `x`.
proof fn lemma_find_past_prefix(x: Seq<char>, y: Seq<char>, w: Seq<char>, k: int)
    requires
        forall|j: int| 0 <= j < x.len() ==> !occurs_at(x + y, w, j),
        is_first_occurrence(y, w, k),
    ensures
        is_first_occurrence(x + y, w, x.len() + k),
        find(x + y, w) == Some(x.len() + k),
{
    let t = x + y;
    assert(t.subrange(x.len() + k, x.len() + k + w.len()) =~= y.subrange(k, k + w.len()));
    assert forall|j: int| 0 <= j < x.len() + k implies !occurs_at(t, w, j) by {
        if j >= x.len() && occurs_at(t, w, j) {
            assert(t.subrange(j, j + w.len()) =~= y.subrange(j - x.len(), j - x.len() + w.len()));
            assert(occurs_at(y, w, j - x.len()));
        }
    }
    lemma_find_is_first(t, w, x.len() + k);
}

/// A first occurrence stays first when the text up to its end is kept.
proof fn lemma_first_kept(s: Seq<char>, t: Seq<char>, w: Seq<char>, i: int)
    requires
        is_first_occurrence(s, w, i),
        i + w.len() <= t.len(),
        t.take(i + w.len()) == s.take(i + w.len()),
    ensures
        is_first_occurrence(t, w, i),
        find(t, w) == Some(i),
{
    assert(t.subrange(i, i + w.len()) =~= s.subrange(i, i + w.len())) by {
        assert forall|m: int| 0 <= m < w.len() implies #[trigger] t.subrange(i, i + w.len())[m]
            == s.subrange(i, i + w.len())[m] by {
            assert(t.take(i + w.len())[i + m] == s.take(i + w.len())[i + m]);
            assert(t.take(i + w.len())[i + m] == t[i + m]);
            assert(s.take(i + w.len())[i + m] == s[i + m]);
        }
    }
    assert forall|j: int| 0 <= j < i implies !occurs_at(t, w, j) by {
        if occurs_at(t, w, j) {
            assert(t.subrange(j, j + w.len()) =~= s.subrange(j, j + w.len())) by {
                assert forall|m: int| 0 <= m < w.len() implies #[trigger] t.subrange(j, j + w.len())[m]
                    == s.subrange(j, j + w.len())[m] by {
                    assert(t.take(i + w.len())[j + m] == s.take(i + w.len())[j + m]);
                    assert(t.take(i + w.len())[j + m] == t[j + m]);
                    assert(s.take(i + w.len())[j + m] == s[j + m]);
                }
            }
            assert(occurs_at(s, w, j));
        }
    }
    lemma_find_is_first(t, w, i);
}

/// A date of the form YYYY-MM-DD has no line break and no trailing white
/// space.
proof fn lemma_date_text_plain(d: Seq<char>)
    requires
        is_date_text(d),
    ensures
        forall|j: int| 0 <= j < d.len() ==> #[trigger] d[j] != '\n' && d[j] != '+',
        trim_end(d) == d,
{
    assert forall|j: int| 0 <= j < d.len() implies #[trigger] d[j] != '\n' && d[j] != '+' by {
        if j == 4 || j == 7 {
            assert(d[j] == '-');
        } else {
            assert(is_digit(d[j]));
        }
    }
    assert(is_digit(d[9]));
    assert(d.last() == d[9]);
}

/// The first line of `s + f` is that of `s` when `f` starts a new line.
proof fn lemma_first_line_append(s: Seq<char>, f: Seq<char>)
    requires
        f.len() == 0 || f[0] == '\n',
    ensures
        first_line(s + f) == first_line(s),
{
    let nl = seq!['\n'];
    if contains(s, nl) {
        lemma_find_first(s, nl);
        let k = find(s, nl).unwrap();
        assert((s + f).take(k + 1) =~= s.take(k + 1));
        lemma_first_kept(s, s + f, nl, k);
        assert((s + f).take(k) =~= s.take(k));
    } else {
        assert forall|j: int| 0 <= j < s.len() implies #[trigger] s[j] != nl[0] by {
            if s[j] == '\n' {
                assert(s.subrange(j, j + 1) =~= nl);
                assert(occurs_at(s, nl, j));
            }
        }
        if f.len() == 0 {
            assert(s + f =~= s);
        } else {
            assert(f.subrange(0, 1) =~= nl);
            assert(is_first_occurrence(f, nl, 0));
            lemma_no_start_in(s, f, nl);
            lemma_find_past_prefix(s, f, nl, 0);
            assert((s + f).take(s.len() as int) =~= s);
        }
    }
}

/// The date check's result stays when a text that starts a new line and
/// holds no date line is appended.
proof fn lemma_valid_date_append(b: Seq<char>, f: Seq<char>)
    requires
        has_date(b),
        date_line_ok(b),
        f.len() == 0 || f[0] == '\n',
        !contains(f, date_key()),
    ensures
        has_date(b + f),
        date_line_ok(b + f),
{
    reveal_strlit("\ndate = ");
    reveal_strlit("date = ");
    let k = date_key();
    let i = choose|i: int| occurs_at(b, "date = "@, i);
    assert((b + f).subrange(i, i + 7) =~= b.subrange(i, i + 7));
    assert(occurs_at(b + f, "date = "@, i));
    let n = with_newline(b);
    assert(with_newline(b + f) =~= n + f);
    if has_date_line(b) {
        lemma_find_first(n, k);
        let p = find(n, k).unwrap();
        assert((n + f).take(p + 8) =~= n.take(p + 8));
        lemma_first_kept(n, n + f, k, p);
        assert((b + f).skip(p + 7) =~= b.skip(p + 7) + f);
        lemma_first_line_append(b.skip(p + 7), f);
    } else {
        assert forall|j: int| !occurs_at(n + f, k, j) by {
            if occurs_at(n + f, k, j) {
                if j + 8 <= n.len() {
                    assert((n + f).subrange(j, j + 8) =~= n.subrange(j, j + 8));
                    assert(occurs_at(n, k, j));
                } else if j < n.len() {
                    lemma_window_char(n + f, k, j, n.len() - j);
                    assert((n + f)[n.len() as int] == f[0]);
                } else {
                    assert((n + f).subrange(j, j + 8) =~= f.subrange(j - n.len(), j - n.len() + 8));
                    assert(occurs_at(f, k, j - n.len()));
                }
            }
        }
    }
}

/// Text `x` put in place of the opening "+++" of a post that opens with
/// "+++\n" keeps its `date = `, its date line and that line's value, when
/// no date line starts inside "\n" followed by `x`.
proof fn lemma_date_after_new_start(a: Seq<char>, x: Seq<char>)
    requires
        starts_with(a, "+++\n"@),
        forall|j: int|
            0 <= j < x.len() + 1 ==> #[trigger] (seq!['\n'] + x)[j] != '\n' || (j + 1 < x.len() + 1
                && (seq!['\n'] + x)[j + 1] != 'd') || (j + 2 < x.len() + 1 && (seq!['\n'] + x)[j
                + 2] != 'a'),
    ensures
        has_date(a) ==> has_date(x + a.skip(3)),
        has_date_line(x + a.skip(3)) == has_date_line(a),
        has_date_line(a) ==> date_value(x + a.skip(3)) == date_value(a),
{
    reveal_strlit("+++\n");
    reveal_strlit("\ndate = ");
    reveal_strlit("date = ");
    let k = date_key();
    let t = x + a.skip(3);
    let y = a.skip(3);
    let xn = seq!['\n'] + x;
    let n = with_newline(a);
    assert(with_newline(t) =~= xn + y);
    assert(n.skip(4) =~= y);
    assert(a.take(4)[0] == '+' && a.take(4)[1] == '+' && a.take(4)[2] == '+' && a.take(4)[3]
        == '\n');
    if has_date(a) {
        let i = choose|i: int| occurs_at(a, "date = "@, i);
        assert(i >= 3) by {
            if i < 3 {
                lemma_window_char(a, "date = "@, i, 0);
            }
        }
        assert(t.subrange(x.len() + i - 3, x.len() + i + 4) =~= a.subrange(i, i + 7));
        assert(occurs_at(t, "date = "@, x.len() + i - 3));
    }
    lemma_no_start_in(xn, y, k);
    if has_date_line(a) {
        lemma_date_line_after_fence(a);
        let p = find(n, k).unwrap();
        lemma_first_in_tail(n, k, p, 4);
        lemma_find_past_prefix(xn, y, k, p - 4);
        assert(t.skip(x.len() + p + 4) =~= a.skip(p + 7));
    } else {
        assert forall|j: int| !occurs_at(xn + y, k, j) by {
            if occurs_at(xn + y, k, j) && j >= xn.len() {
                assert((xn + y).subrange(j, j + 8) =~= y.subrange(j - xn.len(), j - xn.len() + 8));
                assert(occurs_at(y, k, j - xn.len()));
                lemma_occurrence_from_tail(n, k, j - xn.len(), 4);
            }
        }
    }
}

/// The characters of an occurrence.
proof fn lemma_window_char(t: Seq<char>, w: Seq<char>, j: int, m: int)
    requires
        occurs_at(t, w, j),
        0 <= m < w.len(),
    ensures
        t[j + m] == w[m],
{
    assert(t.subrange(j, j + w.len())[m] == t[j + m]);
}

/// A first occurrence at or after `n` is the first one in `a.skip(n)`.
proof fn lemma_first_in_tail(a: Seq<char>, w: Seq<char>, i: int, n: int)
    requires
        is_first_occurrence(a, w, i),
        0 <= n <= i,
    ensures
        is_first_occurrence(a.skip(n), w, i - n),
{
    let y = a.skip(n);
    assert(y.subrange(i - n, i - n + w.len()) =~= a.subrange(i, i + w.len()));
    assert forall|j: int| 0 <= j < i - n implies !occurs_at(y, w, j) by {
        if occurs_at(y, w, j) {
            assert(y.subrange(j, j + w.len()) =~= a.subrange(j + n, j + n + w.len()));
            assert(occurs_at(a, w, j + n));
        }
    }
}

/// An occurrence in `a.skip(n)` is one in `a`.
proof fn lemma_occurrence_from_tail(a: Seq<char>, w: Seq<char>, j: int, n: int)
    requires
        occurs_at(a.skip(n), w, j),
        0 <= n <= a.len(),
    ensures
        occurs_at(a, w, j + n),
{
    assert(a.skip(n).subrange(j, j + w.len()) =~= a.subrange(j + n, j + n + w.len()));
}

/// The date value runs to the end of its line.
proof fn lemma_date_value_line(c: Seq<char>)
    requires
        has_date_line(c),
    ensures
        ({
            let st = date_value_start(c);
            let e = st + date_value(c).len();
            &&& 7 <= st <= e <= c.len()
            &&& c[st - 1] == ' '
            &&& e == c.len() || c[e] == '\n'
            &&& forall|j: int| st <= j < e ==> #[trigger] c[j] != '\n'
        }),
{
    reveal_strlit("\ndate = ");
    let n = with_newline(c);
    let k = date_key();
    lemma_find_first(n, k);
    let p = find(n, k).unwrap();
    lemma_window_char(n, k, p, 7);
    assert(n[p + 7] == c[p + 6]);
    let st = p + 7;
    let rest = c.skip(st);
    let nl = seq!['\n'];
    if contains(rest, nl) {
        lemma_find_first(rest, nl);
        let k = find(rest, nl).unwrap();
        lemma_window_char(rest, nl, k, 0);
        assert forall|j: int| st <= j < st + k implies #[trigger] c[j] != '\n' by {
            if c[j] == '\n' {
                assert(rest[j - st] == c[j]);
                assert(rest.subrange(j - st, j - st + 1) =~= nl);
                assert(occurs_at(rest, nl, j - st));
            }
        }
    } else {
        assert forall|j: int| st <= j < c.len() implies #[trigger] c[j] != '\n' by {
            if c[j] == '\n' {
                assert(rest[j - st] == c[j]);
                assert(rest.subrange(j - st, j - st + 1) =~= nl);
                assert(occurs_at(rest, nl, j - st));
            }
        }
    }
}

/// Inserting, after the opening "+++" of a post that opens with a "+++"
/// line followed by a non-empty line, a text that starts a new non-empty
/// line and has no '+' keeps the body check's result.
proof fn lemma_body_after_insert(t: Seq<char>, ins: Seq<char>)
    requires
        starts_with(t, "+++\n"@),
        !starts_with(t, body_start()),
        ins.len() >= 2,
        ins[0] == '\n',
        ins[1] != '\n',
        forall|j: int| 0 <= j < ins.len() ==> #[trigger] ins[j] != '+',
    ensures
        has_body(t.take(3) + ins + t.skip(3)) == has_body(t),
{
    reveal_strlit("+++\n");
    let bs = body_start();
    let x = t.take(3) + ins;
    let y = t.skip(3);
    let u = x + y;
    assert(u =~= t.take(3) + ins + t.skip(3));
    assert(t.take(4)[3] == '\n');
    assert(t[3] == '\n');
    assert forall|j: int| 0 <= j < x.len() implies !occurs_at(u, bs, j) by {
        if occurs_at(u, bs, j) {
            if j < 3 {
                lemma_window_char(u, bs, j, 3 - j);
                assert(u[3] == ins[0]);
                if j == 0 {
                    lemma_window_char(u, bs, 0, 4);
                    assert(u[4] == ins[1]);
                }
            } else {
                lemma_window_char(u, bs, j, 0);
                assert(u[j] == ins[j - 3]);
            }
        }
    }
    if contains(t, bs) {
        lemma_find_first(t, bs);
        let q = find(t, bs).unwrap();
        assert(q >= 4) by {
            if q == 0 {
                assert(t.subrange(0, 5) =~= t.take(5));
            } else if q < 4 {
                lemma_window_char(t, bs, q, 3 - q);
            }
        }
        lemma_first_in_tail(t, bs, q, 3);
        lemma_find_past_prefix(x, y, bs, q - 3);
        assert(u.skip(x.len() + q - 3 + 5) =~= t.skip(q + 5));
    } else {
        assert forall|j: int| !occurs_at(u, bs, j) by {
            if occurs_at(u, bs, j) && j >= x.len() {
                assert(u.subrange(j, j + 5) =~= y.subrange(j - x.len(), j - x.len() + 5));
                assert(occurs_at(y, bs, j - x.len()));
                lemma_occurrence_from_tail(t, bs, j - x.len(), 3);
            }
        }
    }
}

/// Replacing a date value that does not end with '+', up to the end of its
/// line, by a date of the form YYYY-MM-DD keeps a body that is there.
proof fn lemma_body_after_date_replace(c: Seq<char>, st: int, e: int, d: Seq<char>)
    requires
        1 <= st <= e <= c.len(),
        c[st - 1] == ' ',
        e == c.len() || c[e] == '\n',
        forall|j: int| st <= j < e ==> #[trigger] c[j] != '\n',
        e == st || c[e - 1] != '+',
        is_date_text(d),
        has_body(c),
    ensures
        has_body(c.take(st) + d + c.skip(e)),
{
    let bs = body_start();
    lemma_date_text_plain(d);
    let x = c.take(st) + d;
    let y = c.skip(e);
    let u = x + y;
    // an occurrence starting before the end of the new date lies before it
    assert forall|j: int| 0 <= j < x.len() && #[trigger] occurs_at(u, bs, j) implies j + 5 <= st
        && occurs_at(c, bs, j) by {
        if j + 5 > st {
            let m = if j >= st {
                0
            } else {
                st - j
            };
            lemma_window_char(u, bs, j, m);
            assert(u[j + m] == d[j + m - st]);
        } else {
            assert(u.subrange(j, j + 5) =~= c.subrange(j, j + 5));
        }
    }
    if contains(c, bs) {
        lemma_find_first(c, bs);
        let q = find(c, bs).unwrap();
        if q + 5 <= st {
            assert(u.take(q + 5) =~= c.take(q + 5));
            lemma_first_kept(c, u, bs, q);
            let rest = u.skip(q + 5);
            assert(rest[st - (q + 5)] == d[0]);
            assert(is_digit(d[0]));
            lemma_nonblank(rest, st - (q + 5));
        } else if q >= e {
            assert forall|j: int| 0 <= j < x.len() implies !occurs_at(u, bs, j) by {
                if occurs_at(u, bs, j) {
                    assert(occurs_at(c, bs, j));
                }
            }
            lemma_first_in_tail(c, bs, q, e);
            lemma_find_past_prefix(x, y, bs, q - e);
            assert(u.skip(x.len() + q - e + 5) =~= c.skip(q + 5));
        } else {
            // the fence and the blank line would overlap the date line
            if q >= st {
                lemma_window_char(c, bs, q, 3);
                assert(q + 3 >= e);
                lemma_window_char(c, bs, q, e - 1 - q);
            } else {
                lemma_window_char(c, bs, q, st - 1 - q);
            }
        }
    } else {
        assert forall|j: int| !occurs_at(u, bs, j) by {
            if occurs_at(u, bs, j) && j >= x.len() {
                assert(u.subrange(j, j + 5) =~= y.subrange(j - x.len(), j - x.len() + 5));
                assert(occurs_at(y, bs, j - x.len()));
                lemma_occurrence_from_tail(c, bs, j - x.len(), e);
            }
        }
    }
}

/// A date of the form YYYY-MM-DD is a whole line.
proof fn lemma_date_first_line(d: Seq<char>)
    requires
        is_date_text(d),
    ensures
        first_line(d) == d,
{
    lemma_date_text_plain(d);
    assert(!contains(d, seq!['\n'])) by {
        assert forall|j: int| !occurs_at(d, seq!['\n'], j) by {
            if occurs_at(d, seq!['\n'], j) {
                lemma_window_char(d, seq!['\n'], j, 0);
            }
        }
    }
}

/// The placeholder body holds no date line.
proof fn lemma_filler_has_no_date_line()
    ensures
        !contains(body_filler(), date_key()),
        body_filler()[0] == '\n',
{
    reveal_strlit("\n\n这里是文章内容...\n");
    reveal_strlit("\ndate = ");
    let f = body_filler();
    let k = date_key();
    assert(f =~= seq!['\n', '\n', '这', '里', '是', '文', '章', '内', '容', '.', '.', '.', '\n']);
    assert(k =~= seq!['\n', 'd', 'a', 't', 'e', ' ', '=', ' ']);
    assert forall|j: int| !occurs_at(f, k, j) by {
        if occurs_at(f, k, j) {
            lemma_window_char(f, k, j, 0);
            lemma_window_char(f, k, j, 1);
        }
    }
}

/// Law (for posts that open with a "+++" line, fixed with a date of the
/// form YYYY-MM-DD): after fixing, the post passes the date check (it has a
/// `date = `, and its date line, if any, holds a date) and has a
/// description line.
#[verifier::spinoff_prover]
#[verifier::rlimit(60)]
pub proof fn law_fix_repairs_date_and_description(c: Seq<char>, date: Seq<char>)
    requires
        starts_with(c, "+++\n"@),
        is_date_text(date),
    ensures
        has_date(fixed_content(c, date)),
        date_line_ok(fixed_content(c, date)),
        has_description(fixed_content(c, date)),
{
    let k = date_key();
    let dk = "description = \""@;
    reveal_strlit("+++\n");
    reveal_strlit("description = \"");
    reveal_strlit("\ndate = ");
    reveal_strlit("\ndescription = \"待补充\"");
    lemma_date_text_plain(date);
    lemma_date_first_line(date);
    assert(k =~= seq!['\n', 'd', 'a', 't', 'e', ' ', '=', ' ']);
    assert(c.take(4)[0] == '+' && c.take(4)[1] == '+' && c.take(4)[2] == '+' && c.take(4)[3]
        == '\n');
    // the opening fence is the first "+++"
    assert(c.subrange(0, 3) =~= fence());
    assert(is_first_occurrence(c, fence(), 0));
    lemma_find_is_first(c, fence(), 0);
    let a = fix_date(c, date);
    // step 1: the date part
    if !has_date(c) {
        let xn = seq!['\n', '+', '+', '+'];
        let y = k + date + c.skip(3);
        assert(a =~= fence() + y);
        assert(with_newline(a) =~= xn + y);
        assert(y.subrange(0, 8) =~= k);
        assert(is_first_occurrence(y, k, 0));
        lemma_no_start_in(xn, y, k);
        lemma_find_past_prefix(xn, y, k, 0);
        assert(a.skip(11) =~= date + c.skip(3));
        assert(c.skip(3)[0] == c.take(4)[3]);
        lemma_first_line_append(date, c.skip(3));
        lemma_line_gives_date(a);
        assert(a.take(4) =~= c.take(4));
    } else if !date_line_ok(c) {
        lemma_date_line_after_fence(c);
        lemma_date_value_line(c);
        let n = with_newline(c);
        let p = find(n, k).unwrap();
        let st = p + 7;
        let e = st + date_value(c).len();
        assert(c.skip(e).len() == 0 || c.skip(e)[0] == c[e]);
        assert(a =~= c.take(st) + date + c.skip(e));
        assert(with_newline(a).take(p + 8) =~= n.take(p + 8));
        lemma_first_kept(n, with_newline(a), k, p);
        assert(a.skip(st) =~= date + c.skip(e));
        lemma_first_line_append(date, c.skip(e));
        lemma_line_gives_date(a);
        assert(a.take(4) =~= c.take(4));
    }
    assert(has_date(a));
    assert(date_line_ok(a));
    assert(starts_with(a, "+++\n"@));
    // step 2: the description part
    let b = fixed_front(c, date);
    if !has_description(a) {
        let x = fence() + description_line();
        assert(a.subrange(0, 3) =~= fence()) by {
            assert(a.take(4)[0] == '+' && a.take(4)[1] == '+' && a.take(4)[2] == '+');
        }
        assert(is_first_occurrence(a, fence(), 0));
        lemma_find_is_first(a, fence(), 0);
        assert(b =~= x + a.skip(3));
        assert(x =~= seq!['+', '+', '+', '\n', 'd', 'e', 's', 'c', 'r', 'i', 'p', 't', 'i', 'o', 'n', ' ', '=', ' ', '"', '待', '补', '充', '"']);
        assert(seq!['\n'] + x =~= seq!['\n', '+', '+', '+', '\n', 'd', 'e', 's', 'c', 'r', 'i', 'p', 't', 'i', 'o', 'n', ' ', '=', ' ', '"', '待', '补', '充', '"']);
        lemma_date_after_new_start(a, x);
        assert(x.subrange(4, 19) =~= dk);
        assert(b.subrange(4, 19) =~= x.subrange(4, 19));
        assert(occurs_at(b, dk, 4));
    }
    assert(has_date(b) && date_line_ok(b) && has_description(b));
    // step 3: a blank body gets the placeholder, which starts a new line
    let r = fixed_content(c, date);
    if !has_body(c) {
        lemma_filler_has_no_date_line();
        lemma_valid_date_append(b, body_filler());
        let j = choose|j: int| occurs_at(b, dk, j);
        assert(r.subrange(j, j + dk.len()) =~= b.subrange(j, j + dk.len()));
        assert(occurs_at(r, dk, j));
    }
}

proof fn lemma_trim_start_keeps_nonblank(s: Seq<char>, k: int)
    requires
        0 <= k < s.len(),
        !is_ws(s[k]),
    ensures
        trim_start(s).len() > 0,
        !is_ws(trim_start(s)[0]),
    decreases s.len(),
{
    if s.len() > 0 && is_ws(s[0]) {
        assert(k > 0);
        assert(s.drop_first()[k - 1] == s[k]);
        lemma_trim_start_keeps_nonblank(s.drop_first(), k - 1);
    }
}

proof fn lemma_trim_end_nonblank_first(s: Seq<char>)
    requires
        s.len() > 0,
        !is_ws(s[0]),
    ensures
        trim_end(s).len() > 0,
    decreases s.len(),
{
    if is_ws(s.last()) {
        assert(s.len() > 1) by {
            if s.len() == 1 {
                assert(s.last() == s[0]);
            }
        }
        assert(s.drop_last()[0] == s[0]);
        lemma_trim_end_nonblank_first(s.drop_last());
    }
}

/// A text with a character that is not white space is not blank.
proof fn lemma_nonblank(s: Seq<char>, k: int)
    requires
        0 <= k < s.len(),
        !is_ws(s[k]),
    ensures
        trim(s).len() > 0,
{
    lemma_trim_start_keeps_nonblank(s, k);
    lemma_trim_end_nonblank_first(trim_start(s));
}

/// Law: fixing a post whose body is blank gives it a body.
pub proof fn law_fix_fills_blank_body(c: Seq<char>, date: Seq<char>)
    requires
        !has_body(c),
    ensures
        has_body(fixed_content(c, date)),
{
    reveal_strlit("\n\n这里是文章内容...\n");
    let f = body_filler();
    assert(f[2] == '这');
    let b = fixed_front(c, date);
    let r = b + f;
    assert(fixed_content(c, date) == r);
    if contains(r, body_start()) {
        lemma_find_first(r, body_start());
        let i = find(r, body_start()).unwrap();
        assert(r.subrange(i, i + 5) == body_start());
        assert(r[i + 2] == '+') by {
            assert(r.subrange(i, i + 5)[2] == body_start()[2]);
        }
        assert(i + 2 < b.len()) by {
            if i + 2 >= b.len() {
                let j = i + 2 - b.len();
                assert(r[i + 2] == f[j]);
                assert(0 <= j < f.len());
                assert(f[j] != '+');
            }
        }
        let rest = r.skip(i + 5);
        let k = b.len() + 2 - (i + 5);
        assert(0 <= k < rest.len());
        assert(rest[k] == r[b.len() + 2int]);
        assert(r[b.len() + 2int] == f[2]);
        assert(!is_ws('这'));
        lemma_nonblank(rest, k);
    }
}

/// The date part of a fix keeps a body that is there, in a post that opens
/// with a "+++" line followed by a non-empty line.
#[verifier::spinoff_prover]
proof fn lemma_fix_date_keeps_body(c: Seq<char>, date: Seq<char>)
    requires
        starts_with(c, "+++\n"@),
        !starts_with(c, body_start()),
        is_date_text(date),
        has_date_line(c) ==> date_value(c).len() == 0 || date_value(c).last() != '+',
        has_body(c),
    ensures
        has_body(fix_date(c, date)),
        starts_with(fix_date(c, date), "+++\n"@),
        !starts_with(fix_date(c, date), body_start()),
{
    reveal_strlit("+++\n");
    reveal_strlit("\ndate = ");
    lemma_date_text_plain(date);
    assert(c.subrange(0, 3) =~= fence());
    assert(is_first_occurrence(c, fence(), 0));
    lemma_find_is_first(c, fence(), 0);
    let a = fix_date(c, date);
    assert(c.take(4)[3] == '\n');
    if !has_date(c) {
        let ins = date_line(date);
        assert forall|j: int| 0 <= j < ins.len() implies #[trigger] ins[j] != '+' by {
            if j >= 8 {
                assert(ins[j] == date[j - 8]);
            }
        }
        lemma_body_after_insert(c, ins);
        assert(a.take(4) =~= c.take(4));
        assert(a[4] == 'd');
        assert(!starts_with(a, body_start())) by {
            assert(a.take(5)[4] == a[4]);
        }
    } else if !date_line_ok(c) {
        lemma_date_value_line(c);
        let st = date_value_start(c);
        let e = st + date_value(c).len();
        assert(date_value(c) =~= c.subrange(st, e)) by {
            assert(date_value(c) =~= c.skip(st).take(date_value(c).len() as int)) by {
                let rest = c.skip(st);
                if contains(rest, seq!['\n']) {
                    lemma_find_first(rest, seq!['\n']);
                }
            }
        }
        if e > st {
            assert(date_value(c).last() == c[e - 1]);
        }
        assert(a =~= c.take(st) + date + c.skip(e));
        lemma_body_after_date_replace(c, st, e, date);
        assert(a.take(5) =~= c.take(5));
        assert(a.take(4) =~= c.take(4));
    }
}

/// Law (for posts that open with a "+++" line followed by a non-empty
/// line, and whose date line's value, if any, does not end with '+'): after
/// a fix with a date of the form YYYY-MM-DD, fixing again, with any date,
/// changes nothing.
#[verifier::spinoff_prover]
pub proof fn law_fix_twice_changes_nothing(c: Seq<char>, date: Seq<char>, later: Seq<char>)
    requires
        starts_with(c, "+++\n"@),
        !starts_with(c, body_start()),
        is_date_text(date),
        has_date_line(c) ==> date_value(c).len() == 0 || date_value(c).last() != '+',
    ensures
        fixed_content(fixed_content(c, date), later) == fixed_content(c, date),
{
    reveal_strlit("+++\n");
    reveal_strlit("\ndescription = \"待补充\"");
    law_fix_repairs_date_and_description(c, date);
    let r = fixed_content(c, date);
    if has_body(c) {
        lemma_fix_date_keeps_body(c, date);
        let a = fix_date(c, date);
        if !has_description(a) {
            assert(a.subrange(0, 3) =~= fence()) by {
                assert(a.take(4)[0] == '+' && a.take(4)[1] == '+' && a.take(4)[2] == '+');
            }
            assert(is_first_occurrence(a, fence(), 0));
            lemma_find_is_first(a, fence(), 0);
            let ins = description_line();
            assert(ins =~= seq!['\n', 'd', 'e', 's', 'c', 'r', 'i', 'p', 't', 'i', 'o', 'n', ' ', '=', ' ', '"', '待', '补', '充', '"']);
            lemma_body_after_insert(a, ins);
        }
        assert(has_body(r));
    } else {
        law_fix_fills_blank_body(c, date);
    }
    law_fix_keeps_sound_post(r, later);
}

// ---------------------------------------------------------------------------
// New posts
// ---------------------------------------------------------------------------

/// Whether `char::is_alphanumeric` holds of `c`.
pub uninterp spec fn alphanumeric(c: char) -> bool;

/// std's `char::is_alphanumeric`: Unicode `Alphabetic` or `Numeric`.  For
/// ASCII these are the letters and the digits.
#[verifier::external_body]
fn is_alphanumeric(c: char) -> (r: bool)
    ensures
        r == alphanumeric(c),
        (c as u32) < 128 ==> (r == (('a' <= c && c <= 'z') || ('A' <= c && c <= 'Z') || ('0' <= c
            && c <= '9'))),
{
    c.is_alphanumeric()
}

/// Characters kept in a file name.
pub open spec fn slug_char(c: char) -> bool {
    alphanumeric(c) || c == '-'
}

/// The file name made from a title: lowercased, spaces become '-', and
/// every character that is neither alphanumeric nor '-' is dropped.
pub open spec fn slug(title: Seq<char>) -> Seq<char> {
    lowercase(title).map_values(|c: char| if c == ' ' { '-' } else { c }).filter(|c: char| slug_char(c))
}

/// Every character of `s` is ASCII.
pub open spec fn is_ascii_text(s: Seq<char>) -> bool {
    forall|i: int| 0 <= i < s.len() ==> (#[trigger] s[i] as u32) < 128
}

/// An ASCII letter, an ASCII digit, or '-'.
pub open spec fn ascii_name_char(c: char) -> bool {
    ||| ('a' <= c && c <= 'z')
    ||| ('A' <= c && c <= 'Z')
    ||| ('0' <= c && c <= '9')
    ||| c == '-'
}

/// The file name (without extension) of a post titled `title`.  For an
/// ASCII title it is the title lowercased, with each space turned into
/// '-', keeping exactly the letters, the digits and '-'.
pub fn post_file_stem(title: &str) -> (r: String)
    ensures
        r@ == slug(title@),
        forall|i: int| 0 <= i < r@.len() ==> slug_char(#[trigger] r@[i]),
        is_ascii_text(title@) ==> r@ == title@.map_values(|c: char| ascii_lower(c)).map_values(
            |c: char| if c == ' ' { '-' } else { c },
        ).filter(|c: char| ascii_name_char(c)),
{
    let t = chars_of(title);
    let low = lowercase_chars(&t);
    let ghost ascii = is_ascii_text(title@);
    let ghost mapped = low@.map_values(|c: char| if c == ' ' { '-' } else { c });
    proof {
        if ascii {
            assert forall|i: int| 0 <= i < t@.len() implies (#[trigger] t@[i] as u32) < 128 by {
                assert(t@[i] == title@[i]);
            }
        }
    }
    let mut out: Vec<char> = Vec::new();
    let mut i: usize = 0;
    while i < low.len()
        invariant
            0 <= i <= low.len(),
            mapped == low@.map_values(|c: char| if c == ' ' { '-' } else { c }),
            out@ == mapped.take(i as int).filter(|c: char| slug_char(c)),
            ascii ==> low@ == title@.map_values(|c: char| ascii_lower(c)),
            ascii ==> is_ascii_text(title@),
            ascii ==> out@ == mapped.take(i as int).filter(|c: char| ascii_name_char(c)),
        decreases low.len() - i,
    {
        let c = if low[i] == ' ' {
            '-'
        } else {
            low[i]
        };
        assert(mapped[i as int] == c);
        assert(mapped.take(i + 1).drop_last() == mapped.take(i as int));
        assert(mapped.take(i + 1).last() == c);
        reveal_with_fuel(Seq::<_>::filter, 1);
        proof {
            if ascii {
                assert(low@[i as int] == ascii_lower(title@[i as int]));
                assert((title@[i as int] as u32) < 128);
                assert((c as u32) < 128);
            }
        }
        if c == '-' || is_alphanumeric(c) {
            out.push(c);
        }
        i = i + 1;
    }
    assert(mapped.take(low.len() as int) == mapped);
    proof {
        let p = |c: char| slug_char(c);
        assert forall|i: int| 0 <= i < out@.len() implies slug_char(#[trigger] out@[i]) by {
            mapped.lemma_filter_contains_rev(p, out@[i]);
        }
    }
    string_of(&out)
}

/// The Debug rendering of a list of strings.
pub uninterp spec fn debug_list(items: Seq<Seq<char>>) -> Seq<char>;

/// A character that `Debug` writes as it is inside a quoted string:
/// printable ASCII other than '"' and '\\'.
pub open spec fn debug_plain_char(c: char) -> bool {
    ' ' <= c && c <= '~' && c != '"' && c != '\\'
}

/// `s` between double quotes.
pub open spec fn quoted(s: Seq<char>) -> Seq<char> {
    seq!['"'] + s + seq!['"']
}

/// std's `Debug` formatting of a `Vec<String>` (`format!("{:?}", ..)`):
/// the strings, quoted and escaped, between brackets and separated by ", ".
/// The result is named; it depends on the strings alone.  It always opens
/// with '[' and closes with ']'; where every character is written as it is,
/// it is exactly the quoted strings joined by ", " between the brackets.
/// How other characters are escaped is not stated.
#[verifier::external_body]
pub(crate) fn debug_string_list(items: &Vec<String>) -> (r: String)
    ensures
        r@ == debug_list(string_views(items@)),
        r@.len() >= 2,
        r@[0] == '[',
        r@.last() == ']',
        (forall|i: int, j: int|
            0 <= i < items@.len() && 0 <= j < items@[i]@.len() ==> debug_plain_char(
                #[trigger] items@[i]@[j],
            )) ==> r@ == seq!['['] + join(
            string_views(items@).map_values(|t: Seq<char>| quoted(t)),
            ", "@,
        ) + seq![']'],
{
    format!("{:?}", items)
}

/// The text of a new post around its tags line `tl`.
pub open spec fn post_template(
    title: Seq<char>,
    date: Seq<char>,
    description: Seq<char>,
    tl: Seq<char>,
) -> Seq<char> {
    "+++\ntitle = \""@ + title + "\"\ndate = "@ + date + "\ndescription = \""@ + description + "\"\n"@
        + tl + "\n+++\n\n在这里写文章内容...\n"@
}

/// The text of a new post.
pub open spec fn new_post_text(
    title: Seq<char>,
    date: Seq<char>,
    description: Seq<char>,
    tags: Option<Seq<Seq<char>>>,
) -> Seq<char> {
    post_template(
        title,
        date,
        description,
        match tags {
            Some(t) => "\n[taxonomies]\ntags = "@ + debug_list(t),
            None => seq![],
        },
    )
}

/// No occurrence of `w` starts in `l + m + r` inside `l + m + r + rest`
/// when neither `l` nor `r` holds the first character of `w`, `w` does not
/// hold the first character of `r`, and `m` does not contain `w`.
proof fn lemma_no_start_in_wrapped(
    l: Seq<char>,
    m: Seq<char>,
    r: Seq<char>,
    rest: Seq<char>,
    w: Seq<char>,
)
    requires
        w.len() >= 1,
        r.len() >= 1,
        forall|j: int| 0 <= j < l.len() ==> #[trigger] l[j] != w[0],
        forall|j: int| 0 <= j < r.len() ==> #[trigger] r[j] != w[0],
        forall|k: int| 0 <= k < w.len() ==> #[trigger] w[k] != r[0],
        !contains(m, w),
    ensures
        forall|j: int| 0 <= j < l.len() + m.len() + r.len() ==> !occurs_at(l + m + r + rest, w, j),
{
    let t = l + m + r + rest;
    assert forall|j: int| 0 <= j < l.len() + m.len() + r.len() implies !occurs_at(t, w, j) by {
        if occurs_at(t, w, j) {
            lemma_window_char(t, w, j, 0);
            if j < l.len() {
                assert(t[j] == l[j]);
            } else if j < l.len() + m.len() {
                if j + w.len() <= l.len() + m.len() {
                    assert(t.subrange(j, j + w.len()) =~= m.subrange(
                        j - l.len(),
                        j - l.len() + w.len(),
                    ));
                    assert(occurs_at(m, w, j - l.len()));
                } else {
                    let o = l.len() + m.len() - j;
                    lemma_window_char(t, w, j, o);
                    assert(t[(l.len() + m.len()) as int] == r[0]);
                }
            } else {
                assert(t[j] == r[j - l.len() - m.len()]);
            }
        }
    }
}

/// A text that ends with a new post's closing fence and body passes the
/// body check: whatever "+++\n\n" comes first, the body text follows it.
proof fn lemma_template_body(a: Seq<char>)
    ensures
        has_body(a + "\n+++\n\n在这里写文章内容...\n"@),
{
    reveal_strlit("\n+++\n\n在这里写文章内容...\n");
    let tail = "\n+++\n\n在这里写文章内容...\n"@;
    assert(tail =~= seq!['\n', '+', '+', '+', '\n', '\n', '在', '这', '里', '写', '文', '章', '内', '容', '.', '.', '.', '\n']);
    let t = a + tail;
    let n = a.len() as int;
    let bs = body_start();
    assert(t.subrange(n + 1, n + 6) =~= bs);
    assert(occurs_at(t, bs, n + 1));
    lemma_find_first(t, bs);
    let q = find(t, bs).unwrap();
    let rest = t.skip(q + 5);
    let k = n + 6 - (q + 5);
    assert(rest[k] == t[n + 6]);
    assert(t[n + 6] == '在');
    assert(!is_ws('在'));
    lemma_nonblank(rest, k);
}

/// A new post's text passes the front matter, title, date, description and
/// body checks when its date has the form YYYY-MM-DD and its title holds no
/// line break; without a tags line, and with no "[taxonomies]" in title and
/// description, it holds no "[taxonomies]".
#[verifier::spinoff_prover]
#[verifier::rlimit(60)]
proof fn lemma_template_passes(title: Seq<char>, date: Seq<char>, desc: Seq<char>, tl: Seq<char>)
    requires
        is_date_text(date),
        forall|i: int| 0 <= i < title.len() ==> #[trigger] title[i] != '\n',
    ensures
        ({
            let t = post_template(title, date, desc, tl);
            &&& has_frontmatter(t)
            &&& has_title(t)
            &&& has_date(t)
            &&& date_line_ok(t)
            &&& has_description(t)
            &&& has_body(t)
        }),
        tl.len() == 0 && !contains(title, "[taxonomies]"@) && !contains(desc, "[taxonomies]"@)
            ==> !contains(post_template(title, date, desc, tl), "[taxonomies]"@),
{
    reveal_strlit("+++\ntitle = \"");
    reveal_strlit("\"\ndate = ");
    reveal_strlit("\ndescription = \"");
    reveal_strlit("\"\n");
    reveal_strlit("\n+++\n\n在这里写文章内容...\n");
    reveal_strlit("date = ");
    reveal_strlit("title = \"");
    reveal_strlit("description = \"");
    reveal_strlit("[taxonomies]");
    let l1 = "+++\ntitle = \""@;
    let l2 = "\"\ndate = "@;
    let l3 = "\ndescription = \""@;
    let l4 = "\"\n"@;
    let tail = "\n+++\n\n在这里写文章内容...\n"@;
    assert(l1 =~= seq!['+', '+', '+', '\n', 't', 'i', 't', 'l', 'e', ' ', '=', ' ', '"']);
    assert(l2 =~= seq!['"', '\n', 'd', 'a', 't', 'e', ' ', '=', ' ']);
    assert(l3 =~= seq!['\n', 'd', 'e', 's', 'c', 'r', 'i', 'p', 't', 'i', 'o', 'n', ' ', '=', ' ', '"']);
    assert(l4 =~= seq!['"', '\n']);
    assert(tail =~= seq!['\n', '+', '+', '+', '\n', '\n', '在', '这', '里', '写', '文', '章', '内', '容', '.', '.', '.', '\n']);
    lemma_date_text_plain(date);
    let t = post_template(title, date, desc, tl);
    assert(t =~= l1 + title + l2 + date + l3 + desc + l4 + tl + tail);
    // front matter and title
    assert(t.take(3) =~= fence());
    assert(t.subrange(4, 13) =~= "title = \""@);
    assert(occurs_at(t, "title = \""@, 4));
    // the template's date line is the first line that starts with `date = `
    let k = date_key();
    reveal_strlit("\ndate = ");
    assert(k =~= seq!['\n', 'd', 'a', 't', 'e', ' ', '=', ' ']);
    let xn = seq!['\n'] + l1 + title + seq!['"'];
    let rest1 = k + date + l3 + desc + l4 + tl + tail;
    assert(with_newline(t) =~= xn + rest1);
    assert forall|j: int| 0 <= j < xn.len() implies #[trigger] xn[j] != k[0] || (k.len() >= 2 && j
        + 1 < xn.len() && xn[j + 1] != k[1]) || (k.len() >= 3 && j + 2 < xn.len() && xn[j + 2]
        != k[2]) by {
        if 14 <= j < 14 + title.len() {
            assert(xn[j] == title[j - 14]);
        }
    }
    lemma_no_start_in(xn, rest1, k);
    assert(rest1.subrange(0, 8) =~= k);
    assert(is_first_occurrence(rest1, k, 0));
    lemma_find_past_prefix(xn, rest1, k, 0);
    lemma_line_gives_date(t);
    let st: int = (l1.len() + title.len() + 2 + 7) as int;
    let after = l3 + desc + l4 + tl + tail;
    assert(t.skip(st) =~= date + after);
    lemma_first_line_append(date, after);
    lemma_date_first_line(date);
    assert(first_line(date) == date);
    // the description line
    let dk = "description = \""@;
    let p: int = (l1.len() + title.len() + l2.len() + date.len() + 1) as int;
    assert(t.subrange(p, p + 15) =~= dk);
    assert(occurs_at(t, dk, p));
    // the body
    assert(t =~= (l1 + title + l2 + date + l3 + desc + l4 + tl) + tail);
    lemma_template_body(l1 + title + l2 + date + l3 + desc + l4 + tl);
    // no "[taxonomies]" without a tags line
    let tk = "[taxonomies]"@;
    if tl.len() == 0 && !contains(title, tk) && !contains(desc, tk) {
        let r2 = l2 + date + l3;
        let y = desc + (l4 + tail);
        assert(t =~= l1 + title + r2 + y);
        assert forall|j: int| 0 <= j < r2.len() implies #[trigger] r2[j] != tk[0] by {
            if l2.len() <= j < l2.len() + date.len() {
                assert(r2[j] == date[j - l2.len()]);
                if j - l2.len() == 4 || j - l2.len() == 7 {
                } else {
                    assert(is_digit(date[j - l2.len()]));
                }
            }
        }
        lemma_no_start_in_wrapped(l1, title, r2, y, tk);
        let r3 = l4 + tail;
        assert(y =~= seq![] + desc + r3 + seq![]);
        lemma_no_start_in_wrapped(seq![], desc, r3, seq![], tk);
        let x = l1 + title + r2;
        assert forall|j: int| !occurs_at(t, tk, j) by {
            if occurs_at(t, tk, j) && j >= x.len() {
                assert(t.subrange(j, j + 12) =~= y.subrange(j - x.len(), j - x.len() + 12));
                assert(occurs_at(y, tk, j - x.len()));
                assert(occurs_at(seq![] + desc + r3 + seq![], tk, j - x.len()));
            }
        }
    }
}

pub open spec fn opt_tags_view(tags: Option<Vec<String>>) -> Option<Seq<Seq<char>>> {
    match tags {
        Some(t) => Some(string_views(t@)),
        None => None,
    }
}

/// `create_new_post` before writing the file: the post template with the
/// title, date, description (empty when absent) and tags.
pub fn new_post_content(title: &str, date: &str, description: Option<&str>, tags: &Option<Vec<String>>) -> (r: String)
    ensures
        r@ == new_post_text(
            title@,
            date@,
            match description {
                Some(d) => d@,
                None => seq![],
            },
            opt_tags_view(*tags),
        ),
        tags is Some ==> tags_well_formed(r@),
        is_date_text(date@) && (forall|i: int| 0 <= i < title@.len() ==> #[trigger] title@[i] != '\n')
            && (tags is None ==> !contains(
            title@,
            "[taxonomies]"@,
        ) && !contains(
            match description {
                Some(d) => d@,
                None => seq![],
            },
            "[taxonomies]"@,
        )) ==> post_issues_spec(r@, false) == Seq::<PostError>::empty(),
{
    let mut r = String::new();
    push_str(&mut r, "+++\ntitle = \"");
    push_str(&mut r, title);
    push_str(&mut r, "\"\ndate = ");
    push_str(&mut r, date);
    push_str(&mut r, "\ndescription = \"");
    match description {
        Some(d) => push_str(&mut r, d),
        None => {},
    }
    push_str(&mut r, "\"\n");
    match tags {
        Some(t) => {
            push_str(&mut r, "\n[taxonomies]\ntags = ");
            let ghost pre = r@;
            let d = debug_string_list(t);
            push_str(&mut r, d.as_str());
            proof {
                reveal_strlit("\n[taxonomies]\ntags = ");
                reveal_strlit("tags = [");
                let k = pre.len() - 7;
                assert(r@.subrange(k, k + 8) =~= "tags = ["@);
                assert(occurs_at(r@, "tags = ["@, k));
            }
        },
        None => {},
    }
    let ghost before = r@;
    push_str(&mut r, "\n+++\n\n在这里写文章内容...\n");
    proof {
        if tags is Some {
            let k = choose|k: int| occurs_at(before, "tags = ["@, k);
            assert(r@.subrange(k, k + 8) =~= before.subrange(k, k + 8));
            assert(occurs_at(r@, "tags = ["@, k));
        }
        let dv = match description {
            Some(d) => d@,
            None => seq![],
        };
        let tl = match opt_tags_view(*tags) {
            Some(t) => "\n[taxonomies]\ntags = "@ + debug_list(t),
            None => seq![],
        };
        if is_date_text(date@) && (forall|i: int| 0 <= i < title@.len() ==> #[trigger] title@[i] != '\n') {
            lemma_template_passes(title@, date@, dv, tl);
            assert(r@ == post_template(title@, date@, dv, tl));
            if tags is None {
                assert(tl.len() == 0);
            }
            if tags is None ==> !contains(title@, "[taxonomies]"@) && !contains(dv, "[taxonomies]"@) {
                assert(tags_well_formed(r@));
                assert(post_issues_spec(r@, false) =~= Seq::<PostError>::empty());
            }
        }
    }
    r
}

} // verus!
