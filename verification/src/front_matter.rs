//! Blog posts and their TOML front matter between "+++" fences.

use vstd::prelude::*;
use crate::paths::{file_stem_of, path_file_stem};
use crate::text::{
    chars_of, chars_eq, lines, push_chars, push_str, signed_decimal, signed_decimal_i64, str_lines,
    string_of, string_views, trim, trim_chars, vec_views,
};

verus! {

/// The `[taxonomies]` table of a front matter.
pub struct Taxonomies {
    pub tags: Option<Vec<String>>,
}

/// The front matter of a post.
pub struct FrontMatter {
    pub title: String,
    pub date: String,
    pub description: Option<String>,
    pub taxonomies: Option<Taxonomies>,
}

/// A blog post ready to be indexed.
pub struct BlogPost {
    pub title: String,
    pub content: String,
    pub tags: Vec<String>,
    pub path: String,
    pub content_hash: u64,
}

/// Outcome of reading the front matter of a post.
pub enum FrontMatterParse {
    /// No front matter: default values, and an empty body.
    Defaulted(FrontMatter, String),
    /// The TOML text between the fences and the body after them.
    Toml(String, String),
}

/// A line whose trimmed text is "+++".
pub open spec fn is_fence(line: Seq<char>) -> bool {
    trim(line) == seq!['+', '+', '+']
}

/// Number of leading blank lines of `ls`.
pub open spec fn leading_blank_lines(ls: Seq<Seq<char>>) -> nat
    decreases ls.len(),
{
    if ls.len() > 0 && trim(ls[0]).len() == 0 {
        1 + leading_blank_lines(ls.drop_first())
    } else {
        0
    }
}

/// Index of the first fence line of `ls` at or after `from` (`ls.len()`
/// when there is none).
pub open spec fn next_fence(ls: Seq<Seq<char>>, from: int) -> int
    decreases ls.len() - from,
{
    if from >= ls.len() || from < 0 {
        ls.len() as int
    } else if is_fence(ls[from]) {
        from
    } else {
        next_fence(ls, from + 1)
    }
}

/// The lines, each followed by "\n".
pub open spec fn with_newlines(ls: Seq<Seq<char>>) -> Seq<char>
    decreases ls.len(),
{
    if ls.len() == 0 {
        seq![]
    } else {
        with_newlines(ls.drop_last()) + ls.last() + seq!['\n']
    }
}

/// Model of [`parse_front_matter`]: after the leading blank lines, a fence
/// line opens the front matter, which runs to the next fence line (or to
/// the end); the lines after that fence are the body.  `None` when there
/// is no opening fence.
pub open spec fn front_matter_split(content: Seq<char>) -> Option<(Seq<char>, Seq<char>)> {
    let ls = lines(content);
    let k = leading_blank_lines(ls) as int;
    if k < ls.len() && is_fence(ls[k]) {
        let m = next_fence(ls, k + 1);
        let body = if m < ls.len() {
            with_newlines(ls.subrange(m + 1, ls.len() as int))
        } else {
            seq![]
        };
        Some((with_newlines(ls.subrange(k + 1, m)), body))
    } else {
        None
    }
}

proof fn lemma_leading_blank_lines(ls: Seq<Seq<char>>)
    ensures
        leading_blank_lines(ls) <= ls.len(),
    decreases ls.len(),
{
    if ls.len() > 0 && trim(ls[0]).len() == 0 {
        lemma_leading_blank_lines(ls.drop_first());
    }
}

proof fn lemma_next_fence(ls: Seq<Seq<char>>, from: int)
    requires
        0 <= from <= ls.len(),
    ensures
        from <= next_fence(ls, from) <= ls.len(),
    decreases ls.len() - from,
{
    if from < ls.len() && !is_fence(ls[from]) {
        lemma_next_fence(ls, from + 1);
    }
}

fn is_fence_exec(line: &Vec<char>) -> (r: bool)
    ensures
        r == is_fence(line@),
{
    let t = trim_chars(line);
    let fence: Vec<char> = vec!['+', '+', '+'];
    assert(fence@ == seq!['+', '+', '+']);
    chars_eq(&t, &fence)
}

/// The lines `ls[a..b]`, each followed by "\n".
fn lines_with_newlines(ls: &Vec<Vec<char>>, a: usize, b: usize) -> (r: String)
    requires
        a <= b <= ls.len(),
    ensures
        r@ == with_newlines(vec_views(ls@).subrange(a as int, b as int)),
{
    let ghost lv = vec_views(ls@);
    let mut r = String::new();
    let mut i = a;
    assert(lv.subrange(a as int, a as int) =~= Seq::<Seq<char>>::empty());
    while i < b
        invariant
            a <= i <= b <= ls.len(),
            lv == vec_views(ls@),
            r@ == with_newlines(lv.subrange(a as int, i as int)),
        decreases b - i,
    {
        push_chars(&mut r, &ls[i]);
        push_str(&mut r, "\n");
        proof {
            reveal_strlit("\n");
            assert(lv.subrange(a as int, i + 1).drop_last() == lv.subrange(a as int, i as int));
        }
        i = i + 1;
    }
    r
}

/// Splits a post into its front matter text and its body.
pub fn split_front_matter(content: &str) -> (r: Option<(String, String)>)
    ensures
        match (r, front_matter_split(content@)) {
            (Some((fm, body)), Some((sfm, sbody))) => fm@ == sfm && body@ == sbody,
            (None, None) => true,
            _ => false,
        },
{
    let ls = str_lines(content);
    let ghost lv = vec_views(ls@);
    let mut k: usize = 0;
    proof {
        lemma_leading_blank_lines(lv);
        assert(lv.skip(0) == lv);
    }
    while k < ls.len() && trim_chars(&ls[k]).len() == 0
        invariant
            0 <= k <= ls.len(),
            lv == vec_views(ls@),
            leading_blank_lines(lv) == k + leading_blank_lines(lv.skip(k as int)),
        decreases ls.len() - k,
    {
        assert(lv.skip(k as int)[0] == lv[k as int]);
        assert(lv.skip(k as int).drop_first() == lv.skip(k + 1));
        k = k + 1;
    }
    proof {
        if k < ls.len() {
            assert(lv.skip(k as int)[0] == lv[k as int]);
        }
    }
    if k >= ls.len() || !is_fence_exec(&ls[k]) {
        return None;
    }
    let mut m = k + 1;
    proof {
        lemma_next_fence(lv, (k + 1) as int);
    }
    while m < ls.len() && !is_fence_exec(&ls[m])
        invariant
            k + 1 <= m <= ls.len(),
            lv == vec_views(ls@),
            next_fence(lv, (k + 1) as int) == next_fence(lv, m as int),
        decreases ls.len() - m,
    {
        m = m + 1;
    }
    let fm = lines_with_newlines(&ls, k + 1, m);
    let body = if m < ls.len() {
        lines_with_newlines(&ls, m + 1, ls.len())
    } else {
        String::new()
    };
    Some((fm, body))
}

/// The front matter used when a post has none.
pub open spec fn default_front_matter(title: Seq<char>, date: Seq<char>, fm: FrontMatter) -> bool {
    &&& fm.title@ == title
    &&& fm.date@ == date
    &&& fm.description is None
    &&& fm.taxonomies is None
}

/// The front matter text and body of a post; a post without front matter
/// gets `default_title`, the date `date` (the caller's today) and an empty
/// body.  The TOML text is deserialized by the caller.
pub fn parse_front_matter(content: &str, default_title: &str, date: String) -> (r: FrontMatterParse)
    ensures
        match (r, front_matter_split(content@)) {
            (FrontMatterParse::Toml(fm, body), Some((sfm, sbody))) => fm@ == sfm && body@ == sbody,
            (FrontMatterParse::Defaulted(fm, body), None) => default_front_matter(
                default_title@,
                date@,
                fm,
            ) && body@ == Seq::<char>::empty(),
            _ => false,
        },
{
    match split_front_matter(content) {
        Some((fm, body)) => FrontMatterParse::Toml(fm, body),
        None => FrontMatterParse::Defaulted(
            FrontMatter {
                title: string_of(&chars_of(default_title)),
                date,
                description: None,
                taxonomies: None,
            },
            String::new(),
        ),
    }
}

// ---------------------------------------------------------------------------
// The date field
// ---------------------------------------------------------------------------

/// The forms a front matter `date` value takes in TOML, as plain values.
pub enum TomlDate {
    /// A string.
    Text(String),
    /// A TOML date or date-time, as TOML writes it.
    Datetime(String),
    /// An integer such as 20240118.
    Integer(i64),
    /// A table; holds the TOML text of its `date` entry, if it has one.
    Table(Option<String>),
    /// Any other value.
    Other,
}

/// The only error of the date field.
pub enum DateError {
    /// "日期格式不正确": the value is not a date.
    InvalidFormat,
}

/// The date text of a `date` value.
pub open spec fn date_text_spec(v: TomlDate) -> Option<Seq<char>> {
    match v {
        TomlDate::Text(s) => Some(s@),
        TomlDate::Datetime(s) => Some(s@),
        TomlDate::Integer(i) => Some(signed_decimal(i as int)),
        TomlDate::Table(Some(s)) => Some(s@),
        TomlDate::Table(None) => None,
        TomlDate::Other => None,
    }
}

/// The text of a `date` value: strings and dates as they are written, integers in
/// decimal, a table through its `date` entry; anything else is an error.
pub fn date_text(v: &TomlDate) -> (r: Result<String, DateError>)
    ensures
        match (r, date_text_spec(*v)) {
            (Ok(s), Some(t)) => s@ == t,
            (Err(_), None) => true,
            _ => false,
        },
{
    match v {
        TomlDate::Text(s) => Ok(s.clone()),
        TomlDate::Datetime(s) => Ok(s.clone()),
        TomlDate::Integer(i) => Ok(string_of(&signed_decimal_i64(*i))),
        TomlDate::Table(Some(s)) => Ok(s.clone()),
        TomlDate::Table(None) => Err(DateError::InvalidFormat),
        TomlDate::Other => Err(DateError::InvalidFormat),
    }
}

// ---------------------------------------------------------------------------
// Posts
// ---------------------------------------------------------------------------

/// The title used for a post without front matter: its file stem, or
/// "未命名文章" when there is none.
pub open spec fn fallback_title(stem: Option<Seq<char>>) -> Seq<char> {
    match stem {
        Some(s) => s,
        None => seq!['未', '命', '名', '文', '章'],
    }
}

/// The URL path of a post: "/blog/" and its file stem.
pub open spec fn post_url(stem: Option<Seq<char>>) -> Seq<char> {
    seq!['/', 'b', 'l', 'o', 'g', '/'] + match stem {
        Some(s) => s,
        None => seq![],
    }
}

pub open spec fn opt_string_view(o: Option<String>) -> Option<Seq<char>> {
    match o {
        Some(s) => Some(s@),
        None => None,
    }
}

/// The tags of a front matter: `taxonomies.tags`, or none.
pub open spec fn front_matter_tags(fm: FrontMatter) -> Seq<Seq<char>> {
    match fm.taxonomies {
        Some(t) => match t.tags {
            Some(v) => string_views(v@),
            None => seq![],
        },
        None => seq![],
    }
}

/// The title of a post at `file_path` that has no front matter: its file
/// stem, or "未命名文章".
pub fn fallback_title_of(file_path: &str) -> (r: String)
    ensures
        r@ == fallback_title(path_file_stem(file_path@)),
{
    let stem = file_stem_of(file_path);
    match &stem {
        Some(s) => s.clone(),
        None => {
            let r = string_of(&chars_of("未命名文章"));
            proof {
                reveal_strlit("未命名文章");
            }
            r
        },
    }
}

/// The hash of a post body.
pub uninterp spec fn body_hash(body: Seq<char>) -> u64;

/// std's `DefaultHasher::new()` fed the body through `Hash for String`,
/// then `finish`.  Hashers made by `DefaultHasher::new` all start alike
/// (no per-process seed), so the value is named: it depends on the text
/// alone.  std does not promise the same value across its releases.
#[verifier::external_body]
fn hash_body(body: &String) -> (r: u64)
    ensures
        r == body_hash(body@),
{
    let mut hasher = std::collections::hash_map::DefaultHasher::new();
    std::hash::Hash::hash(body, &mut hasher);
    std::hash::Hasher::finish(&hasher)
}

impl BlogPost {
    /// The post at `file_path`, once its file is read and its front matter
    /// deserialized: the front matter's title and tags, the
    /// body, the URL path "/blog/<file stem>" and the hash of the body.
    pub fn from_parts(file_path: &str, front_matter: FrontMatter, body: String) -> (r: BlogPost)
        ensures
            r.title@ == front_matter.title@,
            r.content@ == body@,
            string_views(r.tags@) == front_matter_tags(front_matter),
            r.path@ == post_url(path_file_stem(file_path@)),
            r.content_hash == body_hash(body@),
    {
        let content_hash = hash_body(&body);
        let stem = file_stem_of(file_path);
        let mut path = String::new();
        push_str(&mut path, "/blog/");
        proof {
            reveal_strlit("/blog/");
        }
        match &stem {
            Some(s) => push_str(&mut path, s.as_str()),
            None => {},
        }
        assert(path@ == post_url(opt_string_view(stem)));
        let tags: Vec<String> = match front_matter.taxonomies {
            Some(t) => match t.tags {
                Some(v) => v,
                None => Vec::new(),
            },
            None => Vec::new(),
        };
        assert(string_views(tags@) =~= front_matter_tags(front_matter));
        BlogPost { title: front_matter.title, content: body, tags, path, content_hash }
    }
}

} // verus!
