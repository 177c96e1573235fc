//! Planning the search index documents of one blog post.
//!
//! A post is indexed as one main document plus one document per
//! indexable line.  Heading lines are added several times so that they
//! weigh more in the ranking; quotes, tables, list items, code fences and
//! separators are not indexed on their own.

use vstd::prelude::*;
use crate::text::{
    chars_of, decimal, decimal_chars, find, find_chars, join, join_strings, lines, push_chars,
    push_str, slice_of, starts_with, starts_with_char, starts_with_chars, str_lines, string_of, string_views, trim, vec_views,
    trim_chars,
};

verus! {

/// One document to be added to the search index.
pub struct IndexDoc {
    pub title: String,
    pub path: String,
    /// Line of the post the document stands for (1 for the main document).
    pub line_number: u64,
    /// The trimmed line, absent for the main document.
    pub line_content: Option<String>,
    pub content: String,
    /// The post's tags joined with ','.
    pub tags: String,
}

/// Mathematical model of an [`IndexDoc`].
pub struct DocView {
    pub title: Seq<char>,
    pub path: Seq<char>,
    pub line_number: nat,
    pub line_content: Option<Seq<char>>,
    pub content: Seq<char>,
    pub tags: Seq<char>,
}

pub open spec fn opt_view(o: Option<String>) -> Option<Seq<char>> {
    match o {
        Some(s) => Some(s@),
        None => None,
    }
}

impl View for IndexDoc {
    type V = DocView;

    open spec fn view(&self) -> DocView {
        DocView {
            title: self.title@,
            path: self.path@,
            line_number: self.line_number as nat,
            line_content: opt_view(self.line_content),
            content: self.content@,
            tags: self.tags@,
        }
    }
}

/// Number of '#' characters in `s`.
pub open spec fn count_hashes(s: Seq<char>) -> nat
    decreases s.len(),
{
    if s.len() == 0 {
        0
    } else {
        count_hashes(s.drop_last()) + if s.last() == '#' {
            1nat
        } else {
            0nat
        }
    }
}

/// How many times a heading of the given level is indexed: the heading
/// weights 3.0, 2.5, 2.0 (levels 1 to 3) and 1.5 (deeper levels), rounded
/// to the nearest integer with halves away from zero.
pub open spec fn heading_copies(level: nat) -> nat {
    if level == 1 || level == 2 {
        3
    } else {
        2
    }
}

/// The weight of a heading of the given level, in halves: 3.0, 2.5 and 2.0
/// for levels 1 to 3, 1.5 for deeper levels.
pub open spec fn heading_weight_halves(level: nat) -> nat {
    if level == 1 {
        6
    } else if level == 2 {
        5
    } else if level == 3 {
        4
    } else {
        3
    }
}

/// Law: a heading of level `level` (at least 1) is indexed as many times as
/// its weight rounded to the nearest integer, halves away from zero: three
/// times for levels 1 and 2, twice for every deeper level.
pub proof fn law_heading_copies_round_weight(level: nat)
    requires
        level >= 1,
    ensures
        heading_copies(level) == (heading_weight_halves(level) + 1) / 2,
        level >= 3 ==> heading_copies(level) == 2,
{
}

/// Lines that are quotes, tables, list items, code fences or separators.
pub open spec fn is_skipped_line(t: Seq<char>) -> bool {
    ||| starts_with_char(t, '>')
    ||| starts_with_char(t, '|')
    ||| starts_with_char(t, '-')
    ||| starts_with_char(t, '*')
    ||| starts_with(t, seq!['`', '`', '`'])
    ||| starts_with(t, seq!['-', '-', '-'])
}

/// The suffix " (N级标题)" that follows a heading's text.
pub open spec fn level_suffix(level: nat) -> Seq<char> {
    seq![' ', '('] + decimal(level) + seq!['级', '标', '题', ')']
}

/// The document of a line that is not a heading.
pub open spec fn plain_line_doc(
    title: Seq<char>,
    path: Seq<char>,
    tags: Seq<char>,
    number: nat,
    t: Seq<char>,
) -> DocView {
    DocView { title, path, line_number: number, line_content: Some(t), content: t, tags }
}

/// The document of a heading line `t` with the given level and text.
pub open spec fn heading_doc(
    title: Seq<char>,
    path: Seq<char>,
    tags: Seq<char>,
    number: nat,
    t: Seq<char>,
    level: nat,
    heading: Seq<char>,
) -> DocView {
    DocView {
        title,
        path,
        line_number: number,
        line_content: Some(t),
        content: trim(heading) + level_suffix(level),
        tags,
    }
}

/// The documents for line number `number` (counted from 1) whose text is `line`.
pub open spec fn line_docs(
    title: Seq<char>,
    path: Seq<char>,
    tags: Seq<char>,
    number: nat,
    line: Seq<char>,
) -> Seq<DocView> {
    let t = trim(line);
    if t.len() == 0 {
        seq![]
    } else if starts_with_char(t, '#') {
        match find(t, seq![' ']) {
            Some(i) => {
                let level = count_hashes(t.take(i));
                Seq::new(
                    heading_copies(level),
                    |k: int| heading_doc(title, path, tags, number, t, level, t.skip(i + 1)),
                )
            },
            None => seq![],
        }
    } else if is_skipped_line(t) {
        seq![]
    } else {
        seq![plain_line_doc(title, path, tags, number, t)]
    }
}

/// The documents for the lines `ls`, the first of which is line 1.
pub open spec fn lines_docs(title: Seq<char>, path: Seq<char>, tags: Seq<char>, ls: Seq<Seq<char>>) -> Seq<
    DocView,
>
    decreases ls.len(),
{
    if ls.len() == 0 {
        seq![]
    } else {
        lines_docs(title, path, tags, ls.drop_last()) + line_docs(
            title,
            path,
            tags,
            ls.len(),
            ls.last(),
        )
    }
}

/// The main document of a post.
pub open spec fn main_doc(title: Seq<char>, content: Seq<char>, tags: Seq<char>, path: Seq<char>) -> DocView {
    DocView { title, path, line_number: 1, line_content: None, content, tags }
}

/// All documents of a post: the main document, then the line documents in
/// line order.
pub open spec fn post_docs(title: Seq<char>, content: Seq<char>, tags: Seq<char>, path: Seq<char>) -> Seq<
    DocView,
> {
    seq![main_doc(title, content, tags, path)] + lines_docs(title, path, tags, lines(content))
}

/// The views of a sequence of documents.
pub open spec fn doc_views(v: Seq<IndexDoc>) -> Seq<DocView> {
    v.map_values(|d: IndexDoc| d@)
}

impl IndexDoc {
    /// A field-by-field copy.
    pub fn duplicate(&self) -> (r: IndexDoc)
        ensures
            r@ == self@,
    {
        IndexDoc {
            title: self.title.clone(),
            path: self.path.clone(),
            line_number: self.line_number,
            line_content: match &self.line_content {
                Some(s) => Some(s.clone()),
                None => None,
            },
            content: self.content.clone(),
            tags: self.tags.clone(),
        }
    }
}

fn count_hashes_exec(s: &Vec<char>, n: usize) -> (r: u64)
    requires
        n <= s.len(),
    ensures
        r as nat == count_hashes(s@.take(n as int)),
        r <= n,
{
    let mut r: u64 = 0;
    let mut i: usize = 0;
    while i < n
        invariant
            0 <= i <= n <= s.len(),
            r as nat == count_hashes(s@.take(i as int)),
            r <= i,
        decreases n - i,
    {
        assert(s@.take(i + 1).drop_last() == s@.take(i as int));
        if s[i] == '#' {
            r = r + 1;
        }
        i = i + 1;
    }
    r
}

fn is_skipped_line_exec(t: &Vec<char>) -> (r: bool)
    ensures
        r == is_skipped_line(t@),
{
    let fence: Vec<char> = vec!['`', '`', '`'];
    let rule: Vec<char> = vec!['-', '-', '-'];
    let first_skipped = t.len() > 0 && (t[0] == '>' || t[0] == '|' || t[0] == '-' || t[0] == '*');
    let f = starts_with_chars(t, &fence);
    let g = starts_with_chars(t, &rule);
    proof {
        assert(fence@ == seq!['`', '`', '`']);
        assert(rule@ == seq!['-', '-', '-']);
    }
    first_skipped || f || g
}

/// Appends the documents of line number `number` to `docs`.
fn push_line_docs(
    docs: &mut Vec<IndexDoc>,
    title: &String,
    path: &String,
    tags: &String,
    number: u64,
    line: &Vec<char>,
)
    ensures
        doc_views(final(docs)@) == doc_views(old(docs)@) + line_docs(
            title@,
            path@,
            tags@,
            number as nat,
            line@,
        ),
{
    let ghost old_views = doc_views(docs@);
    let t = trim_chars(line);
    if t.len() == 0 {
        assert(doc_views(docs@) == old_views + Seq::<DocView>::empty());
        return;
    }
    if t[0] == '#' {
        let space: Vec<char> = vec![' '];
        assert(space@ == seq![' ']);
        match find_chars(&t, &space) {
            Some(i) => {
                let level = count_hashes_exec(&t, i);
                let copies: u64 = if level == 1 || level == 2 {
                    3
                } else {
                    2
                };
                let heading = slice_of(&t, i + 1, t.len());
                let heading_t = trim_chars(&heading);
                let mut content = string_of(&heading_t);
                push_str(&mut content, " (");
                let digits = decimal_chars(level);
                push_chars(&mut content, &digits);
                push_str(&mut content, "级标题)");
                proof {
                    reveal_strlit(" (");
                    reveal_strlit("级标题)");
                    assert(heading@ == t@.skip(i + 1));
                    assert(content@ == trim(t@.skip(i + 1)) + level_suffix(level as nat));
                }
                let doc = IndexDoc {
                    title: title.clone(),
                    path: path.clone(),
                    line_number: number,
                    line_content: Some(string_of(&t)),
                    content,
                    tags: tags.clone(),
                };
                let ghost expected = line_docs(title@, path@, tags@, number as nat, line@);
                assert(expected.len() == copies);
                let mut k: u64 = 0;
                while k < copies
                    invariant
                        0 <= k <= copies,
                        expected.len() == copies,
                        forall|j: int| 0 <= j < copies ==> #[trigger] expected[j] == doc@,
                        doc_views(docs@) == old_views + expected.take(k as int),
                    decreases copies - k,
                {
                    let d = doc.duplicate();
                    let ghost prev = docs@;
                    docs.push(d);
                    assert(expected.take(k + 1) == expected.take(k as int).push(expected[k as int]));
                    assert(docs@ == prev.push(d));
                    assert(doc_views(prev.push(d)) == doc_views(prev).push(d@));
                    k = k + 1;
                }
                assert(expected.take(copies as int) == expected);
            },
            None => {
                assert(doc_views(docs@) == old_views + Seq::<DocView>::empty());
            },
        }
    } else if is_skipped_line_exec(&t) {
        assert(doc_views(docs@) == old_views + Seq::<DocView>::empty());
    } else {
        let d = IndexDoc {
            title: title.clone(),
            path: path.clone(),
            line_number: number,
            line_content: Some(string_of(&t)),
            content: string_of(&t),
            tags: tags.clone(),
        };
        let ghost prev = docs@;
        docs.push(d);
        assert(docs@ == prev.push(d));
        assert(doc_views(prev.push(d)) == doc_views(prev).push(d@));
    }
}

/// The documents that index one post: a main document holding the whole
/// content, then, for every line in order, the documents of that line (see
/// [`line_docs`]).  Tags are stored joined with ','.
pub fn plan_documents(title: &str, content: &str, tags: &Vec<String>, path: &str) -> (r: Vec<
    IndexDoc,
>)
    ensures
        doc_views(r@) == post_docs(title@, content@, join(string_views(tags@), seq![',']), path@),
{
    let tags_joined = join_strings(tags, ",");
    proof {
        reveal_strlit(",");
    }
    let title_s = string_of(&chars_of(title));
    let path_s = string_of(&chars_of(path));
    let mut docs: Vec<IndexDoc> = Vec::new();
    let main = IndexDoc {
        title: title_s.clone(),
        path: path_s.clone(),
        line_number: 1,
        line_content: None,
        content: string_of(&chars_of(content)),
        tags: tags_joined.clone(),
    };
    docs.push(main);
    let ls = str_lines(content);
    let ghost lv = lines(content@);
    let ghost head = seq![main_doc(title@, content@, tags_joined@, path@)];
    assert(doc_views(docs@) == head);
    let mut i: usize = 0;
    while i < ls.len()
        invariant
            0 <= i <= ls.len(),
            vec_views(ls@) == lv,
            doc_views(docs@) == head + lines_docs(title_s@, path_s@, tags_joined@, lv.take(i as int)),
        decreases ls.len() - i,
    {
        assert(lv.take(i + 1).drop_last() == lv.take(i as int));
        assert(ls@[i as int]@ == lv[i as int]);
        push_line_docs(&mut docs, &title_s, &path_s, &tags_joined, (i + 1) as u64, &ls[i]);
        i = i + 1;
    }
    assert(lv.take(ls.len() as int) == lv);
    assert(","@ == seq![',']);
    assert(tags_joined@ == join(string_views(tags@), seq![',']));
    assert(title_s@ == title@);
    assert(path_s@ == path@);
    docs
}

/// Every document of the lines `ls` belongs to the post and points at one
/// of these lines.
proof fn lemma_lines_docs_belong(title: Seq<char>, path: Seq<char>, tags: Seq<char>, ls: Seq<Seq<char>>)
    ensures
        forall|k: int|
            0 <= k < lines_docs(title, path, tags, ls).len() ==> {
                let d = #[trigger] lines_docs(title, path, tags, ls)[k];
                &&& d.title == title
                &&& d.path == path
                &&& d.tags == tags
                &&& 1 <= d.line_number <= ls.len()
                &&& d.line_content is Some
            },
    decreases ls.len(),
{
    if ls.len() > 0 {
        lemma_lines_docs_belong(title, path, tags, ls.drop_last());
        let prev = lines_docs(title, path, tags, ls.drop_last());
        let more = line_docs(title, path, tags, ls.len(), ls.last());
        let all = lines_docs(title, path, tags, ls);
        assert(all == prev + more);
        assert forall|k: int| 0 <= k < all.len() implies {
            let d = #[trigger] all[k];
            &&& d.title == title
            &&& d.path == path
            &&& d.tags == tags
            &&& 1 <= d.line_number <= ls.len()
            &&& d.line_content is Some
        } by {
            if k < prev.len() {
                assert(all[k] == prev[k]);
            } else {
                assert(all[k] == more[k - prev.len()]);
            }
        }
    }
}

/// Law: all documents of a post carry its title, path and tags; the first
/// is the only one without a line, and the others point at lines of the
/// post.
pub proof fn law_documents_belong_to_post(title: Seq<char>, content: Seq<char>, tags: Seq<char>, path: Seq<char>)
    ensures
        ({
            let docs = post_docs(title, content, tags, path);
            &&& docs.len() >= 1
            &&& docs[0] == main_doc(title, content, tags, path)
            &&& forall|k: int|
                1 <= k < docs.len() ==> {
                    let d = #[trigger] docs[k];
                    &&& d.title == title
                    &&& d.path == path
                    &&& d.tags == tags
                    &&& 1 <= d.line_number <= lines(content).len()
                    &&& d.line_content is Some
                }
        }),
{
    let ls = lines(content);
    lemma_lines_docs_belong(title, path, tags, ls);
    let docs = post_docs(title, content, tags, path);
    let rest = lines_docs(title, path, tags, ls);
    assert forall|k: int| 1 <= k < docs.len() implies {
        let d = #[trigger] docs[k];
        &&& d.title == title
        &&& d.path == path
        &&& d.tags == tags
        &&& 1 <= d.line_number <= lines(content).len()
        &&& d.line_content is Some
    } by {
        assert(docs[k] == rest[k - 1]);
    }
}

} // verus!
