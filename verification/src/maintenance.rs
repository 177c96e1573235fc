//! Keeping the index in step with the posts.

use vstd::prelude::*;
use crate::front_matter::BlogPost;
use crate::indexing::{doc_views, plan_documents, post_docs, IndexDoc};
use crate::text::{join, split, split_scan, string_views};

verus! {

/// The paths of the posts.
pub open spec fn post_paths(posts: Seq<BlogPost>) -> Seq<Seq<char>> {
    posts.map_values(|p: BlogPost| p.path@)
}

/// The documents that index a post (see [`plan_documents`]).
pub fn post_documents(post: &BlogPost) -> (r: Vec<IndexDoc>)
    ensures
        doc_views(r@) == post_docs(
            post.title@,
            post.content@,
            join(string_views(post.tags@), seq![',']),
            post.path@,
        ),
{
    plan_documents(post.title.as_str(), post.content.as_str(), &post.tags, post.path.as_str())
}

fn contains_path(v: &Vec<String>, p: &String) -> (r: bool)
    ensures
        r == string_views(v@).contains(p@),
{
    let mut i: usize = 0;
    while i < v.len()
        invariant
            0 <= i <= v.len(),
            forall|k: int| 0 <= k < i ==> v@[k]@ != p@,
        decreases v.len() - i,
    {
        if v[i] == *p {
            assert(string_views(v@)[i as int] == p@);
            return true;
        }
        i = i + 1;
    }
    proof {
        if string_views(v@).contains(p@) {
            let k = choose|k: int| 0 <= k < string_views(v@).len() && string_views(v@)[k] == p@;
            assert(v@[k]@ == p@);
        }
    }
    false
}

fn is_post_path(posts: &Vec<BlogPost>, p: &String) -> (r: bool)
    ensures
        r == post_paths(posts@).contains(p@),
{
    let mut i: usize = 0;
    while i < posts.len()
        invariant
            0 <= i <= posts.len(),
            forall|k: int| 0 <= k < i ==> posts@[k].path@ != p@,
        decreases posts.len() - i,
    {
        if posts[i].path == *p {
            assert(post_paths(posts@)[i as int] == p@);
            return true;
        }
        i = i + 1;
    }
    proof {
        if post_paths(posts@).contains(p@) {
            let k = choose|k: int| 0 <= k < post_paths(posts@).len() && post_paths(posts@)[k] == p@;
            assert(posts@[k].path@ == p@);
        }
    }
    false
}

/// The indexed paths whose posts are gone: each path of `existing` that no
/// post has, once.
pub fn stale_paths(existing: &Vec<String>, posts: &Vec<BlogPost>) -> (r: Vec<String>)
    ensures
        string_views(r@).no_duplicates(),
        forall|p: Seq<char>|
            string_views(r@).contains(p) <==> (string_views(existing@).contains(p) && !post_paths(
                posts@,
            ).contains(p)),
{
    let mut out: Vec<String> = Vec::new();
    let mut i: usize = 0;
    while i < existing.len()
        invariant
            0 <= i <= existing.len(),
            string_views(out@).no_duplicates(),
            forall|p: Seq<char>|
                string_views(out@).contains(p) <==> (string_views(existing@.take(i as int)).contains(p)
                    && !post_paths(posts@).contains(p)),
        decreases existing.len() - i,
    {
        let p = &existing[i];
        let ghost prev = out@;
        assert(string_views(existing@.take(i + 1)) == string_views(existing@.take(i as int)).push(p@));
        let ghost ev = string_views(existing@.take(i as int));
        let is_post = is_post_path(posts, p);
        let already = contains_path(&out, p);
        if !is_post && !already {
            out.push(p.clone());
            assert(string_views(out@) == string_views(prev).push(p@));
            assert forall|q: Seq<char>| string_views(out@).contains(q) <==> string_views(prev).contains(q) || q == p@ by {
                if q == p@ {
                    assert(string_views(out@)[prev.len() as int] == q);
                }
                if string_views(out@).contains(q) && q != p@ {
                    let k = choose|k: int| 0 <= k < string_views(out@).len() && string_views(out@)[k] == q;
                    assert(string_views(prev)[k] == q);
                }
                if string_views(prev).contains(q) {
                    let k = choose|k: int| 0 <= k < string_views(prev).len() && string_views(prev)[k] == q;
                    assert(string_views(out@)[k] == q);
                }
            }
        }
        assert forall|q: Seq<char>| ev.push(p@).contains(q) <==> ev.contains(q) || q == p@ by {
            if q == p@ {
                assert(ev.push(p@)[ev.len() as int] == q);
            }
            if ev.push(p@).contains(q) && q != p@ {
                let k = choose|k: int| 0 <= k < ev.push(p@).len() && ev.push(p@)[k] == q;
                assert(ev[k] == q);
            }
            if ev.contains(q) {
                let k = choose|k: int| 0 <= k < ev.len() && ev[k] == q;
                assert(ev.push(p@)[k] == q);
            }
        }
        assert forall|q: Seq<char>|
            string_views(out@).contains(q) <==> (ev.push(p@).contains(q) && !post_paths(posts@).contains(q)) by {
            assert(string_views(prev).contains(q) <==> (ev.contains(q) && !post_paths(posts@).contains(q)));
            assert(ev.push(p@).contains(q) <==> ev.contains(q) || q == p@);
            if !is_post && !already {
                assert(string_views(out@).contains(q) <==> string_views(prev).contains(q) || q == p@);
            } else {
                assert(out@ == prev);
            }
        }
        i = i + 1;
    }
    assert(existing@.take(existing.len() as int) == existing@);
    out
}

/// Whether the index looks sound: it holds documents, and the probe by
/// path found one.
pub fn index_health(doc_count: u64, probe_hits: usize) -> (r: bool)
    ensures
        r == (doc_count > 0 && probe_hits > 0),
{
    doc_count != 0 && probe_hits != 0
}

// ---------------------------------------------------------------------------
// Tags survive being stored
// ---------------------------------------------------------------------------

proof fn lemma_split_scan_plain(pre: Seq<char>, x: Seq<char>, c: char)
    requires
        !x.contains(c),
    ensures
        split_scan(pre + x, c) == (split_scan(pre, c).0, split_scan(pre, c).1 + x),
    decreases x.len(),
{
    if x.len() == 0 {
        assert(pre + x == pre);
        assert(split_scan(pre, c).1 + x == split_scan(pre, c).1);
    } else {
        let y = x.drop_last();
        assert(!y.contains(c)) by {
            if y.contains(c) {
                let k = choose|k: int| 0 <= k < y.len() && y[k] == c;
                assert(x[k] == c);
            }
        }
        lemma_split_scan_plain(pre, y, c);
        assert((pre + x).drop_last() == pre + y);
        assert((pre + x).last() == x.last());
        assert(x.last() != c) by {
            assert(x[x.len() - 1] == x.last());
        }
        assert(split_scan(pre, c).1 + y + seq![x.last()] == split_scan(pre, c).1 + x);
    }
}

/// Law: tags stored joined with ',' are read back by splitting at ','
/// ([`split_tags`] undoes the join of [`plan_documents`]), for a non-empty list
/// of tags none of which contains ','.
pub proof fn law_tags_roundtrip(tags: Seq<Seq<char>>)
    requires
        tags.len() > 0,
        forall|i: int| 0 <= i < tags.len() ==> !(#[trigger] tags[i]).contains(','),
    ensures
        split(join(tags, seq![',']), ',') == tags,
    decreases tags.len(),
{
    if tags.len() == 1 {
        lemma_split_scan_plain(seq![], tags[0], ',');
        assert(Seq::<char>::empty() + tags[0] == tags[0]);
        assert(split(join(tags, seq![',']), ',') =~= tags);
    } else {
        let front = tags.drop_last();
        law_tags_roundtrip(front);
        let j = join(front, seq![',']);
        let last = tags.last();
        assert(!last.contains(',')) by {
            assert(tags[tags.len() - 1] == last);
        }
        assert(join(tags, seq![',']) == (j + seq![',']) + last);
        lemma_split_scan_plain(j + seq![','], last, ',');
        assert((j + seq![',']).drop_last() == j);
        assert(split_scan(j + seq![','], ',') == (split_scan(j, ',').0.push(split_scan(j, ',').1), Seq::<char>::empty()));
        assert(Seq::<char>::empty() + last == last);
        assert(split(join(tags, seq![',']), ',') =~= split(j, ',').push(last));
        assert(tags =~= front.push(last));
    }
}

} // verus!
