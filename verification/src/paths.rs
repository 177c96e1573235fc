//! File selection, URLs and generated gallery posts.

use vstd::prelude::*;
use crate::front_matter::opt_string_view;
use crate::text::{
    chars_of, chars_eq, lowercase, lowercase_chars, push_chars, push_str, split, split_chars,
    string_of, trim_end_char, trim_end_char_exec, trim_start_char, trim_start_char_exec,
};

verus! {

/// The components of a path that are not empty and not ".": the text
/// between '/' separators (repeated separators and "." are ignored).
pub open spec fn path_parts(path: Seq<char>) -> Seq<Seq<char>> {
    split(path, '/').filter(|p: Seq<char>| p.len() > 0 && p != seq!['.'])
}

/// The final component of a path, as `Path::file_name` gives it on Unix:
/// the last component, none where there is none or it is "..".
pub open spec fn path_file_name(path: Seq<char>) -> Option<Seq<char>> {
    let ps = path_parts(path);
    if ps.len() == 0 || ps.last() == seq!['.', '.'] {
        None
    } else {
        Some(ps.last())
    }
}

/// Position of the last '.' in `name`.
pub open spec fn last_dot(name: Seq<char>) -> Option<int>
    decreases name.len(),
{
    if name.len() == 0 {
        None
    } else if name.last() == '.' {
        Some(name.len() - 1)
    } else {
        last_dot(name.drop_last())
    }
}

/// A file name split into stem and extension: the extension is what
/// follows the last '.', unless there is none or the only one starts the
/// name; then the stem is the whole name.
pub open spec fn split_extension(name: Seq<char>) -> (Seq<char>, Option<Seq<char>>) {
    match last_dot(name) {
        Some(k) => if k == 0 {
            (name, None)
        } else {
            (name.take(k), Some(name.skip(k + 1)))
        },
        None => (name, None),
    }
}

/// The extension of a path, as `Path::extension` gives it.
pub open spec fn path_extension(path: Seq<char>) -> Option<Seq<char>> {
    match path_file_name(path) {
        Some(name) => split_extension(name).1,
        None => None,
    }
}

/// The file stem of a path, as `Path::file_stem` gives it.
pub open spec fn path_file_stem(path: Seq<char>) -> Option<Seq<char>> {
    match path_file_name(path) {
        Some(name) => Some(split_extension(name).0),
        None => None,
    }
}

/// std's `Path::file_name` of `path` on Unix, as its documentation gives
/// it: the final component, none where the path ends in ".." or has no
/// component ("/" or ""); repeated separators and "." components are
/// ignored.  The path is UTF-8, so the component is too.
#[verifier::external_body]
pub(crate) fn file_name_of(path: &str) -> (r: Option<String>)
    ensures
        opt_string_view(r) == path_file_name(path@),
{
    let name = std::path::Path::new(path).file_name()?;
    Some(name.to_str()?.to_string())
}

/// std's `Path::extension` of `path`: none without a file name; otherwise,
/// as its documentation gives it, what follows the file name's last '.',
/// none where there is no '.' or the name starts with its only '.'.
#[verifier::external_body]
pub(crate) fn extension_of(path: &str) -> (r: Option<String>)
    ensures
        opt_string_view(r) == path_extension(path@),
{
    let ext = std::path::Path::new(path).extension()?;
    Some(ext.to_str()?.to_string())
}

/// std's `Path::file_stem` of `path`: none without a file name; otherwise,
/// as its documentation gives it, the file name before its last '.', or
/// the whole name where there is no '.' or the name starts with its only
/// '.'.
#[verifier::external_body]
pub(crate) fn file_stem_of(path: &str) -> (r: Option<String>)
    ensures
        opt_string_view(r) == path_file_stem(path@),
{
    let stem = std::path::Path::new(path).file_stem()?;
    Some(stem.to_str()?.to_string())
}

/// Extensions of the images the gallery takes, in lower case.
pub open spec fn image_extension(e: Seq<char>) -> bool {
    e == "jpg"@ || e == "jpeg"@ || e == "png"@ || e == "gif"@ || e == "webp"@
}

/// The extensions of the gallery's images, in lower case.
pub open spec fn gallery_extensions() -> Seq<Seq<char>> {
    seq!["jpg"@, "jpeg"@, "png"@, "gif"@, "webp"@]
}

/// Law: a path is taken as an image file exactly when it has an extension
/// that, lowercased, is one of jpg, jpeg, png, gif and webp.
pub proof fn law_image_files_by_extension(path: Seq<char>)
    ensures
        (match path_extension(path) {
            Some(e) => image_extension(lowercase(e)),
            None => false,
        }) == (path_extension(path) matches Some(e) && gallery_extensions().contains(lowercase(e))),
{
    if let Some(e) = path_extension(path) {
        let l = lowercase(e);
        let g = gallery_extensions();
        if image_extension(l) {
            if l == "jpg"@ {
                assert(g[0] == l);
            } else if l == "jpeg"@ {
                assert(g[1] == l);
            } else if l == "png"@ {
                assert(g[2] == l);
            } else if l == "gif"@ {
                assert(g[3] == l);
            } else {
                assert(g[4] == l);
            }
        }
        if g.contains(l) {
            let k = choose|k: int| 0 <= k < g.len() && g[k] == l;
            assert(k == 0 || k == 1 || k == 2 || k == 3 || k == 4);
        }
    }
}

fn eq_literal(a: &Vec<char>, lit: &str) -> (r: bool)
    ensures
        r == (a@ == lit@),
{
    let l = chars_of(lit);
    chars_eq(a, &l)
}

/// An image file: its extension, lowercased, is one of jpg, jpeg, png,
/// gif and webp.
pub fn is_image_file(path: &str) -> (r: bool)
    ensures
        r == match path_extension(path@) {
            Some(e) => image_extension(lowercase(e)),
            None => false,
        },
{
    match extension_of(path) {
        Some(ext) => {
            let low = lowercase_chars(&chars_of(ext.as_str()));
            eq_literal(&low, "jpg") || eq_literal(&low, "jpeg") || eq_literal(&low, "png")
                || eq_literal(&low, "gif") || eq_literal(&low, "webp")
        },
        None => false,
    }
}

/// A file name of a special file: it starts with '_' or '.'.
pub open spec fn special_name(n: Seq<char>) -> bool {
    n.len() > 0 && (n[0] == '_' || n[0] == '.')
}

/// A markdown post to index: not a special file, extension "md".
pub open spec fn indexable(path: Seq<char>) -> bool {
    &&& !(match path_file_name(path) {
        Some(n) => special_name(n),
        None => false,
    })
    &&& path_extension(path) == Some("md"@)
}

/// Whether the post file at `path` is indexed.
pub fn should_index_file(path: &str) -> (r: bool)
    ensures
        r == indexable(path@),
{
    match file_name_of(path) {
        Some(n) => {
            let cs = chars_of(n.as_str());
            if cs.len() > 0 && (cs[0] == '_' || cs[0] == '.') {
                return false;
            }
        },
        None => {},
    }
    match extension_of(path) {
        Some(e) => {
            let cs = chars_of(e.as_str());
            eq_literal(&cs, "md")
        },
        None => false,
    }
}

/// Whether `path` names a section index ("_index.md").
pub fn is_section_index(path: &str) -> (r: bool)
    ensures
        r == (path_file_name(path@) == Some("_index.md"@)),
{
    match file_name_of(path) {
        Some(n) => {
            let cs = chars_of(n.as_str());
            eq_literal(&cs, "_index.md")
        },
        None => false,
    }
}

/// The development server URL a blog path redirects to: the part before
/// '#' without leading and trailing '/', then the part after the first '#'
/// as anchor when it is not empty.
pub open spec fn redirect_url(path: Seq<char>) -> Seq<char> {
    let parts = split(path, '#');
    let base = trim_end_char(trim_start_char(parts[0], '/'), '/');
    let anchor = if parts.len() > 1 {
        parts[1]
    } else {
        seq![]
    };
    if anchor.len() == 0 {
        "http://127.0.0.1:1111/blog/"@ + base + "/"@
    } else {
        "http://127.0.0.1:1111/blog/"@ + base + "/#"@ + anchor
    }
}

/// The URL a request for a blog path is redirected to.
pub fn blog_redirect_url(path: &str) -> (r: String)
    ensures
        r@ == redirect_url(path@),
{
    let cs = chars_of(path);
    let parts = split_chars(&cs, '#');
    let first = chars_of(parts[0].as_str());
    let base = trim_end_char_exec(&trim_start_char_exec(&first, '/'), '/');
    let mut r = String::new();
    push_str(&mut r, "http://127.0.0.1:1111/blog/");
    push_chars(&mut r, &base);
    assert(parts@[0]@ == split(cs@, '#')[0]);
    if parts.len() > 1 && !parts[1].as_str().is_empty() {
        push_str(&mut r, "/#");
        push_str(&mut r, parts[1].as_str());
    } else {
        push_str(&mut r, "/");
    }
    r
}

/// The generated gallery post of an image.
pub open spec fn gallery_post_text(file_name: Seq<char>, date: Seq<char>) -> Seq<char> {
    "+++\ntitle = \""@ + file_name + "\"\ndate = "@ + date
        + "\ndescription = \"图片描述\"\n\n[taxonomies]\ntags = [\"图片\"]\n\n[extra]\nimage = \"/images/"@
        + file_name + "\"\n+++\n\n这是一张图片的描述...\n"@
}

/// The gallery post for the image `file_name`, dated `date`.
pub fn gallery_post(file_name: &str, date: &str) -> (r: String)
    ensures
        r@ == gallery_post_text(file_name@, date@),
{
    let mut r = String::new();
    push_str(&mut r, "+++\ntitle = \"");
    push_str(&mut r, file_name);
    push_str(&mut r, "\"\ndate = ");
    push_str(&mut r, date);
    push_str(
        &mut r,
        "\ndescription = \"图片描述\"\n\n[taxonomies]\ntags = [\"图片\"]\n\n[extra]\nimage = \"/images/",
    );
    push_str(&mut r, file_name);
    push_str(&mut r, "\"\n+++\n\n这是一张图片的描述...\n");
    r
}

/// Where the gallery post of an image with stem `stem` is written.
pub fn gallery_markdown_path(gallery_dir: &str, stem: &str) -> (r: String)
    ensures
        r@ == gallery_dir@ + "/"@ + stem@ + ".md"@,
{
    let mut r = String::new();
    push_str(&mut r, gallery_dir);
    push_str(&mut r, "/");
    push_str(&mut r, stem);
    push_str(&mut r, ".md");
    r
}

} // verus!
