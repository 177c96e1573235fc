//! Post metadata of the editor and its TOML front matter.

use vstd::prelude::*;
use crate::post_check::{debug_list, debug_string_list, slug};
use crate::text::{
    contains, occurs_at, push_chars, push_str, signed_decimal, signed_decimal_i64, string_views,
};

verus! {

/// Metadata of a post as the editor sends it.
pub struct PostMetadata {
    pub title: String,
    pub date: String,
    pub description: String,
    pub tags: Vec<String>,
    pub categories: Option<Vec<String>>,
    pub draft: Option<bool>,
    pub weight: Option<i32>,
    pub author: Option<String>,
    pub cover_image: Option<String>,
    pub series: Option<String>,
    pub language: Option<String>,
}

/// A new post as the editor sends it.
pub struct NewPost {
    pub title: String,
    pub content: String,
    pub description: Option<String>,
    pub tags: Vec<String>,
}

/// A request of the editor to save a post.
pub struct SavePostRequest {
    pub metadata: PostMetadata,
    pub content: String,
}

/// A `key = "value"` line of an optional string field, or nothing.
pub open spec fn quoted_line(key: Seq<char>, v: Option<String>) -> Seq<char> {
    match v {
        Some(s) => key + " = \""@ + s@ + "\"\n"@,
        None => seq![],
    }
}

/// "true" or "false".
pub open spec fn bool_text(b: bool) -> Seq<char> {
    if b {
        "true"@
    } else {
        "false"@
    }
}

/// The TOML front matter of the metadata, between "+++" lines; optional
/// fields appear only when present.
pub open spec fn toml_text(m: PostMetadata) -> Seq<char> {
    "+++\ntitle = \""@ + m.title@ + "\"\ndate = \""@ + m.date@ + "\"\ndescription = \""@
        + m.description@ + "\"\ntags = "@ + debug_list(string_views(m.tags@)) + "\n"@ + match m.categories {
        Some(c) => "categories = "@ + debug_list(string_views(c@)) + "\n"@,
        None => seq![],
    } + match m.draft {
        Some(d) => "draft = "@ + bool_text(d) + "\n"@,
        None => seq![],
    } + match m.weight {
        Some(w) => "weight = "@ + signed_decimal(w as int) + "\n"@,
        None => seq![],
    } + quoted_line("author"@, m.author) + quoted_line("cover_image"@, m.cover_image) + quoted_line(
        "series"@,
        m.series,
    ) + quoted_line("language"@, m.language) + "\n+++"@
}

/// Law: the `series` field gives the front matter's series line: with
/// `series` set to `s` the text holds the line `series = "s"`, and it is
/// longer, by exactly that line, than the text of the same metadata
/// without a series.
pub proof fn law_series_line(m1: PostMetadata, m2: PostMetadata, s: String)
    requires
        m2.title == m1.title,
        m2.date == m1.date,
        m2.description == m1.description,
        m2.tags == m1.tags,
        m2.categories == m1.categories,
        m2.draft == m1.draft,
        m2.weight == m1.weight,
        m2.author == m1.author,
        m2.cover_image == m1.cover_image,
        m2.language == m1.language,
        m1.series is None,
        m2.series == Some(s),
    ensures
        contains(toml_text(m2), "series = \""@ + s@ + "\"\n"@),
        toml_text(m2).len() == toml_text(m1).len() + s@.len() + 12,
{
    reveal_strlit("series");
    reveal_strlit(" = \"");
    reveal_strlit("\"\n");
    reveal_strlit("series = \"");
    let m = m2;
    let x = "+++\ntitle = \""@ + m.title@ + "\"\ndate = \""@ + m.date@ + "\"\ndescription = \""@
        + m.description@ + "\"\ntags = "@ + debug_list(string_views(m.tags@)) + "\n"@ + match m.categories {
        Some(c) => "categories = "@ + debug_list(string_views(c@)) + "\n"@,
        None => seq![],
    } + match m.draft {
        Some(d) => "draft = "@ + bool_text(d) + "\n"@,
        None => seq![],
    } + match m.weight {
        Some(w) => "weight = "@ + signed_decimal(w as int) + "\n"@,
        None => seq![],
    } + quoted_line("author"@, m.author) + quoted_line("cover_image"@, m.cover_image);
    let y = quoted_line("language"@, m.language) + "\n+++"@;
    let line = "series = \""@ + s@ + "\"\n"@;
    assert(quoted_line("series"@, m2.series) =~= line);
    assert(quoted_line("series"@, m1.series) =~= Seq::<char>::empty());
    assert(toml_text(m2) =~= x + line + y);
    assert(toml_text(m1) =~= x + y);
    assert(toml_text(m2).subrange(x.len() as int, (x.len() + line.len()) as int) =~= line);
    assert(occurs_at(toml_text(m2), line, x.len() as int));
}

fn push_quoted_line(out: &mut String, key: &str, v: &Option<String>)
    ensures
        final(out)@ == old(out)@ + quoted_line(key@, *v),
{
    match v {
        Some(s) => {
            push_str(out, key);
            push_str(out, " = \"");
            push_str(out, s.as_str());
            push_str(out, "\"\n");
        },
        None => {},
    }
}

impl PostMetadata {
    /// The front matter in TOML: title, date, description and tags, then
    /// each present optional field, between "+++" lines.
    pub fn to_toml(&self) -> (r: String)
        ensures
            r@ == toml_text(*self),
    {
        let mut r = String::new();
        push_str(&mut r, "+++\ntitle = \"");
        push_str(&mut r, self.title.as_str());
        push_str(&mut r, "\"\ndate = \"");
        push_str(&mut r, self.date.as_str());
        push_str(&mut r, "\"\ndescription = \"");
        push_str(&mut r, self.description.as_str());
        push_str(&mut r, "\"\ntags = ");
        let t = debug_string_list(&self.tags);
        push_str(&mut r, t.as_str());
        push_str(&mut r, "\n");
        match &self.categories {
            Some(c) => {
                push_str(&mut r, "categories = ");
                let d = debug_string_list(c);
                push_str(&mut r, d.as_str());
                push_str(&mut r, "\n");
            },
            None => {},
        }
        match self.draft {
            Some(d) => {
                push_str(&mut r, "draft = ");
                if d {
                    push_str(&mut r, "true");
                } else {
                    push_str(&mut r, "false");
                }
                push_str(&mut r, "\n");
            },
            None => {},
        }
        match self.weight {
            Some(w) => {
                push_str(&mut r, "weight = ");
                let digits = signed_decimal_i64(w as i64);
                push_chars(&mut r, &digits);
                push_str(&mut r, "\n");
            },
            None => {},
        }
        push_quoted_line(&mut r, "author", &self.author);
        push_quoted_line(&mut r, "cover_image", &self.cover_image);
        push_quoted_line(&mut r, "series", &self.series);
        push_quoted_line(&mut r, "language", &self.language);
        push_str(&mut r, "\n+++");
        r
    }
}

/// Metadata with the given date and all other fields at their defaults:
/// empty texts and tags, a draft, no optional field.
pub open spec fn default_metadata(m: PostMetadata, date: Seq<char>) -> bool {
    &&& m.title@ == Seq::<char>::empty()
    &&& m.date@ == date
    &&& m.description@ == Seq::<char>::empty()
    &&& m.tags@.len() == 0
    &&& m.categories is None
    &&& m.draft == Some(true)
    &&& m.weight is None
    &&& m.author is None
    &&& m.cover_image is None
    &&& m.series is None
    &&& m.language is None
}

impl PostMetadata {
    /// Default metadata dated `date`.
    pub fn dated(date: String) -> (r: PostMetadata)
        ensures
            default_metadata(r, date@),
    {
        PostMetadata {
            title: String::new(),
            date,
            description: String::new(),
            tags: Vec::new(),
            categories: None,
            draft: Some(true),
            weight: None,
            author: None,
            cover_image: None,
            series: None,
            language: None,
        }
    }
}

impl SavePostRequest {
    /// The file name of the saved post: the slug of its title and ".md".
    pub fn file_name(&self) -> (r: String)
        ensures
            r@ == slug(self.metadata.title@) + ".md"@,
    {
        let mut r = crate::post_check::post_file_stem(self.metadata.title.as_str());
        push_str(&mut r, ".md");
        r
    }

    /// The text of the saved post: the front matter, an empty line, the content.
    pub fn file_content(&self) -> (r: String)
        ensures
            r@ == toml_text(self.metadata) + "\n\n"@ + self.content@,
    {
        let mut r = self.metadata.to_toml();
        push_str(&mut r, "\n\n");
        push_str(&mut r, self.content.as_str());
        r
    }
}

} // verus!
