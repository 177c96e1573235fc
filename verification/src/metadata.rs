//! The simple search service's logic: the matches read from ripgrep's JSON
//! output, and the title and tags read line by line from a post's front
//! matter, shown next to each match.

use vstd::prelude::*;
use crate::front_matter::opt_string_view;
use crate::text::{
    chars_eq, chars_of, lines, split, split_chars, starts_with, starts_with_chars, str_lines,
    string_of, string_views, trim, trim_chars, trim_end_char, trim_end_char_exec, trim_start_char,
    trim_start_char_exec, trim_start_str, trim_start_str_exec, vec_views,
};

verus! {

/// `str::trim_matches('"')`: without leading and trailing '"'.
pub open spec fn unquote(s: Seq<char>) -> Seq<char> {
    trim_end_char(trim_start_char(s, '"'), '"')
}

/// The title of a `title = ` line.
pub open spec fn title_value(line: Seq<char>) -> Seq<char> {
    unquote(trim_start_str(line, "title = "@))
}

/// The tags of a `tags = ` line: the text after `tags = [` up to the
/// closing ']', split at ',', each piece trimmed and without its quotes.
pub open spec fn tags_value(line: Seq<char>) -> Seq<Seq<char>> {
    split(trim_end_char(trim_start_str(line, "tags = ["@), ']'), ',').map_values(
        |p: Seq<char>| unquote(trim(p)),
    )
}

/// State after reading the lines `ls`: whether inside the front matter,
/// the title and the tags found so far.
pub open spec fn metadata_scan(ls: Seq<Seq<char>>) -> (bool, Seq<char>, Seq<Seq<char>>)
    decreases ls.len(),
{
    if ls.len() == 0 {
        (false, seq![], seq![])
    } else {
        let (inside, title, tags) = metadata_scan(ls.drop_last());
        let line = ls.last();
        if line == "+++"@ {
            (!inside, title, tags)
        } else if inside && starts_with(line, "title = "@) {
            (inside, title_value(line), tags)
        } else if inside && starts_with(line, "tags = "@) {
            (inside, title, tags_value(line))
        } else {
            (inside, title, tags)
        }
    }
}

/// Title and tags of a post: the last `title = ` and `tags = ` lines
/// between "+++" lines (each "+++" line opens or closes the front matter).
pub open spec fn metadata_of(content: Seq<char>) -> (Seq<char>, Seq<Seq<char>>) {
    let (_, title, tags) = metadata_scan(lines(content));
    (title, tags)
}

fn unquote_exec(s: &Vec<char>) -> (r: Vec<char>)
    ensures
        r@ == unquote(s@),
{
    trim_end_char_exec(&trim_start_char_exec(s, '"'), '"')
}

fn tags_value_exec(line: &Vec<char>) -> (r: Vec<String>)
    ensures
        string_views(r@) == tags_value(line@),
{
    let p = chars_of("tags = [");
    proof {
        reveal_strlit("tags = [");
    }
    let body = trim_end_char_exec(&trim_start_str_exec(line, &p), ']');
    let pieces = split_chars(&body, ',');
    let ghost pv = split(body@, ',');
    let mut out: Vec<String> = Vec::new();
    let mut i: usize = 0;
    while i < pieces.len()
        invariant
            0 <= i <= pieces.len(),
            pieces@.len() == pv.len(),
            forall|k: int| 0 <= k < pieces@.len() ==> #[trigger] pieces@[k]@ == pv[k],
            out@.len() == i,
            forall|k: int| 0 <= k < i ==> #[trigger] out@[k]@ == unquote(trim(pv[k])),
        decreases pieces.len() - i,
    {
        let u = unquote_exec(&trim_chars(&chars_of(pieces[i].as_str())));
        out.push(string_of(&u));
        i = i + 1;
    }
    proof {
        reveal_strlit("tags = [");
        assert(string_views(out@) =~= tags_value(line@));
    }
    out
}

/// The title and tags of the
/// post's front matter.
pub fn extract_metadata(content: &str) -> (r: (String, Vec<String>))
    ensures
        r.0@ == metadata_of(content@).0,
        string_views(r.1@) == metadata_of(content@).1,
{
    let ls = str_lines(content);
    let ghost lv = vec_views(ls@);
    let fence = chars_of("+++");
    let title_key = chars_of("title = ");
    let tags_key = chars_of("tags = ");
    proof {
        reveal_strlit("title = ");
    }
    let mut inside = false;
    let mut title: Vec<char> = Vec::new();
    let mut tags: Vec<String> = Vec::new();
    let mut i: usize = 0;
    while i < ls.len()
        invariant
            0 <= i <= ls.len(),
            lv == vec_views(ls@),
            fence@ == "+++"@,
            title_key@.len() > 0,
            title_key@ == "title = "@,
            tags_key@ == "tags = "@,
            metadata_scan(lv.take(i as int)) == (inside, title@, string_views(tags@)),
        decreases ls.len() - i,
    {
        assert(lv.take(i + 1).drop_last() == lv.take(i as int));
        assert(lv.take(i + 1).last() == ls@[i as int]@);
        let line = &ls[i];
        if chars_eq(line, &fence) {
            inside = !inside;
        } else if inside && starts_with_chars(line, &title_key) {
            title = unquote_exec(&trim_start_str_exec(line, &title_key));
            proof {
                reveal_strlit("title = ");
            }
        } else if inside && starts_with_chars(line, &tags_key) {
            tags = tags_value_exec(line);
        }
        i = i + 1;
    }
    assert(lv.take(ls.len() as int) == lv);
    (string_of(&title), tags)
}

// ---------------------------------------------------------------------------
// Matches in ripgrep's output
// ---------------------------------------------------------------------------

#[verifier::external_type_specification]
#[verifier::external_body]
pub struct ExJsonValue(serde_json::Value);

/// What a JSON value holds, as far as reading fields and strings goes: an
/// object's fields by name, a string's text, or another kind of value.
pub enum JsonModel {
    Object(Map<Seq<char>, JsonModel>),
    Str(Seq<char>),
    Other,
}

/// What a serde_json `Value` holds.
pub uninterp spec fn json_model(v: serde_json::Value) -> JsonModel;

/// The JSON value a text parses as, if it is JSON.
pub uninterp spec fn json_text(text: Seq<char>) -> Option<JsonModel>;

/// The field `key` of an object; none for other values.
pub open spec fn json_field(m: JsonModel, key: Seq<char>) -> Option<JsonModel> {
    match m {
        JsonModel::Object(fields) => if fields.dom().contains(key) {
            Some(fields[key])
        } else {
            None
        },
        _ => None,
    }
}

/// serde_json's `from_str` into a `Value`, `None` where the text is not
/// JSON.  What it parses is named: it depends on the text alone.
#[verifier::external_body]
fn parse_json(text: &str) -> (r: Option<serde_json::Value>)
    ensures
        match r {
            Some(v) => json_text(text@) == Some(json_model(v)),
            None => json_text(text@) is None,
        },
{
    serde_json::from_str(text).ok()
}

/// serde_json's `Value::get` with a string key: an object's field of that
/// name; none for a missing field and for values that are not objects.
#[verifier::external_body]
fn json_get<'a>(v: &'a serde_json::Value, key: &str) -> (r: Option<&'a serde_json::Value>)
    ensures
        match r {
            Some(f) => json_field(json_model(*v), key@) == Some(json_model(*f)),
            None => json_field(json_model(*v), key@) is None,
        },
{
    v.get(key)
}

/// serde_json's `Value::as_str`: the text of a string; none for other
/// values.
#[verifier::external_body]
fn json_as_str(v: &serde_json::Value) -> (r: Option<String>)
    ensures
        opt_string_view(r) == match json_model(*v) {
            JsonModel::Str(s) => Some(s),
            _ => None,
        },
{
    match v.as_str() {
        Some(s) => Some(s.to_string()),
        None => None,
    }
}

/// The text of the field `key` of `d`, which ripgrep writes as an object
/// `{"text": ...}`.
pub open spec fn text_of_field(d: JsonModel, key: Seq<char>) -> Option<Seq<char>> {
    match json_field(d, key) {
        Some(o) => match json_field(o, "text"@) {
            Some(JsonModel::Str(s)) => Some(s),
            _ => None,
        },
        None => None,
    }
}

/// The path and the matched text of one line of ripgrep's JSON output:
/// `data.path.text` and `data.lines.text`, where the line is JSON and has
/// both (a match message; begin, end and summary messages have no lines).
pub open spec fn rg_fields(line: Seq<char>) -> Option<(Seq<char>, Seq<char>)> {
    match json_text(line) {
        Some(v) => match json_field(v, "data"@) {
            Some(d) => match (text_of_field(d, "path"@), text_of_field(d, "lines"@)) {
                (Some(p), Some(t)) => Some((p, t)),
                _ => None,
            },
            None => None,
        },
        None => None,
    }
}

pub open spec fn opt_pair_view(p: Option<(String, String)>) -> Option<(Seq<char>, Seq<char>)> {
    match p {
        Some((a, b)) => Some((a@, b@)),
        None => None,
    }
}

/// The text of the field `key` of a JSON value.
fn text_field(d: &serde_json::Value, key: &str) -> (r: Option<String>)
    ensures
        opt_string_view(r) == text_of_field(json_model(*d), key@),
{
    match json_get(d, key) {
        Some(o) => match json_get(o, "text") {
            Some(t) => json_as_str(t),
            None => None,
        },
        None => None,
    }
}

/// The path and the matched text of one line of ripgrep's JSON output.
pub fn rg_line_fields(line: &str) -> (r: Option<(String, String)>)
    ensures
        opt_pair_view(r) == rg_fields(line@),
{
    let v = match parse_json(line) {
        Some(v) => v,
        None => return None,
    };
    let data = match json_get(&v, "data") {
        Some(d) => d,
        None => return None,
    };
    let path = text_field(data, "path");
    let text = text_field(data, "lines");
    match (path, text) {
        (Some(p), Some(t)) => Some((p, t)),
        _ => None,
    }
}

/// The (path, text) pairs of the output lines that carry both, in order.
pub open spec fn rg_matches_spec(ls: Seq<Seq<char>>) -> Seq<(Seq<char>, Seq<char>)>
    decreases ls.len(),
{
    if ls.len() == 0 {
        seq![]
    } else {
        let rest = rg_matches_spec(ls.drop_last());
        match rg_fields(ls.last()) {
            Some(p) => rest.push(p),
            None => rest,
        }
    }
}

pub open spec fn pair_views(v: Seq<(String, String)>) -> Seq<(Seq<char>, Seq<char>)> {
    v.map_values(|p: (String, String)| (p.0@, p.1@))
}

/// The path and matched text of each line of ripgrep's JSON output that
/// carries both, in the order of the lines.
pub fn rg_matches(output: &str) -> (r: Vec<(String, String)>)
    ensures
        pair_views(r@) == rg_matches_spec(lines(output@)),
{
    let ls = str_lines(output);
    let ghost lv = vec_views(ls@);
    let mut out: Vec<(String, String)> = Vec::new();
    let mut i: usize = 0;
    while i < ls.len()
        invariant
            0 <= i <= ls.len(),
            lv == vec_views(ls@),
            pair_views(out@) == rg_matches_spec(lv.take(i as int)),
        decreases ls.len() - i,
    {
        assert(lv.take(i + 1).drop_last() == lv.take(i as int));
        assert(lv.take(i + 1).last() == ls@[i as int]@);
        let line = string_of(&ls[i]);
        match rg_line_fields(line.as_str()) {
            Some(p) => {
                let ghost before = out@;
                out.push(p);
                assert(pair_views(out@) =~= pair_views(before).push((p.0@, p.1@)));
            },
            None => {},
        }
        i = i + 1;
    }
    assert(lv.take(ls.len() as int) == lv);
    out
}

} // verus!
