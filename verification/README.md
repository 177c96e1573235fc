# blog_tools

The tools of a personal blog built with Zola, with their logic verified by
Verus:

- `src/indexing.rs`: the documents a post is indexed as (a main document,
  one per indexable line, headings repeated by level);
- `src/excerpt.rs`, `src/search.rs`: excerpts around a line and the three
  stages that turn index hits into ranked search results;
- `src/front_matter.rs`: posts and their TOML front matter;
- `src/tokenizer.rs`: Chinese word segmentation with jieba;
- `src/post_check.rs`, `src/post_meta.rs`: format checks, automatic fixes,
  new posts and the editor's metadata;
- `src/paths.rs`, `src/metadata.rs`, `src/maintenance.rs`: file selection,
  redirects, gallery posts, the simple search's ripgrep matches and front
  matter lines, index upkeep;
- `src/text.rs`: the string operations above, modelled on `Seq<char>`.

`app/` holds the programs around the library: the tantivy index and the
HTTP services, the post manager commands, the editor and the gallery
generator.
