//! Chinese word segmentation for the index, and a token stream over a
//! vector of tokens.

use vstd::prelude::*;
use jieba_rs::Jieba;
use crate::text::contains;

verus! {

#[verifier::external_type_specification]
#[verifier::external_body]
pub struct ExJieba(Jieba);

/// What a jieba segmenter's dictionary holds: each word with its frequency.
pub uninterp spec fn dictionary_freqs(jieba: Jieba) -> Map<Seq<char>, nat>;

/// The words of jieba's search-mode cut of `text` (with HMM) under a
/// dictionary with these word frequencies.
pub uninterp spec fn search_cut(freqs: Map<Seq<char>, nat>, text: Seq<char>) -> Seq<Seq<char>>;

/// jieba's `Jieba::new`: a segmenter with jieba's embedded dictionary.
/// Nothing is stated of which words that dictionary holds.
#[verifier::external_body]
fn jieba_with_default_dict() -> Jieba {
    Jieba::new()
}

/// jieba's `Jieba::add_word` with no frequency and no tag: the word gets
/// the frequency that `suggest_freq` computes, which is returned (a new
/// word is added, an existing one only gets the new frequency); every
/// other word keeps its frequency.  Which frequency is suggested is not
/// stated beyond its being at least 1.
#[verifier::external_body]
fn jieba_add_word(jieba: &mut Jieba, word: &str) -> (f: usize)
    requires
        word@.len() > 0,
    ensures
        f >= 1,
        dictionary_freqs(*final(jieba)) == dictionary_freqs(*old(jieba)).insert(word@, f as nat),
{
    jieba.add_word(word, None, None)
}

/// The concatenation of the words.
pub open spec fn concat(ws: Seq<Seq<char>>) -> Seq<char>
    decreases ws.len(),
{
    if ws.len() == 0 {
        seq![]
    } else {
        concat(ws.drop_last()) + ws.last()
    }
}

/// The search-mode words built from the segmentation `ws`: for each word in
/// order, its extra sub-words `gs[i]`, then the word itself.
pub open spec fn search_words(ws: Seq<Seq<char>>, gs: Seq<Seq<Seq<char>>>) -> Seq<Seq<char>>
    decreases ws.len(),
{
    if ws.len() == 0 || gs.len() == 0 {
        seq![]
    } else {
        search_words(ws.drop_last(), gs.drop_last()) + gs.last().push(ws.last())
    }
}

/// `words` is a search-mode segmentation of `text`: the text is cut into
/// consecutive words, and each word comes after some of its own sub-words.
pub open spec fn is_search_segmentation(text: Seq<char>, words: Seq<Seq<char>>) -> bool {
    exists|ws: Seq<Seq<char>>, gs: Seq<Seq<Seq<char>>>|
        {
            &&& ws.len() == gs.len()
            &&& concat(ws) == text
            &&& forall|i: int, j: int|
                0 <= i < gs.len() && 0 <= j < gs[i].len() ==> contains(ws[i], #[trigger] gs[i][j])
            &&& words == search_words(ws, gs)
        }
}

/// The texts of string slices.
pub open spec fn str_views(v: Seq<&str>) -> Seq<Seq<char>> {
    v.map_values(|s: &str| s@)
}

/// jieba's `Jieba::cut_for_search` with HMM enabled.  The words are named:
/// they depend on the text and the dictionary's word frequencies alone
/// (the total the route is scored against is their sum; the HMM model is
/// fixed).  The source cuts the text into consecutive slices (`cut`) and,
/// before each slice, adds those of its 2- and 3-character sub-slices that
/// are in the dictionary; so the result is a search-mode segmentation of
/// `text` and every word occurs in `text`.
#[verifier::external_body]
fn jieba_cut_for_search<'a>(jieba: &Jieba, text: &'a str) -> (r: Vec<&'a str>)
    ensures
        str_views(r@) == search_cut(dictionary_freqs(*jieba), text@),
        is_search_segmentation(text@, str_views(r@)),
        forall|i: int| 0 <= i < r@.len() ==> #[trigger] contains(text@, r@[i]@),
{
    jieba.cut_for_search(text, true)
}

/// Owned copies of the words.
fn owned_words(words: &Vec<&str>) -> (r: Vec<String>)
    ensures
        r@.len() == words@.len(),
        forall|i: int| 0 <= i < r@.len() ==> #[trigger] r@[i]@ == words@[i]@,
{
    let mut r: Vec<String> = Vec::new();
    let mut i: usize = 0;
    while i < words.len()
        invariant
            0 <= i <= words.len(),
            r@.len() == i,
            forall|k: int| 0 <= k < i ==> #[trigger] r@[k]@ == words@[k]@,
        decreases words.len() - i,
    {
        r.push(words[i].to_owned());
        i = i + 1;
    }
    r
}

/// A token of the index: a word and its position.
pub struct Token {
    pub offset_from: usize,
    pub offset_to: usize,
    pub position: usize,
    pub text: String,
    pub position_length: usize,
}

/// The token for word `text` at position `i`: offsets are not computed
/// and are 0, every word spans one position.
pub open spec fn word_token(i: int, text: Seq<char>, t: Token) -> bool {
    &&& t.offset_from == 0
    &&& t.offset_to == 0
    &&& t.position == i
    &&& t.text@ == text
    &&& t.position_length == 1
}

/// Tokens for the words, the i-th word at position i.
pub fn tokens_from_words(words: Vec<String>) -> (r: Vec<Token>)
    ensures
        r@.len() == words@.len(),
        forall|i: int| 0 <= i < r@.len() ==> word_token(i, words@[i]@, #[trigger] r@[i]),
{
    let mut r: Vec<Token> = Vec::new();
    let mut i: usize = 0;
    while i < words.len()
        invariant
            0 <= i <= words.len(),
            r@.len() == i,
            forall|k: int| 0 <= k < i ==> word_token(k, words@[k]@, #[trigger] r@[k]),
        decreases words.len() - i,
    {
        let t = Token {
            offset_from: 0,
            offset_to: 0,
            position: i,
            text: words[i].clone(),
            position_length: 1,
        };
        r.push(t);
        i = i + 1;
    }
    r
}

/// Segments Chinese (and mixed) text with jieba in search mode, with a
/// dictionary extended by technical vocabulary.
pub struct ChineseTokenizer {
    jieba: Jieba,
}

/// The technical words the tokenizer's dictionary is extended with.
pub open spec fn tech_words() -> Seq<Seq<char>> {
    seq![
        "Rust"@,
        "Cargo"@,
        "crate"@,
        "async"@,
        "await"@,
        "tokio"@,
        "axum"@,
        "tantivy"@,
        "PostgreSQL"@,
        "数据库"@,
        "索引"@,
        "并发"@,
        "异步"@,
        "线程"@,
        "智能指针"@,
        "所有权"@,
        "借用"@,
        "生命周期"@,
    ]
}

/// The texts of tokens.
pub open spec fn token_texts(ts: Seq<Token>) -> Seq<Seq<char>> {
    ts.map_values(|t: Token| t.text@)
}

impl ChineseTokenizer {
    /// The tokenizer's dictionary: each word with its frequency.
    pub closed spec fn weights(&self) -> Map<Seq<char>, nat> {
        dictionary_freqs(self.jieba)
    }

    /// A tokenizer whose dictionary also knows the blog's technical words
    /// ("Rust", "Cargo", "crate", "async", "await", "tokio", "axum",
    /// "tantivy", "PostgreSQL", "数据库", "索引", "并发", "异步", "线程",
    /// "智能指针", "所有权", "借用", "生命周期").
    pub fn new() -> (r: ChineseTokenizer)
        ensures
            forall|i: int|
                0 <= i < tech_words().len() ==> r.weights().dom().contains(#[trigger] tech_words()[i]),
    {
        let mut jieba = jieba_with_default_dict();
        let words: Vec<&str> = vec![
            "Rust",
            "Cargo",
            "crate",
            "async",
            "await",
            "tokio",
            "axum",
            "tantivy",
            "PostgreSQL",
            "数据库",
            "索引",
            "并发",
            "异步",
            "线程",
            "智能指针",
            "所有权",
            "借用",
            "生命周期",
        ];
        proof {
            reveal_strlit("Rust");
            reveal_strlit("Cargo");
            reveal_strlit("crate");
            reveal_strlit("async");
            reveal_strlit("await");
            reveal_strlit("tokio");
            reveal_strlit("axum");
            reveal_strlit("tantivy");
            reveal_strlit("PostgreSQL");
            reveal_strlit("数据库");
            reveal_strlit("索引");
            reveal_strlit("并发");
            reveal_strlit("异步");
            reveal_strlit("线程");
            reveal_strlit("智能指针");
            reveal_strlit("所有权");
            reveal_strlit("借用");
            reveal_strlit("生命周期");
        }
        assert(str_views(words@) =~= tech_words());
        assert forall|k: int| 0 <= k < tech_words().len() implies (#[trigger] tech_words()[k]).len() > 0 by {
        }
        let mut i: usize = 0;
        while i < words.len()
            invariant
                0 <= i <= words.len(),
                str_views(words@) == tech_words(),
                forall|k: int| 0 <= k < tech_words().len() ==> (#[trigger] tech_words()[k]).len() > 0,
                forall|k: int|
                    0 <= k < i ==> dictionary_freqs(jieba).dom().contains(#[trigger] tech_words()[k]),
            decreases words.len() - i,
        {
            assert(str_views(words@)[i as int] == words@[i as int]@);
            assert(words@[i as int]@.len() > 0);
            jieba_add_word(&mut jieba, words[i]);
            i = i + 1;
        }
        ChineseTokenizer { jieba }
    }

    /// The tokens of `text`: the words of jieba's search-mode cut under the
    /// tokenizer's dictionary (the text cut into consecutive words, each
    /// after some of its sub-words), in order, the i-th at position i.
    pub fn token_stream(&self, text: &str) -> (r: VecTokenStream)
        ensures
            r@.index == 0,
            token_texts(r@.tokens) == search_cut(self.weights(), text@),
            forall|i: int| 0 <= i < r@.tokens.len() ==> (#[trigger] r@.tokens[i]).position == i,
            forall|i: int|
                0 <= i < r@.tokens.len() ==> (#[trigger] r@.tokens[i]).offset_from == 0
                    && r@.tokens[i].offset_to == 0 && r@.tokens[i].position_length == 1,
            forall|i: int| 0 <= i < r@.tokens.len() ==> contains(text@, (#[trigger] r@.tokens[i]).text@),
            is_search_segmentation(text@, token_texts(r@.tokens)),
    {
        let cut = jieba_cut_for_search(&self.jieba, text);
        let words = owned_words(&cut);
        let ghost wv = words@;
        let tokens = tokens_from_words(words);
        assert forall|i: int| 0 <= i < tokens@.len() implies contains(text@, (#[trigger] tokens@[i]).text@) by {
            assert(word_token(i, wv[i]@, tokens@[i]));
            assert(wv[i]@ == cut@[i]@);
            assert(contains(text@, cut@[i]@));
        }
        assert forall|i: int| 0 <= i < tokens@.len() implies #[trigger] token_texts(tokens@)[i] == str_views(cut@)[i] by {
            assert(word_token(i, wv[i]@, tokens@[i]));
        }
        assert(token_texts(tokens@) =~= str_views(cut@));
        VecTokenStream::new(tokens)
    }
}

/// Model of a [`VecTokenStream`]: the tokens, and how many have been
/// advanced over.
pub struct TokenStreamView {
    pub tokens: Seq<Token>,
    pub index: nat,
}

/// One `advance` in the model: the next state, and whether it moved.
pub open spec fn advance_step(v: TokenStreamView) -> (TokenStreamView, bool) {
    if v.index < v.tokens.len() {
        (TokenStreamView { tokens: v.tokens, index: v.index + 1 }, true)
    } else {
        (v, false)
    }
}

/// The model after `n` advances from `v`.
pub open spec fn after_advances(v: TokenStreamView, n: nat) -> TokenStreamView
    decreases n,
{
    if n == 0 {
        v
    } else {
        advance_step(after_advances(v, (n - 1) as nat)).0
    }
}

/// Law: a stream made from `tokens` yields them in order and then stops.
/// After `n` advances from the start, the next `advance` succeeds exactly
/// when `n` is below the number of tokens, and the token it moves to is
/// `tokens[n]`; later advances leave the stream at its end.
pub proof fn law_stream_yields_tokens_in_order(tokens: Seq<Token>, n: nat)
    ensures
        ({
            let s = after_advances(TokenStreamView { tokens, index: 0 }, n);
            let (next, moved) = advance_step(s);
            &&& s.tokens == tokens
            &&& s.index == (if n <= tokens.len() {
                n
            } else {
                tokens.len()
            })
            &&& moved == (n < tokens.len())
            &&& moved ==> next.tokens[next.index - 1] == tokens[n as int]
        }),
    decreases n,
{
    if n > 0 {
        law_stream_yields_tokens_in_order(tokens, (n - 1) as nat);
    }
}

/// A token stream over a vector: `advance` moves to the next token, and
/// `token` is the token last advanced to.
pub struct VecTokenStream {
    tokens: Vec<Token>,
    index: usize,
}

impl View for VecTokenStream {
    type V = TokenStreamView;

    closed spec fn view(&self) -> TokenStreamView {
        TokenStreamView { tokens: self.tokens@, index: self.index as nat }
    }
}

impl VecTokenStream {
    #[verifier::type_invariant]
    spec fn index_in_range(self) -> bool {
        self.index <= self.tokens@.len()
    }

    /// A stream positioned before its first token.
    pub fn new(tokens: Vec<Token>) -> (r: VecTokenStream)
        ensures
            r@.tokens == tokens@,
            r@.index == 0,
    {
        VecTokenStream { tokens, index: 0 }
    }

    /// Moves to the next token; `false` (and no move) when there is none.
    pub fn advance(&mut self) -> (r: bool)
        ensures
            r == (old(self)@.index < old(self)@.tokens.len()),
            final(self)@.tokens == old(self)@.tokens,
            final(self)@.index == if r {
                old(self)@.index + 1
            } else {
                old(self)@.index
            },
            final(self)@.index <= final(self)@.tokens.len(),
            (final(self)@, r) == advance_step(old(self)@),
    {
        proof {
            use_type_invariant(&*self);
        }
        if self.index < self.tokens.len() {
            self.index = self.index + 1;
            true
        } else {
            false
        }
    }

    /// The token last advanced to.
    pub fn token(&self) -> (r: &Token)
        requires
            self@.index >= 1,
        ensures
            *r == self@.tokens[self@.index - 1],
    {
        proof {
            use_type_invariant(self);
        }
        &self.tokens[self.index - 1]
    }

    /// The token last advanced to, for changing it.
    pub fn token_mut(&mut self) -> (r: &mut Token)
        requires
            old(self)@.index >= 1,
        ensures
            *r == old(self)@.tokens[old(self)@.index - 1],
            final(self)@.index == old(self)@.index,
            final(self)@.tokens == old(self)@.tokens.update(old(self)@.index - 1, *final(r)),
    {
        proof {
            use_type_invariant(&*self);
        }
        let i = self.index - 1;
        &mut self.tokens[i]
    }

    /// Every token of the stream.
    pub fn tokens(&self) -> (r: &Vec<Token>)
        ensures
            r@ == self@.tokens,
    {
        &self.tokens
    }

    /// How many tokens have been advanced over.
    pub fn index(&self) -> (r: usize)
        ensures
            r == self@.index,
    {
        self.index
    }
}

} // verus!
