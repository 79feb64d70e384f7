//! How text is cut into words.
//!
//! An analyzer cuts a text into tokens and passes them through filters.  The index
//! knows five of them by name.  Chinese, Japanese and Korean text has no spaces to cut
//! at; there the words come from a dictionary.

use vstd::prelude::*;

use crate::text;

verus! {

// ---------------------------------------------------------------------------
// Analyzers
// ---------------------------------------------------------------------------

/// How a text is cut.
#[derive(Clone, Copy, Debug, PartialEq, Eq, Structural)]
pub enum Tokenizer {
    /// At everything that is neither a letter nor a digit.
    Simple,
    /// Not at all.
    Raw,
    /// Into all runs of so many characters.
    Ngram { min: usize, max: usize },
    /// Into the words of a dictionary.
    Jieba,
}

/// An analyzer: a tokenizer and its filters, in the order in which they apply.
#[derive(Debug)]
pub struct AnalyzerSpec {
    pub name: String,
    pub tokenizer: Tokenizer,
    /// Tokens of this many bytes or more are dropped.
    pub long_limit: Option<usize>,
    /// Whether the tokens are put in lower case.
    pub lowercase: bool,
    /// Tokens that are dropped.
    pub stop_words: Vec<String>,
}

/// The stop words of English.
pub const ENGLISH_STOP_WORDS: &'static str =
    "a an and are as at be but by for if in into is it no not of on or such that the their then \
     there these they this to was will with";

/// The stop words of Portuguese.
pub const PORTUGUESE_STOP_WORDS: &'static str =
    "a ao aos aquela aquelas aquele aqueles aquilo as até com como da das de dela delas dele deles \
     depois do dos e ela elas ele eles em entre era essa essas esse esses esta estas este estes eu \
     foi fomos for foram há isso isto já lhe lhes mais mas me mesmo meu meus minha minhas muito na \
     nas no nos nós nossa nossas nosso nossos num numa não o os ou para pela pelas pelo pelos por \
     qual quando que quem se sem seu seus sua suas são só também te tem tendo teu teus tu tua tuas \
     um uma umas uns você vocês vos";

impl AnalyzerSpec {
    /// What the analyzer is.
    pub open spec fn is(
        &self,
        name: Seq<char>,
        tokenizer: Tokenizer,
        long_limit: Option<usize>,
        lowercase: bool,
        stop_words: Seq<Seq<char>>,
    ) -> bool {
        &&& self.name@ == name
        &&& self.tokenizer == tokenizer
        &&& self.long_limit == long_limit
        &&& self.lowercase == lowercase
        &&& text::texts(self.stop_words@) == stop_words
    }
}

fn analyzer(
    name: &str,
    tokenizer: Tokenizer,
    long_limit: Option<usize>,
    lowercase: bool,
    stop_words: Vec<String>,
) -> (a: AnalyzerSpec)
    ensures
        a.is(name@, tokenizer, long_limit, lowercase, text::texts(stop_words@)),
{
    AnalyzerSpec { name: name.to_owned(), tokenizer, long_limit, lowercase, stop_words }
}

/// The analyzers that every index knows.
pub fn analyzers() -> (out: Vec<AnalyzerSpec>)
    ensures
        out@.len() == 5,
        out@[0].is(
            "standard"@,
            Tokenizer::Simple,
            Some(100),
            true,
            text::words(ENGLISH_STOP_WORDS@),
        ),
        out@[1].is("keyword"@, Tokenizer::Raw, Some(256), false, Seq::empty()),
        out@[2].is("ngram"@, Tokenizer::Ngram { min: 2, max: 3 }, None, true, Seq::empty()),
        out@[3].is(
            "portuguese"@,
            Tokenizer::Simple,
            Some(100),
            true,
            text::words(PORTUGUESE_STOP_WORDS@),
        ),
        out@[4].is("cjk"@, Tokenizer::Jieba, None, true, Seq::empty()),
{
    assert(text::texts(Seq::<String>::empty()) =~= Seq::empty());
    let mut out: Vec<AnalyzerSpec> = Vec::new();
    out.push(
        analyzer(
            "standard",
            Tokenizer::Simple,
            Some(100),
            true,
            text::split_whitespace(ENGLISH_STOP_WORDS),
        ),
    );
    out.push(analyzer("keyword", Tokenizer::Raw, Some(256), false, Vec::new()));
    out.push(analyzer("ngram", Tokenizer::Ngram { min: 2, max: 3 }, None, true, Vec::new()));
    out.push(
        analyzer(
            "portuguese",
            Tokenizer::Simple,
            Some(100),
            true,
            text::split_whitespace(PORTUGUESE_STOP_WORDS),
        ),
    );
    out.push(analyzer("cjk", Tokenizer::Jieba, None, true, Vec::new()));
    out
}

// ---------------------------------------------------------------------------
// Words of a dictionary
// ---------------------------------------------------------------------------

/// How words of a dictionary are chosen: the words of the text only, or also the
/// shorter words inside them.
#[derive(Clone, Copy, Debug, PartialEq, Eq, Structural)]
pub enum Segmentation {
    Default,
    Search,
}

/// The values of a list of words with their positions.
pub open spec fn word_views(words: Seq<(String, usize, usize)>) -> Seq<(Seq<char>, usize, usize)> {
    Seq::new(words.len(), |i: int| (words[i].0@, words[i].1, words[i].2))
}

/// Each word stands in the text at its positions in characters, and every character of
/// the text belongs to a word.
pub open spec fn are_words(s: Seq<char>, words: Seq<(Seq<char>, usize, usize)>) -> bool {
    &&& forall|i: int|
        0 <= i < words.len() ==> {
            &&& (#[trigger] words[i]).1 < words[i].2 <= s.len()
            &&& words[i].0 == s.subrange(words[i].1 as int, words[i].2 as int)
        }
    &&& forall|k: int|
        #![trigger s[k]]
        0 <= k < s.len() ==> exists|i: int|
            0 <= i < words.len() && (#[trigger] words[i]).1 <= k < words[i].2
}

/// `jieba_rs::Jieba::tokenize` on a fresh `jieba_rs::Jieba`: words of a text, with their
/// positions in characters, that leave out nothing of it.  Which words are chosen rests on
/// sums of logarithms that are computed at run time, and is not stated.
#[verifier::external_body]
fn jieba_tokenize(text: &str, mode: Segmentation, hmm: bool) -> (words: Vec<(String, usize, usize)>)
    ensures
        are_words(text@, word_views(words@)),
{
    let mode = match mode {
        Segmentation::Default => jieba_rs::TokenizeMode::Default,
        Segmentation::Search => jieba_rs::TokenizeMode::Search,
    };
    let tokens = jieba_rs::Jieba::new().tokenize(text, mode, hmm);
    tokens.into_iter().map(|t| (t.word.to_owned(), t.start, t.end)).collect()
}

/// How many bytes a character takes in UTF-8.
pub open spec fn utf8_width(c: char) -> nat {
    if (c as u32) < 0x80 {
        1
    } else if (c as u32) < 0x800 {
        2
    } else if (c as u32) < 0x10000 {
        3
    } else {
        4
    }
}

/// How many bytes a text takes in UTF-8.
pub open spec fn byte_len(s: Seq<char>) -> nat
    decreases s.len(),
{
    if s.len() == 0 {
        0
    } else {
        byte_len(s.drop_last()) + utf8_width(s.last())
    }
}

/// The position in bytes of the position `i` in characters; the end of the text where
/// there is no such character.
pub open spec fn byte_offset(s: Seq<char>, i: int) -> nat {
    if 0 <= i < s.len() {
        byte_len(s.take(i))
    } else {
        byte_len(s)
    }
}

/// The words with their positions in bytes.
pub open spec fn in_bytes(s: Seq<char>, words: Seq<(Seq<char>, usize, usize)>) -> Seq<
    (Seq<char>, int, int),
> {
    Seq::new(
        words.len(),
        |i: int|
            (
                words[i].0,
                byte_offset(s, words[i].1 as int) as int,
                byte_offset(s, words[i].2 as int) as int,
            ),
    )
}

/// The tokens are these words at these positions.
pub open spec fn are_tokens(
    tokens: Seq<(String, usize, usize)>,
    words: Seq<(Seq<char>, int, int)>,
) -> bool {
    &&& tokens.len() == words.len()
    &&& forall|i: int|
        0 <= i < tokens.len() ==> (#[trigger] tokens[i]).0@ == words[i].0 && tokens[i].1
            == words[i].1 && tokens[i].2 == words[i].2
}

fn width_of(c: char) -> (w: usize)
    ensures
        w == utf8_width(c),
{
    let n: u32 = c as u32;
    if n < 0x80 {
        1
    } else if n < 0x800 {
        2
    } else if n < 0x10000 {
        3
    } else {
        4
    }
}

proof fn lemma_byte_len(s: Seq<char>, i: int)
    requires
        0 <= i <= s.len(),
    ensures
        byte_len(s.take(i)) <= byte_len(s),
    decreases s.len(),
{
    if i < s.len() {
        lemma_byte_len(s.drop_last(), i);
        assert(s.drop_last().take(i) =~= s.take(i));
    } else {
        assert(s.take(i) =~= s);
    }
}

proof fn lemma_byte_len_front(s: Seq<char>)
    requires
        s.len() > 0,
    ensures
        byte_len(s) == utf8_width(s[0]) + byte_len(s.drop_first()),
    decreases s.len(),
{
    if s.len() > 1 {
        lemma_byte_len_front(s.drop_last());
        assert(s.drop_last().drop_first() =~= s.drop_first().drop_last());
    } else {
        assert(s.drop_last() =~= s.drop_first());
    }
}

proof fn lemma_encoded_len(s: Seq<char>)
    ensures
        vstd::utf8::encode_utf8(s).len() == byte_len(s),
    decreases s.len(),
{
    if s.len() > 0 {
        let c: char = s[0];
        vstd::utf8::char_is_scalar(c);
        assert(vstd::utf8::encode_scalar(c as u32).len() == utf8_width(c));
        lemma_byte_len_front(s);
        lemma_encoded_len(s.drop_first());
    }
}

/// The positions in bytes of all characters, and of the end of the text.
fn byte_offsets(chars: &Vec<char>) -> (offsets: Vec<usize>)
    requires
        byte_len(chars@) <= usize::MAX,
    ensures
        offsets@.len() == chars@.len() + 1,
        forall|i: int| 0 <= i <= chars@.len() ==> #[trigger] offsets@[i] == byte_len(chars@.take(i)),
{
    let mut offsets: Vec<usize> = Vec::new();
    let mut at: usize = 0;
    offsets.push(0);
    assert(byte_len(chars@.take(0)) == 0);
    let mut i: usize = 0;
    while i < chars.len()
        invariant
            i <= chars@.len(),
            byte_len(chars@) <= usize::MAX,
            at == byte_len(chars@.take(i as int)),
            offsets@.len() == i + 1,
            forall|j: int| 0 <= j <= i ==> #[trigger] offsets@[j] == byte_len(chars@.take(j)),
        decreases chars@.len() - i,
    {
        proof {
            assert(chars@.take(i + 1).drop_last() =~= chars@.take(i as int));
            assert(chars@.take(i + 1).last() == chars@[i as int]);
            lemma_byte_len(chars@, i + 1);
        }
        at = at + width_of(chars[i]);
        offsets.push(at);
        i = i + 1;
    }
    offsets
}

/// The words of a text with their positions in bytes, from their positions in
/// characters.
pub fn byte_tokens(text: &str, words: Vec<(String, usize, usize)>) -> (out: Vec<
    (String, usize, usize),
>)
    ensures
        are_tokens(out@, in_bytes(text@, word_views(words@))),
{
    let chars = text::chars_of(text);
    let n: usize = chars.len();
    let bytes: usize = text.as_bytes().len();
    proof {
        lemma_encoded_len(text@);
        assert(bytes == byte_len(text@));
    }
    let offsets = byte_offsets(&chars);
    assert(text@.take(n as int) =~= text@);
    assert(offsets@[n as int] == byte_len(text@));
    let mut out: Vec<(String, usize, usize)> = Vec::new();
    let mut i: usize = 0;
    while i < words.len()
        invariant
            i <= words@.len(),
            chars@ == text@,
            n == text@.len(),
            offsets@.len() == n + 1,
            offsets@[n as int] == byte_len(text@),
            forall|j: int| 0 <= j <= n ==> #[trigger] offsets@[j] == byte_len(text@.take(j)),
            are_tokens(out@, in_bytes(text@, word_views(words@)).take(i as int)),
        decreases words@.len() - i,
    {
        let (word, start, end) = &words[i];
        let from: usize = if *start < n {
            offsets[*start]
        } else {
            offsets[n]
        };
        let to: usize = if *end < n {
            offsets[*end]
        } else {
            offsets[n]
        };
        out.push((word.clone(), from, to));
        i = i + 1;
        proof {
            let all = in_bytes(text@, word_views(words@));
            assert(all.take(i as int) =~= all.take(i - 1).push(all[i - 1]));
        }
    }
    assert(in_bytes(text@, word_views(words@)).take(i as int) =~= in_bytes(
        text@,
        word_views(words@),
    ));
    out
}

/// The stream of the words of a text: words that make up the text, with their positions
/// in bytes.  Which words these are is not stated.
pub fn token_stream(text: &str) -> (s: JiebaTokenStream)
    ensures
        s.index == 0,
        exists|words: Seq<(Seq<char>, usize, usize)>|
            {
                &&& #[trigger] are_words(text@, words)
                &&& are_tokens(s.tokens@, in_bytes(text@, words))
            },
        s.token.is_fresh(),
{
    let words = jieba_tokenize(text, Segmentation::Search, true);
    assert(are_words(text@, word_views(words@)));
    JiebaTokenStream { tokens: byte_tokens(text, words), index: 0, token: Token::fresh() }
}

// ---------------------------------------------------------------------------
// Streams of tokens
// ---------------------------------------------------------------------------

/// A token: a word with its positions in bytes and its number in the stream.
#[derive(Debug)]
pub struct Token {
    pub text: String,
    pub offset_from: usize,
    pub offset_to: usize,
    pub position: usize,
}

impl Token {
    /// The token of a stream that has not begun.
    pub open spec fn is_fresh(&self) -> bool {
        &&& self.text@.len() == 0
        &&& self.offset_from == 0
        &&& self.offset_to == 0
        &&& self.position == usize::MAX
    }

    /// The token of a stream that has not begun.
    pub fn fresh() -> (t: Token)
        ensures
            t.is_fresh(),
    {
        Token { text: String::new(), offset_from: 0, offset_to: 0, position: usize::MAX }
    }
}

/// A stream of tokens.
#[derive(Debug)]
pub struct JiebaTokenStream {
    pub tokens: Vec<(String, usize, usize)>,
    pub index: usize,
    pub token: Token,
}

impl JiebaTokenStream {
    /// Go on to the next token.
    pub fn advance(&mut self) -> (more: bool)
        ensures
            more == (old(self).index < old(self).tokens@.len()),
            final(self).tokens == old(self).tokens,
            more ==> {
                let i = old(self).index as int;
                &&& final(self).index == i + 1
                &&& final(self).token.text@ == old(self).tokens@[i].0@
                &&& final(self).token.offset_from == old(self).tokens@[i].1
                &&& final(self).token.offset_to == old(self).tokens@[i].2
                &&& final(self).token.position == i
            },
            !more ==> *final(self) == *old(self),
    {
        if self.index < self.tokens.len() {
            let (word, start, end) = &self.tokens[self.index];
            let token = Token {
                text: word.clone(),
                offset_from: *start,
                offset_to: *end,
                position: self.index,
            };
            self.token = token;
            self.index = self.index + 1;
            true
        } else {
            false
        }
    }
}

/// Positions in bytes keep the order of the positions in characters, and lie inside
/// the text.
pub proof fn byte_offsets_keep_the_order(s: Seq<char>, i: int, j: int)
    requires
        0 <= i <= j,
    ensures
        byte_offset(s, i) <= byte_offset(s, j) <= byte_len(s),
{
    if i < s.len() {
        lemma_byte_len(s, i);
    }
    if j < s.len() {
        lemma_byte_len(s, j);
        lemma_byte_len(s.take(j), i);
        assert(s.take(j).take(i) =~= s.take(i));
    }
}

/// The positions in bytes of a word are as far apart as the word is long in bytes.
pub proof fn words_fill_their_places(
    s: Seq<char>,
    words: Seq<(Seq<char>, usize, usize)>,
    i: int,
)
    requires
        are_words(s, words),
        0 <= i < words.len(),
    ensures
        in_bytes(s, words)[i].2 - in_bytes(s, words)[i].1 == byte_len(words[i].0),
{
    let (word, start, end) = words[i];
    lemma_byte_len_split(s.take(end as int), start as int);
    assert(s.take(end as int).take(start as int) =~= s.take(start as int));
    assert(s.take(end as int).skip(start as int) =~= word);
    if end == s.len() {
        assert(s.take(end as int) =~= s);
    }
}

proof fn lemma_byte_len_split(s: Seq<char>, i: int)
    requires
        0 <= i <= s.len(),
    ensures
        byte_len(s) == byte_len(s.take(i)) + byte_len(s.skip(i)),
    decreases s.len(),
{
    if i < s.len() {
        lemma_byte_len_split(s.drop_last(), i);
        assert(s.drop_last().take(i) =~= s.take(i));
        assert(s.skip(i).drop_last() =~= s.drop_last().skip(i));
    } else {
        assert(s.take(i) =~= s);
        assert(s.skip(i) =~= Seq::<char>::empty());
    }
}

/// In a text of ASCII characters the two kinds of positions are the same.
pub proof fn ascii_offsets(s: Seq<char>, i: int)
    requires
        0 <= i <= s.len(),
        forall|k: int| 0 <= k < s.len() ==> (#[trigger] s[k] as u32) < 0x80,
    ensures
        byte_offset(s, i) == i,
    decreases s.len(),
{
    if i < s.len() {
        lemma_ascii_len(s.take(i));
    } else {
        lemma_ascii_len(s);
    }
}

proof fn lemma_ascii_len(s: Seq<char>)
    requires
        forall|k: int| 0 <= k < s.len() ==> (#[trigger] s[k] as u32) < 0x80,
    ensures
        byte_len(s) == s.len(),
    decreases s.len(),
{
    if s.len() > 0 {
        assert forall|k: int| 0 <= k < s.drop_last().len() implies (#[trigger] s.drop_last()[k]
            as u32) < 0x80 by {
            assert((s[k] as u32) < 0x80);
        }
        lemma_ascii_len(s.drop_last());
        assert((s[s.len() - 1] as u32) < 0x80);
    }
}

// ---------------------------------------------------------------------------
// Laws
// ---------------------------------------------------------------------------

/// The bytes of a text are those of its UTF-8 form.
pub proof fn bytes_are_those_of_utf8(s: Seq<char>)
    ensures
        byte_len(s) == vstd::utf8::encode_utf8(s).len(),
{
    lemma_encoded_len(s);
}

/// The position of a character in bytes is the length of what stands before it; behind the
/// text it is the end of the text.
pub proof fn offsets_count_what_stands_before(s: Seq<char>, i: int)
    requires
        0 <= i,
    ensures
        i <= s.len() ==> byte_offset(s, i) == vstd::utf8::encode_utf8(s.take(i)).len(),
        i > s.len() ==> byte_offset(s, i) == vstd::utf8::encode_utf8(s).len(),
{
    lemma_encoded_len(s);
    if i <= s.len() {
        lemma_encoded_len(s.take(i));
        if i == s.len() {
            assert(s.take(i) =~= s);
        }
    }
}

/// Words keep their order, their texts and their places when the places are counted in
/// bytes.
pub proof fn words_keep_their_places(
    s: Seq<char>,
    words: Seq<(String, usize, usize)>,
    tokens: Seq<(String, usize, usize)>,
    i: int,
)
    requires
        are_tokens(tokens, in_bytes(s, word_views(words))),
        0 <= i < words.len(),
    ensures
        tokens.len() == words.len(),
        tokens[i].0@ == words[i].0@,
        tokens[i].1 == byte_offset(s, words[i].1 as int),
        tokens[i].2 == byte_offset(s, words[i].2 as int),
{
}

/// An analyzer is what it was said to be.
pub proof fn analyzers_are_as_described(
    a: AnalyzerSpec,
    name: Seq<char>,
    tokenizer: Tokenizer,
    long_limit: Option<usize>,
    lowercase: bool,
    stop_words: Seq<Seq<char>>,
)
    requires
        a.is(name, tokenizer, long_limit, lowercase, stop_words),
    ensures
        a.name@ == name,
        a.tokenizer == tokenizer,
        a.long_limit == long_limit,
        a.lowercase == lowercase,
        a.stop_words@.len() == stop_words.len(),
        forall|i: int| 0 <= i < stop_words.len() ==> (#[trigger] a.stop_words@[i])@ == stop_words[i],
{
    assert(text::texts(a.stop_words@).len() == stop_words.len());
    assert forall|i: int| 0 <= i < stop_words.len() implies (#[trigger] a.stop_words@[i])@
        == stop_words[i] by {
        assert(text::texts(a.stop_words@)[i] == stop_words[i]);
    }
}

} // verus!
