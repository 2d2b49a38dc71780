//! Tags in a note's text: code is erased, `#` words are found, and each
//! tag is split into its levels.

use vstd::prelude::*;

use crate::chars::{chars_of, string_of};
use crate::order::{sort_dedup, sorted_distinct, texts};

verus! {

/// Three backticks start at position `j` of `s`.
pub open spec fn fence_at(s: Seq<char>, j: int) -> bool {
    0 <= j && j + 3 <= s.len() && s[j] == '`' && s[j + 1] == '`' && s[j + 2] == '`'
}

/// The first position from `k` on at which three backticks start, or -1.
pub open spec fn next_fence(s: Seq<char>, k: int) -> int
    decreases s.len() - k,
{
    if k < 0 || k + 3 > s.len() {
        -1
    } else if fence_at(s, k) {
        k
    } else {
        next_fence(s, k + 1)
    }
}

/// `s` with its fenced code blocks erased, left to right: a block runs from
/// three backticks to the next three backticks after them, both included. A
/// fence with no later fence stays.
pub open spec fn fenced_code_erased(s: Seq<char>) -> Seq<char>
    decreases s.len(),
{
    if s.len() == 0 {
        s
    } else if fence_at(s, 0) && 3 <= next_fence(s, 3) && next_fence(s, 3) + 3 <= s.len() {
        fenced_code_erased(s.skip(next_fence(s, 3) + 3))
    } else {
        seq![s[0]] + fenced_code_erased(s.skip(1))
    }
}

/// The position of the first backtick from `k` on, or -1 where a line break
/// or the end of `s` comes first.
pub open spec fn span_close(s: Seq<char>, k: int) -> int
    decreases s.len() - k,
{
    if k < 0 || k >= s.len() {
        -1
    } else if s[k] == '`' {
        k
    } else if s[k] == '\n' || s[k] == '\r' {
        -1
    } else {
        span_close(s, k + 1)
    }
}

/// `s` with its inline code spans erased, left to right: a span runs from a
/// backtick to the next backtick on the same line, both included. A backtick
/// with no closing one on its line stays.
pub open spec fn inline_code_erased(s: Seq<char>) -> Seq<char>
    decreases s.len(),
{
    if s.len() == 0 {
        s
    } else if s[0] == '`' && 1 <= span_close(s, 1) < s.len() {
        inline_code_erased(s.skip(span_close(s, 1) + 1))
    } else {
        seq![s[0]] + inline_code_erased(s.skip(1))
    }
}

/// The matches of `\B#\S+` that `regex` finds in a text, left to right.
pub uninterp spec fn hash_words(s: Seq<char>) -> Seq<Seq<char>>;

/// Relies on `regex::Regex::replace_all` with the pattern ```` ```[\w\W]*?``` ````
/// and an empty replacement: the leftmost matches, without overlap, each
/// ending at the first fence after its opening one (the repetition is lazy
/// and `[\w\W]` takes any character). The pattern is a valid constant, so
/// `new` succeeds.
#[verifier::external_body]
fn erase_fenced_code(s: &str) -> (r: String)
    ensures
        r@ == fenced_code_erased(s@),
{
    regex::Regex::new(r"```[\w\W]*?```").unwrap().replace_all(s, "").into_owned()
}

/// Relies on `regex::Regex::replace_all` with the pattern `` `[^`\r\n]*` `` and
/// an empty replacement: the leftmost matches, without overlap, each a
/// backtick, the characters up to the next backtick with no line break
/// among them, and that backtick. The pattern is a valid constant, so `new`
/// succeeds.
#[verifier::external_body]
fn erase_inline_code(s: &str) -> (r: String)
    ensures
        r@ == inline_code_erased(s@),
{
    regex::Regex::new(r"`[^`\r\n]*`").unwrap().replace_all(s, "").into_owned()
}

/// Relies on `regex::Regex::find_iter` with the pattern `\B#\S+`: the text of
/// each match, left to right. The pattern is a valid constant, so `new` succeeds.
#[verifier::external_body]
fn find_hash_words(s: &str) -> (r: Vec<String>)
    ensures
        texts(r@) == hash_words(s@),
{
    regex::Regex::new(r"\B#\S+").unwrap().find_iter(s).map(|m| m.as_str().to_string()).collect()
}

/// The prefixes of `s` that end just before one of its first `n` characters
/// that is a `/`, shortest first.
pub open spec fn slash_prefixes(s: Seq<char>, n: int) -> Seq<Seq<char>>
    decreases n,
{
    if n <= 0 {
        Seq::empty()
    } else {
        let p = slash_prefixes(s, n - 1);
        if s[n - 1] == '/' {
            p.push(s.take(n - 1))
        } else {
            p
        }
    }
}

/// Every level of a hierarchical tag: each prefix that ends before a `/`,
/// then the whole tag (`a/b/c` gives `a`, `a/b`, `a/b/c`).
pub open spec fn tag_levels(s: Seq<char>) -> Seq<Seq<char>> {
    slash_prefixes(s, s.len() as int).push(s)
}

/// `s` without its `#` characters.
pub open spec fn without_hashes(s: Seq<char>) -> Seq<char>
    decreases s.len(),
{
    if s.len() == 0 {
        s
    } else if s.last() == '#' {
        without_hashes(s.drop_last())
    } else {
        without_hashes(s.drop_last()).push(s.last())
    }
}

/// The levels of every raw tag of `words`, one raw tag after the other.
pub open spec fn levels_of_all(words: Seq<Seq<char>>) -> Seq<Seq<char>>
    decreases words.len(),
{
    if words.len() == 0 {
        Seq::empty()
    } else {
        levels_of_all(words.drop_last()) + tag_levels(without_hashes(words.last()))
    }
}

/// A note's text with its fenced and inline code erased.
pub open spec fn code_erased(s: Seq<char>) -> Seq<char> {
    inline_code_erased(fenced_code_erased(s))
}

/// The tags of a text whose code is erased: every level of every tag, sorted,
/// each once.
pub open spec fn plain_text_tags(s: Seq<char>) -> Seq<Seq<char>> {
    sorted_distinct(levels_of_all(hash_words(s)))
}

/// Splits a hierarchical tag into its levels: `a/b/c` gives `a`, `a/b` and
/// `a/b/c`, in that order.
pub fn tag_splitter(tag: String) -> (r: Vec<String>)
    ensures
        texts(r@) == tag_levels(tag@),
{
    let cs = chars_of(tag.as_str());
    let mut out: Vec<String> = Vec::new();
    let mut prefix: Vec<char> = Vec::new();
    let mut i: usize = 0;
    while i < cs.len()
        invariant
            cs@ == tag@,
            i <= cs@.len(),
            prefix@ == tag@.take(i as int),
            texts(out@) == slash_prefixes(tag@, i as int),
        decreases cs@.len() - i,
    {
        let c = cs[i];
        if c == '/' {
            let level = string_of(&prefix);
            out.push(level);
            assert(texts(out@) =~= slash_prefixes(tag@, i as int).push(tag@.take(i as int)));
        }
        prefix.push(c);
        assert(prefix@ =~= tag@.take(i + 1));
        i = i + 1;
    }
    assert(tag@.take(cs@.len() as int) =~= tag@);
    out.push(tag);
    assert(texts(out@) =~= tag_levels(tag@));
    out
}

/// `s` without its `#` characters.
fn strip_hashes(s: &str) -> (r: String)
    ensures
        r@ == without_hashes(s@),
{
    let cs = chars_of(s);
    let mut kept: Vec<char> = Vec::new();
    let mut i: usize = 0;
    while i < cs.len()
        invariant
            cs@ == s@,
            i <= cs@.len(),
            kept@ == without_hashes(s@.take(i as int)),
        decreases cs@.len() - i,
    {
        assert(s@.take(i + 1).drop_last() =~= s@.take(i as int));
        if cs[i] != '#' {
            kept.push(cs[i]);
        }
        i = i + 1;
    }
    assert(s@.take(cs@.len() as int) =~= s@);
    string_of(&kept)
}

/// A note's text with fenced code and inline code erased.
pub fn erase_code(contents: &str) -> (r: String)
    ensures
        r@ == code_erased(contents@),
{
    let fenced = erase_fenced_code(contents);
    erase_inline_code(fenced.as_str())
}

/// The tags of a text whose code is erased: `#` followed by non-blank
/// characters, not right after a word character. Each is taken without its
/// `#` characters and split into its levels; the result is sorted and holds
/// each tag once.
pub fn extract_tags(plain: &str) -> (r: Vec<String>)
    ensures
        texts(r@) == plain_text_tags(plain@),
{
    let words = find_hash_words(plain);
    let ghost ws = texts(words@);
    let mut all: Vec<String> = Vec::new();
    let mut i: usize = 0;
    while i < words.len()
        invariant
            ws == texts(words@),
            ws == hash_words(plain@),
            i <= words@.len(),
            texts(all@) == levels_of_all(ws.take(i as int)),
        decreases words@.len() - i,
    {
        assert(ws.take(i + 1).drop_last() =~= ws.take(i as int));
        let bare = strip_hashes(words[i].as_str());
        let mut levels = tag_splitter(bare);
        let ghost before = all@;
        let ghost added = levels@;
        all.append(&mut levels);
        assert(texts(all@) =~= texts(before) + texts(added));
        i = i + 1;
    }
    assert(ws.take(words@.len() as int) =~= ws);
    sort_dedup(all)
}

} // verus!
