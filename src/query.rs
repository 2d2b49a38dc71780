//! The query language, `LIST FROM` and a boolean expression of tags, and
//! its parser.

use vstd::prelude::*;

use crate::chars::{chars_of, copy_range, string_of};
use crate::front_matter::{is_white_space, white_space};

verus! {

/// Where the matches of a query come from. Only tags are looked up so far.
#[derive(Debug)]
pub enum DataSource {
    Tag(String),
    Folder(String),
    File(String),
    InLink(String),
    OutLink(String),
}

/// A parsed query.
#[derive(Debug)]
pub enum Expr {
    Invalid,
    Source(DataSource),
    From(Box<Expr>),
    List { from: Box<Expr> },
    Or(Box<Expr>, Box<Expr>),
    And(Box<Expr>, Box<Expr>),
    Negate(Box<Expr>),
}

/// A data source with its name as characters.
pub enum SourceModel {
    Tag(Seq<char>),
    Folder(Seq<char>),
    File(Seq<char>),
    InLink(Seq<char>),
    OutLink(Seq<char>),
}

/// A query with its names as characters.
pub enum ExprModel {
    Invalid,
    Source(SourceModel),
    From(Box<ExprModel>),
    List(Box<ExprModel>),
    Or(Box<ExprModel>, Box<ExprModel>),
    And(Box<ExprModel>, Box<ExprModel>),
    Negate(Box<ExprModel>),
}

pub open spec fn source_model(s: DataSource) -> SourceModel {
    match s {
        DataSource::Tag(n) => SourceModel::Tag(n@),
        DataSource::Folder(n) => SourceModel::Folder(n@),
        DataSource::File(n) => SourceModel::File(n@),
        DataSource::InLink(n) => SourceModel::InLink(n@),
        DataSource::OutLink(n) => SourceModel::OutLink(n@),
    }
}

pub open spec fn expr_model(e: Expr) -> ExprModel
    decreases e,
{
    match e {
        Expr::Invalid => ExprModel::Invalid,
        Expr::Source(s) => ExprModel::Source(source_model(s)),
        Expr::From(x) => ExprModel::From(Box::new(expr_model(*x))),
        Expr::List { from } => ExprModel::List(Box::new(expr_model(*from))),
        Expr::Or(x, y) => ExprModel::Or(Box::new(expr_model(*x)), Box::new(expr_model(*y))),
        Expr::And(x, y) => ExprModel::And(Box::new(expr_model(*x)), Box::new(expr_model(*y))),
        Expr::Negate(x) => ExprModel::Negate(Box::new(expr_model(*x))),
    }
}

/// How many white-space characters start at position `i`.
pub open spec fn white_run(s: Seq<char>, i: int) -> nat
    decreases s.len() - i,
{
    if 0 <= i < s.len() && is_white_space(s[i]) {
        1 + white_run(s, i + 1)
    } else {
        0
    }
}

pub open spec fn is_ascii_letter(c: char) -> bool {
    (65 <= c as u32 <= 90) || (97 <= c as u32 <= 122)
}

pub open spec fn is_ascii_digit(c: char) -> bool {
    48 <= c as u32 <= 57
}

/// A character that may go on an identifier after its first.
pub open spec fn is_ident_char(c: char) -> bool {
    is_ascii_letter(c) || is_ascii_digit(c) || c == '_'
}

/// How many identifier characters start at position `i`.
pub open spec fn ident_run(s: Seq<char>, i: int) -> nat
    decreases s.len() - i,
{
    if 0 <= i < s.len() && is_ident_char(s[i]) {
        1 + ident_run(s, i + 1)
    } else {
        0
    }
}

/// The length of the identifier at position `i`: an ASCII letter or `_`,
/// then ASCII letters, digits and `_`; 0 where none starts there.
pub open spec fn word_len(s: Seq<char>, i: int) -> nat {
    if 0 <= i < s.len() && (is_ascii_letter(s[i]) || s[i] == '_') {
        ident_run(s, i)
    } else {
        0
    }
}

/// The characters that `char::is_alphanumeric` accepts.
pub uninterp spec fn is_alphanumeric_char(c: char) -> bool;

/// Relies on `char::is_alphanumeric`: whether the character is alphabetic or
/// numeric in Unicode's sense.
#[verifier::external_body]
fn alphanumeric(c: char) -> (r: bool)
    ensures
        r == is_alphanumeric_char(c),
{
    c.is_alphanumeric()
}

/// A character of a tag's name: a letter, a digit, `/`, `-` or `_`. Among
/// ASCII characters `char::is_alphanumeric` accepts just the letters and
/// digits, so it is asked only of the others.
pub open spec fn is_tag_char(c: char) -> bool {
    if (c as u32) < 128 {
        is_ascii_letter(c) || is_ascii_digit(c) || c == '/' || c == '-' || c == '_'
    } else {
        is_alphanumeric_char(c)
    }
}

/// How many tag characters start at position `i`.
pub open spec fn tag_run(s: Seq<char>, i: int) -> nat
    decreases s.len() - i,
{
    if 0 <= i < s.len() && is_tag_char(s[i]) {
        1 + tag_run(s, i + 1)
    } else {
        0
    }
}

/// An ASCII letter's code in upper case; any other character's code.
pub open spec fn upper_code(c: char) -> u32 {
    if 97 <= c as u32 <= 122 {
        (c as u32 - 32) as u32
    } else {
        c as u32
    }
}

/// `LIST`, in any case.
pub open spec fn is_list_keyword(w: Seq<char>) -> bool {
    w.len() == 4 && upper_code(w[0]) == 76 && upper_code(w[1]) == 73 && upper_code(w[2]) == 83
        && upper_code(w[3]) == 84
}

/// `FROM`, in any case.
pub open spec fn is_from_keyword(w: Seq<char>) -> bool {
    w.len() == 4 && upper_code(w[0]) == 70 && upper_code(w[1]) == 82 && upper_code(w[2]) == 79
        && upper_code(w[3]) == 77
}

pub open spec fn is_and_keyword(w: Seq<char>) -> bool {
    w == seq!['A', 'N', 'D'] || w == seq!['a', 'n', 'd']
}

pub open spec fn is_or_keyword(w: Seq<char>) -> bool {
    w == seq!['O', 'R'] || w == seq!['o', 'r']
}

/// The outcome of parsing part of a query: the expression and the position
/// after it and after the white space that follows, or the position at which
/// the input could not be read.
pub type Parsed = Result<(ExprModel, int), int>;

/// `expr := atom (("AND" | "and" | "OR" | "or") atom)*`, folded to the left:
/// the operators have equal precedence.
pub open spec fn parse_expr(s: Seq<char>, i: int) -> Parsed
    decreases s.len() - i, 2int,
{
    if i < 0 || i > s.len() {
        Err(i)
    } else {
        match parse_atom(s, i) {
            Err(e) => Err(e),
            Ok((lhs, p)) => if i < p <= s.len() {
                parse_rest(s, lhs, p)
            } else {
                Err(p)
            },
        }
    }
}

/// `atom := "#" tag-char* | "(" expr ")"`, with white space before and after.
pub open spec fn parse_atom(s: Seq<char>, i: int) -> Parsed
    decreases s.len() - i, 1int,
{
    if i < 0 || i > s.len() {
        Err(i)
    } else {
        let j = i + white_run(s, i);
        if j >= s.len() {
            Err(j)
        } else if s[j] == '#' {
            let k = j + 1 + tag_run(s, j + 1);
            Ok(
                (
                    ExprModel::Source(SourceModel::Tag(s.subrange(j + 1, k))),
                    k + white_run(s, k),
                ),
            )
        } else if s[j] == '(' {
            match parse_expr(s, j + 1) {
                Err(e) => Err(e),
                Ok((inner, p)) => if j < p < s.len() && s[p] == ')' {
                    Ok((inner, p + 1 + white_run(s, p + 1)))
                } else {
                    Err(p)
                },
            }
        } else {
            Err(j)
        }
    }
}

/// The operators and atoms that follow `lhs`, from position `p` on.
pub open spec fn parse_rest(s: Seq<char>, lhs: ExprModel, p: int) -> Parsed
    decreases s.len() - p, 0int,
{
    if p < 0 || p > s.len() {
        Err(p)
    } else {
        let w = p + word_len(s, p);
        let word = s.subrange(p, w);
        if p < w <= s.len() && (is_and_keyword(word) || is_or_keyword(word)) {
            match parse_atom(s, w) {
                Err(e) => Err(e),
                Ok((rhs, q)) => if w < q <= s.len() {
                    let combined = if is_and_keyword(word) {
                        ExprModel::And(Box::new(lhs), Box::new(rhs))
                    } else {
                        ExprModel::Or(Box::new(lhs), Box::new(rhs))
                    };
                    parse_rest(s, combined, q)
                } else {
                    Err(q)
                },
            }
        } else {
            Ok((lhs, p))
        }
    }
}

/// `query := "LIST" "FROM" expr`, with white space around the words and the
/// whole of the input read. An error is the position at which the input
/// could not be read.
pub open spec fn parse_query(s: Seq<char>) -> Result<ExprModel, int> {
    let a = white_run(s, 0) as int;
    let w = a + word_len(s, a);
    if !is_list_keyword(s.subrange(a, w)) {
        Err(a)
    } else {
        let b = w + white_run(s, w);
        let w2 = b + word_len(s, b);
        if !is_from_keyword(s.subrange(b, w2)) {
            Err(b)
        } else {
            match parse_expr(s, w2) {
                Err(e) => Err(e),
                Ok((e, p)) => if p == s.len() {
                    Ok(ExprModel::List(Box::new(ExprModel::From(Box::new(e)))))
                } else {
                    Err(p)
                },
            }
        }
    }
}

fn skip_white(cs: &Vec<char>, i: usize) -> (r: usize)
    requires
        i <= cs@.len(),
    ensures
        r == i + white_run(cs@, i as int),
        r <= cs@.len(),
{
    let mut j: usize = i;
    while j < cs.len() && white_space(cs[j])
        invariant
            i <= j <= cs@.len(),
            white_run(cs@, i as int) == (j - i) + white_run(cs@, j as int),
        decreases cs@.len() - j,
    {
        j = j + 1;
    }
    j
}

fn ascii_letter(c: char) -> (r: bool)
    ensures
        r == is_ascii_letter(c),
{
    let u = c as u32;
    (65 <= u && u <= 90) || (97 <= u && u <= 122)
}

fn ident_char(c: char) -> (r: bool)
    ensures
        r == is_ident_char(c),
{
    let u = c as u32;
    ascii_letter(c) || (48 <= u && u <= 57) || c == '_'
}

fn word_length(cs: &Vec<char>, i: usize) -> (r: usize)
    requires
        i <= cs@.len(),
    ensures
        r == word_len(cs@, i as int),
        i + r <= cs@.len(),
        cs@.len() <= usize::MAX,
{
    if !(i < cs.len() && (ascii_letter(cs[i]) || cs[i] == '_')) {
        return 0;
    }
    let mut j: usize = i;
    while j < cs.len() && ident_char(cs[j])
        invariant
            i <= j <= cs@.len(),
            ident_run(cs@, i as int) == (j - i) + ident_run(cs@, j as int),
        decreases cs@.len() - j,
    {
        j = j + 1;
    }
    j - i
}

fn tag_char(c: char) -> (r: bool)
    ensures
        r == is_tag_char(c),
{
    let u = c as u32;
    if u < 128 {
        ascii_letter(c) || (48 <= u && u <= 57) || c == '/' || c == '-' || c == '_'
    } else {
        alphanumeric(c)
    }
}

fn tag_length(cs: &Vec<char>, i: usize) -> (r: usize)
    requires
        i <= cs@.len(),
    ensures
        r == tag_run(cs@, i as int),
        i + r <= cs@.len(),
{
    let mut j: usize = i;
    while j < cs.len() && tag_char(cs[j])
        invariant
            i <= j <= cs@.len(),
            tag_run(cs@, i as int) == (j - i) + tag_run(cs@, j as int),
        decreases cs@.len() - j,
    {
        j = j + 1;
    }
    j - i
}

fn upper(c: char) -> (r: u32)
    ensures
        r == upper_code(c),
{
    let u = c as u32;
    if 97 <= u && u <= 122 {
        u - 32
    } else {
        u
    }
}

fn list_keyword(cs: &Vec<char>, a: usize, w: usize) -> (r: bool)
    requires
        a <= w <= cs@.len(),
    ensures
        r == is_list_keyword(cs@.subrange(a as int, w as int)),
{
    w - a == 4 && upper(cs[a]) == 76 && upper(cs[a + 1]) == 73 && upper(cs[a + 2]) == 83 && upper(
        cs[a + 3],
    ) == 84
}

fn from_keyword(cs: &Vec<char>, a: usize, w: usize) -> (r: bool)
    requires
        a <= w <= cs@.len(),
    ensures
        r == is_from_keyword(cs@.subrange(a as int, w as int)),
{
    w - a == 4 && upper(cs[a]) == 70 && upper(cs[a + 1]) == 82 && upper(cs[a + 2]) == 79 && upper(
        cs[a + 3],
    ) == 77
}

fn and_keyword(cs: &Vec<char>, a: usize, w: usize) -> (r: bool)
    requires
        a <= w <= cs@.len(),
    ensures
        r == is_and_keyword(cs@.subrange(a as int, w as int)),
{
    let r = w - a == 3 && ((cs[a] == 'A' && cs[a + 1] == 'N' && cs[a + 2] == 'D') || (cs[a] == 'a'
        && cs[a + 1] == 'n' && cs[a + 2] == 'd'));
    proof {
        let word = cs@.subrange(a as int, w as int);
        if word.len() == 3 {
            assert(word == seq!['A', 'N', 'D'] <==> (word[0] == 'A' && word[1] == 'N' && word[2]
                == 'D')) by {
                if word[0] == 'A' && word[1] == 'N' && word[2] == 'D' {
                    assert(word =~= seq!['A', 'N', 'D']);
                }
            }
            assert(word == seq!['a', 'n', 'd'] <==> (word[0] == 'a' && word[1] == 'n' && word[2]
                == 'd')) by {
                if word[0] == 'a' && word[1] == 'n' && word[2] == 'd' {
                    assert(word =~= seq!['a', 'n', 'd']);
                }
            }
        }
    }
    r
}

fn or_keyword(cs: &Vec<char>, a: usize, w: usize) -> (r: bool)
    requires
        a <= w <= cs@.len(),
    ensures
        r == is_or_keyword(cs@.subrange(a as int, w as int)),
{
    let r = w - a == 2 && ((cs[a] == 'O' && cs[a + 1] == 'R') || (cs[a] == 'o' && cs[a + 1] == 'r'));
    proof {
        let word = cs@.subrange(a as int, w as int);
        if word.len() == 2 {
            assert(word == seq!['O', 'R'] <==> (word[0] == 'O' && word[1] == 'R')) by {
                if word[0] == 'O' && word[1] == 'R' {
                    assert(word =~= seq!['O', 'R']);
                }
            }
            assert(word == seq!['o', 'r'] <==> (word[0] == 'o' && word[1] == 'r')) by {
                if word[0] == 'o' && word[1] == 'r' {
                    assert(word =~= seq!['o', 'r']);
                }
            }
        }
    }
    r
}

/// The outcome of parsing, as the spec describes it.
pub open spec fn parsed_as(r: Result<(Expr, usize), usize>, spec: Parsed) -> bool {
    match r {
        Ok((e, p)) => spec == Parsed::Ok((expr_model(e), p as int)),
        Err(x) => spec == Parsed::Err(x as int),
    }
}

fn parse_expr_at(cs: &Vec<char>, i: usize) -> (r: Result<(Expr, usize), usize>)
    requires
        i <= cs@.len(),
    ensures
        parsed_as(r, parse_expr(cs@, i as int)),
        r matches Ok((_, p)) ==> i < p <= cs@.len(),
    decreases cs@.len() - i, 2int,
{
    match parse_atom_at(cs, i) {
        Err(e) => Err(e),
        Ok((lhs, p)) => parse_rest_at(cs, lhs, p),
    }
}

fn parse_atom_at(cs: &Vec<char>, i: usize) -> (r: Result<(Expr, usize), usize>)
    requires
        i <= cs@.len(),
    ensures
        parsed_as(r, parse_atom(cs@, i as int)),
        r matches Ok((_, p)) ==> i < p <= cs@.len(),
    decreases cs@.len() - i, 1int,
{
    let j = skip_white(cs, i);
    if j >= cs.len() {
        return Err(j);
    }
    if cs[j] == '#' {
        let k = j + 1 + tag_length(cs, j + 1);
        let name = string_of(&copy_range(cs, j + 1, k));
        let after = skip_white(cs, k);
        Ok((Expr::Source(DataSource::Tag(name)), after))
    } else if cs[j] == '(' {
        match parse_expr_at(cs, j + 1) {
            Err(e) => Err(e),
            Ok((inner, p)) => {
                if p < cs.len() && cs[p] == ')' {
                    let after = skip_white(cs, p + 1);
                    Ok((inner, after))
                } else {
                    Err(p)
                }
            },
        }
    } else {
        Err(j)
    }
}

fn parse_rest_at(cs: &Vec<char>, lhs: Expr, p: usize) -> (r: Result<(Expr, usize), usize>)
    requires
        p <= cs@.len(),
    ensures
        parsed_as(r, parse_rest(cs@, expr_model(lhs), p as int)),
        r matches Ok((_, q)) ==> p <= q <= cs@.len(),
    decreases cs@.len() - p, 0int,
{
    let n = word_length(cs, p);
    let w = p + n;
    let is_and = and_keyword(cs, p, w);
    let is_or = or_keyword(cs, p, w);
    if p < w && (is_and || is_or) {
        match parse_atom_at(cs, w) {
            Err(e) => Err(e),
            Ok((rhs, q)) => {
                let combined = if is_and {
                    Expr::And(Box::new(lhs), Box::new(rhs))
                } else {
                    Expr::Or(Box::new(lhs), Box::new(rhs))
                };
                parse_rest_at(cs, combined, q)
            },
        }
    } else {
        Ok((lhs, p))
    }
}

/// Parses a query: `LIST FROM` and a boolean expression of tags, `#name`,
/// joined by `AND` or `OR` (upper or lower case) and grouped by parentheses.
/// `LIST` and `FROM` may be written in any case. The operators have equal
/// precedence and group to the left. White space between tokens does not
/// matter, and all of the input must be read. An error is the position at
/// which the input could not be read.
pub fn parse(query: &str) -> (r: Result<Expr, usize>)
    ensures
        match r {
            Ok(e) => parse_query(query@) == Result::<ExprModel, int>::Ok(expr_model(e)),
            Err(x) => parse_query(query@) == Result::<ExprModel, int>::Err(x as int),
        },
{
    let cs = chars_of(query);
    let a = skip_white(&cs, 0);
    let w = a + word_length(&cs, a);
    if !list_keyword(&cs, a, w) {
        return Err(a);
    }
    let b = skip_white(&cs, w);
    let w2 = b + word_length(&cs, b);
    if !from_keyword(&cs, b, w2) {
        return Err(b);
    }
    match parse_expr_at(&cs, w2) {
        Err(e) => Err(e),
        Ok((e, p)) => {
            if p == cs.len() {
                let ghost inner = expr_model(e);
                let from = Expr::From(Box::new(e));
                assert(expr_model(from) == ExprModel::From(Box::new(inner)));
                let list = Expr::List { from: Box::new(from) };
                assert(expr_model(list) == ExprModel::List(Box::new(ExprModel::From(Box::new(inner)))));
                Ok(list)
            } else {
                Err(p)
            }
        },
    }
}

pub open spec fn tag_expr(name: Seq<char>) -> ExprModel {
    ExprModel::Source(SourceModel::Tag(name))
}

pub open spec fn list_from(e: ExprModel) -> ExprModel {
    ExprModel::List(Box::new(ExprModel::From(Box::new(e))))
}

/// `LIST FROM #x AND #y` reads as the conjunction of the two tags.
pub proof fn lemma_parse_and_example()
    ensures
        parse_query("LIST FROM #x AND #y"@) == Result::<ExprModel, int>::Ok(
            list_from(ExprModel::And(Box::new(tag_expr(seq!['x'])), Box::new(tag_expr(seq!['y'])))),
        ),
{
    reveal_strlit("LIST FROM #x AND #y");
    let s = "LIST FROM #x AND #y"@;
    assert(s.len() == 19);
    reveal_with_fuel(white_run, 3);
    reveal_with_fuel(ident_run, 5);
    reveal_with_fuel(tag_run, 3);
    assert(white_run(s, 0) == 0);
    assert(word_len(s, 0) == 4);
    assert(s.subrange(0, 4) =~= seq!['L', 'I', 'S', 'T']);
    assert(white_run(s, 4) == 1);
    assert(word_len(s, 5) == 4);
    assert(s.subrange(5, 9) =~= seq!['F', 'R', 'O', 'M']);
    assert(white_run(s, 9) == 1);
    assert(tag_run(s, 11) == 1);
    assert(s.subrange(11, 12) =~= seq!['x']);
    assert(white_run(s, 12) == 1);
    assert(parse_atom(s, 9) == Parsed::Ok((tag_expr(seq!['x']), 13)));
    assert(word_len(s, 13) == 3);
    assert(s.subrange(13, 16) =~= seq!['A', 'N', 'D']);
    assert(white_run(s, 16) == 1);
    assert(tag_run(s, 18) == 1);
    assert(s.subrange(18, 19) =~= seq!['y']);
    assert(white_run(s, 19) == 0);
    assert(parse_atom(s, 16) == Parsed::Ok((tag_expr(seq!['y']), 19)));
    assert(word_len(s, 19) == 0);
    let both = ExprModel::And(Box::new(tag_expr(seq!['x'])), Box::new(tag_expr(seq!['y'])));
    assert(parse_rest(s, both, 19) == Parsed::Ok((both, 19)));
    assert(parse_rest(s, tag_expr(seq!['x']), 13) == Parsed::Ok((both, 19)));
    assert(parse_expr(s, 9) == Parsed::Ok((both, 19)));
}

/// `LIST FROM #x OR #y` reads as the disjunction of the two tags.
pub proof fn lemma_parse_or_example()
    ensures
        parse_query("LIST FROM #x OR #y"@) == Result::<ExprModel, int>::Ok(
            list_from(ExprModel::Or(Box::new(tag_expr(seq!['x'])), Box::new(tag_expr(seq!['y'])))),
        ),
{
    reveal_strlit("LIST FROM #x OR #y");
    let s = "LIST FROM #x OR #y"@;
    assert(s.len() == 18);
    reveal_with_fuel(white_run, 3);
    reveal_with_fuel(ident_run, 5);
    reveal_with_fuel(tag_run, 3);
    assert(white_run(s, 0) == 0);
    assert(word_len(s, 0) == 4);
    assert(s.subrange(0, 4) =~= seq!['L', 'I', 'S', 'T']);
    assert(white_run(s, 4) == 1);
    assert(word_len(s, 5) == 4);
    assert(s.subrange(5, 9) =~= seq!['F', 'R', 'O', 'M']);
    assert(white_run(s, 9) == 1);
    assert(tag_run(s, 11) == 1);
    assert(s.subrange(11, 12) =~= seq!['x']);
    assert(white_run(s, 12) == 1);
    assert(parse_atom(s, 9) == Parsed::Ok((tag_expr(seq!['x']), 13)));
    assert(word_len(s, 13) == 2);
    assert(s.subrange(13, 15) =~= seq!['O', 'R']);
    assert(!is_and_keyword(s.subrange(13, 15)));
    assert(white_run(s, 15) == 1);
    assert(tag_run(s, 17) == 1);
    assert(s.subrange(17, 18) =~= seq!['y']);
    assert(white_run(s, 18) == 0);
    assert(parse_atom(s, 15) == Parsed::Ok((tag_expr(seq!['y']), 18)));
    assert(word_len(s, 18) == 0);
    let either = ExprModel::Or(Box::new(tag_expr(seq!['x'])), Box::new(tag_expr(seq!['y'])));
    assert(parse_rest(s, either, 18) == Parsed::Ok((either, 18)));
    assert(parse_rest(s, tag_expr(seq!['x']), 13) == Parsed::Ok((either, 18)));
    assert(parse_expr(s, 9) == Parsed::Ok((either, 18)));
}

/// `LIST FROM #x AND (#y OR #z)` reads as `#x` and the parenthesised
/// disjunction.
pub proof fn lemma_parse_grouped_example()
    ensures
        parse_query("LIST FROM #x AND (#y OR #z)"@) == Result::<ExprModel, int>::Ok(
            list_from(
                ExprModel::And(
                    Box::new(tag_expr(seq!['x'])),
                    Box::new(
                        ExprModel::Or(Box::new(tag_expr(seq!['y'])), Box::new(tag_expr(seq!['z']))),
                    ),
                ),
            ),
        ),
{
    reveal_strlit("LIST FROM #x AND (#y OR #z)");
    let s = "LIST FROM #x AND (#y OR #z)"@;
    assert(s.len() == 27);
    reveal_with_fuel(white_run, 3);
    reveal_with_fuel(ident_run, 5);
    reveal_with_fuel(tag_run, 3);
    assert(white_run(s, 0) == 0);
    assert(word_len(s, 0) == 4);
    assert(s.subrange(0, 4) =~= seq!['L', 'I', 'S', 'T']);
    assert(white_run(s, 4) == 1);
    assert(word_len(s, 5) == 4);
    assert(s.subrange(5, 9) =~= seq!['F', 'R', 'O', 'M']);
    assert(white_run(s, 9) == 1);
    assert(tag_run(s, 11) == 1);
    assert(s.subrange(11, 12) =~= seq!['x']);
    assert(white_run(s, 12) == 1);
    assert(parse_atom(s, 9) == Parsed::Ok((tag_expr(seq!['x']), 13)));
    assert(word_len(s, 13) == 3);
    assert(s.subrange(13, 16) =~= seq!['A', 'N', 'D']);
    assert(white_run(s, 16) == 1);
    assert(white_run(s, 18) == 0);
    assert(tag_run(s, 19) == 1);
    assert(s.subrange(19, 20) =~= seq!['y']);
    assert(white_run(s, 20) == 1);
    assert(parse_atom(s, 18) == Parsed::Ok((tag_expr(seq!['y']), 21)));
    assert(word_len(s, 21) == 2);
    assert(s.subrange(21, 23) =~= seq!['O', 'R']);
    assert(!is_and_keyword(s.subrange(21, 23)));
    assert(white_run(s, 23) == 1);
    assert(tag_run(s, 25) == 1);
    assert(s.subrange(25, 26) =~= seq!['z']);
    assert(white_run(s, 26) == 0);
    assert(parse_atom(s, 23) == Parsed::Ok((tag_expr(seq!['z']), 26)));
    assert(word_len(s, 26) == 0);
    let either = ExprModel::Or(Box::new(tag_expr(seq!['y'])), Box::new(tag_expr(seq!['z'])));
    assert(parse_rest(s, either, 26) == Parsed::Ok((either, 26)));
    assert(parse_rest(s, tag_expr(seq!['y']), 21) == Parsed::Ok((either, 26)));
    assert(parse_expr(s, 18) == Parsed::Ok((either, 26)));
    assert(white_run(s, 27) == 0);
    assert(parse_atom(s, 16) == Parsed::Ok((either, 27)));
    let both = ExprModel::And(Box::new(tag_expr(seq!['x'])), Box::new(either));
    assert(word_len(s, 27) == 0);
    assert(parse_rest(s, both, 27) == Parsed::Ok((both, 27)));
    assert(parse_rest(s, tag_expr(seq!['x']), 13) == Parsed::Ok((both, 27)));
    assert(parse_expr(s, 9) == Parsed::Ok((both, 27)));
}

} // verus!
