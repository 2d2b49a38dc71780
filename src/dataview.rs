//! Evaluating parsed queries against an index and shaping their output.

use vstd::prelude::*;

use crate::chars::{chars_of, string_of};
use crate::order::{
    insert_ordered, lemma_sorted_distinct, sort_dedup, sorted_distinct, strictly_ascending, text_lt, texts,
};
use crate::query::{
    DataSource, Expr, ExprModel, SourceModel, expr_model, lemma_parse_and_example,
    lemma_parse_grouped_example, lemma_parse_or_example, list_from, parse, parse_query,
    source_model, tag_expr,
};
use crate::vault::{VaultIndex, copy_texts};

verus! {

/// The names that a match list holds, or `None` where there is no match list.
pub open spec fn match_texts(m: Option<Vec<String>>) -> Option<Seq<Seq<char>>> {
    match m {
        Some(v) => Some(texts(v@)),
        None => None,
    }
}

pub open spec fn or_empty(m: Option<Seq<Seq<char>>>) -> Seq<Seq<char>> {
    match m {
        Some(s) => s,
        None => Seq::empty(),
    }
}

/// An empty list of matches counts as no matches.
pub open spec fn non_empty(s: Seq<Seq<char>>) -> Option<Seq<Seq<char>>> {
    if s.len() == 0 {
        None
    } else {
        Some(s)
    }
}

/// The names of `a` that `b` holds too, in the order of `a`.
pub open spec fn common_in_order(a: Seq<Seq<char>>, b: Seq<Seq<char>>) -> Seq<Seq<char>>
    decreases a.len(),
{
    if a.len() == 0 {
        a
    } else {
        let p = common_in_order(a.drop_last(), b);
        if b.contains(a.last()) {
            p.push(a.last())
        } else {
            p
        }
    }
}

/// The union of two match lists: every name of either, sorted, each once. A
/// missing list adds nothing.
pub open spec fn or_matches(x: Option<Seq<Seq<char>>>, y: Option<Seq<Seq<char>>>) -> Option<
    Seq<Seq<char>>,
> {
    non_empty(sorted_distinct(or_empty(x) + or_empty(y)))
}

/// The intersection of two match lists, in the order of the left one. A
/// missing list on either side leaves no matches.
pub open spec fn and_matches(x: Option<Seq<Seq<char>>>, y: Option<Seq<Seq<char>>>) -> Option<
    Seq<Seq<char>>,
> {
    match (x, y) {
        (Some(a), Some(b)) => non_empty(common_in_order(a, b)),
        _ => None,
    }
}

/// Whether `v` holds the string `s`.
pub fn contains_text(v: &Vec<String>, s: &String) -> (r: bool)
    ensures
        r == texts(v@).contains(s@),
{
    let mut i: usize = 0;
    while i < v.len()
        invariant
            i <= v@.len(),
            forall|j: int| 0 <= j < i ==> v@[j]@ != s@,
        decreases v@.len() - i,
    {
        if v[i] == *s {
            assert(texts(v@)[i as int] == s@);
            return true;
        }
        i = i + 1;
    }
    assert forall|j: int| 0 <= j < texts(v@).len() implies texts(v@)[j] != s@ by {
        assert(texts(v@)[j] == v@[j]@);
    }
    false
}

pub fn eval_or(x: Option<Vec<String>>, y: Option<Vec<String>>) -> (r: Option<Vec<String>>)
    ensures
        match_texts(r) == or_matches(match_texts(x), match_texts(y)),
{
    let mut all: Vec<String> = Vec::new();
    if let Some(x_list) = x {
        let mut x_list = x_list;
        all.append(&mut x_list);
    }
    let ghost first = all@;
    if let Some(y_list) = y {
        let mut y_list = y_list;
        let ghost second = y_list@;
        all.append(&mut y_list);
        assert(texts(all@) =~= texts(first) + texts(second));
    }
    assert(texts(all@) =~= or_empty(match_texts(x)) + or_empty(match_texts(y)));
    let out = sort_dedup(all);
    if out.len() == 0 {
        None
    } else {
        Some(out)
    }
}

pub fn eval_and(x: Option<Vec<String>>, y: Option<Vec<String>>) -> (r: Option<Vec<String>>)
    ensures
        match_texts(r) == and_matches(match_texts(x), match_texts(y)),
{
    let mut out: Vec<String> = Vec::new();
    if let Some(x_list) = x {
        if let Some(y_list) = y {
            let ghost b = texts(y_list@);
            let mut i: usize = 0;
            while i < x_list.len()
                invariant
                    i <= x_list@.len(),
                    b == texts(y_list@),
                    texts(out@) == common_in_order(texts(x_list@).take(i as int), b),
                decreases x_list@.len() - i,
            {
                assert(texts(x_list@).take(i + 1).drop_last() =~= texts(x_list@).take(i as int));
                if contains_text(&y_list, &x_list[i]) {
                    out.push(x_list[i].clone());
                    assert(texts(out@) =~= common_in_order(texts(x_list@).take(i as int), b).push(
                        x_list@[i as int]@,
                    ));
                }
                i = i + 1;
            }
            assert(texts(x_list@).take(x_list@.len() as int) =~= texts(x_list@));
        }
    }
    if out.len() == 0 {
        None
    } else {
        Some(out)
    }
}

/// A missing match list is the identity of Or: with a list on the other side
/// the result is that list sorted and without repeats (absent where that is
/// empty), whichever side the list is on; two missing lists give none. The
/// result is strictly ascending and holds just the names of the list.
pub proof fn lemma_or_absent_is_identity(l: Seq<Seq<char>>)
    ensures
        or_matches(None, Some(l)) == non_empty(sorted_distinct(l)),
        or_matches(Some(l), None) == non_empty(sorted_distinct(l)),
        or_matches(None, None) is None,
        strictly_ascending(sorted_distinct(l)),
        forall|n: Seq<char>| #[trigger] sorted_distinct(l).contains(n) <==> l.contains(n),
{
    assert(Seq::<Seq<char>>::empty() + l =~= l);
    assert(l + Seq::<Seq<char>>::empty() =~= l);
    assert(Seq::<Seq<char>>::empty() + Seq::<Seq<char>>::empty() =~= Seq::<Seq<char>>::empty());
    lemma_sorted_distinct(l);
}

/// A missing match list on either side of And leaves no matches, whatever
/// the other side holds.
pub proof fn lemma_and_absent_absorbs(m: Option<Seq<Seq<char>>>)
    ensures
        and_matches(m, None) is None,
        and_matches(None, m) is None,
{
}

/// And keeps the names of the left list that the right list holds, in the
/// order of the left list: the left list filtered by membership in the right.
pub proof fn lemma_and_is_ordered_intersection(a: Seq<Seq<char>>, b: Seq<Seq<char>>)
    ensures
        common_in_order(a, b) == a.filter(|n: Seq<char>| b.contains(n)),
        and_matches(Some(a), Some(b)) == non_empty(a.filter(|n: Seq<char>| b.contains(n))),
        forall|n: Seq<char>| #[trigger] common_in_order(a, b).contains(n) <==> (a.contains(n) && b.contains(n)),
    decreases a.len(),
{
    reveal(Seq::filter);
    let f = |n: Seq<char>| b.contains(n);
    if a.len() > 0 {
        lemma_and_is_ordered_intersection(a.drop_last(), b);
        let p = common_in_order(a.drop_last(), b);
        assert forall|n: Seq<char>| #[trigger] common_in_order(a, b).contains(n) <==> (a.contains(n)
            && b.contains(n)) by {
            if a.contains(n) && b.contains(n) {
                let k = choose|k: int| 0 <= k < a.len() && a[k] == n;
                if k < a.len() - 1 {
                    assert(a.drop_last()[k] == n);
                    assert(a.drop_last().contains(n));
                    assert(p.contains(n));
                    let m = choose|m: int| 0 <= m < p.len() && p[m] == n;
                    assert(common_in_order(a, b)[m] == n);
                } else {
                    assert(common_in_order(a, b).last() == n);
                }
            }
            if common_in_order(a, b).contains(n) {
                let k = choose|k: int| 0 <= k < common_in_order(a, b).len() && common_in_order(a, b)[k] == n;
                if k < p.len() {
                    assert(p[k] == n);
                    assert(p.contains(n));
                    let m = choose|m: int| 0 <= m < a.drop_last().len() && a.drop_last()[m] == n;
                    assert(a[m] == n);
                } else {
                    assert(a.last() == n);
                    assert(a[a.len() - 1] == n);
                }
            }
        }
    }
}

/// What a query returns: a list of notes, a table, or the messages that say
/// why it failed.
#[derive(Debug)]
pub enum QueryOutput {
    List(Vec<ListItem>),
    Table(Table),
    Error(Vec<String>),
}

#[derive(Debug)]
pub struct ListItem {
    pub note_name: Option<String>,
    pub additional_info: Option<String>,
}

#[derive(Debug)]
pub struct Table {
    pub head: Vec<String>,
    pub rows: Vec<Vec<String>>,
}

/// The shape of a query's output.
#[derive(Debug, Clone, Copy, PartialEq, Eq, Structural)]
pub enum QueryStructType {
    List,
    Table,
}

/// Why a parsed query could not be evaluated.
#[derive(Debug, Clone, Copy, PartialEq, Eq, Structural)]
pub enum EvalError {
    /// A source other than a tag.
    UnsupportedSource,
    Negation,
    Invalid,
}

/// What the evaluation of a query gathers for its output.
#[derive(Debug)]
pub struct QueryStruct {
    pub output_type: QueryStructType,
    pub matches: Option<Vec<String>>,
    pub additional_info: Vec<String>,
    pub as_statements: Vec<Option<String>>,
}

impl QueryStruct {
    pub fn new() -> (r: Self)
        ensures
            r.output_type == QueryStructType::List,
            r.matches is None,
            r.additional_info@.len() == 0,
            r.as_statements@.len() == 0,
    {
        QueryStruct {
            output_type: QueryStructType::List,
            matches: None,
            additional_info: Vec::new(),
            as_statements: Vec::new(),
        }
    }

    /// A list of the notes matched, one item per name, in order; none where
    /// nothing matched. A table is not supported yet, and says so.
    pub fn build_output(&self) -> (r: QueryOutput)
        ensures
            self.output_type == QueryStructType::List ==> (r matches QueryOutput::List(items)
                && lists_names(items@, or_empty(match_texts(self.matches)))),
            self.output_type == QueryStructType::Table ==> (r matches QueryOutput::Error(msgs)
                && msgs@.len() == 1 && msgs@[0]@ == "tables are not supported yet"@),
    {
        match self.output_type {
            QueryStructType::List => {
                let mut out: Vec<ListItem> = Vec::new();
                match &self.matches {
                    Some(names) => {
                        let mut i: usize = 0;
                        while i < names.len()
                            invariant
                                i <= names@.len(),
                                self.matches == Some(*names),
                                lists_names(out@, texts(names@).take(i as int)),
                            decreases names@.len() - i,
                        {
                            out.push(ListItem { note_name: Some(names[i].clone()), additional_info: None });
                            i = i + 1;
                        }
                        assert(texts(names@).take(names@.len() as int) =~= texts(names@));
                    },
                    None => {},
                }
                QueryOutput::List(out)
            },
            QueryStructType::Table => {
                let mut msgs: Vec<String> = Vec::new();
                msgs.push("tables are not supported yet".to_string());
                QueryOutput::Error(msgs)
            },
        }
    }
}

/// The list items name the notes of `names`, in order, with no extra
/// information.
pub open spec fn lists_names(items: Seq<ListItem>, names: Seq<Seq<char>>) -> bool {
    &&& items.len() == names.len()
    &&& forall|k: int|
        0 <= k < items.len() ==> ((#[trigger] items[k]).note_name matches Some(n) && n@ == names[k]
            && items[k].additional_info is None)
}

/// What evaluating a query gives, over the tags of `vi`: a tag's notes, the
/// union for Or and the intersection for And (the left side first), and the
/// value of the inner query for `From` and `List`. Negation and sources
/// other than tags are not supported.
pub open spec fn eval_model(e: ExprModel, vi: VaultIndex) -> Result<Option<Seq<Seq<char>>>, EvalError>
    decreases e,
{
    match e {
        ExprModel::List(f) => eval_model(*f, vi),
        ExprModel::From(x) => eval_model(*x, vi),
        ExprModel::Source(SourceModel::Tag(t)) => Ok(vi.tag_matches(t)),
        ExprModel::Source(_) => Err(EvalError::UnsupportedSource),
        ExprModel::Or(x, y) => match eval_model(*x, vi) {
            Err(f) => Err(f),
            Ok(a) => match eval_model(*y, vi) {
                Err(f) => Err(f),
                Ok(b) => Ok(or_matches(a, b)),
            },
        },
        ExprModel::And(x, y) => match eval_model(*x, vi) {
            Err(f) => Err(f),
            Ok(a) => match eval_model(*y, vi) {
                Err(f) => Err(f),
                Ok(b) => Ok(and_matches(a, b)),
            },
        },
        ExprModel::Negate(_) => Err(EvalError::Negation),
        ExprModel::Invalid => Err(EvalError::Invalid),
    }
}

/// The match list that a successful evaluation leaves recorded, starting
/// from `m`: each `From` records the value of its inner query, the last one
/// evaluated winning.
pub open spec fn recorded(e: ExprModel, vi: VaultIndex, m: Option<Seq<Seq<char>>>) -> Option<
    Seq<Seq<char>>,
>
    decreases e,
{
    match e {
        ExprModel::List(f) => recorded(*f, vi, m),
        ExprModel::From(x) => match eval_model(*x, vi) {
            Ok(r) => r,
            Err(_) => m,
        },
        ExprModel::Or(x, y) => recorded(*y, vi, recorded(*x, vi, m)),
        ExprModel::And(x, y) => recorded(*y, vi, recorded(*x, vi, m)),
        _ => m,
    }
}

/// Whether the query holds a `List`.
pub open spec fn mentions_list(e: ExprModel) -> bool
    decreases e,
{
    match e {
        ExprModel::List(_) => true,
        ExprModel::From(x) => mentions_list(*x),
        ExprModel::Or(x, y) => mentions_list(*x) || mentions_list(*y),
        ExprModel::And(x, y) => mentions_list(*x) || mentions_list(*y),
        ExprModel::Negate(x) => mentions_list(*x),
        _ => false,
    }
}

impl DataSource {
    /// The names of the notes that carry the tag, if any note does. Other
    /// sources are not supported yet.
    pub fn get_matches(&self, index: &VaultIndex) -> (r: Result<Option<Vec<String>>, EvalError>)
        requires
            index.wf(),
        ensures
            match source_model(*self) {
                SourceModel::Tag(t) => r matches Ok(m) && match_texts(m) == index.tag_matches(t),
                _ => r == Result::<Option<Vec<String>>, EvalError>::Err(EvalError::UnsupportedSource),
            },
    {
        match self {
            DataSource::Tag(tag_name) => Ok(index.tag_notes(tag_name.as_str())),
            _ => Err(EvalError::UnsupportedSource),
        }
    }
}

pub open spec fn eval_result_texts(r: Result<Option<Vec<String>>, EvalError>) -> Result<
    Option<Seq<Seq<char>>>,
    EvalError,
> {
    match r {
        Ok(m) => Ok(match_texts(m)),
        Err(f) => Err(f),
    }
}

/// Evaluates a parsed query against the index, recording in `query_struct`
/// the shape of the output and the matches of each `From`.
pub fn eval(expr: &Expr, index: &VaultIndex, query_struct: &mut QueryStruct) -> (r: Result<
    Option<Vec<String>>,
    EvalError,
>)
    requires
        index.wf(),
    ensures
        eval_result_texts(r) == eval_model(expr_model(*expr), *index),
        r is Ok ==> match_texts(final(query_struct).matches) == recorded(
            expr_model(*expr),
            *index,
            match_texts(old(query_struct).matches),
        ),
        r is Ok ==> final(query_struct).output_type == if mentions_list(expr_model(*expr)) {
            QueryStructType::List
        } else {
            old(query_struct).output_type
        },
        final(query_struct).additional_info == old(query_struct).additional_info,
        final(query_struct).as_statements == old(query_struct).as_statements,
    decreases expr,
{
    match expr {
        Expr::List { from } => {
            query_struct.output_type = QueryStructType::List;
            eval(from, index, query_struct)
        },
        Expr::From(x) => {
            let m = eval(x, index, query_struct)?;
            let ghost mv = match_texts(m);
            query_struct.matches = match &m {
                Some(v) => Some(copy_texts(v)),
                None => None,
            };
            assert(match_texts(query_struct.matches) == mv);
            Ok(m)
        },
        Expr::Source(source) => source.get_matches(index),
        Expr::Or(x, y) => {
            let a = eval(x, index, query_struct)?;
            let b = eval(y, index, query_struct)?;
            Ok(eval_or(a, b))
        },
        Expr::And(x, y) => {
            let a = eval(x, index, query_struct)?;
            let b = eval(y, index, query_struct)?;
            Ok(eval_and(a, b))
        },
        Expr::Negate(_) => Err(EvalError::Negation),
        Expr::Invalid => Err(EvalError::Invalid),
    }
}

pub open spec fn digit_char(d: int) -> char {
    seq!['0', '1', '2', '3', '4', '5', '6', '7', '8', '9'][d]
}

/// `n` written in decimal.
pub open spec fn decimal(n: nat) -> Seq<char>
    decreases n,
{
    if n < 10 {
        seq![digit_char(n as int)]
    } else {
        decimal(n / 10).push(digit_char((n % 10) as int))
    }
}

/// The message for a query that could not be read at position `pos`.
pub open spec fn parse_diagnostic(pos: nat) -> Seq<char> {
    "query could not be read at character "@ + decimal(pos)
}

/// The message for a query that could not be evaluated.
pub open spec fn eval_diagnostic(f: EvalError) -> Seq<char> {
    match f {
        EvalError::UnsupportedSource => "only tags can be queried so far"@,
        EvalError::Negation => "negation is not supported yet"@,
        EvalError::Invalid => "the query is invalid"@,
    }
}

fn push_decimal(out: &mut Vec<char>, n: usize)
    ensures
        final(out)@ == old(out)@ + decimal(n as nat),
    decreases n,
{
    let digits = vec!['0', '1', '2', '3', '4', '5', '6', '7', '8', '9'];
    assert(digits@ == seq!['0', '1', '2', '3', '4', '5', '6', '7', '8', '9']);
    if n >= 10 {
        push_decimal(out, n / 10);
    }
    out.push(digits[n % 10]);
    assert(out@ =~= old(out)@ + decimal(n as nat));
}

fn parse_message(pos: usize) -> (r: String)
    ensures
        r@ == parse_diagnostic(pos as nat),
{
    let mut out = chars_of("query could not be read at character ");
    push_decimal(&mut out, pos);
    string_of(&out)
}

fn eval_message(f: EvalError) -> (r: String)
    ensures
        r@ == eval_diagnostic(f),
{
    match f {
        EvalError::UnsupportedSource => "only tags can be queried so far".to_string(),
        EvalError::Negation => "negation is not supported yet".to_string(),
        EvalError::Invalid => "the query is invalid".to_string(),
    }
}

/// Runs a query against the index. A query that cannot be read, or cannot
/// be evaluated, gives one message that says why; otherwise the result lists
/// the notes matched.
pub fn to_view(in_query: &str, index: &VaultIndex) -> (r: QueryOutput)
    requires
        index.wf(),
    ensures
        match parse_query(in_query@) {
            Err(pos) => r matches QueryOutput::Error(msgs) && msgs@.len() == 1 && msgs@[0]@
                == parse_diagnostic(pos as nat),
            Ok(e) => match eval_model(e, *index) {
                Err(f) => r matches QueryOutput::Error(msgs) && msgs@.len() == 1 && msgs@[0]@
                    == eval_diagnostic(f),
                Ok(_) => r matches QueryOutput::List(items) && lists_names(
                    items@,
                    or_empty(recorded(e, *index, None)),
                ),
            },
        },
{
    let mut query_struct = QueryStruct::new();
    match parse(in_query) {
        Ok(ast) => match eval(&ast, index, &mut query_struct) {
            Ok(_) => query_struct.build_output(),
            Err(f) => {
                let mut msgs: Vec<String> = Vec::new();
                msgs.push(eval_message(f));
                QueryOutput::Error(msgs)
            },
        },
        Err(pos) => {
            let mut msgs: Vec<String> = Vec::new();
            msgs.push(parse_message(pos));
            QueryOutput::Error(msgs)
        },
    }
}

impl VaultIndex {
    /// Runs a query of the form `LIST FROM <tags>` against the index.
    pub fn query(&self, in_query: &str) -> (r: QueryOutput)
        requires
            self.wf(),
        ensures
            match parse_query(in_query@) {
                Err(pos) => r matches QueryOutput::Error(msgs) && msgs@.len() == 1 && msgs@[0]@
                    == parse_diagnostic(pos as nat),
                Ok(e) => match eval_model(e, *self) {
                    Err(f) => r matches QueryOutput::Error(msgs) && msgs@.len() == 1 && msgs@[0]@
                        == eval_diagnostic(f),
                    Ok(_) => r matches QueryOutput::List(items) && lists_names(
                        items@,
                        or_empty(recorded(e, *self, None)),
                    ),
                },
            },
    {
        to_view(in_query, self)
    }
}

/// Query `q` reads, evaluates, and lists exactly `names`: by the contract of
/// `to_view`, its result is then a list of one item per name, in order.
pub open spec fn query_lists(q: Seq<char>, vi: VaultIndex, names: Seq<Seq<char>>) -> bool {
    match parse_query(q) {
        Ok(e) => eval_model(e, vi) is Ok && or_empty(recorded(e, vi, None)) == names,
        Err(_) => false,
    }
}

proof fn lemma_letters_ordered()
    ensures
        seq!['A'] != seq!['B'] && seq!['A'] != seq!['C'] && seq!['B'] != seq!['C'],
        text_lt(seq!['A'], seq!['B']) && text_lt(seq!['A'], seq!['C']) && text_lt(seq!['B'], seq!['C']),
        !text_lt(seq!['B'], seq!['A']) && !text_lt(seq!['C'], seq!['A']) && !text_lt(seq!['C'], seq!['B']),
{
    let a = seq!['A'];
    let b = seq!['B'];
    let c = seq!['C'];
    assert(a[0] != b[0] && a[0] != c[0] && b[0] != c[0]);
}

/// The names of `sx` that `t` holds, where `sx` is `A` and `C` and `t` holds
/// `C` but not `A`.
proof fn lemma_common_is_c(sx: Seq<Seq<char>>, t: Seq<Seq<char>>)
    requires
        sx == seq![seq!['A'], seq!['C']] || sx == seq![seq!['C'], seq!['A']],
        t.contains(seq!['C']),
        !t.contains(seq!['A']),
    ensures
        common_in_order(sx, t) == seq![seq!['C']],
{
    reveal_with_fuel(common_in_order, 3);
    assert(sx.drop_last().drop_last() =~= Seq::<Seq<char>>::empty());
    if sx == seq![seq!['A'], seq!['C']] {
        assert(sx.drop_last() =~= seq![seq!['A']]);
    } else {
        assert(sx.drop_last() =~= seq![seq!['C']]);
    }
    assert(common_in_order(sx, t) =~= seq![seq!['C']]);
}

proof fn lemma_holds_c_not_a(t: Seq<Seq<char>>)
    requires
        t == seq![seq!['B'], seq!['C']] || t == seq![seq!['C'], seq!['B']],
    ensures
        t.contains(seq!['C']),
        !t.contains(seq!['A']),
{
    lemma_letters_ordered();
    if t[0] != seq!['C'] {
        assert(t[1] == seq!['C']);
    }
    assert(t[0] == seq!['C'] ==> t.contains(seq!['C']));
    if t.contains(seq!['A']) {
        let k = choose|k: int| 0 <= k < t.len() && t[k] == seq!['A'];
        assert(t[k] == seq!['B'] || t[k] == seq!['C']);
    }
}

proof fn lemma_sorted_b_c(sy: Seq<Seq<char>>)
    requires
        sy == seq![seq!['B'], seq!['C']] || sy == seq![seq!['C'], seq!['B']],
    ensures
        sorted_distinct(sy) == seq![seq!['B'], seq!['C']],
{
    lemma_letters_ordered();
    let b = seq!['B'];
    let c = seq!['C'];
    reveal_with_fuel(sorted_distinct, 3);
    reveal_with_fuel(insert_ordered, 3);
    assert(sy.drop_last().drop_last() =~= Seq::<Seq<char>>::empty());
    assert(seq![b].drop_first() =~= Seq::<Seq<char>>::empty());
    assert(seq![c].drop_first() =~= Seq::<Seq<char>>::empty());
    if sy == seq![b, c] {
        assert(sy.drop_last() =~= seq![b]);
        assert(insert_ordered(seq![b], c) =~= seq![b] + seq![c]);
    } else {
        assert(sy.drop_last() =~= seq![c]);
        assert(insert_ordered(seq![c], b) =~= seq![b, c]);
    }
    assert(sorted_distinct(sy) =~= seq![b, c]);
}

proof fn lemma_sorted_a_b_c(sx: Seq<Seq<char>>, sy: Seq<Seq<char>>)
    requires
        sx == seq![seq!['A'], seq!['C']] || sx == seq![seq!['C'], seq!['A']],
        sy == seq![seq!['B'], seq!['C']] || sy == seq![seq!['C'], seq!['B']],
    ensures
        sorted_distinct(sx + sy) == seq![seq!['A'], seq!['B'], seq!['C']],
{
    lemma_letters_ordered();
    let a = seq!['A'];
    let b = seq!['B'];
    let c = seq!['C'];
    let all = sx + sy;
    reveal_with_fuel(insert_ordered, 4);
    assert(seq![a, b, c].drop_first() =~= seq![b, c]);
    assert(seq![a, c].drop_first() =~= seq![c]);
    assert(seq![b, c].drop_first() =~= seq![c]);
    assert(seq![a].drop_first() =~= Seq::<Seq<char>>::empty());
    assert(seq![c].drop_first() =~= Seq::<Seq<char>>::empty());
    let p1 = all.drop_last().drop_last().drop_last();
    let p2 = all.drop_last().drop_last();
    let p3 = all.drop_last();
    assert(p1 =~= seq![sx[0]]);
    assert(p2 =~= sx);
    assert(p3 =~= sx.push(sy[0]));
    assert(p1.drop_last() =~= Seq::<Seq<char>>::empty());
    assert(sorted_distinct(p1) == insert_ordered(sorted_distinct(p1.drop_last()), sx[0]));
    assert(sorted_distinct(p1) =~= seq![sx[0]]);
    assert(sorted_distinct(p2) == insert_ordered(sorted_distinct(p1), sx[1]));
    assert(sorted_distinct(p2) =~= seq![a, c]) by {
        if sx == seq![a, c] {
            assert(insert_ordered(seq![a], c) =~= seq![a] + seq![c]);
        } else {
            assert(insert_ordered(seq![c], a) =~= seq![a, c]);
        }
    }
    assert(insert_ordered(seq![c], b) =~= seq![b, c]);
    assert(insert_ordered(seq![a, c], b) =~= seq![a, b, c]);
    assert(insert_ordered(seq![c], c) =~= seq![c]);
    assert(insert_ordered(seq![a, c], c) =~= seq![a, c]);
    assert(sorted_distinct(p3) == insert_ordered(sorted_distinct(p2), sy[0]));
    assert(insert_ordered(seq![b, c], c) =~= seq![b, c]);
    assert(insert_ordered(seq![a, b, c], c) =~= seq![a, b, c]);
    assert(insert_ordered(seq![b, c], b) =~= seq![b, c]);
    assert(insert_ordered(seq![a, b, c], b) =~= seq![a, b, c]);
    assert(sorted_distinct(all) == insert_ordered(sorted_distinct(p3), sy[1]));
}

/// What a query of the form `LIST FROM e` evaluates to and records.
proof fn lemma_list_from(e: ExprModel, vi: VaultIndex, m: Option<Seq<Seq<char>>>)
    requires
        eval_model(e, vi) == Result::<Option<Seq<Seq<char>>>, EvalError>::Ok(m),
    ensures
        eval_model(list_from(e), vi) == Result::<Option<Seq<Seq<char>>>, EvalError>::Ok(m),
        recorded(list_from(e), vi, None) == m,
{
    let f = ExprModel::From(Box::new(e));
    assert(eval_model(f, vi) == eval_model(e, vi));
    assert(recorded(f, vi, None) == m);
}

proof fn lemma_tag_eval(vi: VaultIndex, t: Seq<char>)
    ensures
        eval_model(tag_expr(t), vi) == Result::<Option<Seq<Seq<char>>>, EvalError>::Ok(vi.tag_matches(t)),
{
}

proof fn lemma_and_example(vi: VaultIndex, sx: Seq<Seq<char>>, sy: Seq<Seq<char>>)
    requires
        vi.tag_matches(seq!['x']) == Some(sx),
        sx == seq![seq!['A'], seq!['C']] || sx == seq![seq!['C'], seq!['A']],
        vi.tag_matches(seq!['y']) == Some(sy),
        sy == seq![seq!['B'], seq!['C']] || sy == seq![seq!['C'], seq!['B']],
    ensures
        query_lists("LIST FROM #x AND #y"@, vi, seq![seq!['C']]),
{
    lemma_holds_c_not_a(sy);
    lemma_common_is_c(sx, sy);
    lemma_parse_and_example();
    lemma_tag_eval(vi, seq!['x']);
    lemma_tag_eval(vi, seq!['y']);
    let e = ExprModel::And(Box::new(tag_expr(seq!['x'])), Box::new(tag_expr(seq!['y'])));
    assert(eval_model(e, vi) == Result::<Option<Seq<Seq<char>>>, EvalError>::Ok(Some(seq![seq!['C']])));
    lemma_list_from(e, vi, Some(seq![seq!['C']]));
}

proof fn lemma_or_example(vi: VaultIndex, sx: Seq<Seq<char>>, sy: Seq<Seq<char>>)
    requires
        vi.tag_matches(seq!['x']) == Some(sx),
        sx == seq![seq!['A'], seq!['C']] || sx == seq![seq!['C'], seq!['A']],
        vi.tag_matches(seq!['y']) == Some(sy),
        sy == seq![seq!['B'], seq!['C']] || sy == seq![seq!['C'], seq!['B']],
    ensures
        query_lists("LIST FROM #x OR #y"@, vi, seq![seq!['A'], seq!['B'], seq!['C']]),
{
    lemma_sorted_a_b_c(sx, sy);
    lemma_parse_or_example();
    lemma_tag_eval(vi, seq!['x']);
    lemma_tag_eval(vi, seq!['y']);
    let abc = seq![seq!['A'], seq!['B'], seq!['C']];
    let e = ExprModel::Or(Box::new(tag_expr(seq!['x'])), Box::new(tag_expr(seq!['y'])));
    assert(or_matches(Some(sx), Some(sy)) == Some(abc));
    assert(eval_model(e, vi) == Result::<Option<Seq<Seq<char>>>, EvalError>::Ok(Some(abc)));
    lemma_list_from(e, vi, Some(abc));
}

proof fn lemma_grouped_example(vi: VaultIndex, sx: Seq<Seq<char>>, sy: Seq<Seq<char>>)
    requires
        vi.tag_matches(seq!['x']) == Some(sx),
        sx == seq![seq!['A'], seq!['C']] || sx == seq![seq!['C'], seq!['A']],
        vi.tag_matches(seq!['y']) == Some(sy),
        sy == seq![seq!['B'], seq!['C']] || sy == seq![seq!['C'], seq!['B']],
        vi.tag_matches(seq!['z']) is None,
    ensures
        query_lists("LIST FROM #x AND (#y OR #z)"@, vi, seq![seq!['C']]),
{
    lemma_sorted_b_c(sy);
    let bc = seq![seq!['B'], seq!['C']];
    lemma_holds_c_not_a(bc);
    lemma_common_is_c(sx, bc);
    assert(or_empty(Some(sy)) + or_empty(None::<Seq<Seq<char>>>) =~= sy);
    lemma_parse_grouped_example();
    lemma_tag_eval(vi, seq!['x']);
    lemma_tag_eval(vi, seq!['y']);
    lemma_tag_eval(vi, seq!['z']);
    let inner = ExprModel::Or(Box::new(tag_expr(seq!['y'])), Box::new(tag_expr(seq!['z'])));
    assert(eval_model(inner, vi) == Result::<Option<Seq<Seq<char>>>, EvalError>::Ok(Some(bc)));
    let e = ExprModel::And(Box::new(tag_expr(seq!['x'])), Box::new(inner));
    assert(eval_model(e, vi) == Result::<Option<Seq<Seq<char>>>, EvalError>::Ok(Some(seq![seq!['C']])));
    lemma_list_from(e, vi, Some(seq![seq!['C']]));
}

/// In a vault where note `A` is tagged `#x`, note `B` is tagged `#y`, note
/// `C` carries both tags and no note is tagged `#z`, `LIST FROM #x AND #y`
/// lists `C`, `LIST FROM #x OR #y` lists `A`, `B` and `C` in sorted order,
/// and `LIST FROM #x AND (#y OR #z)` lists `C`, whatever order the notes were
/// added in.
pub proof fn lemma_end_to_end_example(vi: VaultIndex, sx: Seq<Seq<char>>, sy: Seq<Seq<char>>)
    requires
        vi.tag_matches(seq!['x']) == Some(sx),
        sx == seq![seq!['A'], seq!['C']] || sx == seq![seq!['C'], seq!['A']],
        vi.tag_matches(seq!['y']) == Some(sy),
        sy == seq![seq!['B'], seq!['C']] || sy == seq![seq!['C'], seq!['B']],
        vi.tag_matches(seq!['z']) is None,
    ensures
        query_lists("LIST FROM #x AND #y"@, vi, seq![seq!['C']]),
        query_lists("LIST FROM #x OR #y"@, vi, seq![seq!['A'], seq!['B'], seq!['C']]),
        query_lists("LIST FROM #x AND (#y OR #z)"@, vi, seq![seq!['C']]),
{
    lemma_and_example(vi, sx, sy);
    lemma_or_example(vi, sx, sy);
    lemma_grouped_example(vi, sx, sy);
}

} // verus!
