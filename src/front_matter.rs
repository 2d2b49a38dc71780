//! A note's front matter: the leading `---` block, read as YAML, and the
//! properties its entries become.

use vstd::prelude::*;

use crate::chars::{chars_of, string_of};

verus! {

/// A node of a parsed YAML document, field for field as `yaml_rust` gives it.
#[derive(Debug)]
pub enum YamlNode {
    Real(String),
    Integer(i64),
    Str(String),
    Boolean(bool),
    Array(Vec<YamlNode>),
    Hash(Vec<(YamlNode, YamlNode)>),
    Alias(usize),
    Null,
    BadValue,
}

/// A number of the front matter as YAML gives it: an integer, or a real
/// number in the text it was written in.
#[derive(Debug)]
pub enum Number {
    Integer(i64),
    Real(String),
}

/// A property of a note's front matter.
#[derive(Debug)]
pub enum Property {
    Text(String),
    Number(Number),
    Checkbox(bool),
    List(Vec<Property>),
    /// Seconds since the Unix epoch, in UTC.
    Date(i64),
    Unknown,
}

#[verifier::external_type_specification]
#[verifier::external_body]
pub struct ExYaml(yaml_rust::Yaml);

/// The documents that `yaml_rust` reads from a text, or `None` where it
/// reports a scan error.
pub uninterp spec fn yaml_documents(s: Seq<char>) -> Option<Seq<YamlNode>>;

/// Relies on `yaml_rust::YamlLoader::load_from_str`: the documents of the
/// text, or `None` on a scan error.
#[verifier::external_body]
fn load_yaml(s: &str) -> (r: Option<Vec<YamlNode>>)
    ensures
        match r {
            Some(v) => yaml_documents(s@) == Some(v@),
            None => yaml_documents(s@) is None,
        },
{
    match yaml_rust::YamlLoader::load_from_str(s) {
        Ok(docs) => Some(docs.iter().map(node_of).collect()),
        Err(_) => None,
    }
}

/// Copies a `yaml_rust::Yaml` into a `YamlNode`, variant for variant; a hash
/// keeps the order of its entries.
#[verifier::external_body]
fn node_of(y: &yaml_rust::Yaml) -> YamlNode {
    match y {
        yaml_rust::Yaml::Real(s) => YamlNode::Real(s.clone()),
        yaml_rust::Yaml::Integer(i) => YamlNode::Integer(*i),
        yaml_rust::Yaml::String(s) => YamlNode::Str(s.clone()),
        yaml_rust::Yaml::Boolean(b) => YamlNode::Boolean(*b),
        yaml_rust::Yaml::Array(a) => YamlNode::Array(a.iter().map(node_of).collect()),
        yaml_rust::Yaml::Hash(h) => YamlNode::Hash(h.iter().map(|(k, v)| (node_of(k), node_of(v))).collect()),
        yaml_rust::Yaml::Alias(n) => YamlNode::Alias(*n),
        yaml_rust::Yaml::Null => YamlNode::Null,
        yaml_rust::Yaml::BadValue => YamlNode::BadValue,
    }
}

/// `p` is the property that the YAML node `n` becomes: reals and integers
/// become numbers, strings text, booleans checkboxes, arrays lists of the
/// properties of their items; every other node becomes `Unknown`.
pub open spec fn converts(n: YamlNode, p: Property) -> bool
    decreases n,
{
    match n {
        YamlNode::Real(s) => p matches Property::Number(Number::Real(t)) && t@ == s@,
        YamlNode::Integer(i) => p matches Property::Number(Number::Integer(j)) && j == i,
        YamlNode::Str(s) => p matches Property::Text(t) && t@ == s@,
        YamlNode::Boolean(b) => p matches Property::Checkbox(c) && c == b,
        YamlNode::Array(ns) => p matches Property::List(ps) && ps@.len() == ns@.len() && forall|i: int|
            0 <= i < ns@.len() ==> converts(#[trigger] ns@[i], ps@[i]),
        _ => p is Unknown,
    }
}

/// The property that a YAML node becomes.
pub fn property_of(n: &YamlNode) -> (r: Property)
    ensures
        converts(*n, r),
    decreases n,
{
    match n {
        YamlNode::Real(s) => Property::Number(Number::Real(s.clone())),
        YamlNode::Integer(i) => Property::Number(Number::Integer(*i)),
        YamlNode::Str(s) => Property::Text(s.clone()),
        YamlNode::Boolean(b) => Property::Checkbox(*b),
        YamlNode::Array(ns) => {
            let mut out: Vec<Property> = Vec::new();
            let mut i: usize = 0;
            while i < ns.len()
                invariant
                    *n == YamlNode::Array(*ns),
                    i <= ns@.len(),
                    out@.len() == i,
                    forall|k: int| 0 <= k < i ==> converts(#[trigger] ns@[k], out@[k]),
                decreases ns@.len() - i,
            {
                proof {
                    assert(decreases_to!(*n => n->Array_0));
                    assert(decreases_to!(n->Array_0 => n->Array_0@));
                    assert(decreases_to!(n->Array_0@ => n->Array_0@[i as int]));
                }
                let p = property_of(&ns[i]);
                out.push(p);
                i = i + 1;
            }
            Property::List(out)
        },
        _ => Property::Unknown,
    }
}

/// The characters with Unicode's White_Space property, the ones that
/// `char::is_whitespace` accepts.
pub open spec fn is_white_space(c: char) -> bool {
    let u = c as u32;
    (9 <= u <= 13) || u == 32 || u == 0x85 || u == 0xA0 || u == 0x1680 || (0x2000 <= u <= 0x200A)
        || u == 0x2028 || u == 0x2029 || u == 0x202F || u == 0x205F || u == 0x3000
}

pub fn white_space(c: char) -> (r: bool)
    ensures
        r == is_white_space(c),
{
    let u = c as u32;
    (9 <= u && u <= 13) || u == 32 || u == 0x85 || u == 0xA0 || u == 0x1680 || (0x2000 <= u && u
        <= 0x200A) || u == 0x2028 || u == 0x2029 || u == 0x202F || u == 0x205F || u == 0x3000
}

pub open spec fn trim_start(s: Seq<char>) -> Seq<char>
    decreases s.len(),
{
    if s.len() > 0 && is_white_space(s[0]) {
        trim_start(s.drop_first())
    } else {
        s
    }
}

pub open spec fn trim_end(s: Seq<char>) -> Seq<char>
    decreases s.len(),
{
    if s.len() > 0 && is_white_space(s.last()) {
        trim_end(s.drop_last())
    } else {
        s
    }
}

/// `s` without white space at either end.
pub open spec fn trimmed(s: Seq<char>) -> Seq<char> {
    trim_end(trim_start(s))
}

/// Three dashes start at position `j` of `s`.
pub open spec fn dashes_at(s: Seq<char>, j: int) -> bool {
    0 <= j && j + 3 <= s.len() && s[j] == '-' && s[j + 1] == '-' && s[j + 2] == '-'
}

/// `s` with every run of three dashes taken out, left to right.
pub open spec fn without_dashes(s: Seq<char>) -> Seq<char>
    decreases s.len(),
{
    if s.len() == 0 {
        s
    } else if dashes_at(s, 0) {
        without_dashes(s.skip(3))
    } else {
        seq![s[0]] + without_dashes(s.skip(1))
    }
}

/// The smallest `j >= 3` at which three dashes start, if there is one.
pub open spec fn closing_dashes(s: Seq<char>) -> Option<int> {
    if exists|j: int| j >= 3 && #[trigger] dashes_at(s, j) {
        Some(choose|j: int| j >= 3 && #[trigger] dashes_at(s, j) && forall|k: int| 3 <= k < j ==> !dashes_at(s, k))
    } else {
        None
    }
}

/// Relies on `regex::Regex::find` with the pattern `---[\w\W]*?---`. On a text
/// that starts with `---` the leftmost match starts there, and as the
/// repetition is lazy it ends with the first later `---` that does not overlap
/// the opening one; without such a `---` nothing matches. The pattern is a
/// valid constant, so `new` succeeds.
#[verifier::external_body]
fn find_front_matter_block(s: &str) -> (r: Option<String>)
    ensures
        dashes_at(s@, 0) ==> match closing_dashes(s@) {
            Some(j) => r matches Some(b) && b@ == s@.take(j + 3),
            None => r is None,
        },
{
    regex::Regex::new(r"---[\w\W]*?---").unwrap().find(s).map(|m| m.as_str().to_string())
}
/// `s` without white space at either end.
fn trim_text(s: &str) -> (r: String)
    ensures
        r@ == trimmed(s@),
{
    let cs = chars_of(s);
    let mut i: usize = 0;
    assert(s@.skip(0) =~= s@);
    while i < cs.len() && white_space(cs[i])
        invariant
            cs@ == s@,
            i <= cs@.len(),
            trim_start(s@) == trim_start(s@.skip(i as int)),
        decreases cs@.len() - i,
    {
        assert(s@.skip(i as int).drop_first() =~= s@.skip(i + 1));
        i = i + 1;
    }
    let mut j: usize = cs.len();
    assert(s@.subrange(i as int, j as int) =~= s@.skip(i as int));
    while j > i && white_space(cs[j - 1])
        invariant
            cs@ == s@,
            i <= j <= cs@.len(),
            trim_start(s@) == s@.skip(i as int),
            trimmed(s@) == trim_end(s@.subrange(i as int, j as int)),
        decreases j,
    {
        assert(s@.subrange(i as int, j as int).drop_last() =~= s@.subrange(i as int, j - 1));
        j = j - 1;
    }
    let mut out: Vec<char> = Vec::new();
    let mut k: usize = i;
    while k < j
        invariant
            cs@ == s@,
            i <= k <= j <= cs@.len(),
            out@ == s@.subrange(i as int, k as int),
        decreases j - k,
    {
        out.push(cs[k]);
        assert(out@ =~= s@.subrange(i as int, k + 1));
        k = k + 1;
    }
    string_of(&out)
}

/// `s` with every run of three dashes taken out, left to right.
fn remove_dashes(s: &str) -> (r: String)
    ensures
        r@ == without_dashes(s@),
{
    let cs = chars_of(s);
    let mut out: Vec<char> = Vec::new();
    let mut i: usize = 0;
    assert(s@.skip(0) =~= s@);
    assert(Seq::<char>::empty() + without_dashes(s@) =~= without_dashes(s@));
    while i < cs.len()
        invariant
            cs@ == s@,
            i <= cs@.len(),
            out@ + without_dashes(s@.skip(i as int)) == without_dashes(s@),
        decreases cs@.len() - i,
    {
        let ghost rest = s@.skip(i as int);
        if 3 <= cs.len() - i && cs[i] == '-' && cs[i + 1] == '-' && cs[i + 2] == '-' {
            assert(dashes_at(rest, 0));
            assert(rest.skip(3) =~= s@.skip(i + 3));
            i = i + 3;
        } else {
            assert(!dashes_at(rest, 0));
            assert(rest.skip(1) =~= s@.skip(i + 1));
            let ghost before = out@;
            out.push(cs[i]);
            assert(out@ + without_dashes(s@.skip(i + 1)) =~= before + (seq![rest[0]]
                + without_dashes(rest.skip(1))));
            i = i + 1;
        }
    }
    assert(without_dashes(s@.skip(i as int)) =~= Seq::<char>::empty());
    assert(out@ + Seq::<char>::empty() =~= out@);
    string_of(&out)
}

/// The text of the front-matter block: where `s` starts with `---` and a
/// later `---` closes the block, the block with its runs of three dashes
/// taken out, trimmed.
pub open spec fn front_matter_text(s: Seq<char>) -> Option<Seq<char>> {
    if dashes_at(s, 0) {
        match closing_dashes(s) {
            Some(j) => Some(trimmed(without_dashes(s.take(j + 3)))),
            None => None,
        }
    } else {
        None
    }
}

/// The entries of a YAML hash whose key is a string, in order.
pub open spec fn string_keyed(h: Seq<(YamlNode, YamlNode)>) -> Seq<(Seq<char>, YamlNode)>
    decreases h.len(),
{
    if h.len() == 0 {
        Seq::empty()
    } else {
        let p = string_keyed(h.drop_last());
        match h.last().0 {
            YamlNode::Str(k) => p.push((k@, h.last().1)),
            _ => p,
        }
    }
}

/// The string-keyed entries of the front matter: those of the first YAML
/// document of the block where it is a hash; none where there is no block,
/// where YAML reports an error, or where the first document is no hash.
pub open spec fn front_matter_pairs(s: Seq<char>) -> Seq<(Seq<char>, YamlNode)> {
    match front_matter_text(s) {
        Some(t) => match yaml_documents(t) {
            Some(docs) => if docs.len() > 0 {
                match docs[0] {
                    YamlNode::Hash(h) => string_keyed(h@),
                    _ => Seq::empty(),
                }
            } else {
                Seq::empty()
            },
            None => Seq::empty(),
        },
        None => Seq::empty(),
    }
}

/// Each property is the key of the matching entry and what its value becomes.
pub open spec fn properties_match(
    props: Seq<(String, Property)>,
    pairs: Seq<(Seq<char>, YamlNode)>,
) -> bool {
    &&& props.len() == pairs.len()
    &&& forall|i: int|
        0 <= i < props.len() ==> (#[trigger] props[i]).0@ == pairs[i].0 && converts(
            pairs[i].1,
            props[i].1,
        )
}

/// The properties of a note's front matter, key by key in the order of the
/// block.
pub fn front_matter_properties(text: &str) -> (r: Vec<(String, Property)>)
    ensures
        properties_match(r@, front_matter_pairs(text@)),
{
    let mut out: Vec<(String, Property)> = Vec::new();
    let cs = chars_of(text);
    if !(cs.len() >= 3 && cs[0] == '-' && cs[1] == '-' && cs[2] == '-') {
        return out;
    }
    assert(dashes_at(text@, 0));
    let block = match find_front_matter_block(text) {
        Some(b) => b,
        None => {
            return out;
        },
    };
    let bare = remove_dashes(block.as_str());
    let inner = trim_text(bare.as_str());
    assert(front_matter_text(text@) == Some(inner@));
    let docs = match load_yaml(inner.as_str()) {
        Some(d) => d,
        None => {
            return out;
        },
    };
    if docs.len() == 0 {
        return out;
    }
    match &docs[0] {
        YamlNode::Hash(h) => {
            let mut i: usize = 0;
            while i < h.len()
                invariant
                    i <= h@.len(),
                    properties_match(out@, string_keyed(h@.take(i as int))),
                decreases h@.len() - i,
            {
                assert(h@.take(i + 1).drop_last() =~= h@.take(i as int));
                let entry = &h[i];
                match &entry.0 {
                    YamlNode::Str(k) => {
                        let p = property_of(&entry.1);
                        out.push((k.clone(), p));
                        assert(properties_match(out@, string_keyed(h@.take(i + 1)))) by {
                            assert(h@.take(i + 1).last() == h@[i as int]);
                        }
                    },
                    _ => {},
                }
                i = i + 1;
            }
            assert(h@.take(h@.len() as int) =~= h@);
            out
        },
        _ => out,
    }
}
} // verus!
