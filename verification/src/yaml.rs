//! YAML documents as plain values.

use vstd::prelude::*;
use crate::ieee::Double;
use crate::text;

verus! {

/// `serde_yml::Value`, a parsed document or a part of one.
#[verifier::external_type_specification]
#[verifier::external_body]
pub struct ExValue(serde_yml::Value);

/// A document or a part of one.
#[derive(Debug)]
pub enum Yaml {
    Null,
    Bool(bool),
    Number(Double),
    Text(String),
    List(Vec<Yaml>),
    Table(Vec<(String, Yaml)>),
    /// A part behind a tag.
    Tagged(String, Box<Yaml>),
}

/// What a document says.
pub enum Tree {
    Null,
    Bool(bool),
    Number(Option<Double>),
    Text(Seq<char>),
    List(Seq<Tree>),
    Table(Seq<(Seq<char>, Tree)>),
    Tagged(Seq<char>, Box<Tree>),
}

/// A number by its bits; nothing for NaN, whose bits vary.
pub open spec fn amount(d: Double) -> Option<Double> {
    if d.nan() {
        None
    } else {
        Some(d)
    }
}

/// What a document says.
pub open spec fn tree(y: Yaml) -> Tree
    decreases y,
{
    match y {
        Yaml::Null => Tree::Null,
        Yaml::Bool(b) => Tree::Bool(b),
        Yaml::Number(d) => Tree::Number(amount(d)),
        Yaml::Text(s) => Tree::Text(s@),
        Yaml::List(v) => Tree::List(
            Seq::new(
                v@.len(),
                |i: int|
                    if 0 <= i < v@.len() {
                        tree(v@[i])
                    } else {
                        Tree::Null
                    },
            ),
        ),
        Yaml::Table(v) => Tree::Table(
            Seq::new(
                v@.len(),
                |i: int|
                    if 0 <= i < v@.len() {
                        (v@[i].0@, tree(v@[i].1))
                    } else {
                        (Seq::empty(), Tree::Null)
                    },
            ),
        ),
        Yaml::Tagged(tag, inner) => Tree::Tagged(tag@, Box::new(tree(*inner))),
    }
}

/// What `serde_yml::from_str` reads out of a text, where it reads anything.
pub uninterp spec fn yaml_tree(text: Seq<char>) -> Option<Tree>;

/// What a `serde_yml::Value` holds.
pub uninterp spec fn held(v: serde_yml::Value) -> Tree;

/// `serde_yml::from_str`. Claimed: whether a document is read, and what it holds,
/// depend on the text alone. How YAML is read is left unsaid.
#[verifier::external_body]
fn read(text: &str) -> (r: Option<serde_yml::Value>)
    ensures
        match r {
            Some(v) => yaml_tree(text@) == Some(held(v)),
            None => yaml_tree(text@) is None,
        },
{
    serde_yml::from_str::<serde_yml::Value>(text).ok()
}

/// The uppermost level of a value.
enum Level<'a> {
    Null,
    Bool(bool),
    Number(Double),
    Text(String),
    List(Vec<&'a serde_yml::Value>),
    Table(Vec<(String, &'a serde_yml::Value)>),
    Tagged(String, &'a serde_yml::Value),
}

/// What a value holds, by its uppermost level.
spec fn level_tree(l: Level) -> Tree {
    match l {
        Level::Null => Tree::Null,
        Level::Bool(b) => Tree::Bool(b),
        Level::Number(d) => Tree::Number(amount(d)),
        Level::Text(s) => Tree::Text(s@),
        Level::List(v) => Tree::List(v@.map_values(|x: &serde_yml::Value| held(*x))),
        Level::Table(v) => Tree::Table(
            v@.map_values(|e: (String, &serde_yml::Value)| (e.0@, held(*e.1))),
        ),
        Level::Tagged(tag, inner) => Tree::Tagged(tag@, Box::new(held(*inner))),
    }
}

/// The variants of `serde_yml::Value` with their fields; `Mapping::iter` in the order
/// of the mapping, `Number::as_f64`, and tag and value of a `TaggedValue`. Claimed: a
/// value holds what its variant, and the parts in it, say.
#[verifier::external_body]
fn level<'a>(v: &'a serde_yml::Value) -> (l: Level<'a>)
    ensures
        level_tree(l) == held(*v),
{
    match v {
        serde_yml::Value::Null => Level::Null,
        serde_yml::Value::Bool(b) => Level::Bool(*b),
        serde_yml::Value::Number(n) => Level::Number(Double { bits: n.as_f64().to_bits() }),
        serde_yml::Value::String(s) => Level::Text(s.clone()),
        serde_yml::Value::Sequence(s) => Level::List(s.iter().collect()),
        serde_yml::Value::Mapping(m) => {
            Level::Table(m.iter().map(|(k, x)| (k.clone(), x)).collect())
        },
        serde_yml::Value::Tagged(t) => Level::Tagged(t.tag().as_str().to_string(), t.value()),
    }
}

fn plain(v: &serde_yml::Value) -> (y: Yaml)
    ensures
        tree(y) == held(*v),
    decreases held(*v),
{
    match level(v) {
        Level::Null => Yaml::Null,
        Level::Bool(b) => Yaml::Bool(b),
        Level::Number(d) => Yaml::Number(d),
        Level::Text(s) => Yaml::Text(s),
        Level::List(parts) => {
            let mut out: Vec<Yaml> = Vec::new();
            let mut i: usize = 0;
            while i < parts.len()
                invariant
                    i <= parts.len(),
                    out.len() == i,
                    held(*v) is List,
                    held(*v)->List_0 == parts@.map_values(|x: &serde_yml::Value| held(*x)),
                    forall|k: int| 0 <= k < i ==> tree(#[trigger] out@[k]) == held(*parts@[k]),
                decreases parts.len() - i,
            {
                proof {
                    assert(held(*v)->List_0[i as int] == held(*parts@[i as int]));
                }
                out.push(plain(parts[i]));
                i = i + 1;
            }
            let y = Yaml::List(out);
            assert(tree(y)->List_0 =~= held(*v)->List_0);
            y
        },
        Level::Table(parts) => {
            let mut out: Vec<(String, Yaml)> = Vec::new();
            let mut i: usize = 0;
            while i < parts.len()
                invariant
                    i <= parts.len(),
                    out.len() == i,
                    held(*v) is Table,
                    held(*v)->Table_0 == parts@.map_values(
                        |e: (String, &serde_yml::Value)| (e.0@, held(*e.1)),
                    ),
                    forall|k: int|
                        0 <= k < i ==> (#[trigger] out@[k]).0@ == parts@[k].0@ && tree(out@[k].1)
                            == held(*parts@[k].1),
                decreases parts.len() - i,
            {
                proof {
                    let e = held(*v)->Table_0[i as int];
                    assert(e == (parts@[i as int].0@, held(*parts@[i as int].1)));
                    assert(decreases_to!(held(*v) => e));
                    assert(decreases_to!(e => e.1));
                }
                let name: String = parts[i].0.as_str().to_owned();
                out.push((name, plain(parts[i].1)));
                i = i + 1;
            }
            let y = Yaml::Table(out);
            assert(tree(y)->Table_0 =~= held(*v)->Table_0);
            y
        },
        Level::Tagged(tag, inner) => {
            assert(decreases_to!(held(*v) => *held(*v)->Tagged_1));
            Yaml::Tagged(tag, Box::new(plain(inner)))
        },
    }
}

/// What a document that may be missing says.
pub open spec fn tree_of(doc: Option<Yaml>) -> Option<Tree> {
    match doc {
        Some(y) => Some(tree(y)),
        None => None,
    }
}

/// The document in a text; nothing where the text is no YAML.
pub fn parse_yaml(text: &str) -> (doc: Option<Yaml>)
    ensures
        tree_of(doc) == yaml_tree(text@),
{
    match read(text) {
        Some(v) => Some(plain(&v)),
        None => None,
    }
}

/// The first entry under a key.
pub open spec fn entry(entries: Seq<(Seq<char>, Tree)>, key: Seq<char>) -> Option<Tree>
    decreases entries.len(),
{
    if entries.len() == 0 {
        None
    } else if entries[0].0 == key {
        Some(entries[0].1)
    } else {
        entry(entries.drop_first(), key)
    }
}

/// An entry is found under a key exactly if there is one, and it is the first.
pub proof fn first_entries_are_found(entries: Seq<(Seq<char>, Tree)>, key: Seq<char>)
    ensures
        entry(entries, key) is None <==> forall|i: int|
            0 <= i < entries.len() ==> (#[trigger] entries[i]).0 != key,
        entry(entries, key) matches Some(t) ==> exists|i: int|
            0 <= i < entries.len() && (#[trigger] entries[i]) == (key, t) && forall|j: int|
                0 <= j < i ==> (#[trigger] entries[j]).0 != key,
    decreases entries.len(),
{
    if entries.len() > 0 {
        let rest = entries.drop_first();
        first_entries_are_found(rest, key);
        if entries[0].0 == key {
            assert(entries[0] == (key, entries[0].1));
        } else {
            assert forall|i: int| 0 <= i < rest.len() implies #[trigger] rest[i] == entries[i + 1] by {}
            if let Some(t) = entry(rest, key) {
                let i = choose|i: int|
                    0 <= i < rest.len() && (#[trigger] rest[i]) == (key, t) && forall|j: int|
                        0 <= j < i ==> (#[trigger] rest[j]).0 != key;
                assert(entries[i + 1] == (key, t));
                assert forall|j: int| 0 <= j < i + 1 implies (#[trigger] entries[j]).0 != key by {
                    if j > 0 {
                        assert(rest[j - 1] == entries[j]);
                    }
                }
            } else {
                assert forall|i: int| 0 <= i < entries.len() implies (#[trigger] entries[i]).0
                    != key by {
                    if i > 0 {
                        assert(rest[i - 1] == entries[i]);
                    }
                }
            }
        }
    }
}

/// What stands under a key. The search passes through tags.
pub open spec fn under(t: Tree, key: Seq<char>) -> Option<Tree>
    decreases t,
{
    match t {
        Tree::Table(entries) => entry(entries, key),
        Tree::Tagged(_, inner) => under(*inner, key),
        _ => None,
    }
}

/// A part, as what it says.
pub open spec fn said(part: Option<&Yaml>) -> Option<Tree> {
    match part {
        Some(y) => Some(tree(*y)),
        None => None,
    }
}

/// What stands under a key. The search passes through tags.
pub fn find<'a>(doc: &'a Yaml, key: &str) -> (part: Option<&'a Yaml>)
    ensures
        said(part) == under(tree(*doc), key@),
    decreases doc,
{
    match doc {
        Yaml::Table(entries) => {
            let ghost all = tree(*doc)->Table_0;
            let mut i: usize = 0;
            assert(all.skip(0) =~= all);
            while i < entries.len()
                invariant
                    i <= entries.len(),
                    tree(*doc) == Tree::Table(all),
                    all.len() == entries.len(),
                    forall|k: int|
                        0 <= k < all.len() ==> #[trigger] all[k] == (
                            entries@[k].0@,
                            tree(entries@[k].1),
                        ),
                    entry(all, key@) == entry(all.skip(i as int), key@),
                decreases entries.len() - i,
            {
                assert(all.skip(i as int)[0] == all[i as int]);
                assert(all.skip(i as int).drop_first() =~= all.skip(i + 1));
                if text::same(entries[i].0.as_str(), key) {
                    return Some(&entries[i].1);
                }
                i = i + 1;
            }
            None
        },
        Yaml::Tagged(_, inner) => find(inner, key),
        _ => None,
    }
}

} // verus!
