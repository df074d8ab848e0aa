//! TOML documents as trees of plain values.

use crate::config::{config_tree, shadowconfig_text, Config};
use vstd::prelude::*;

verus! {

/// A TOML value. Numbers and booleans are not told apart.
pub enum Toml {
    Text(String),
    List(Vec<Toml>),
    Table(Vec<(String, Toml)>),
    Datetime,
    Scalar,
}

/// An entry of a table.
pub struct TomlEntry {
    pub key: Seq<char>,
    pub value: TomlTree,
}

/// The model of a TOML value.
pub enum TomlTree {
    Text(Seq<char>),
    List(Seq<TomlTree>),
    Table(Seq<TomlEntry>),
    Datetime,
    Scalar,
}

impl View for Toml {
    type V = TomlTree;

    open spec fn view(&self) -> TomlTree
        decreases self,
    {
        match self {
            Toml::Text(t) => TomlTree::Text(t@),
            Toml::List(v) => TomlTree::List(
                Seq::new(
                    v@.len(),
                    |i: int|
                        if 0 <= i < v@.len() {
                            v@[i]@
                        } else {
                            TomlTree::Scalar
                        },
                ),
            ),
            Toml::Table(es) => TomlTree::Table(
                Seq::new(
                    es@.len(),
                    |i: int|
                        if 0 <= i < es@.len() {
                            TomlEntry { key: es@[i].0@, value: es@[i].1@ }
                        } else {
                            TomlEntry { key: Seq::<char>::empty(), value: TomlTree::Scalar }
                        },
                ),
            ),
            Toml::Datetime => TomlTree::Datetime,
            Toml::Scalar => TomlTree::Scalar,
        }
    }
}

/// `toml::Value`: a parsed TOML value.
#[verifier::external_type_specification]
#[verifier::external_body]
pub struct ExValue(toml::Value);

/// `toml::de::Error`: why a text is no TOML document.
#[verifier::external_type_specification]
#[verifier::external_body]
pub struct ExDeError(toml::de::Error);

/// What a parsed TOML value holds. The entries of a table are in the order of their keys.
pub uninterp spec fn value_tree(v: toml::Value) -> TomlTree;

/// What `toml::from_str` makes of a text, where it is a TOML document.
pub uninterp spec fn toml_document(text: Seq<char>) -> Option<TomlTree>;

/// Trusted: `toml::from_str`, into a `toml::Table`. The result is a function of the text.
/// The text that is written for a configuration is a TOML document, and holds that
/// configuration.
#[verifier::external_body]
fn parse_value(text: &str) -> (v: Result<toml::Value, toml::de::Error>)
    ensures
        v is Ok <==> toml_document(text@) is Some,
        v is Ok ==> value_tree(v->Ok_0) == toml_document(text@)->0,
        forall|c: Config|
            text@ == #[trigger] shadowconfig_text(c) ==> v is Ok && value_tree(v->Ok_0)
                == config_tree(c),
{
    toml::from_str::<toml::Table>(text).map(toml::Value::Table)
}

/// Trusted: the variants of `toml::Value`, one for one.
#[verifier::external_body]
fn convert(v: toml::Value) -> (t: Toml)
    ensures
        t@ == value_tree(v),
{
    match v {
        toml::Value::String(s) => Toml::Text(s),
        toml::Value::Array(a) => Toml::List(a.into_iter().map(convert).collect()),
        toml::Value::Table(t) => Toml::Table(
            t.into_iter().map(|(k, x)| (k, convert(x))).collect(),
        ),
        toml::Value::Datetime(_) => Toml::Datetime,
        toml::Value::Integer(_) => Toml::Scalar,
        toml::Value::Float(_) => Toml::Scalar,
        toml::Value::Boolean(_) => Toml::Scalar,
    }
}

/// The tree of a TOML document, where the text is one.
pub fn parse_toml(text: &str) -> (t: Option<Toml>)
    ensures
        match t {
            Some(tree) => toml_document(text@) == Some(tree@),
            None => toml_document(text@) is None,
        },
        forall|c: Config|
            text@ == #[trigger] shadowconfig_text(c) ==> t is Some && t->0@ == config_tree(c),
{
    match parse_value(text) {
        Ok(v) => Some(convert(v)),
        Err(_) => None,
    }
}

/// The value of a key, where the entries have it.
pub open spec fn lookup(es: Seq<TomlEntry>, key: Seq<char>) -> Option<TomlTree>
    decreases es.len(),
{
    if es.len() == 0 {
        None
    } else if es.last().key == key {
        Some(es.last().value)
    } else {
        lookup(es.drop_last(), key)
    }
}

/// A field of a record: by its key in a table, by its place in a list. A date has no
/// fields. The outer `None` stands for a value that is no record, the inner one for a
/// record without the field.
pub open spec fn field(t: TomlTree, key: Seq<char>, place: int) -> Option<Option<TomlTree>> {
    match t {
        TomlTree::Table(es) => Some(lookup(es, key)),
        TomlTree::List(vs) => if place < vs.len() {
            Some(Some(vs[place]))
        } else {
            Some(None)
        },
        TomlTree::Datetime => Some(None),
        _ => None,
    }
}

/// The texts of a list of texts.
pub open spec fn text_list(t: TomlTree) -> Option<Seq<Seq<char>>> {
    match t {
        TomlTree::List(vs) => if forall|i: int| 0 <= i < vs.len() ==> #[trigger] vs[i] is Text {
            Some(Seq::new(vs.len(), |i: int| vs[i]->Text_0))
        } else {
            None
        },
        _ => None,
    }
}

/// A field of a record.
pub fn get_field<'a>(t: &'a Toml, key: &str, place: usize) -> (f: Option<Option<&'a Toml>>)
    ensures
        match f {
            Some(Some(v)) => field(t@, key@, place as int) == Some(Some(v@)),
            Some(None) => field(t@, key@, place as int) == Some(None::<TomlTree>),
            None => field(t@, key@, place as int) is None,
        },
{
    match t {
        Toml::Table(es) => {
            let ghost all = t@->Table_0;
            let name = key.to_owned();
            let mut n: usize = es.len();
            assert(all.take(n as int) =~= all);
            while n > 0
                invariant
                    n <= es.len(),
                    t@ == TomlTree::Table(all),
                    all.len() == es.len(),
                    forall|i: int|
                        0 <= i < es.len() ==> #[trigger] all[i] == (TomlEntry {
                            key: es[i].0@,
                            value: es[i].1@,
                        }),
                    name@ == key@,
                    lookup(all.take(n as int), key@) == lookup(all, key@),
                decreases n,
            {
                assert(all.take(n as int).drop_last() =~= all.take(n - 1));
                assert(all.take(n as int).last() == all[n - 1]);
                if es[n - 1].0 == name {
                    return Some(Some(&es[n - 1].1));
                }
                n -= 1;
            }
            Some(None)
        },
        Toml::List(vs) => {
            if place < vs.len() {
                Some(Some(&vs[place]))
            } else {
                Some(None)
            }
        },
        Toml::Datetime => Some(None),
        _ => None,
    }
}

/// The texts of a list of texts.
pub fn get_texts(t: &Toml) -> (out: Option<Vec<String>>)
    ensures
        match out {
            Some(v) => text_list(t@) == Some(crate::text::texts(v@)),
            None => text_list(t@) is None,
        },
{
    match t {
        Toml::List(vs) => {
            let ghost all = t@->List_0;
            let mut out: Vec<String> = Vec::new();
            let mut i: usize = 0;
            while i < vs.len()
                invariant
                    i <= vs.len(),
                    t@ == TomlTree::List(all),
                    all.len() == vs.len(),
                    forall|j: int| 0 <= j < vs.len() ==> #[trigger] all[j] == vs[j]@,
                    out.len() == i,
                    forall|j: int|
                        0 <= j < i ==> #[trigger] all[j] is Text && out[j]@ == all[j]->Text_0,
                decreases vs.len() - i,
            {
                assert(all[i as int] == vs[i as int]@);
                match &vs[i] {
                    Toml::Text(s) => {
                        out.push(s.clone());
                    },
                    _ => {
                        return None;
                    },
                }
                i += 1;
            }
            assert(crate::text::texts(out@) =~= Seq::new(all.len(), |j: int| all[j]->Text_0));
            Some(out)
        },
        _ => None,
    }
}

} // verus!
