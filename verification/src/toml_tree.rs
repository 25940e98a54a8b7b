//! TOML documents as plain trees, through `toml_edit`.
use vstd::prelude::*;

verus! {

/// A TOML value as the logic reads it.
#[derive(Debug)]
pub enum TomlValue {
    Str(String),
    Int(i64),
    Bool(bool),
    /// An array value.
    Array(Vec<TomlValue>),
    /// A table or inline table, its keys in document order.
    Table(Vec<(String, TomlValue)>),
    /// An array of tables (`[[name]]`), each element a `Table`.
    TableArray(Vec<TomlValue>),
    /// A float or a datetime.
    Other,
}

/// The plain value of a TOML value.
pub enum TomlTree {
    Str(Seq<char>),
    Int(int),
    Bool(bool),
    Array(Seq<TomlTree>),
    Table(Seq<(Seq<char>, TomlTree)>),
    TableArray(Seq<TomlTree>),
    Other,
}

pub open spec fn tree_of(v: TomlValue) -> TomlTree
    decreases v, 0int,
{
    match v {
        TomlValue::Str(s) => TomlTree::Str(s@),
        TomlValue::Int(i) => TomlTree::Int(i as int),
        TomlValue::Bool(b) => TomlTree::Bool(b),
        TomlValue::Array(items) => TomlTree::Array(trees_of(items@)),
        TomlValue::Table(entries) => TomlTree::Table(table_of(entries@)),
        TomlValue::TableArray(items) => TomlTree::TableArray(trees_of(items@)),
        TomlValue::Other => TomlTree::Other,
    }
}

pub open spec fn trees_of(items: Seq<TomlValue>) -> Seq<TomlTree>
    decreases items, 1int,
{
    if items.len() == 0 {
        Seq::empty()
    } else {
        trees_of(items.drop_last()).push(tree_of(items.last()))
    }
}

pub open spec fn table_of(entries: Seq<(String, TomlValue)>) -> Seq<(Seq<char>, TomlTree)>
    decreases entries, 1int,
{
    if entries.len() == 0 {
        Seq::empty()
    } else {
        table_of(entries.drop_last()).push((entries.last().0@, tree_of(entries.last().1)))
    }
}

pub proof fn lemma_trees_of(items: Seq<TomlValue>)
    ensures
        trees_of(items).len() == items.len(),
        forall|i: int| 0 <= i < items.len() ==> #[trigger] trees_of(items)[i] == tree_of(items[i]),
    decreases items.len(),
{
    if items.len() > 0 {
        lemma_trees_of(items.drop_last());
        assert forall|i: int| 0 <= i < items.len() implies #[trigger] trees_of(items)[i] == tree_of(items[i]) by {
            if i < items.len() - 1 {
                assert(items.drop_last()[i] == items[i]);
            }
        }
    }
}

pub proof fn lemma_table_of(entries: Seq<(String, TomlValue)>)
    ensures
        table_of(entries).len() == entries.len(),
        forall|i: int| 0 <= i < entries.len() ==> #[trigger] table_of(entries)[i] == (entries[i].0@, tree_of(entries[i].1)),
    decreases entries.len(),
{
    if entries.len() > 0 {
        lemma_table_of(entries.drop_last());
        assert forall|i: int| 0 <= i < entries.len() implies #[trigger] table_of(entries)[i] == (entries[i].0@, tree_of(entries[i].1)) by {
            if i < entries.len() - 1 {
                assert(entries.drop_last()[i] == entries[i]);
            }
        }
    }
}

/// The top-level table of a TOML document in document order, or the parser's error.
pub uninterp spec fn spec_toml_document(text: Seq<char>) -> Result<Seq<(Seq<char>, TomlTree)>, Seq<char>>;

#[verifier::external_type_specification]
#[verifier::external_body]
pub struct ExTomlItem(toml_edit::Item);

#[verifier::external_type_specification]
#[verifier::external_body]
pub struct ExTomlValue(toml_edit::Value);

#[verifier::external_type_specification]
#[verifier::external_body]
pub struct ExTomlTable(toml_edit::Table);

/// A `toml_edit` value as a tree, variant for variant.
#[verifier::external_body]
fn value_tree(value: &toml_edit::Value) -> TomlValue {
    match value {
        toml_edit::Value::String(s) => TomlValue::Str(s.value().clone()),
        toml_edit::Value::Integer(i) => TomlValue::Int(*i.value()),
        toml_edit::Value::Boolean(b) => TomlValue::Bool(*b.value()),
        toml_edit::Value::Array(a) => TomlValue::Array(a.iter().map(value_tree).collect()),
        toml_edit::Value::InlineTable(t) => TomlValue::Table(t.iter().map(|(k, v)| (k.to_string(), value_tree(v))).collect()),
        _ => TomlValue::Other,
    }
}

/// A `toml_edit` item as a tree, variant for variant.
#[verifier::external_body]
fn item_tree(item: &toml_edit::Item) -> TomlValue {
    match item {
        toml_edit::Item::Value(v) => value_tree(v),
        toml_edit::Item::Table(t) => TomlValue::Table(table_entries(t)),
        toml_edit::Item::ArrayOfTables(a) => TomlValue::TableArray(a.iter().map(|t| TomlValue::Table(table_entries(t))).collect()),
        toml_edit::Item::None => TomlValue::Other,
    }
}

/// A `toml_edit` table's keys and items, in document order.
#[verifier::external_body]
fn table_entries(table: &toml_edit::Table) -> Vec<(String, TomlValue)> {
    table.iter().map(|(k, i)| (k.to_string(), item_tree(i))).collect()
}

/// `text.parse::<toml_edit::DocumentMut>()`: the document's top-level table as a tree, or the
/// parser's message. The parse itself is named by `spec_toml_document`.
#[verifier::external_body]
pub(crate) fn parse_toml_document(text: &str) -> (r: Result<Vec<(String, TomlValue)>, String>)
    ensures
        match r {
            Ok(t) => spec_toml_document(text@) == Ok::<Seq<(Seq<char>, TomlTree)>, Seq<char>>(table_of(t@)),
            Err(e) => spec_toml_document(text@) == Err::<Seq<(Seq<char>, TomlTree)>, Seq<char>>(e@),
        },
{
    match text.parse::<toml_edit::DocumentMut>() {
        Ok(doc) => Ok(table_entries(doc.as_table())),
        Err(err) => Err(err.to_string()),
    }
}

// ---------------------------------------------------------------------------------------------
// Top-level keys as flat entries

/// A top-level value as a flat reading sees it: a string, integer, boolean, or something else.
pub enum TomlLeaf {
    Str(Seq<char>),
    Int(int),
    Bool(bool),
    Other,
}

pub open spec fn leaf_of(t: TomlTree) -> TomlLeaf {
    match t {
        TomlTree::Str(s) => TomlLeaf::Str(s),
        TomlTree::Int(i) => TomlLeaf::Int(i),
        TomlTree::Bool(b) => TomlLeaf::Bool(b),
        _ => TomlLeaf::Other,
    }
}

impl TomlValue {
    pub open spec fn leaf(self) -> TomlLeaf {
        match self {
            TomlValue::Str(s) => TomlLeaf::Str(s@),
            TomlValue::Int(i) => TomlLeaf::Int(i as int),
            TomlValue::Bool(b) => TomlLeaf::Bool(b),
            _ => TomlLeaf::Other,
        }
    }
}

pub open spec fn flat(t: Seq<(Seq<char>, TomlTree)>) -> Seq<(Seq<char>, TomlLeaf)> {
    t.map_values(|e: (Seq<char>, TomlTree)| (e.0, leaf_of(e.1)))
}

/// The top-level key/value pairs of a TOML document in document order, or the parser's error.
pub open spec fn spec_toml_entries(text: Seq<char>) -> Result<Seq<(Seq<char>, TomlLeaf)>, Seq<char>> {
    match spec_toml_document(text) {
        Ok(t) => Ok(flat(t)),
        Err(e) => Err(e),
    }
}

pub open spec fn entries_view(v: Seq<(String, TomlValue)>) -> Seq<(Seq<char>, TomlLeaf)> {
    v.map_values(|e: (String, TomlValue)| (e.0@, e.1.leaf()))
}

pub open spec fn parsed_view(r: Result<Vec<(String, TomlValue)>, String>) -> Result<Seq<(Seq<char>, TomlLeaf)>, Seq<char>> {
    match r {
        Ok(v) => Ok(entries_view(v@)),
        Err(e) => Err(e@),
    }
}

pub proof fn lemma_flat_table(v: Seq<(String, TomlValue)>)
    ensures
        flat(table_of(v)) == entries_view(v),
{
    lemma_table_of(v);
    assert(flat(table_of(v)) =~= entries_view(v));
}

/// The document's top-level keys, each as a string, integer, boolean, or other value.
pub fn parse_toml_entries(text: &str) -> (r: Result<Vec<(String, TomlValue)>, String>)
    ensures
        parsed_view(r) == spec_toml_entries(text@),
{
    let r = parse_toml_document(text);
    proof {
        if r is Ok {
            lemma_flat_table(r->Ok_0@);
        }
    }
    r
}

} // verus!
