//! A configuration file as a tree of values.
//!
//! The tree keeps what the upgrade of an older file reads: texts, whole
//! numbers, lists and tables. Of anything else it keeps what kind it is.

use vstd::prelude::*;

use crate::seqs::{first_index, lemma_first_index_here, lemma_first_index_none};
use crate::text::same;

verus! {

#[derive(Debug, PartialEq, Eq)]
pub enum Node {
    Text(String),
    Integer(i64),
    Array(Vec<Node>),
    /// The entries of a table, in the order of their keys.
    Table(Vec<(String, Node)>),
    /// A value of a kind that nothing here reads.
    Other { kind: String },
}

pub enum NodeView {
    Text(Seq<char>),
    Integer(i64),
    Array(Seq<NodeView>),
    Table(Seq<(Seq<char>, NodeView)>),
    Other { kind: Seq<char> },
}

impl Node {
    pub open spec fn tree(self) -> NodeView
        decreases self,
    {
        match self {
            Node::Text(s) => NodeView::Text(s@),
            Node::Integer(n) => NodeView::Integer(n),
            Node::Array(items) => NodeView::Array(
                Seq::new(
                    items@.len(),
                    |i: int|
                        if 0 <= i < items@.len() {
                            items@[i].tree()
                        } else {
                            NodeView::Integer(0)
                        },
                ),
            ),
            Node::Table(entries) => NodeView::Table(
                Seq::new(
                    entries@.len(),
                    |i: int|
                        if 0 <= i < entries@.len() {
                            (entries@[i].0@, entries@[i].1.tree())
                        } else {
                            (Seq::empty(), NodeView::Integer(0))
                        },
                ),
            ),
            Node::Other { kind } => NodeView::Other { kind: kind@ },
        }
    }
}

pub open spec fn opt_tree(o: Option<&Node>) -> Option<NodeView> {
    match o {
        Some(v) => Some(v.tree()),
        None => None,
    }
}

/// Holds of the entry with a key.
pub open spec fn under_key(key: Seq<char>) -> spec_fn((Seq<char>, NodeView)) -> bool {
    |e: (Seq<char>, NodeView)| e.0 == key
}

impl NodeView {
    /// The value under a key, if this is a table that has it.
    pub open spec fn get(self, key: Seq<char>) -> Option<NodeView> {
        match self {
            NodeView::Table(entries) => match first_index(entries, under_key(key)) {
                Some(i) => Some(entries[i].1),
                None => None,
            },
            _ => None,
        }
    }

    /// The text under a key, if there is one.
    pub open spec fn text_at(self, key: Seq<char>) -> Option<Seq<char>> {
        match self.get(key) {
            Some(NodeView::Text(s)) => Some(s),
            _ => None,
        }
    }

    /// The whole number under a key, if there is one.
    pub open spec fn integer_at(self, key: Seq<char>) -> Option<i64> {
        match self.get(key) {
            Some(NodeView::Integer(n)) => Some(n),
            _ => None,
        }
    }

    /// The list under a key, empty if there is none.
    pub open spec fn array_at(self, key: Seq<char>) -> Seq<NodeView> {
        match self.get(key) {
            Some(NodeView::Array(items)) => items,
            _ => Seq::empty(),
        }
    }

    /// The entries of the table under a key, none if there is no table.
    pub open spec fn entries_at(self, key: Seq<char>) -> Seq<(Seq<char>, NodeView)> {
        match self.get(key) {
            Some(NodeView::Table(entries)) => entries,
            _ => Seq::empty(),
        }
    }
}

pub open spec fn trees(items: Seq<Node>) -> Seq<NodeView> {
    items.map_values(|v: Node| v.tree())
}

pub open spec fn entry_trees(entries: Seq<(String, Node)>) -> Seq<(Seq<char>, NodeView)> {
    entries.map_values(|e: (String, Node)| (e.0@, e.1.tree()))
}

/// The tree of a list is the list of the trees.
pub proof fn lemma_array_tree(items: Vec<Node>)
    ensures
        Node::Array(items).tree() == NodeView::Array(trees(items@)),
{
    assert(Node::Array(items).tree()->Array_0 =~= trees(items@));
}

/// The tree of a table is the list of its keys with their trees.
pub proof fn lemma_table_tree(entries: Vec<(String, Node)>)
    ensures
        Node::Table(entries).tree() == NodeView::Table(entry_trees(entries@)),
{
    assert(Node::Table(entries).tree()->Table_0 =~= entry_trees(entries@));
}

impl Node {
    /// The value under a key, if this is a table that has it.
    pub fn get(&self, key: &str) -> (r: Option<&Node>)
        ensures
            opt_tree(r) == self.tree().get(key@),
    {
        match self {
            Node::Table(entries) => {
                let ghost es = entry_trees(entries@);
                proof {
                    lemma_table_tree(*entries);
                }
                let mut i: usize = 0;
                while i < entries.len()
                    invariant
                        i <= entries.len(),
                        es == entry_trees(entries@),
                        self.tree() == NodeView::Table(es),
                        forall|j: int| 0 <= j < i ==> !under_key(key@)(#[trigger] es[j]),
                    decreases entries.len() - i,
                {
                    if same(entries[i].0.as_str(), key) {
                        proof {
                            assert(under_key(key@)(es[i as int]));
                            lemma_first_index_here(es, under_key(key@), i as int);
                        }
                        return Some(&entries[i].1);
                    }
                    i += 1;
                }
                proof {
                    lemma_first_index_none(es, under_key(key@));
                }
                None
            },
            _ => None,
        }
    }

    /// The text under a key, if there is one.
    pub fn text_at(&self, key: &str) -> (r: Option<&str>)
        ensures
            crate::types::opt_str(r) == self.tree().text_at(key@),
    {
        match self.get(key) {
            Some(Node::Text(s)) => Some(s.as_str()),
            _ => None,
        }
    }

    /// The whole number under a key, if there is one.
    pub fn integer_at(&self, key: &str) -> (r: Option<i64>)
        ensures
            r == self.tree().integer_at(key@),
    {
        match self.get(key) {
            Some(Node::Integer(n)) => Some(*n),
            _ => None,
        }
    }

    /// The list under a key, if there is one.
    pub fn array_at(&self, key: &str) -> (r: Option<&Vec<Node>>)
        ensures
            match r {
                Some(items) => trees(items@) == self.tree().array_at(key@),
                None => self.tree().array_at(key@) == Seq::<NodeView>::empty(),
            },
    {
        match self.get(key) {
            Some(Node::Array(items)) => {
                proof {
                    lemma_array_tree(*items);
                }
                Some(items)
            },
            _ => None,
        }
    }

    /// The entries of the table under a key, if there is one.
    pub fn entries_at(&self, key: &str) -> (r: Option<&Vec<(String, Node)>>)
        ensures
            match r {
                Some(entries) => entry_trees(entries@) == self.tree().entries_at(key@),
                None => self.tree().entries_at(key@) == Seq::<(Seq<char>, NodeView)>::empty(),
            },
    {
        match self.get(key) {
            Some(Node::Table(entries)) => {
                proof {
                    lemma_table_tree(*entries);
                }
                Some(entries)
            },
            _ => None,
        }
    }
}

// ---------------------------------------------------------------------------
// Reading a file
// ---------------------------------------------------------------------------

/// A TOML value, as the `toml` crate holds it.
#[verifier::external_type_specification]
#[verifier::external_body]
pub struct ExTomlValue(toml::Value);

/// What `toml::from_str` makes of a text: its tree, or what is wrong with it.
pub uninterp spec fn document_of(text: Seq<char>) -> Result<NodeView, Seq<char>>;

/// Takes a `toml::Value` apart, one variant each: texts, integers, arrays and
/// tables as they are, and of any other value its `type_str`.
#[verifier::external_body]
fn own_value(value: toml::Value) -> (r: Node) {
    match value {
        toml::Value::String(s) => Node::Text(s),
        toml::Value::Integer(n) => Node::Integer(n),
        toml::Value::Array(items) => Node::Array(items.into_iter().map(own_value).collect()),
        toml::Value::Table(table) => Node::Table(
            table.into_iter().map(|(key, item)| (key, own_value(item))).collect(),
        ),
        other => Node::Other { kind: other.type_str().to_owned() },
    }
}

/// Calls `toml::from_str`, which depends on the text alone. The tree is the
/// parsed document taken apart as it is; the error is the parser's own text.
#[verifier::external_body]
pub(crate) fn read_document(text: &str) -> (r: Result<Node, String>)
    ensures
        match r {
            Ok(v) => document_of(text@) == Ok::<NodeView, Seq<char>>(v.tree()),
            Err(e) => document_of(text@) == Err::<NodeView, Seq<char>>(e@),
        },
{
    toml::from_str::<toml::Value>(text).map(own_value).map_err(|e| e.to_string())
}

/// A table gives what its first entry under a key holds, of the kind that was
/// asked for, and nothing where no entry has the key.
pub proof fn law_a_table_gives_what_is_under_the_key(
    entries: Seq<(Seq<char>, NodeView)>,
    key: Seq<char>,
    i: int,
)
    requires
        0 <= i < entries.len(),
        entries[i].0 == key,
        forall|j: int| 0 <= j < i ==> (#[trigger] entries[j]).0 != key,
    ensures
        ({
            let table = NodeView::Table(entries);
            let held = entries[i].1;
            &&& table.get(key) == Some(held)
            &&& table.text_at(key) == (if held is Text {
                Some(held->Text_0)
            } else {
                None
            })
            &&& table.integer_at(key) == (if held is Integer {
                Some(held->Integer_0)
            } else {
                None
            })
            &&& held matches NodeView::Array(items) ==> table.array_at(key) == items
            &&& held !is Array ==> table.array_at(key).len() == 0
            &&& held matches NodeView::Table(inner) ==> table.entries_at(key) == inner
            &&& held !is Table ==> table.entries_at(key).len() == 0
        }),
        forall|k: Seq<char>|
            (forall|j: int| 0 <= j < entries.len() ==> (#[trigger] entries[j]).0 != k)
                ==> #[trigger] NodeView::Table(entries).get(k) is None,
{
    let p = under_key(key);
    assert forall|j: int| 0 <= j < i implies !p(#[trigger] entries[j]) by {}
    lemma_first_index_here(entries, p, i);
    assert forall|k: Seq<char>|
        (forall|j: int| 0 <= j < entries.len() ==> (#[trigger] entries[j]).0
            != k) implies #[trigger] NodeView::Table(entries).get(k) is None by {
        let q = under_key(k);
        assert forall|j: int| 0 <= j < entries.len() implies !q(#[trigger] entries[j]) by {}
        lemma_first_index_none(entries, q);
    }
}

} // verus!
