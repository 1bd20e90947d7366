//! Items as JSON and YAML text.
//!
//! The text is written and read by `serde_json` and `serde_yaml`. Both work
//! on a [`Document`], the tree that `serde_json` holds; this module builds
//! such a tree from an item and takes one apart into an item, and keeps
//! every call into the two crates behind a function of a few lines. What
//! those functions promise is believed, not proved; each says so.

use vstd::prelude::*;

use super::model::{distinct_keys, has_key, lemma_to_map_push, to_map, ItemView};
use super::{view_of, Item, ItemMap};

verus! {

/// A document tree as `serde_json` holds it. Nothing of its inside is known
/// here but what [`document_item`] says of it.
#[verifier::external_body]
pub struct Document {
    inner: serde_json::Value,
}

/// What a document is worth as an item: `null` is the null scalar, a number
/// that is an `i64` an integer, a string a text, an array a list, an object a
/// dictionary. A document that holds anything else (a boolean, any other
/// number) is worth no item.
///
/// Payloads are read into a document first and turned into an item then.
/// So what the reading crate does on the way to a document stands: a key of
/// a YAML mapping that is a scalar but no string is taken as the string that
/// spells it; a YAML float that is not finite is read as `null`; and where
/// a key comes twice the later entry stands, whatever the earlier one held.
pub uninterp spec fn document_item(doc: Document) -> Option<ItemView>;

/// How deep a document is nested: one more than the deepest of its parts.
pub uninterp spec fn document_depth(doc: Document) -> nat;

/// The JSON text that `serde_json` writes for an item.
pub uninterp spec fn json_text(item: ItemView) -> Seq<u8>;

/// The YAML text that `serde_yaml` writes for an item.
pub uninterp spec fn yaml_text(item: ItemView) -> Seq<u8>;

/// The item that `serde_json` reads from JSON text, if the text is JSON and
/// is worth an item.
pub uninterp spec fn json_parsed(bytes: Seq<u8>) -> Option<ItemView>;

/// The item that `serde_yaml` reads from YAML text, if the text is YAML and
/// is worth an item. The text is read into the same kind of tree as JSON
/// is, so a key of a mapping is taken as the string that spells it.
pub uninterp spec fn yaml_parsed(bytes: Seq<u8>) -> Option<ItemView>;

/// One level of a document: what kind of node it is, with its parts.
pub enum Node {
    Null,
    Flag,
    Number(Option<i64>),
    Text(String),
    List(Vec<Document>),
    Dict(Vec<(String, Document)>),
}

/// Whether each of the documents is worth an item.
pub open spec fn all_items(docs: Seq<Document>) -> bool {
    forall|i: int| 0 <= i < docs.len() ==> (#[trigger] document_item(docs[i])) is Some
}

/// The items that the documents are worth.
pub open spec fn items_of(docs: Seq<Document>) -> Seq<ItemView> {
    Seq::new(docs.len(), |i: int| document_item(docs[i])->Some_0)
}

/// The documents of a list of named documents.
pub open spec fn values_of(entries: Seq<(String, Document)>) -> Seq<Document> {
    Seq::new(entries.len(), |i: int| entries[i].1)
}

/// The keys of a list of named documents, each with the item that its
/// document is worth.
pub open spec fn pairs_of(entries: Seq<(String, Document)>) -> Seq<(Seq<char>, ItemView)> {
    Seq::new(entries.len(), |i: int| (entries[i].0@, document_item(entries[i].1)->Some_0))
}

/// What one level of a document is worth as an item.
pub open spec fn node_item(node: Node) -> Option<ItemView> {
    match node {
        Node::Null => Some(ItemView::Null),
        Node::Flag => None,
        Node::Number(Some(i)) => Some(ItemView::Int(i)),
        Node::Number(None) => None,
        Node::Text(s) => Some(ItemView::Text(s@)),
        Node::List(docs) => if all_items(docs@) {
            Some(ItemView::List(items_of(docs@)))
        } else {
            None
        },
        Node::Dict(entries) => if all_items(values_of(entries@)) {
            Some(ItemView::Dict(to_map(pairs_of(entries@))))
        } else {
            None
        },
    }
}

/// `serde_json::Value::Null`: the document that is worth the null scalar.
#[verifier::external_body]
fn document_null() -> (doc: Document)
    ensures
        document_item(doc) == Some(ItemView::Null),
{
    Document { inner: serde_json::Value::Null }
}

/// `serde_json::Value::from` on an `i64`: the number document of that
/// integer.
#[verifier::external_body]
fn document_int(i: i64) -> (doc: Document)
    ensures
        document_item(doc) == Some(ItemView::Int(i)),
{
    Document { inner: serde_json::Value::from(i) }
}

/// `serde_json::Value::String`: the string document of that text.
#[verifier::external_body]
fn document_text(s: String) -> (doc: Document)
    ensures
        document_item(doc) == Some(ItemView::Text(s@)),
{
    Document { inner: serde_json::Value::String(s) }
}

/// `serde_json::Value::Array`: the array document of the given documents, in
/// their order.
#[verifier::external_body]
fn document_list(docs: Vec<Document>) -> (doc: Document)
    requires
        all_items(docs@),
    ensures
        document_item(doc) == Some(ItemView::List(items_of(docs@))),
{
    Document { inner: serde_json::Value::Array(docs.into_iter().map(|d| d.inner).collect()) }
}

/// `serde_json::Value::Object` of the map that `serde_json::Map` collects
/// from the entries: the object document that holds each key with its
/// document. The keys are distinct, so no entry overwrites another.
#[verifier::external_body]
fn document_dict(entries: Vec<(String, Document)>) -> (doc: Document)
    requires
        all_items(values_of(entries@)),
        distinct_keys(pairs_of(entries@)),
    ensures
        document_item(doc) == Some(ItemView::Dict(to_map(pairs_of(entries@)))),
{
    Document {
        inner: serde_json::Value::Object(entries.into_iter().map(|(k, d)| (k, d.inner)).collect()),
    }
}

/// Tells the variants of `serde_json::Value` apart and hands out the parts of
/// one level: the `i64` that `Number::as_i64` gives, the string, the elements
/// of an array in order, the entries of an object. An object holds no key
/// twice. Every part is nested less deep than the document it was taken
/// from.
#[verifier::external_body]
fn document_node(doc: Document) -> (node: Node)
    ensures
        node_item(node) == document_item(doc),
        node matches Node::List(docs) ==> forall|i: int|
            0 <= i < docs@.len() ==> document_depth(#[trigger] docs@[i]) < document_depth(doc),
        node matches Node::Dict(entries) ==> distinct_keys(pairs_of(entries@)) && forall|i: int|
            0 <= i < entries@.len() ==> document_depth((#[trigger] entries@[i]).1)
                < document_depth(doc),
{
    match doc.inner {
        serde_json::Value::Null => Node::Null,
        serde_json::Value::Bool(_) => Node::Flag,
        serde_json::Value::Number(n) => Node::Number(n.as_i64()),
        serde_json::Value::String(s) => Node::Text(s),
        serde_json::Value::Array(a) => Node::List(
            a.into_iter().map(|inner| Document { inner }).collect(),
        ),
        serde_json::Value::Object(o) => Node::Dict(
            o.into_iter().map(|(k, inner)| (k, Document { inner })).collect(),
        ),
    }
}

/// `serde_json::to_vec` on a document. The text depends on what the
/// document is worth alone: an object is written with its keys in ascending
/// order. For a document that is worth an item the call always gives text:
/// it writes into a vector, which cannot fail, every key is a string, and
/// every number is an integer.
#[verifier::external_body]
pub(crate) fn json_to_vec(doc: &Document) -> (r: Option<Vec<u8>>)
    requires
        document_item(*doc) is Some,
    ensures
        r is Some,
        r->Some_0@ == json_text(document_item(*doc)->Some_0),
{
    serde_json::to_vec(&doc.inner).ok()
}

/// `serde_yaml::to_vec` on a document. The text depends on what the
/// document is worth alone: a mapping is written with its keys in ascending
/// order. For a document that is worth an item the call always gives text:
/// it writes into a vector, which cannot fail, every key is a string, and
/// every number is an integer.
#[verifier::external_body]
pub(crate) fn yaml_to_vec(doc: &Document) -> (r: Option<Vec<u8>>)
    requires
        document_item(*doc) is Some,
    ensures
        r is Some,
        r->Some_0@ == yaml_text(document_item(*doc)->Some_0),
{
    serde_yaml::to_vec(&doc.inner).ok()
}

/// `serde_json::from_slice` into a `serde_json::Value`. The bytes alone
/// decide whether a document comes out and what it is worth.
#[verifier::external_body]
pub(crate) fn json_from_slice(bytes: &[u8]) -> (r: Option<Document>)
    ensures
        match r {
            Some(doc) => document_item(doc) == json_parsed(bytes@),
            None => json_parsed(bytes@) is None,
        },
{
    serde_json::from_slice(bytes).ok().map(|inner| Document { inner })
}

/// `serde_yaml::from_slice` into a `serde_json::Value`. The bytes alone
/// decide whether a document comes out and what it is worth.
#[verifier::external_body]
pub(crate) fn yaml_from_slice(bytes: &[u8]) -> (r: Option<Document>)
    ensures
        match r {
            Some(doc) => document_item(doc) == yaml_parsed(bytes@),
            None => yaml_parsed(bytes@) is None,
        },
{
    serde_yaml::from_slice(bytes).ok().map(|inner| Document { inner })
}

/// The document that is worth the item.
pub fn to_document(item: &Item) -> (doc: Document)
    ensures
        document_item(doc) == Some(item@),
    decreases item, 1nat,
{
    match item {
        Item::Value(super::Value::Null) => document_null(),
        Item::Value(super::Value::IntValue(i)) => document_int(*i),
        Item::Value(super::Value::StringValue(s)) => document_text(s.clone()),
        Item::Vec(items) => {
            let docs = to_documents(items);
            proof {
                Item::lemma_view_of_vec(*items);
                assert(items_of(docs@) =~= Item::views(items@));
            }
            document_list(docs)
        },
        Item::Dict(m) => {
            let entries = to_entries(m);
            proof {
                assert(pairs_of(entries@) =~= m.pairs());
                assert forall|j: int| 0 <= j < values_of(entries@).len() implies (
                #[trigger] document_item(values_of(entries@)[j])) is Some by {
                    assert(document_item(entries@[j].1) == Some(m.pairs()[j].1));
                }
            }
            document_dict(entries)
        },
    }
}

/// The documents that are worth the items, in their order.
fn to_documents(items: &Vec<Item>) -> (docs: Vec<Document>)
    ensures
        docs@.len() == items@.len(),
        forall|j: int|
            0 <= j < items@.len() ==> (#[trigger] document_item(docs@[j])) == Some(items@[j]@),
    decreases items, 0nat,
{
    let mut docs: Vec<Document> = Vec::new();
    let mut i: usize = 0;
    while i < items.len()
        invariant
            i <= items@.len(),
            docs@.len() == i,
            forall|j: int| 0 <= j < i ==> (#[trigger] document_item(docs@[j])) == Some(items@[j]@),
        decreases items@.len() - i,
    {
        docs.push(to_document(&items[i]));
        i += 1;
    }
    docs
}

/// The entries of a dictionary, each item as the document that is worth it.
fn to_entries(m: &ItemMap) -> (entries: Vec<(String, Document)>)
    ensures
        entries@.len() == m.pairs().len(),
        distinct_keys(m.pairs()),
        m@ == to_map(m.pairs()),
        forall|j: int|
            0 <= j < entries@.len() ==> (#[trigger] entries@[j]).0@ == m.pairs()[j].0
                && document_item(entries@[j].1) == Some(m.pairs()[j].1),
    decreases m, 0nat,
{
    let n = m.len();
    let mut entries: Vec<(String, Document)> = Vec::new();
    let mut i: usize = 0;
    while i < n
        invariant
            n == m.pairs().len(),
            i <= n,
            entries@.len() == i,
            forall|j: int|
                0 <= j < i ==> (#[trigger] entries@[j]).0@ == m.pairs()[j].0 && document_item(
                    entries@[j].1,
                ) == Some(m.pairs()[j].1),
        decreases n - i,
    {
        let doc = to_document(m.item_at(i));
        entries.push((m.key_at(i).clone(), doc));
        i += 1;
    }
    entries
}

/// The item that the document is worth, if it is worth one.
pub fn from_document(doc: Document) -> (r: Option<Item>)
    ensures
        view_of(r) == document_item(doc),
    decreases document_depth(doc),
{
    match document_node(doc) {
        Node::Null => Some(Item::Value(super::Value::Null)),
        Node::Flag => None,
        Node::Number(Some(i)) => Some(Item::Value(super::Value::IntValue(i))),
        Node::Number(None) => None,
        Node::Text(s) => Some(Item::Value(super::Value::StringValue(s))),
        Node::List(docs) => {
            let mut docs = docs;
            let ghost all = docs@;
            let mut items: Vec<Item> = Vec::new();
            let mut i: usize = 0;
            while i < docs.len()
                invariant
                    i <= all.len(),
                    docs@.len() == all.len(),
                    forall|j: int| i <= j < all.len() ==> docs@[j] == all[j],
                    forall|j: int|
                        0 <= j < all.len() ==> document_depth(#[trigger] all[j]) < document_depth(
                            doc,
                        ),
                    document_item(doc) == (if all_items(all) {
                        Some(ItemView::List(items_of(all)))
                    } else {
                        None
                    }),
                    items@.len() == i,
                    forall|j: int|
                        0 <= j < i ==> document_item(all[j]) == Some((#[trigger] items@[j])@),
                decreases all.len() - i,
            {
                let mut child = document_null();
                std::mem::swap(&mut docs[i], &mut child);
                match from_document(child) {
                    Some(item) => {
                        items.push(item);
                    },
                    None => {
                        proof {
                            assert(document_item(all[i as int]) is None);
                        }
                        return None;
                    },
                }
                i += 1;
            }
            proof {
                Item::lemma_view_of_vec(items);
                assert(all_items(all)) by {
                    assert forall|j: int| 0 <= j < all.len() implies (#[trigger] document_item(
                        all[j],
                    )) is Some by {
                        assert(document_item(all[j]) == Some(items@[j]@));
                    }
                }
                assert(items_of(all) =~= Item::views(items@));
            }
            Some(Item::Vec(items))
        },
        Node::Dict(entries) => {
            let mut entries = entries;
            let ghost all = entries@;
            let mut map = ItemMap::new();
            let mut i: usize = 0;
            proof {
                assert(to_map(pairs_of(all).take(0)) =~= Map::<Seq<char>, ItemView>::empty());
            }
            while i < entries.len()
                invariant
                    i <= all.len(),
                    entries@.len() == all.len(),
                    distinct_keys(pairs_of(all)),
                    forall|j: int| i <= j < all.len() ==> entries@[j] == all[j],
                    forall|j: int|
                        0 <= j < all.len() ==> document_depth((#[trigger] all[j]).1)
                            < document_depth(doc),
                    forall|j: int| 0 <= j < i ==> (#[trigger] document_item(all[j].1)) is Some,
                    document_item(doc) == (if all_items(values_of(all)) {
                        Some(ItemView::Dict(to_map(pairs_of(all))))
                    } else {
                        None
                    }),
                    map@ == to_map(pairs_of(all).take(i as int)),
                decreases all.len() - i,
            {
                let mut entry = (String::new(), document_null());
                std::mem::swap(&mut entries[i], &mut entry);
                let (key, child) = entry;
                match from_document(child) {
                    Some(item) => {
                        proof {
                            let front = pairs_of(all).take(i as int);
                            let pair = pairs_of(all)[i as int];
                            assert(front.push(pair) =~= pairs_of(all).take(i + 1));
                            assert(distinct_keys(front)) by {
                                assert forall|a: int, b: int| 0 <= a < b < front.len() implies (
                                #[trigger] front[a]).0 != (#[trigger] front[b]).0 by {
                                    assert(pairs_of(all)[a].0 != pairs_of(all)[b].0);
                                }
                            }
                            assert(!has_key(front, pair.0)) by {
                                if has_key(front, pair.0) {
                                    let a = super::model::position_of(front, pair.0);
                                    assert(pairs_of(all)[a].0 != pairs_of(all)[i as int].0);
                                }
                            }
                            lemma_to_map_push(front, pair.0, pair.1);
                        }
                        map.insert(key, item);
                    },
                    None => {
                        proof {
                            assert(document_item(values_of(all)[i as int]) is None);
                        }
                        return None;
                    },
                }
                i += 1;
            }
            proof {
                assert(pairs_of(all).take(all.len() as int) =~= pairs_of(all));
                assert(all_items(values_of(all))) by {
                    assert forall|j: int| 0 <= j < values_of(all).len() implies (
                    #[trigger] document_item(values_of(all)[j])) is Some by {
                        assert(document_item(all[j].1) is Some);
                    }
                }
            }
            Some(Item::Dict(map))
        },
    }
}

} // verus!
