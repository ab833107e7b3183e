//! BSON documents as the planner builds them.
//!
//! Stages, predicates and sort specifications are `mongodb::bson::Document`
//! values. Verus cannot look inside one, so this module gives the contents of a
//! document a name, [`doc_entries`], and states over that name what the few
//! operations the planner uses do. Everything else in the crate is proved
//! against those statements.

use mongodb::bson::{Bson, Document};
use vstd::prelude::*;

verus! {

/// `Document` of the bson crate, as the driver hands it on: an ordered map from
/// keys to BSON values. Its inside is not shown to the verifier.
#[verifier::external_type_specification]
#[verifier::external_body]
pub struct ExDocument(mongodb::bson::Document);

/// `Bson` of the bson crate: one BSON value. Its inside is not shown to the
/// verifier.
#[verifier::external_type_specification]
#[verifier::external_body]
pub struct ExBson(mongodb::bson::Bson);

/// The BSON values the planner produces, as mathematical values.
#[verifier::ext_equal]
pub enum Value {
    Null,
    Int32(i32),
    Int64(i64),
    Text(Seq<char>),
    Array(Seq<Value>),
    Document(Seq<(Seq<char>, Value)>),
}

/// The entries of a document: keys with their values, in document order.
pub type Entries = Seq<(Seq<char>, Value)>;

/// What a document holds: its keys with their values, in the order in which
/// the document iterates over them. No key occurs twice.
pub uninterp spec fn doc_entries(d: Document) -> Entries;

/// What a BSON value is: the number, text, list or document it holds.
pub uninterp spec fn bson_value(b: Bson) -> Value;

/// The values of a list of BSON values, one for one.
pub open spec fn values_of(items: Seq<Bson>) -> Seq<Value> {
    items.map_values(|b: Bson| bson_value(b))
}

/// The entries that a list of keyed BSON values stands for, one for one.
pub open spec fn pairs_of(pairs: Seq<(String, Bson)>) -> Entries {
    pairs.map_values(|p: (String, Bson)| (p.0@, bson_value(p.1)))
}

/// The contents of a list of documents, one for one.
pub open spec fn stages_of(docs: Seq<Document>) -> Seq<Entries> {
    docs.map_values(|d: Document| doc_entries(d))
}

/// Whether some entry has the given key.
pub open spec fn has_key(entries: Entries, key: Seq<char>) -> bool {
    exists|i: int| 0 <= i < entries.len() && (#[trigger] entries[i]).0 == key
}

/// The entries after setting `key` to `value`: the first entry with that key
/// keeps its place and takes the new value; without one, the pair goes last.
pub open spec fn put(entries: Entries, key: Seq<char>, value: Value) -> Entries
    decreases entries.len(),
{
    if entries.len() == 0 {
        seq![(key, value)]
    } else if entries[0].0 == key {
        entries.update(0, (key, value))
    } else {
        seq![entries[0]] + put(entries.drop_first(), key, value)
    }
}

/// The entries after setting each of `pairs` in turn.
pub open spec fn put_all(entries: Entries, pairs: Entries) -> Entries
    decreases pairs.len(),
{
    if pairs.len() == 0 {
        entries
    } else {
        put(put_all(entries, pairs.drop_last()), pairs.last().0, pairs.last().1)
    }
}

/// Setting a key that no entry has appends the pair.
pub proof fn lemma_put_fresh(entries: Entries, key: Seq<char>, value: Value)
    requires
        !has_key(entries, key),
    ensures
        put(entries, key, value) == entries.push((key, value)),
    decreases entries.len(),
{
    if entries.len() > 0 {
        let rest = entries.drop_first();
        assert(entries[0].0 != key);
        assert forall|i: int| 0 <= i < rest.len() implies (#[trigger] rest[i]).0 != key by {
            assert(rest[i] == entries[i + 1]);
        }
        lemma_put_fresh(rest, key, value);
        assert(seq![entries[0]] + rest.push((key, value)) =~= entries.push((key, value)));
    } else {
        assert(seq![(key, value)] =~= entries.push((key, value)));
    }
}

/// Setting pairs in two runs is setting them in one.
pub proof fn lemma_put_all_concat(entries: Entries, first: Entries, second: Entries)
    ensures
        put_all(entries, first + second) == put_all(put_all(entries, first), second),
    decreases second.len(),
{
    if second.len() == 0 {
        assert(first + second =~= first);
    } else {
        assert((first + second).drop_last() =~= first + second.drop_last());
        assert((first + second).last() == second.last());
        lemma_put_all_concat(entries, first, second.drop_last());
    }
}

/// Setting one pair is setting a list of one.
pub proof fn lemma_put_all_one(entries: Entries, key: Seq<char>, value: Value)
    ensures
        put_all(entries, seq![(key, value)]) == put(entries, key, value),
{
    let one = seq![(key, value)];
    assert(one.drop_last() =~= Seq::<(Seq<char>, Value)>::empty());
    assert(put_all(entries, one.drop_last()) == entries);
}

/// `Document::new` of the bson crate: the new document has no entries.
pub assume_specification[ mongodb::bson::Document::new ]() -> (doc: Document)
    ensures
        doc_entries(doc) == Seq::<(Seq<char>, Value)>::empty(),
;

/// `Document::insert` of the bson crate, which hands the pair to the index map
/// underneath: a key the document already has keeps its place and takes the new
/// value, a new key goes last. The value that was replaced is dropped.
#[verifier::external_body]
pub(crate) fn doc_insert(doc: &mut Document, key: String, value: Bson)
    ensures
        doc_entries(*final(doc)) == put(doc_entries(*old(doc)), key@, bson_value(value)),
{
    doc.insert(key, value);
}

/// `Document::extend` of the bson crate, which inserts the pairs one after the
/// other, each as `Document::insert` does.
#[verifier::external_body]
pub(crate) fn doc_extend(doc: &mut Document, pairs: Vec<(String, Bson)>)
    ensures
        doc_entries(*final(doc)) == put_all(doc_entries(*old(doc)), pairs_of(pairs@)),
{
    doc.extend(pairs);
}

/// The variant `Bson::Null` of the bson crate.
#[verifier::external_body]
pub(crate) fn bson_null() -> (b: Bson)
    ensures
        bson_value(b) == Value::Null,
{
    Bson::Null
}

/// The variant `Bson::Int32` of the bson crate, holding the given number.
#[verifier::external_body]
pub(crate) fn bson_int32(n: i32) -> (b: Bson)
    ensures
        bson_value(b) == Value::Int32(n),
{
    Bson::Int32(n)
}

/// The variant `Bson::Int64` of the bson crate, holding the given number.
#[verifier::external_body]
pub(crate) fn bson_int64(n: i64) -> (b: Bson)
    ensures
        bson_value(b) == Value::Int64(n),
{
    Bson::Int64(n)
}

/// The variant `Bson::String` of the bson crate, holding the given text.
#[verifier::external_body]
pub(crate) fn bson_string(s: String) -> (b: Bson)
    ensures
        bson_value(b) == Value::Text(s@),
{
    Bson::String(s)
}

/// The variant `Bson::Array` of the bson crate, holding the given values in
/// their order.
#[verifier::external_body]
pub(crate) fn bson_array(items: Vec<Bson>) -> (b: Bson)
    ensures
        bson_value(b) == Value::Array(values_of(items@)),
{
    Bson::Array(items)
}

/// The variant `Bson::Document` of the bson crate, holding the given document.
#[verifier::external_body]
pub(crate) fn bson_document(doc: Document) -> (b: Bson)
    ensures
        bson_value(b) == Value::Document(doc_entries(doc)),
{
    Bson::Document(doc)
}

/// A BSON string with the text of `s`.
pub fn bson_text(s: &str) -> (b: Bson)
    ensures
        bson_value(b) == Value::Text(s@),
{
    bson_string(String::from_str(s))
}

/// A document with the one entry `key: value`.
pub fn single_entry(key: &str, value: Bson) -> (doc: Document)
    ensures
        doc_entries(doc) == seq![(key@, bson_value(value))],
{
    let mut doc = Document::new();
    doc_insert(&mut doc, String::from_str(key), value);
    doc
}

/// Appending one value to a list appends its value to the list's values.
pub proof fn lemma_values_push(items: Seq<Bson>, item: Bson)
    ensures
        values_of(items.push(item)) == values_of(items).push(bson_value(item)),
{
    assert(values_of(items.push(item)) =~= values_of(items).push(bson_value(item)));
}

/// Appending one document to a list appends its entries to the list's contents.
pub proof fn lemma_stages_push(docs: Seq<Document>, doc: Document)
    ensures
        stages_of(docs.push(doc)) == stages_of(docs).push(doc_entries(doc)),
{
    assert(stages_of(docs.push(doc)) =~= stages_of(docs).push(doc_entries(doc)));
}

} // verus!
