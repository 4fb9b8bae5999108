//! The generic JSON value tree that serialization produces and
//! reconstruction consumes. Objects are key-sorted association lists;
//! a 64-bit float is carried opaquely as its IEEE 754 bit pattern, to
//! be turned back into a number by the JSON text writer.

use vstd::prelude::*;

use crate::assoc::{assoc_sorted, entries_dv};

verus! {

/// Specification model of a JSON value.
pub enum SpecJson {
    I64(i64),
    U64(u64),
    /// IEEE 754 bit pattern of a 64-bit float.
    F64(u64),
    Text(Seq<char>),
    Boolean(bool),
    Null,
    Array(Seq<SpecJson>),
    Object(Seq<(Seq<char>, SpecJson)>),
}

/// Every object in the tree keeps its keys strictly sorted.
pub open spec fn json_wf(j: SpecJson) -> bool
    decreases j,
{
    match j {
        SpecJson::Array(items) => forall|i: int| 0 <= i < items.len() ==> json_wf(#[trigger] items[i]),
        SpecJson::Object(es) => assoc_sorted(es) && forall|i: int|
            0 <= i < es.len() ==> json_wf(#[trigger] es[i].1),
        _ => true,
    }
}

/// A generic JSON value.
#[derive(PartialEq, Debug)]
pub enum Json {
    I64(i64),
    U64(u64),
    /// IEEE 754 bit pattern of a 64-bit float. The library never
    /// interprets the bits; a JSON text writer renders them.
    F64(u64),
    Text(String),
    Boolean(bool),
    Null,
    Array(Vec<Json>),
    Object(Vec<(String, Json)>),
}

pub open spec fn json_dv(j: Json) -> SpecJson
    decreases j,
{
    match j {
        Json::I64(v) => SpecJson::I64(v),
        Json::U64(v) => SpecJson::U64(v),
        Json::F64(bits) => SpecJson::F64(bits),
        Json::Text(s) => SpecJson::Text(s@),
        Json::Boolean(b) => SpecJson::Boolean(b),
        Json::Null => SpecJson::Null,
        Json::Array(items) => SpecJson::Array(json_seq_dv(items@)),
        Json::Object(es) => SpecJson::Object(json_entries_dv(es@)),
    }
}

pub open spec fn json_seq_dv(s: Seq<Json>) -> Seq<SpecJson>
    decreases s,
{
    if s.len() == 0 {
        Seq::empty()
    } else {
        seq![json_dv(s[0])] + json_seq_dv(s.drop_first())
    }
}

pub open spec fn json_entries_dv(s: Seq<(String, Json)>) -> Seq<(Seq<char>, SpecJson)>
    decreases s,
{
    if s.len() == 0 {
        Seq::empty()
    } else {
        seq![(s[0].0@, json_dv(s[0].1))] + json_entries_dv(s.drop_first())
    }
}

impl DeepView for Json {
    type V = SpecJson;

    open spec fn deep_view(&self) -> SpecJson {
        json_dv(*self)
    }
}

pub proof fn lemma_json_seq_dv(s: Seq<Json>)
    ensures
        json_seq_dv(s).len() == s.len(),
        forall|i: int| 0 <= i < s.len() ==> (#[trigger] json_seq_dv(s)[i]) == json_dv(s[i]),
    decreases s.len(),
{
    if s.len() > 0 {
        lemma_json_seq_dv(s.drop_first());
        assert forall|i: int| 0 <= i < s.len() implies json_seq_dv(s)[i] == json_dv(s[i]) by {
            if i > 0 {
                assert(json_seq_dv(s)[i] == json_seq_dv(s.drop_first())[i - 1]);
                assert(s.drop_first()[i - 1] == s[i]);
            }
        }
    }
}

/// The recursive entry view coincides with the association-list view.
pub proof fn lemma_json_entries_dv(s: Seq<(String, Json)>)
    ensures
        json_entries_dv(s) == entries_dv(s),
    decreases s.len(),
{
    if s.len() == 0 {
        assert(json_entries_dv(s) =~= entries_dv(s));
    } else {
        lemma_json_entries_dv(s.drop_first());
        assert forall|i: int|
            0 <= i < s.len() implies json_entries_dv(s)[i] == entries_dv(s)[i] by {
            if i > 0 {
                assert(json_entries_dv(s)[i] == json_entries_dv(s.drop_first())[i - 1]);
                assert(entries_dv(s.drop_first())[i - 1] == entries_dv(s)[i]);
            }
        }
        assert(json_entries_dv(s) =~= entries_dv(s));
    }
}

} // verus!
