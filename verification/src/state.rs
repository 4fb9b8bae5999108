//! State values: a closed tagged union for everything a resource can
//! carry as a state field, and the `ToHalState` conversion that native
//! values enter the library through.

use vstd::prelude::*;

use crate::assoc::{assoc_get, assoc_set, assoc_sorted, entries_dv, set_entry};
use crate::lexical::lex_lt;
use crate::json::{json_dv, json_entries_dv, json_seq_dv, json_wf, lemma_json_entries_dv,
    lemma_json_seq_dv, Json, SpecJson};

verus! {

/// Specification model of a state value.
pub enum SpecHalState {
    I64(i64),
    U64(u64),
    /// IEEE 754 bit pattern of a 64-bit float.
    F64(u64),
    HalString(Seq<char>),
    Boolean(bool),
    Null,
    List(Seq<SpecHalState>),
    Object(Seq<(Seq<char>, SpecHalState)>),
}

/// Every object nested in the value keeps its keys strictly sorted.
pub open spec fn hal_state_wf(s: SpecHalState) -> bool
    decreases s,
{
    match s {
        SpecHalState::List(items) => forall|i: int|
            0 <= i < items.len() ==> hal_state_wf(#[trigger] items[i]),
        SpecHalState::Object(es) => assoc_sorted(es) && forall|i: int|
            0 <= i < es.len() ==> hal_state_wf(#[trigger] es[i].1),
        _ => true,
    }
}

/// A state value.
#[derive(PartialEq, Debug)]
pub enum HalState {
    I64(i64),
    U64(u64),
    /// IEEE 754 bit pattern of a 64-bit float, as `f64::to_bits`
    /// gives it. The library carries the bits through unchanged.
    F64(u64),
    HalString(String),
    Boolean(bool),
    Null,
    List(HalList),
    Object(HalObject),
}

/// An ordered sequence of state values.
pub type HalList = Vec<HalState>;

/// A key-sorted mapping of field names to state values.
#[derive(PartialEq, Debug)]
pub struct HalObject {
    entries: Vec<(String, HalState)>,
}

pub closed spec fn hal_dv(s: HalState) -> SpecHalState
    decreases s,
{
    match s {
        HalState::I64(v) => SpecHalState::I64(v),
        HalState::U64(v) => SpecHalState::U64(v),
        HalState::F64(bits) => SpecHalState::F64(bits),
        HalState::HalString(t) => SpecHalState::HalString(t@),
        HalState::Boolean(b) => SpecHalState::Boolean(b),
        HalState::Null => SpecHalState::Null,
        HalState::List(items) => SpecHalState::List(hal_seq_dv(items@)),
        HalState::Object(o) => SpecHalState::Object(hal_entries_dv(o.entries@)),
    }
}

pub closed spec fn hal_seq_dv(s: Seq<HalState>) -> Seq<SpecHalState>
    decreases s,
{
    if s.len() == 0 {
        Seq::empty()
    } else {
        seq![hal_dv(s[0])] + hal_seq_dv(s.drop_first())
    }
}

pub closed spec fn hal_entries_dv(s: Seq<(String, HalState)>) -> Seq<(Seq<char>, SpecHalState)>
    decreases s,
{
    if s.len() == 0 {
        Seq::empty()
    } else {
        seq![(s[0].0@, hal_dv(s[0].1))] + hal_entries_dv(s.drop_first())
    }
}

impl DeepView for HalState {
    type V = SpecHalState;

    closed spec fn deep_view(&self) -> SpecHalState {
        hal_dv(*self)
    }
}

impl DeepView for HalObject {
    type V = Seq<(Seq<char>, SpecHalState)>;

    closed spec fn deep_view(&self) -> Seq<(Seq<char>, SpecHalState)> {
        hal_entries_dv(self.entries@)
    }
}

/// Keys sorted and every value well-formed.
pub open spec fn hal_object_wf(es: Seq<(Seq<char>, SpecHalState)>) -> bool {
    assoc_sorted(es) && forall|i: int| 0 <= i < es.len() ==> hal_state_wf(#[trigger] es[i].1)
}

impl HalObject {
    #[verifier::type_invariant]
    spec fn well_formed(self) -> bool {
        hal_object_wf(self.deep_view())
    }
}

proof fn lemma_hal_object_wf_set(es: Seq<(Seq<char>, SpecHalState)>, k: Seq<char>, v: SpecHalState)
    requires
        hal_object_wf(es),
        hal_state_wf(v),
    ensures
        hal_object_wf(assoc_set(es, k, v)),
{
    crate::assoc::lemma_assoc_set_sorted(es, k, v);
    let r = assoc_set(es, k, v);
    assert forall|i: int| 0 <= i < r.len() implies hal_state_wf(#[trigger] r[i].1) by {
        crate::assoc::lemma_assoc_get_at(r, i);
        crate::assoc::lemma_assoc_get_set(es, k, v, r[i].0);
        if r[i].0 != k {
            crate::assoc::lemma_assoc_get_index(es, r[i].0);
            let j = choose|j: int|
                0 <= j < es.len() && #[trigger] es[j] == (r[i].0, assoc_get(es, r[i].0)->Some_0);
            assert(hal_state_wf(es[j].1));
        }
    }
}

pub proof fn lemma_hal_seq_dv(s: Seq<HalState>)
    ensures
        hal_seq_dv(s).len() == s.len(),
        forall|i: int| 0 <= i < s.len() ==> (#[trigger] hal_seq_dv(s)[i]) == hal_dv(s[i]),
    decreases s.len(),
{
    if s.len() > 0 {
        lemma_hal_seq_dv(s.drop_first());
        assert forall|i: int| 0 <= i < s.len() implies hal_seq_dv(s)[i] == hal_dv(s[i]) by {
            if i > 0 {
                assert(hal_seq_dv(s)[i] == hal_seq_dv(s.drop_first())[i - 1]);
                assert(s.drop_first()[i - 1] == s[i]);
            }
        }
    }
}

/// The recursive entry view coincides with the association-list view.
pub proof fn lemma_hal_entries_dv(s: Seq<(String, HalState)>)
    ensures
        hal_entries_dv(s) == entries_dv(s),
    decreases s.len(),
{
    if s.len() == 0 {
        assert(hal_entries_dv(s) =~= entries_dv(s));
    } else {
        lemma_hal_entries_dv(s.drop_first());
        assert forall|i: int|
            0 <= i < s.len() implies hal_entries_dv(s)[i] == entries_dv(s)[i] by {
            if i > 0 {
                assert(hal_entries_dv(s)[i] == hal_entries_dv(s.drop_first())[i - 1]);
                assert(entries_dv(s.drop_first())[i - 1] == entries_dv(s)[i]);
            }
        }
        assert(hal_entries_dv(s) =~= entries_dv(s));
    }
}

/// A conversion into a state value. Implementations are total: every
/// native value has exactly one state value, said by
/// `to_hal_state_spec`, and the result is well-formed.
pub trait ToHalState {
    spec fn to_hal_state_spec(&self) -> SpecHalState;

    fn to_hal_state(&self) -> (r: HalState)
        ensures
            r.deep_view() == self.to_hal_state_spec(),
            hal_state_wf(r.deep_view()),
    ;
}

impl ToHalState for i8 {
    open spec fn to_hal_state_spec(&self) -> SpecHalState {
        SpecHalState::I64(*self as i64)
    }

    fn to_hal_state(&self) -> (r: HalState) {
        HalState::I64(*self as i64)
    }
}

impl ToHalState for i16 {
    open spec fn to_hal_state_spec(&self) -> SpecHalState {
        SpecHalState::I64(*self as i64)
    }

    fn to_hal_state(&self) -> (r: HalState) {
        HalState::I64(*self as i64)
    }
}

impl ToHalState for i32 {
    open spec fn to_hal_state_spec(&self) -> SpecHalState {
        SpecHalState::I64(*self as i64)
    }

    fn to_hal_state(&self) -> (r: HalState) {
        HalState::I64(*self as i64)
    }
}

impl ToHalState for i64 {
    open spec fn to_hal_state_spec(&self) -> SpecHalState {
        SpecHalState::I64(*self)
    }

    fn to_hal_state(&self) -> (r: HalState) {
        HalState::I64(*self)
    }
}

impl ToHalState for isize {
    open spec fn to_hal_state_spec(&self) -> SpecHalState {
        SpecHalState::I64(*self as i64)
    }

    fn to_hal_state(&self) -> (r: HalState) {
        HalState::I64(*self as i64)
    }
}

impl ToHalState for u8 {
    open spec fn to_hal_state_spec(&self) -> SpecHalState {
        SpecHalState::U64(*self as u64)
    }

    fn to_hal_state(&self) -> (r: HalState) {
        HalState::U64(*self as u64)
    }
}

impl ToHalState for u16 {
    open spec fn to_hal_state_spec(&self) -> SpecHalState {
        SpecHalState::U64(*self as u64)
    }

    fn to_hal_state(&self) -> (r: HalState) {
        HalState::U64(*self as u64)
    }
}

impl ToHalState for u32 {
    open spec fn to_hal_state_spec(&self) -> SpecHalState {
        SpecHalState::U64(*self as u64)
    }

    fn to_hal_state(&self) -> (r: HalState) {
        HalState::U64(*self as u64)
    }
}

impl ToHalState for u64 {
    open spec fn to_hal_state_spec(&self) -> SpecHalState {
        SpecHalState::U64(*self)
    }

    fn to_hal_state(&self) -> (r: HalState) {
        HalState::U64(*self)
    }
}

impl ToHalState for usize {
    open spec fn to_hal_state_spec(&self) -> SpecHalState {
        SpecHalState::U64(*self as u64)
    }

    fn to_hal_state(&self) -> (r: HalState) {
        HalState::U64(*self as u64)
    }
}

impl ToHalState for bool {
    open spec fn to_hal_state_spec(&self) -> SpecHalState {
        SpecHalState::Boolean(*self)
    }

    fn to_hal_state(&self) -> (r: HalState) {
        HalState::Boolean(*self)
    }
}

impl ToHalState for () {
    open spec fn to_hal_state_spec(&self) -> SpecHalState {
        SpecHalState::Null
    }

    fn to_hal_state(&self) -> (r: HalState) {
        HalState::Null
    }
}

impl ToHalState for String {
    open spec fn to_hal_state_spec(&self) -> SpecHalState {
        SpecHalState::HalString(self@)
    }

    fn to_hal_state(&self) -> (r: HalState) {
        HalState::HalString(self.clone())
    }
}

impl ToHalState for &str {
    open spec fn to_hal_state_spec(&self) -> SpecHalState {
        SpecHalState::HalString(self@)
    }

    fn to_hal_state(&self) -> (r: HalState) {
        HalState::HalString((*self).to_owned())
    }
}

impl<T: ToHalState> ToHalState for Vec<T> {
    open spec fn to_hal_state_spec(&self) -> SpecHalState {
        SpecHalState::List(Seq::new(self@.len(), |i: int| self@[i].to_hal_state_spec()))
    }

    fn to_hal_state(&self) -> (r: HalState) {
        let mut out: Vec<HalState> = Vec::new();
        let mut i: usize = 0;
        while i < self.len()
            invariant
                i <= self@.len(),
                out@.len() == i,
                forall|j: int|
                    0 <= j < i ==> hal_dv(#[trigger] out@[j]) == self@[j].to_hal_state_spec(),
                forall|j: int| 0 <= j < i ==> hal_state_wf(hal_dv(#[trigger] out@[j])),
            decreases self@.len() - i,
        {
            let v = self[i].to_hal_state();
            out.push(v);
            i = i + 1;
        }
        proof {
            lemma_hal_seq_dv(out@);
            assert(hal_seq_dv(out@) =~= Seq::new(
                self@.len(),
                |i: int| self@[i].to_hal_state_spec(),
            ));
        }
        HalState::List(out)
    }
}

impl<T: ToHalState> ToHalState for Option<T> {
    /// An absent optional value is `Null`; a present one converts to
    /// what it holds.
    open spec fn to_hal_state_spec(&self) -> SpecHalState {
        match self {
            Option::None => SpecHalState::Null,
            Option::Some(v) => v.to_hal_state_spec(),
        }
    }

    fn to_hal_state(&self) -> (r: HalState) {
        match self {
            Option::None => HalState::Null,
            Option::Some(v) => v.to_hal_state(),
        }
    }
}

impl HalObject {
    /// An empty mapping.
    pub fn new() -> (r: HalObject)
        ensures
            r.deep_view() == Seq::<(Seq<char>, SpecHalState)>::empty(),
    {
        let entries: Vec<(String, HalState)> = Vec::new();
        proof {
            assert(hal_entries_dv(entries@) =~= Seq::<(Seq<char>, SpecHalState)>::empty());
        }
        HalObject { entries }
    }

    /// Bind `key` to the converted `value`, replacing an existing
    /// binding and keeping the keys sorted.
    pub fn insert<V: ToHalState>(self, key: &str, value: V) -> (r: HalObject)
        ensures
            r.deep_view() == assoc_set(self.deep_view(), key@, value.to_hal_state_spec()),
    {
        proof {
            use_type_invariant(&self);
            lemma_hal_entries_dv(self.entries@);
        }
        let ghost old_dv = self.deep_view();
        let v = value.to_hal_state();
        let entries = set_entry(self.entries, key, v);
        proof {
            lemma_hal_entries_dv(entries@);
            lemma_hal_object_wf_set(old_dv, key@, v.deep_view());
        }
        HalObject { entries }
    }
}

impl ToHalState for HalObject {
    open spec fn to_hal_state_spec(&self) -> SpecHalState {
        SpecHalState::Object(self.deep_view())
    }

    fn to_hal_state(&self) -> (r: HalState) {
        proof {
            use_type_invariant(&*self);
        }
        HalState::Object(self.duplicate())
    }
}

impl HalState {
    /// A structural copy.
    #[verifier::loop_isolation(false)]
    pub fn duplicate(&self) -> (r: HalState)
        ensures
            r.deep_view() == self.deep_view(),
            hal_state_wf(self.deep_view()),
        decreases self,
    {
        match self {
            HalState::I64(v) => HalState::I64(*v),
            HalState::U64(v) => HalState::U64(*v),
            HalState::F64(bits) => HalState::F64(*bits),
            HalState::HalString(t) => HalState::HalString(t.clone()),
            HalState::Boolean(b) => HalState::Boolean(*b),
            HalState::Null => HalState::Null,
            HalState::List(items) => {
                let mut out: Vec<HalState> = Vec::new();
                let mut i: usize = 0;
                while i < items.len()
                    invariant
                        i <= items@.len(),
                        out@.len() == i,
                        forall|j: int|
                            0 <= j < i ==> hal_dv(#[trigger] out@[j]) == hal_dv(items@[j]),
                        forall|j: int| 0 <= j < i ==> hal_state_wf(hal_dv(#[trigger] items@[j])),
                    decreases items@.len() - i,
                {
                    proof {
                        assert(decreases_to!(*self => items@[i as int])) by {
                            assert((*self)->List_0 == *items);
                            assert(decreases_to!(*self => (*self)->List_0));
                            assert(decreases_to!(*items => items@));
                            assert(decreases_to!(items@ => items@[i as int]));
                        }
                    }
                    let v = items[i].duplicate();
                    out.push(v);
                    i = i + 1;
                }
                proof {
                    lemma_hal_seq_dv(out@);
                    lemma_hal_seq_dv(items@);
                    assert(hal_seq_dv(out@) =~= hal_seq_dv(items@));
                }
                HalState::List(out)
            },
            HalState::Object(o) => HalState::Object(o.duplicate()),
        }
    }
}

/// What a state value serializes to: the same tree, with lists as
/// arrays and objects as objects, keys unchanged.
pub open spec fn state_to_json(s: SpecHalState) -> SpecJson
    decreases s,
{
    match s {
        SpecHalState::I64(v) => SpecJson::I64(v),
        SpecHalState::U64(v) => SpecJson::U64(v),
        SpecHalState::F64(bits) => SpecJson::F64(bits),
        SpecHalState::HalString(t) => SpecJson::Text(t),
        SpecHalState::Boolean(b) => SpecJson::Boolean(b),
        SpecHalState::Null => SpecJson::Null,
        SpecHalState::List(items) => SpecJson::Array(state_seq_to_json(items)),
        SpecHalState::Object(es) => SpecJson::Object(state_entries_to_json(es)),
    }
}

pub open spec fn state_seq_to_json(s: Seq<SpecHalState>) -> Seq<SpecJson>
    decreases s,
{
    if s.len() == 0 {
        Seq::empty()
    } else {
        seq![state_to_json(s[0])] + state_seq_to_json(s.drop_first())
    }
}

pub open spec fn state_entries_to_json(es: Seq<(Seq<char>, SpecHalState)>) -> Seq<
    (Seq<char>, SpecJson),
>
    decreases es,
{
    if es.len() == 0 {
        Seq::empty()
    } else {
        seq![(es[0].0, state_to_json(es[0].1))] + state_entries_to_json(es.drop_first())
    }
}

pub proof fn lemma_state_seq_to_json(s: Seq<SpecHalState>)
    ensures
        state_seq_to_json(s).len() == s.len(),
        forall|i: int|
            0 <= i < s.len() ==> (#[trigger] state_seq_to_json(s)[i]) == state_to_json(s[i]),
    decreases s.len(),
{
    if s.len() > 0 {
        lemma_state_seq_to_json(s.drop_first());
        assert forall|i: int|
            0 <= i < s.len() implies (#[trigger] state_seq_to_json(s)[i]) == state_to_json(
            s[i],
        ) by {
            if i > 0 {
                assert(state_seq_to_json(s)[i] == state_seq_to_json(s.drop_first())[i - 1]);
                assert(s.drop_first()[i - 1] == s[i]);
            }
        }
    }
}

pub proof fn lemma_state_entries_to_json(es: Seq<(Seq<char>, SpecHalState)>)
    ensures
        state_entries_to_json(es).len() == es.len(),
        forall|i: int|
            0 <= i < es.len() ==> (#[trigger] state_entries_to_json(es)[i]) == (
            es[i].0,
            state_to_json(es[i].1),
            ),
    decreases es.len(),
{
    if es.len() > 0 {
        lemma_state_entries_to_json(es.drop_first());
        assert forall|i: int|
            0 <= i < es.len() implies (#[trigger] state_entries_to_json(es)[i]) == (
            es[i].0,
            state_to_json(es[i].1),
        ) by {
            if i > 0 {
                assert(state_entries_to_json(es)[i] == state_entries_to_json(es.drop_first())[i
                    - 1]);
                assert(es.drop_first()[i - 1] == es[i]);
            }
        }
    }
}

/// What a JSON value converts back to: floats, strings, booleans and
/// numbers are kept, arrays become lists, and objects are rebuilt into
/// key-sorted form, so the outcome does not depend on the order the
/// decoder delivered the keys in.
pub open spec fn json_to_state(j: SpecJson) -> SpecHalState
    decreases j,
{
    match j {
        SpecJson::I64(v) => SpecHalState::I64(v),
        SpecJson::U64(v) => SpecHalState::U64(v),
        SpecJson::F64(bits) => SpecHalState::F64(bits),
        SpecJson::Text(t) => SpecHalState::HalString(t),
        SpecJson::Boolean(b) => SpecHalState::Boolean(b),
        SpecJson::Null => SpecHalState::Null,
        SpecJson::Array(items) => SpecHalState::List(json_seq_to_state(items)),
        SpecJson::Object(es) => SpecHalState::Object(
            json_entries_to_state(Seq::empty(), es),
        ),
    }
}

pub open spec fn json_seq_to_state(s: Seq<SpecJson>) -> Seq<SpecHalState>
    decreases s,
{
    if s.len() == 0 {
        Seq::empty()
    } else {
        seq![json_to_state(s[0])] + json_seq_to_state(s.drop_first())
    }
}

/// Left fold of sorted insertion over the entries, starting from `acc`.
pub open spec fn json_entries_to_state(
    acc: Seq<(Seq<char>, SpecHalState)>,
    es: Seq<(Seq<char>, SpecJson)>,
) -> Seq<(Seq<char>, SpecHalState)>
    decreases es,
{
    if es.len() == 0 {
        acc
    } else {
        json_entries_to_state(assoc_set(acc, es[0].0, json_to_state(es[0].1)), es.drop_first())
    }
}

pub proof fn lemma_json_seq_to_state(s: Seq<SpecJson>)
    ensures
        json_seq_to_state(s).len() == s.len(),
        forall|i: int|
            0 <= i < s.len() ==> (#[trigger] json_seq_to_state(s)[i]) == json_to_state(s[i]),
    decreases s.len(),
{
    if s.len() > 0 {
        lemma_json_seq_to_state(s.drop_first());
        assert forall|i: int|
            0 <= i < s.len() implies (#[trigger] json_seq_to_state(s)[i]) == json_to_state(
            s[i],
        ) by {
            if i > 0 {
                assert(json_seq_to_state(s)[i] == json_seq_to_state(s.drop_first())[i - 1]);
                assert(s.drop_first()[i - 1] == s[i]);
            }
        }
    }
}

/// Converts a JSON value into a state value; the workhorse behind
/// `ToHalState` for `Json`.
#[verifier::loop_isolation(false)]
pub fn json_to_hal_state(j: &Json) -> (r: HalState)
    ensures
        r.deep_view() == json_to_state(json_dv(*j)),
        hal_state_wf(r.deep_view()),
    decreases j,
{
    match j {
        Json::I64(v) => HalState::I64(*v),
        Json::U64(v) => HalState::U64(*v),
        Json::F64(bits) => HalState::F64(*bits),
        Json::Text(t) => HalState::HalString(t.clone()),
        Json::Boolean(b) => HalState::Boolean(*b),
        Json::Null => HalState::Null,
        Json::Array(items) => {
            let ghost sv = json_seq_dv(items@);
            proof {
                lemma_json_seq_dv(items@);
                lemma_json_seq_to_state(sv);
            }
            let mut out: Vec<HalState> = Vec::new();
            let mut i: usize = 0;
            while i < items.len()
                invariant
                    i <= items@.len(),
                    out@.len() == i,
                    forall|k: int|
                        0 <= k < i ==> hal_dv(#[trigger] out@[k]) == json_to_state(sv[k]),
                    forall|k: int| 0 <= k < i ==> hal_state_wf(hal_dv(#[trigger] out@[k])),
                decreases items@.len() - i,
            {
                proof {
                    assert(decreases_to!(*j => items@[i as int])) by {
                        assert((*j)->Array_0 == *items);
                        assert(decreases_to!(*j => (*j)->Array_0));
                        assert(decreases_to!(*items => items@));
                        assert(decreases_to!(items@ => items@[i as int]));
                    }
                }
                let v = json_to_hal_state(&items[i]);
                out.push(v);
                i = i + 1;
            }
            proof {
                lemma_hal_seq_dv(out@);
                assert(hal_seq_dv(out@) =~= json_seq_to_state(sv));
            }
            HalState::List(out)
        },
        Json::Object(es) => {
            let ghost full = json_entries_dv(es@);
            proof {
                lemma_json_entries_dv(es@);
                assert(full.skip(0) =~= full);
            }
            let mut acc: Vec<(String, HalState)> = Vec::new();
            proof {
                assert(entries_dv(acc@) =~= Seq::<(Seq<char>, SpecHalState)>::empty());
            }
            let mut i: usize = 0;
            while i < es.len()
                invariant
                    i <= es@.len(),
                    hal_object_wf(entries_dv(acc@)),
                    json_entries_to_state(entries_dv(acc@), full.skip(i as int))
                        == json_entries_to_state(Seq::empty(), full),
                decreases es@.len() - i,
            {
                proof {
                    assert(decreases_to!(*j => es@[i as int].1)) by {
                        assert((*j)->Object_0 == *es);
                        assert(decreases_to!(*j => (*j)->Object_0));
                        assert(decreases_to!(*es => es@));
                        assert(decreases_to!(es@ => es@[i as int]));
                        assert(decreases_to!(es@[i as int] => es@[i as int].1));
                    }
                }
                let v = json_to_hal_state(&es[i].1);
                let ghost acc0 = entries_dv(acc@);
                acc = set_entry(acc, es[i].0.as_str(), v);
                proof {
                    lemma_hal_object_wf_set(acc0, es@[i as int].0@, hal_dv(v));
                    assert(full.skip(i as int)[0] == full[i as int]);
                    assert(full[i as int] == (es@[i as int].0@, json_dv(es@[i as int].1)));
                    assert(full.skip(i as int).drop_first() =~= full.skip(i as int + 1));
                }
                i = i + 1;
            }
            proof {
                assert(full.skip(i as int).len() == 0);
                lemma_hal_entries_dv(acc@);
            }
            HalState::Object(HalObject { entries: acc })
        },
    }
}

impl ToHalState for Json {
    open spec fn to_hal_state_spec(&self) -> SpecHalState {
        json_to_state(self.deep_view())
    }

    fn to_hal_state(&self) -> (r: HalState) {
        json_to_hal_state(self)
    }
}

impl HalState {
    /// Serialize into a generic JSON value: the same tree, with every
    /// object still key-sorted.
    #[verifier::loop_isolation(false)]
    pub fn to_json(&self) -> (r: Json)
        ensures
            r.deep_view() == state_to_json(self.deep_view()),
            hal_state_wf(self.deep_view()),
            json_wf(r.deep_view()),
        decreases self,
    {
        match self {
            HalState::I64(v) => Json::I64(*v),
            HalState::U64(v) => Json::U64(*v),
            HalState::F64(bits) => Json::F64(*bits),
            HalState::HalString(t) => Json::Text(t.clone()),
            HalState::Boolean(b) => Json::Boolean(*b),
            HalState::Null => Json::Null,
            HalState::List(items) => {
                let ghost sv = hal_seq_dv(items@);
                proof {
                    lemma_hal_seq_dv(items@);
                    lemma_state_seq_to_json(sv);
                }
                let mut out: Vec<Json> = Vec::new();
                let mut i: usize = 0;
                while i < items.len()
                    invariant
                        i <= items@.len(),
                        out@.len() == i,
                        forall|k: int|
                            0 <= k < i ==> json_dv(#[trigger] out@[k]) == state_to_json(sv[k]),
                        forall|k: int| 0 <= k < i ==> hal_state_wf(sv[k]),
                        forall|k: int| 0 <= k < i ==> json_wf(json_dv(#[trigger] out@[k])),
                    decreases items@.len() - i,
                {
                    proof {
                        assert(decreases_to!(*self => items@[i as int])) by {
                            assert((*self)->List_0 == *items);
                            assert(decreases_to!(*self => (*self)->List_0));
                            assert(decreases_to!(*items => items@));
                            assert(decreases_to!(items@ => items@[i as int]));
                        }
                    }
                    let v = items[i].to_json();
                    out.push(v);
                    i = i + 1;
                }
                proof {
                    lemma_json_seq_dv(out@);
                    assert(json_seq_dv(out@) =~= state_seq_to_json(sv));
                }
                Json::Array(out)
            },
            HalState::Object(o) => {
                proof {
                    use_type_invariant(o);
                }
                let ghost ev = hal_entries_dv(o.entries@);
                proof {
                    lemma_hal_entries_dv(o.entries@);
                    lemma_state_entries_to_json(ev);
                }
                let mut out: Vec<(String, Json)> = Vec::new();
                let mut i: usize = 0;
                while i < o.entries.len()
                    invariant
                        i <= o.entries@.len(),
                        out@.len() == i,
                        forall|k: int|
                            0 <= k < i ==> (#[trigger] out@[k]).0@ == ev[k].0 && json_dv(
                                out@[k].1,
                            ) == state_to_json(ev[k].1),
                        forall|k: int| 0 <= k < i ==> json_wf(json_dv((#[trigger] out@[k]).1)),
                    decreases o.entries@.len() - i,
                {
                    proof {
                        assert(decreases_to!(*self => o.entries@[i as int].1)) by {
                            assert((*self)->Object_0 == *o);
                            assert(decreases_to!(*self => (*self)->Object_0));
                            assert(decreases_to!(*o => o.entries));
                            assert(decreases_to!(o.entries => o.entries@));
                            assert(decreases_to!(o.entries@ => o.entries@[i as int]));
                            assert(decreases_to!(o.entries@[i as int] => o.entries@[i as int].1));
                        }
                        assert(ev[i as int] == (o.entries@[i as int].0@, hal_dv(
                            o.entries@[i as int].1,
                        )));
                    }
                    let k = o.entries[i].0.clone();
                    let v = o.entries[i].1.to_json();
                    out.push((k, v));
                    i = i + 1;
                }
                proof {
                    lemma_json_entries_dv(out@);
                    assert(json_entries_dv(out@) =~= state_entries_to_json(ev));
                }
                Json::Object(out)
            },
        }
    }
}

impl HalObject {
    /// A structural copy.
    pub fn duplicate(&self) -> (r: HalObject)
        ensures
            r.deep_view() == self.deep_view(),
            hal_object_wf(self.deep_view()),
        decreases self,
    {
        proof {
            use_type_invariant(&*self);
        }
        let mut out: Vec<(String, HalState)> = Vec::new();
        let mut i: usize = 0;
        while i < self.entries.len()
            invariant
                i <= self.entries@.len(),
                out@.len() == i,
                forall|j: int|
                    0 <= j < i ==> (#[trigger] out@[j]).0@ == self.entries@[j].0@ && hal_dv(
                        out@[j].1,
                    ) == hal_dv(self.entries@[j].1),
            decreases self.entries@.len() - i,
        {
            let k = self.entries[i].0.clone();
            let v = self.entries[i].1.duplicate();
            out.push((k, v));
            i = i + 1;
        }
        proof {
            lemma_hal_entries_dv(out@);
            lemma_hal_entries_dv(self.entries@);
            assert(entries_dv(out@) =~= entries_dv(self.entries@));
            assert(hal_entries_dv(out@) == hal_entries_dv(self.entries@));
        }
        HalObject { entries: out }
    }
}

/// Serializing a well-formed state value gives well-formed JSON:
/// every object in the output keeps its keys sorted.
pub proof fn lemma_state_to_json_wf(s: SpecHalState)
    requires
        hal_state_wf(s),
    ensures
        json_wf(state_to_json(s)),
    decreases s,
{
    match s {
        SpecHalState::List(items) => {
            lemma_state_seq_to_json(items);
            assert forall|i: int|
                0 <= i < state_seq_to_json(items).len() implies json_wf(
                #[trigger] state_seq_to_json(items)[i],
            ) by {
                lemma_state_to_json_wf(items[i]);
            }
        },
        SpecHalState::Object(es) => {
            lemma_state_entries_to_json(es);
            let r = state_entries_to_json(es);
            assert forall|i: int| 0 <= i < r.len() implies json_wf((#[trigger] r[i]).1) by {
                lemma_state_to_json_wf(es[i].1);
            }
            assert forall|p: int, q: int| 0 <= p < q < r.len() implies lex_lt(
                r[p].0,
                r[q].0,
            ) by {
                assert(r[p].0 == es[p].0);
                assert(r[q].0 == es[q].0);
            }
            assert(assoc_sorted(r));
        },
        _ => {},
    }
}


impl ToHalState for HalState {
    /// A state value converts to itself.
    open spec fn to_hal_state_spec(&self) -> SpecHalState {
        self.deep_view()
    }

    fn to_hal_state(&self) -> (r: HalState) {
        self.duplicate()
    }
}

} // verus!
