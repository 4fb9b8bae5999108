//! The aggregate node: named state fields, named link relations and
//! embedded child resources, each kept as a key-sorted mapping, with
//! insertion order preserved inside a relation.

use vstd::prelude::*;

use crate::assoc::{append_entry, assoc_append, assoc_get, assoc_has_key, assoc_set, assoc_sorted,
    entries_dv, lemma_assoc_get_at, lemma_assoc_get_index, lemma_assoc_get_set_all,
    lemma_assoc_set_sorted, lemma_assoc_set_values, set_entry};
use crate::json::{json_dv, json_entries_dv, json_seq_dv, json_wf, lemma_json_entries_dv,
    lemma_json_seq_dv, Json, SpecJson};
use crate::lexical::{lex_lt, str_compare, Cmp};
use crate::link::{link_from_json, link_to_json, lemma_link_to_json_wf, Link, SpecLink};
use crate::state::{hal_state_wf, json_to_hal_state, json_to_state, lemma_state_to_json_wf,
    state_to_json, HalState, SpecHalState, ToHalState};
use crate::HalError;

verus! {

/// Specification model of a resource.
#[verifier::ext_equal]
pub struct SpecResource {
    pub state: Seq<(Seq<char>, SpecHalState)>,
    pub links: Seq<(Seq<char>, Seq<SpecLink>)>,
    pub embedded: Seq<(Seq<char>, Seq<SpecResource>)>,
}

/// A resource node.
#[derive(PartialEq, Debug)]
pub struct Resource {
    state: Vec<(String, HalState)>,
    links: Vec<(String, Vec<Link>)>,
    resources: Vec<(String, Vec<Resource>)>,
}

pub closed spec fn res_seq_dv(s: Seq<Resource>) -> Seq<SpecResource>
    decreases s,
{
    if s.len() == 0 {
        Seq::empty()
    } else {
        seq![resource_dv(s[0])] + res_seq_dv(s.drop_first())
    }
}

pub closed spec fn res_entries_dv(s: Seq<(String, Vec<Resource>)>) -> Seq<
    (Seq<char>, Seq<SpecResource>),
>
    decreases s,
{
    if s.len() == 0 {
        Seq::empty()
    } else {
        seq![(s[0].0@, res_seq_dv(s[0].1@))] + res_entries_dv(s.drop_first())
    }
}

pub closed spec fn resource_dv(r: Resource) -> SpecResource
    decreases r,
{
    SpecResource {
        state: entries_dv(r.state@),
        links: entries_dv(r.links@),
        embedded: res_entries_dv(r.resources@),
    }
}

impl DeepView for Resource {
    type V = SpecResource;

    closed spec fn deep_view(&self) -> SpecResource {
        resource_dv(*self)
    }
}

pub proof fn lemma_res_seq_dv(s: Seq<Resource>)
    ensures
        res_seq_dv(s).len() == s.len(),
        forall|i: int| 0 <= i < s.len() ==> (#[trigger] res_seq_dv(s)[i]) == s[i].deep_view(),
    decreases s.len(),
{
    if s.len() > 0 {
        lemma_res_seq_dv(s.drop_first());
        assert forall|i: int|
            0 <= i < s.len() implies (#[trigger] res_seq_dv(s)[i]) == s[i].deep_view() by {
            if i > 0 {
                assert(res_seq_dv(s)[i] == res_seq_dv(s.drop_first())[i - 1]);
                assert(s.drop_first()[i - 1] == s[i]);
            }
        }
    }
}

/// The recursive entry view coincides with the association-list view.
pub proof fn lemma_res_entries_dv(s: Seq<(String, Vec<Resource>)>)
    ensures
        res_entries_dv(s) == entries_dv(s),
    decreases s.len(),
{
    if s.len() == 0 {
        assert(res_entries_dv(s) =~= entries_dv(s));
    } else {
        lemma_res_entries_dv(s.drop_first());
        lemma_res_seq_dv(s[0].1@);
        assert(res_seq_dv(s[0].1@) =~= s[0].1.deep_view());
        assert forall|i: int|
            0 <= i < s.len() implies res_entries_dv(s)[i] == entries_dv(s)[i] by {
            if i > 0 {
                assert(res_entries_dv(s)[i] == res_entries_dv(s.drop_first())[i - 1]);
                assert(entries_dv(s.drop_first())[i - 1] == entries_dv(s)[i]);
            }
        }
        assert(res_entries_dv(s) =~= entries_dv(s));
    }
}

/// The structural invariant: the three mappings are key-sorted, a
/// relation never holds an empty sequence, state values are
/// well-formed, and embedded children satisfy the same, recursively.
pub open spec fn resource_wf(r: SpecResource) -> bool
    decreases r,
{
    &&& assoc_sorted(r.state)
    &&& (forall|i: int| 0 <= i < r.state.len() ==> hal_state_wf(#[trigger] r.state[i].1))
    &&& assoc_sorted(r.links)
    &&& (forall|i: int| 0 <= i < r.links.len() ==> (#[trigger] r.links[i].1).len() >= 1)
    &&& assoc_sorted(r.embedded)
    &&& (forall|i: int| 0 <= i < r.embedded.len() ==> (#[trigger] r.embedded[i].1).len() >= 1)
    &&& (forall|i: int, j: int|
        0 <= i < r.embedded.len() && 0 <= j < (#[trigger] r.embedded[i].1).len()
            ==> resource_wf(#[trigger] r.embedded[i].1[j]))
}

impl Resource {
    #[verifier::type_invariant]
    spec fn well_formed(self) -> bool {
        resource_wf(self.deep_view())
    }
}

pub open spec fn spec_empty_resource() -> SpecResource {
    SpecResource { state: Seq::empty(), links: Seq::empty(), embedded: Seq::empty() }
}

pub open spec fn spec_add_state(r: SpecResource, key: Seq<char>, v: SpecHalState) -> SpecResource {
    SpecResource { state: assoc_set(r.state, key, v), ..r }
}

pub open spec fn spec_add_link(r: SpecResource, rel: Seq<char>, l: SpecLink) -> SpecResource {
    SpecResource { links: assoc_append(r.links, rel, l), ..r }
}

pub open spec fn spec_add_resource(
    r: SpecResource,
    rel: Seq<char>,
    child: SpecResource,
) -> SpecResource {
    SpecResource { embedded: assoc_append(r.embedded, rel, child), ..r }
}

/// The link that `add_curie` attaches: templated, named, under the
/// reserved `"curies"` relation.
pub open spec fn spec_curie_link(name: Seq<char>, href: Seq<char>) -> SpecLink {
    SpecLink {
        href: href,
        templated: Option::Some(true),
        media_type: Option::None,
        deprecation: Option::None,
        name: Option::Some(name),
        profile: Option::None,
        title: Option::None,
        hreflang: Option::None,
    }
}

impl Resource {
    /// A resource with no state, links or embedded resources.
    pub fn new() -> (r: Resource)
        ensures
            r.deep_view() == spec_empty_resource(),
    {
        let state: Vec<(String, HalState)> = Vec::new();
        let links: Vec<(String, Vec<Link>)> = Vec::new();
        let resources: Vec<(String, Vec<Resource>)> = Vec::new();
        proof {
            assert(entries_dv(state@) =~= Seq::<(Seq<char>, SpecHalState)>::empty());
            assert(entries_dv(links@) =~= Seq::<(Seq<char>, Seq<SpecLink>)>::empty());
            assert(res_entries_dv(resources@) =~= Seq::<
                (Seq<char>, Seq<SpecResource>),
            >::empty());
        }
        Resource { state, links, resources }
    }

    /// A resource whose only content is a `"self"` link to `uri`.
    pub fn with_self(uri: &str) -> (r: Resource)
        ensures
            r.deep_view() == spec_add_link(
                spec_empty_resource(),
                "self"@,
                (SpecLink {
                    href: uri@,
                    templated: Option::None,
                    media_type: Option::None,
                    deprecation: Option::None,
                    name: Option::None,
                    profile: Option::None,
                    title: Option::None,
                    hreflang: Option::None,
                }),
            ),
    {
        Resource::new().add_link("self", Link::new(uri))
    }

    /// Insert or overwrite the state field `key` with the converted
    /// `value`.
    pub fn add_state<V: ToHalState>(self, key: &str, value: V) -> (r: Resource)
        ensures
            r.deep_view() == spec_add_state(self.deep_view(), key@, value.to_hal_state_spec()),
    {
        let v = value.to_hal_state();
        self.add_state_value(key, v)
    }

    /// Insert or overwrite the state field `key` with a ready state
    /// value.
    fn add_state_value(self, key: &str, v: HalState) -> (r: Resource)
        requires
            hal_state_wf(v.deep_view()),
        ensures
            r.deep_view() == spec_add_state(self.deep_view(), key@, v.deep_view()),
    {
        proof {
            use_type_invariant(&self);
        }
        let ghost old_dv = self.deep_view();
        let Resource { state, links, resources } = self;
        let state = set_entry(state, key, v);
        proof {
            lemma_assoc_set_values(old_dv.state, key@, v.deep_view(), |x: SpecHalState|
                hal_state_wf(x));
        }
        Resource { state, links, resources }
    }

    /// Append `link` to the relation `rel`, creating the relation if
    /// absent; repeated links accumulate in insertion order.
    pub fn add_link(self, rel: &str, link: Link) -> (r: Resource)
        ensures
            r.deep_view() == spec_add_link(self.deep_view(), rel@, link.deep_view()),
    {
        proof {
            use_type_invariant(&self);
        }
        let ghost old_dv = self.deep_view();
        let ghost ldv = link.deep_view();
        let Resource { state, links, resources } = self;
        let links = append_entry(links, rel, link);
        proof {
            let p = |vs: Seq<SpecLink>| vs.len() >= 1;
            match assoc_get(old_dv.links, rel@) {
                Option::Some(vs) => {
                    lemma_assoc_set_values(old_dv.links, rel@, vs.push(ldv), p);
                },
                Option::None => {
                    lemma_assoc_set_values(old_dv.links, rel@, seq![ldv], p);
                },
            }
        }
        Resource { state, links, resources }
    }

    /// Attach a CURIE template: a templated, named link under the
    /// reserved relation `"curies"`.
    pub fn add_curie(self, name: &str, href: &str) -> (r: Resource)
        ensures
            r.deep_view() == spec_add_link(
                self.deep_view(),
                "curies"@,
                spec_curie_link(name@, href@),
            ),
    {
        let link = Link::new(href).templated(true).name(name);
        self.add_link("curies", link)
    }

    /// Append `resource` as an embedded child of the relation `rel`.
    pub fn add_resource(self, rel: &str, resource: Resource) -> (r: Resource)
        ensures
            r.deep_view() == spec_add_resource(self.deep_view(), rel@, resource.deep_view()),
    {
        proof {
            use_type_invariant(&self);
            use_type_invariant(&resource);
        }
        let ghost old_dv = self.deep_view();
        let ghost cdv = resource.deep_view();
        let Resource { state, links, resources } = self;
        proof {
            lemma_res_entries_dv(resources@);
        }
        let resources = append_entry(resources, rel, resource);
        proof {
            lemma_res_entries_dv(resources@);
            let p = |vs: Seq<SpecResource>| vs.len() >= 1 && forall|j: int|
                0 <= j < vs.len() ==> resource_wf(#[trigger] vs[j]);
            match assoc_get(old_dv.embedded, rel@) {
                Option::Some(vs) => {
                    assert(p(vs.push(cdv))) by {
                        crate::assoc::lemma_assoc_get_index(old_dv.embedded, rel@);
                        let j = choose|j: int|
                            0 <= j < old_dv.embedded.len() && #[trigger] old_dv.embedded[j] == (
                            rel@,
                            assoc_get(old_dv.embedded, rel@)->Some_0,
                        );
                        assert(old_dv.embedded[j].1 == vs);
                        assert forall|q: int|
                            0 <= q < vs.push(cdv).len() implies resource_wf(
                            #[trigger] vs.push(cdv)[q],
                        ) by {
                            if q < vs.len() {
                                assert(vs.push(cdv)[q] == old_dv.embedded[j].1[q]);
                                assert(resource_wf(old_dv.embedded[j].1[q]));
                            } else {
                                assert(vs.push(cdv)[q] == cdv);
                            }
                        }
                    }
                    lemma_assoc_set_values(old_dv.embedded, rel@, vs.push(cdv), p);
                },
                Option::None => {
                    lemma_assoc_set_values(old_dv.embedded, rel@, seq![cdv], p);
                },
            }
        }
        Resource { state, links, resources }
    }
}

/// Each link of a relation, serialized in insertion order.
pub open spec fn link_seq_to_json(ls: Seq<SpecLink>) -> Seq<SpecJson> {
    Seq::new(ls.len(), |i: int| link_to_json(ls[i]))
}

/// The singular/plural collapse for links: a relation with exactly
/// one link serializes as that link's object, unless the relation is
/// the reserved `"curies"`, which is always an array.
pub open spec fn links_entry_to_json(rel: Seq<char>, ls: Seq<SpecLink>) -> SpecJson {
    if ls.len() == 1 && rel != "curies"@ {
        link_to_json(ls[0])
    } else {
        SpecJson::Array(link_seq_to_json(ls))
    }
}

/// The `"_links"` section: one member per relation, keys kept.
pub open spec fn links_to_json(links: Seq<(Seq<char>, Seq<SpecLink>)>) -> Seq<
    (Seq<char>, SpecJson),
> {
    links.map(|i: int, e: (Seq<char>, Seq<SpecLink>)| (e.0, links_entry_to_json(e.0, e.1)))
}

/// State fields inserted into the object under construction, in order.
pub open spec fn state_entries_fold(
    o: Seq<(Seq<char>, SpecJson)>,
    st: Seq<(Seq<char>, SpecHalState)>,
) -> Seq<(Seq<char>, SpecJson)>
    decreases st,
{
    if st.len() == 0 {
        o
    } else {
        state_entries_fold(assoc_set(o, st[0].0, state_to_json(st[0].1)), st.drop_first())
    }
}

/// The canonical serialization of a resource: a key-sorted object
/// holding `"_links"` (when any link exists), every state field, and
/// `"_embedded"` (when any child exists).
pub open spec fn resource_to_json(r: SpecResource) -> SpecJson
    decreases r, 0int,
{
    let o0 = Seq::<(Seq<char>, SpecJson)>::empty();
    let o1 = if r.links.len() > 0 {
        assoc_set(o0, "_links"@, SpecJson::Object(links_to_json(r.links)))
    } else {
        o0
    };
    let o2 = state_entries_fold(o1, r.state);
    let o3 = if r.embedded.len() > 0 {
        assoc_set(o2, "_embedded"@, SpecJson::Object(embedded_to_json(r.embedded)))
    } else {
        o2
    };
    SpecJson::Object(o3)
}

/// The `"_embedded"` section: one member per relation, keys kept.
pub open spec fn embedded_to_json(es: Seq<(Seq<char>, Seq<SpecResource>)>) -> Seq<
    (Seq<char>, SpecJson),
>
    decreases es, 2int,
{
    if es.len() == 0 {
        Seq::empty()
    } else {
        seq![(es[0].0, embedded_entry_to_json(es[0].1))] + embedded_to_json(es.drop_first())
    }
}

/// The singular/plural collapse for embedded resources: exactly one
/// child serializes as its object, several as an array; no relation
/// name is excepted here.
pub open spec fn embedded_entry_to_json(vs: Seq<SpecResource>) -> SpecJson
    decreases vs, 1int,
{
    if vs.len() == 1 {
        resource_to_json(vs[0])
    } else {
        SpecJson::Array(res_seq_to_json(vs))
    }
}

/// Each child of a relation, serialized in insertion order.
pub open spec fn res_seq_to_json(vs: Seq<SpecResource>) -> Seq<SpecJson>
    decreases vs, 0int,
{
    if vs.len() == 0 {
        Seq::empty()
    } else {
        seq![resource_to_json(vs[0])] + res_seq_to_json(vs.drop_first())
    }
}

pub proof fn lemma_res_seq_to_json(vs: Seq<SpecResource>)
    ensures
        res_seq_to_json(vs).len() == vs.len(),
        forall|i: int|
            0 <= i < vs.len() ==> (#[trigger] res_seq_to_json(vs)[i]) == resource_to_json(vs[i]),
    decreases vs.len(),
{
    if vs.len() > 0 {
        lemma_res_seq_to_json(vs.drop_first());
        assert forall|i: int|
            0 <= i < vs.len() implies (#[trigger] res_seq_to_json(vs)[i]) == resource_to_json(
            vs[i],
        ) by {
            if i > 0 {
                assert(res_seq_to_json(vs)[i] == res_seq_to_json(vs.drop_first())[i - 1]);
                assert(vs.drop_first()[i - 1] == vs[i]);
            }
        }
    }
}

pub proof fn lemma_embedded_to_json(es: Seq<(Seq<char>, Seq<SpecResource>)>)
    ensures
        embedded_to_json(es).len() == es.len(),
        forall|i: int|
            0 <= i < es.len() ==> (#[trigger] embedded_to_json(es)[i]) == (
            es[i].0,
            embedded_entry_to_json(es[i].1),
            ),
    decreases es.len(),
{
    if es.len() > 0 {
        lemma_embedded_to_json(es.drop_first());
        assert forall|i: int|
            0 <= i < es.len() implies (#[trigger] embedded_to_json(es)[i]) == (
            es[i].0,
            embedded_entry_to_json(es[i].1),
        ) by {
            if i > 0 {
                assert(embedded_to_json(es)[i] == embedded_to_json(es.drop_first())[i - 1]);
                assert(es.drop_first()[i - 1] == es[i]);
            }
        }
    }
}


/// The `"_links"` section of a well-formed resource is itself
/// well-formed: keys stay sorted, every member is well-formed JSON.
pub proof fn lemma_links_to_json_wf(links: Seq<(Seq<char>, Seq<SpecLink>)>)
    requires
        assoc_sorted(links),
    ensures
        assoc_sorted(links_to_json(links)),
        forall|i: int|
            0 <= i < links_to_json(links).len() ==> json_wf((#[trigger] links_to_json(links)[i]).1),
{
    let r = links_to_json(links);
    assert forall|i: int| 0 <= i < r.len() implies json_wf((#[trigger] r[i]).1) by {
        let ls = links[i].1;
        if ls.len() == 1 && links[i].0 != "curies"@ {
            lemma_link_to_json_wf(ls[0]);
        } else {
            assert forall|j: int|
                0 <= j < link_seq_to_json(ls).len() implies json_wf(
                #[trigger] link_seq_to_json(ls)[j],
            ) by {
                lemma_link_to_json_wf(ls[j]);
            }
        }
    }
    assert forall|p: int, q: int| 0 <= p < q < r.len() implies lex_lt(r[p].0, r[q].0) by {
        assert(r[p].0 == links[p].0);
        assert(r[q].0 == links[q].0);
    }
}

/// Folding well-formed state fields into a well-formed object keeps
/// it well-formed.
proof fn lemma_state_fold_wf(o: Seq<(Seq<char>, SpecJson)>, st: Seq<(Seq<char>, SpecHalState)>)
    requires
        assoc_sorted(o),
        forall|i: int| 0 <= i < o.len() ==> json_wf((#[trigger] o[i]).1),
        forall|i: int| 0 <= i < st.len() ==> hal_state_wf((#[trigger] st[i]).1),
    ensures
        assoc_sorted(state_entries_fold(o, st)),
        forall|i: int|
            0 <= i < state_entries_fold(o, st).len() ==> json_wf(
                (#[trigger] state_entries_fold(o, st)[i]).1,
            ),
    decreases st.len(),
{
    if st.len() > 0 {
        let v = state_to_json(st[0].1);
        let o1 = assoc_set(o, st[0].0, v);
        lemma_assoc_set_sorted(o, st[0].0, v);
        lemma_state_to_json_wf(st[0].1);
        lemma_assoc_set_values(o, st[0].0, v, |x: SpecJson| json_wf(x));
        assert forall|i: int| 0 <= i < o1.len() implies json_wf((#[trigger] o1[i]).1) by {}
        assert forall|i: int|
            0 <= i < st.drop_first().len() implies hal_state_wf(
            (#[trigger] st.drop_first()[i]).1,
        ) by {
            assert(st.drop_first()[i] == st[i + 1]);
        }
        lemma_state_fold_wf(o1, st.drop_first());
    }
}

/// Every member of the `"_embedded"` section of a well-formed
/// resource is well-formed JSON.
proof fn lemma_embedded_values_wf(es: Seq<(Seq<char>, Seq<SpecResource>)>)
    requires
        forall|i: int, j: int|
            0 <= i < es.len() && 0 <= j < (#[trigger] es[i].1).len() ==> resource_wf(
                #[trigger] es[i].1[j],
            ),
    ensures
        forall|i: int|
            0 <= i < embedded_to_json(es).len() ==> json_wf(
                (#[trigger] embedded_to_json(es)[i]).1,
            ),
    decreases es, 4int,
{
    lemma_embedded_to_json(es);
    assert forall|i: int|
        0 <= i < embedded_to_json(es).len() implies json_wf(
        (#[trigger] embedded_to_json(es)[i]).1,
    ) by {
        let vs = es[i].1;
        if vs.len() == 1 {
            lemma_resource_to_json_wf(vs[0]);
        } else {
            lemma_res_seq_to_json(vs);
            assert forall|j: int|
                0 <= j < res_seq_to_json(vs).len() implies json_wf(
                #[trigger] res_seq_to_json(vs)[j],
            ) by {
                lemma_resource_to_json_wf(vs[j]);
            }
        }
    }
}

/// Serializing a well-formed resource gives well-formed JSON: every
/// object in the tree, the top level included, keeps its keys in
/// sorted order, whatever order fields and relations were added in.
pub proof fn lemma_resource_to_json_wf(r: SpecResource)
    requires
        resource_wf(r),
    ensures
        json_wf(resource_to_json(r)),
    decreases r, 5int,
{
    let pwf = |x: SpecJson| json_wf(x);
    let o0 = Seq::<(Seq<char>, SpecJson)>::empty();
    let o1 = if r.links.len() > 0 {
        let lv = SpecJson::Object(links_to_json(r.links));
        lemma_links_to_json_wf(r.links);
        lemma_assoc_set_sorted(o0, "_links"@, lv);
        lemma_assoc_set_values(o0, "_links"@, lv, pwf);
        assoc_set(o0, "_links"@, lv)
    } else {
        o0
    };
    assert forall|i: int| 0 <= i < o1.len() implies json_wf((#[trigger] o1[i]).1) by {}
    lemma_state_fold_wf(o1, r.state);
    let o2 = state_entries_fold(o1, r.state);
    if r.embedded.len() > 0 {
        lemma_embedded_values_wf(r.embedded);
        lemma_embedded_to_json(r.embedded);
        let ej = embedded_to_json(r.embedded);
        assert forall|p: int, q: int| 0 <= p < q < ej.len() implies lex_lt(
            ej[p].0,
            ej[q].0,
        ) by {
            assert(ej[p].0 == r.embedded[p].0);
            assert(ej[q].0 == r.embedded[q].0);
        }
        let ev = SpecJson::Object(ej);
        lemma_assoc_set_sorted(o2, "_embedded"@, ev);
        lemma_assoc_set_values(o2, "_embedded"@, ev, pwf);
    }
}


/// Each link of a relation, serialized in insertion order.
#[verifier::loop_isolation(false)]
fn links_vec_to_json(ls: &Vec<Link>) -> (r: Vec<Json>)
    ensures
        json_seq_dv(r@) == link_seq_to_json(ls.deep_view()),
{
    let ghost lv = ls.deep_view();
    let mut out: Vec<Json> = Vec::new();
    let mut i: usize = 0;
    while i < ls.len()
        invariant
            i <= ls@.len(),
            out@.len() == i,
            forall|k: int| 0 <= k < i ==> json_dv(#[trigger] out@[k]) == link_to_json(lv[k]),
        decreases ls@.len() - i,
    {
        let v = ls[i].to_json();
        proof {
            assert(lv[i as int] == ls@[i as int].deep_view());
        }
        out.push(v);
        i = i + 1;
    }
    proof {
        lemma_json_seq_dv(out@);
        assert(json_seq_dv(out@) =~= link_seq_to_json(lv));
    }
    out
}

/// Each child of a relation, serialized in insertion order.
#[verifier::loop_isolation(false)]
fn res_vec_to_json(vs: &Vec<Resource>) -> (r: Vec<Json>)
    ensures
        json_seq_dv(r@) == res_seq_to_json(res_seq_dv(vs@)),
    decreases vs@, 0int,
{
    let ghost rv = res_seq_dv(vs@);
    proof {
        lemma_res_seq_dv(vs@);
        lemma_res_seq_to_json(rv);
    }
    let mut out: Vec<Json> = Vec::new();
    let mut i: usize = 0;
    while i < vs.len()
        invariant
            i <= vs@.len(),
            out@.len() == i,
            forall|k: int| 0 <= k < i ==> json_dv(#[trigger] out@[k]) == resource_to_json(rv[k]),
        decreases vs@.len() - i,
    {
        proof {
            assert(decreases_to!(vs@ => vs@[i as int]));
        }
        let v = vs[i].to_json();
        proof {
            assert(rv[i as int] == vs@[i as int].deep_view());
        }
        out.push(v);
        i = i + 1;
    }
    proof {
        lemma_json_seq_dv(out@);
        assert(json_seq_dv(out@) =~= res_seq_to_json(rv));
    }
    out
}

impl Resource {
    /// Serialize into the canonical generic JSON value: a key-sorted
    /// object holding `"_links"` when any link exists, every state
    /// field at top level, and `"_embedded"` when any child exists,
    /// with the singular/plural collapse applied per relation.
    #[verifier::loop_isolation(false)]
    pub fn to_json(&self) -> (r: Json)
        ensures
            r.deep_view() == resource_to_json(self.deep_view()),
            resource_wf(self.deep_view()),
            json_wf(r.deep_view()),
        decreases self, 1int,
    {
        proof {
            use_type_invariant(&*self);
            lemma_res_entries_dv(self.resources@);
        }
        let ghost rv = self.deep_view();
        let mut top: Vec<(String, Json)> = Vec::new();
        proof {
            assert(entries_dv(top@) =~= Seq::<(Seq<char>, SpecJson)>::empty());
        }
        if self.links.len() > 0 {
            let mut lrels: Vec<(String, Json)> = Vec::new();
            let mut i: usize = 0;
            while i < self.links.len()
                invariant
                    i <= self.links@.len(),
                    lrels@.len() == i,
                    forall|k: int|
                        0 <= k < i ==> (#[trigger] lrels@[k]).0@ == rv.links[k].0 && json_dv(
                            lrels@[k].1,
                        ) == links_entry_to_json(rv.links[k].0, rv.links[k].1),
                decreases self.links@.len() - i,
            {
                let ghost relv = rv.links[i as int].0;
                let ghost lsv = rv.links[i as int].1;
                proof {
                    assert(rv.links[i as int] == (
                        self.links@[i as int].0@,
                        self.links@[i as int].1.deep_view(),
                    ));
                }
                let ls: &Vec<Link> = &self.links[i].1;
                let jv: Json = if ls.len() == 1 && !(str_compare(
                    self.links[i].0.as_str(),
                    "curies",
                ) == Cmp::Equal) {
                    let j0 = ls[0].to_json();
                    proof {
                        assert(lsv[0] == ls@[0].deep_view());
                    }
                    j0
                } else {
                    Json::Array(links_vec_to_json(ls))
                };
                let key = self.links[i].0.clone();
                lrels.push((key, jv));
                i = i + 1;
            }
            proof {
                lemma_json_entries_dv(lrels@);
                assert(entries_dv(lrels@) =~= links_to_json(rv.links));
            }
            top = set_entry(top, "_links", Json::Object(lrels));
        }
        let ghost o1 = entries_dv(top@);
        proof {
            assert(rv.state.skip(0) =~= rv.state);
        }
        let mut i: usize = 0;
        while i < self.state.len()
            invariant
                i <= self.state@.len(),
                assoc_sorted(entries_dv(top@)),
                state_entries_fold(entries_dv(top@), rv.state.skip(i as int))
                    == state_entries_fold(o1, rv.state),
            decreases self.state@.len() - i,
        {
            let v = self.state[i].1.to_json();
            proof {
                assert(rv.state[i as int] == (
                    self.state@[i as int].0@,
                    self.state@[i as int].1.deep_view(),
                ));
                assert(rv.state.skip(i as int)[0] == rv.state[i as int]);
                assert(rv.state.skip(i as int).drop_first() =~= rv.state.skip(i as int + 1));
            }
            top = set_entry(top, self.state[i].0.as_str(), v);
            i = i + 1;
        }
        proof {
            assert(rv.state.skip(i as int).len() == 0);
        }
        if self.resources.len() > 0 {
            let mut erels: Vec<(String, Json)> = Vec::new();
            let mut i: usize = 0;
            while i < self.resources.len()
                invariant
                    i <= self.resources@.len(),
                    erels@.len() == i,
                    forall|k: int|
                        0 <= k < i ==> (#[trigger] erels@[k]).0@ == rv.embedded[k].0 && json_dv(
                            erels@[k].1,
                        ) == embedded_entry_to_json(rv.embedded[k].1),
                decreases self.resources@.len() - i,
            {
                let ghost vsv = rv.embedded[i as int].1;
                proof {
                    assert(rv.embedded[i as int] == (
                        self.resources@[i as int].0@,
                        self.resources@[i as int].1.deep_view(),
                    ));
                    lemma_res_seq_dv(self.resources@[i as int].1@);
                    assert(res_seq_dv(self.resources@[i as int].1@)
                        =~= self.resources@[i as int].1.deep_view());
                    assert(decreases_to!(*self => self.resources@[i as int].1@)) by {
                        assert(decreases_to!(*self => self.resources));
                        assert(decreases_to!(self.resources => self.resources@));
                        assert(decreases_to!(self.resources@ => self.resources@[i as int]));
                        assert(decreases_to!(self.resources@[i as int]
                            => self.resources@[i as int].1));
                        assert(decreases_to!(self.resources@[i as int].1
                            => self.resources@[i as int].1@));
                    }
                    assert(decreases_to!(self.resources@[i as int].1@
                        => self.resources@[i as int].1@[0]));
                }
                let vs: &Vec<Resource> = &self.resources[i].1;
                let jv: Json = if vs.len() == 1 {
                    let j0 = vs[0].to_json();
                    proof {
                        assert(vsv[0] == vs@[0].deep_view());
                    }
                    j0
                } else {
                    Json::Array(res_vec_to_json(vs))
                };
                let key = self.resources[i].0.clone();
                erels.push((key, jv));
                i = i + 1;
            }
            proof {
                lemma_json_entries_dv(erels@);
                lemma_embedded_to_json(rv.embedded);
                assert(entries_dv(erels@) =~= embedded_to_json(rv.embedded));
            }
            top = set_entry(top, "_embedded", Json::Object(erels));
        }
        proof {
            lemma_json_entries_dv(top@);
            lemma_resource_to_json_wf(rv);
        }
        Json::Object(top)
    }
}


/// What reconstruction gives: the top-level keys are walked in order;
/// `"_links"` is parsed back into links, every other key becomes a
/// state field. `"_embedded"` is not special-cased: embedded content
/// is not rebuilt into child resources, it lands in state as plain
/// values (the reconstruction is lossy for embedded content).
pub open spec fn resource_from_json(j: SpecJson) -> Result<SpecResource, HalError> {
    match j {
        SpecJson::Object(es) => from_json_entries(spec_empty_resource(), es),
        _ => Result::Ok(spec_empty_resource()),
    }
}

pub open spec fn from_json_entries(
    r: SpecResource,
    es: Seq<(Seq<char>, SpecJson)>,
) -> Result<SpecResource, HalError>
    decreases es.len(),
{
    if es.len() == 0 {
        Result::Ok(r)
    } else {
        match from_json_entry(r, es[0].0, es[0].1) {
            Result::Err(e) => Result::Err(e),
            Result::Ok(r2) => from_json_entries(r2, es.drop_first()),
        }
    }
}

pub open spec fn from_json_entry(r: SpecResource, k: Seq<char>, v: SpecJson) -> Result<
    SpecResource,
    HalError,
> {
    if k == "_links"@ {
        match v {
            SpecJson::Object(les) => from_links_entries(r, les),
            _ => Result::Err(HalError::TypeMismatch),
        }
    } else {
        Result::Ok(spec_add_state(r, k, json_to_state(v)))
    }
}

pub open spec fn from_links_entries(
    r: SpecResource,
    les: Seq<(Seq<char>, SpecJson)>,
) -> Result<SpecResource, HalError>
    decreases les.len(),
{
    if les.len() == 0 {
        Result::Ok(r)
    } else {
        match from_links_entry(r, les[0].0, les[0].1) {
            Result::Err(e) => Result::Err(e),
            Result::Ok(r2) => from_links_entries(r2, les.drop_first()),
        }
    }
}

/// A relation parsed back from either accepted form: a single link
/// object, or an array of link objects appended in order.
pub open spec fn from_links_entry(r: SpecResource, rel: Seq<char>, v: SpecJson) -> Result<
    SpecResource,
    HalError,
> {
    match v {
        SpecJson::Array(items) => from_link_array(r, rel, items),
        _ => match link_from_json(v) {
            Result::Err(e) => Result::Err(e),
            Result::Ok(l) => Result::Ok(spec_add_link(r, rel, l)),
        },
    }
}

pub open spec fn from_link_array(
    r: SpecResource,
    rel: Seq<char>,
    items: Seq<SpecJson>,
) -> Result<SpecResource, HalError>
    decreases items.len(),
{
    if items.len() == 0 {
        Result::Ok(r)
    } else {
        match link_from_json(items[0]) {
            Result::Err(e) => Result::Err(e),
            Result::Ok(l) => from_link_array(spec_add_link(r, rel, l), rel, items.drop_first()),
        }
    }
}

pub open spec fn resource_result_dv(r: Result<Resource, HalError>) -> Result<
    SpecResource,
    HalError,
> {
    match r {
        Result::Ok(res) => Result::Ok(res.deep_view()),
        Result::Err(e) => Result::Err(e),
    }
}

impl Resource {
    /// Best-effort reconstruction from a generic JSON value; the
    /// errors are those of `Link::from_json`. A non-object input
    /// gives the empty resource.
    #[verifier::loop_isolation(false)]
    pub fn from_json(json: Json) -> (r: Result<Resource, HalError>)
        ensures
            resource_result_dv(r) == resource_from_json(json.deep_view()),
    {
        match &json {
            Json::Object(es) => {
                let ghost full = json_entries_dv(es@);
                proof {
                    lemma_json_entries_dv(es@);
                    assert(full.skip(0) =~= full);
                }
                let mut res = Resource::new();
                let mut i: usize = 0;
                while i < es.len()
                    invariant
                        i <= es@.len(),
                        from_json_entries(res.deep_view(), full.skip(i as int))
                            == from_json_entries(spec_empty_resource(), full),
                    decreases es@.len() - i,
                {
                    proof {
                        assert(full.skip(i as int)[0] == full[i as int]);
                        assert(full[i as int] == (es@[i as int].0@, json_dv(es@[i as int].1)));
                        assert(full.skip(i as int).drop_first() =~= full.skip(i as int + 1));
                    }
                    let key = &es[i].0;
                    let value = &es[i].1;
                    if str_compare(key.as_str(), "_links") == Cmp::Equal {
                        match value {
                            Json::Object(les) => {
                                let ghost lfull = json_entries_dv(les@);
                                let ghost res0 = res.deep_view();
                                proof {
                                    lemma_json_entries_dv(les@);
                                    assert(lfull.skip(0) =~= lfull);
                                }
                                let mut j: usize = 0;
                                while j < les.len()
                                    invariant
                                        j <= les@.len(),
                                        from_links_entries(res.deep_view(), lfull.skip(j as int))
                                            == from_links_entries(res0, lfull),
                                    decreases les@.len() - j,
                                {
                                    proof {
                                        assert(lfull.skip(j as int)[0] == lfull[j as int]);
                                        assert(lfull[j as int] == (
                                            les@[j as int].0@,
                                            json_dv(les@[j as int].1),
                                        ));
                                        assert(lfull.skip(j as int).drop_first() =~= lfull.skip(
                                            j as int + 1,
                                        ));
                                    }
                                    let rel = &les[j].0;
                                    let lvalue = &les[j].1;
                                    match lvalue {
                                        Json::Array(items) => {
                                            let ghost ifull = json_seq_dv(items@);
                                            let ghost res1 = res.deep_view();
                                            let ghost relv = rel@;
                                            proof {
                                                lemma_json_seq_dv(items@);
                                                assert(ifull.skip(0) =~= ifull);
                                            }
                                            let mut k: usize = 0;
                                            while k < items.len()
                                                invariant
                                                    k <= items@.len(),
                                                    from_link_array(
                                                        res.deep_view(),
                                                        relv,
                                                        ifull.skip(k as int),
                                                    ) == from_link_array(res1, relv, ifull),
                                                decreases items@.len() - k,
                                            {
                                                proof {
                                                    assert(ifull.skip(k as int)[0]
                                                        == ifull[k as int]);
                                                    assert(ifull[k as int] == json_dv(
                                                        items@[k as int],
                                                    ));
                                                    assert(ifull.skip(k as int).drop_first()
                                                        =~= ifull.skip(k as int + 1));
                                                }
                                                match Link::from_json(&items[k]) {
                                                    Result::Ok(l) => {
                                                        res = res.add_link(rel.as_str(), l);
                                                    },
                                                    Result::Err(e) => {
                                                        return Result::Err(e);
                                                    },
                                                }
                                                k = k + 1;
                                            }
                                            proof {
                                                assert(ifull.skip(k as int).len() == 0);
                                            }
                                        },
                                        _ => {
                                            match Link::from_json(lvalue) {
                                                Result::Ok(l) => {
                                                    res = res.add_link(rel.as_str(), l);
                                                },
                                                Result::Err(e) => {
                                                    return Result::Err(e);
                                                },
                                            }
                                        },
                                    }
                                    j = j + 1;
                                }
                                proof {
                                    assert(lfull.skip(j as int).len() == 0);
                                }
                            },
                            _ => {
                                return Result::Err(HalError::TypeMismatch);
                            },
                        }
                    } else {
                        let v = json_to_hal_state(value);
                        res = res.add_state_value(key.as_str(), v);
                    }
                    i = i + 1;
                }
                proof {
                    assert(full.skip(i as int).len() == 0);
                }
                Result::Ok(res)
            },
            _ => Result::Ok(Resource::new()),
        }
    }
}


/// A resource with no state, no links and no embedded resources
/// serializes to the empty JSON object: no `"_links"` or
/// `"_embedded"` placeholder appears.
pub proof fn lemma_empty_resource_to_json()
    ensures
        resource_to_json(spec_empty_resource()) == SpecJson::Object(
            Seq::<(Seq<char>, SpecJson)>::empty(),
        ),
{
}

/// Folding state fields leaves every key they do not use untouched.
proof fn lemma_state_fold_get(
    o: Seq<(Seq<char>, SpecJson)>,
    st: Seq<(Seq<char>, SpecHalState)>,
    q: Seq<char>,
)
    requires
        assoc_sorted(o),
        forall|i: int| 0 <= i < st.len() ==> (#[trigger] st[i]).0 != q,
    ensures
        assoc_sorted(state_entries_fold(o, st)),
        assoc_get(state_entries_fold(o, st), q) == assoc_get(o, q),
    decreases st.len(),
{
    if st.len() > 0 {
        let v = state_to_json(st[0].1);
        let o1 = assoc_set(o, st[0].0, v);
        lemma_assoc_set_sorted(o, st[0].0, v);
        crate::assoc::lemma_assoc_get_set(o, st[0].0, v, q);
        assert forall|i: int|
            0 <= i < st.drop_first().len() implies (#[trigger] st.drop_first()[i]).0 != q by {
            assert(st.drop_first()[i] == st[i + 1]);
        }
        lemma_state_fold_get(o1, st.drop_first(), q);
    }
}

/// Where the serialized document puts the links: unless a state field
/// shadows the key, the `"_links"` member of the output is the object
/// `links_to_json(r.links)`.
pub proof fn lemma_links_section(r: SpecResource)
    requires
        resource_wf(r),
        r.links.len() > 0,
        !assoc_has_key(r.state, "_links"@),
    ensures
        resource_to_json(r) is Object,
        assoc_get(resource_to_json(r)->Object_0, "_links"@) == Some(
            SpecJson::Object(links_to_json(r.links)),
        ),
{
    let lv = SpecJson::Object(links_to_json(r.links));
    let o0 = Seq::<(Seq<char>, SpecJson)>::empty();
    let o1 = assoc_set(o0, "_links"@, lv);
    lemma_assoc_set_sorted(o0, "_links"@, lv);
    lemma_assoc_get_set_all(o0, "_links"@, lv);
    assert forall|i: int| 0 <= i < r.state.len() implies (#[trigger] r.state[i]).0
        != "_links"@ by {
        if r.state[i].0 == "_links"@ {
            assert(assoc_has_key(r.state, "_links"@));
        }
    }
    lemma_state_fold_get(o1, r.state, "_links"@);
    let o2 = state_entries_fold(o1, r.state);
    if r.embedded.len() > 0 {
        let ev = SpecJson::Object(embedded_to_json(r.embedded));
        crate::assoc::lemma_assoc_get_set(o2, "_embedded"@, ev, "_links"@);
        assert("_embedded"@ != "_links"@) by {
            reveal_strlit("_embedded");
            reveal_strlit("_links");
            assert("_embedded"@.len() == 9);
            assert("_links"@.len() == 6);
        }
    }
}

/// Singular/plural collapse, with the curies exception: inside the
/// `"_links"` section a relation holding exactly one link appears as
/// that link's object, unless the relation is the reserved
/// `"curies"`; otherwise it appears as the array of its links, in
/// insertion order.
pub proof fn lemma_link_collapse(r: SpecResource, rel: Seq<char>)
    requires
        resource_wf(r),
        assoc_get(r.links, rel) is Some,
    ensures
        ({
            let ls = assoc_get(r.links, rel)->Some_0;
            assoc_get(links_to_json(r.links), rel) == Some(
                if ls.len() == 1 && rel != "curies"@ {
                    link_to_json(ls[0])
                } else {
                    SpecJson::Array(link_seq_to_json(ls))
                },
            )
        }),
{
    let ls = assoc_get(r.links, rel)->Some_0;
    lemma_assoc_get_index(r.links, rel);
    let j = choose|j: int|
        0 <= j < r.links.len() && #[trigger] r.links[j] == (rel, assoc_get(r.links, rel)->Some_0);
    lemma_links_to_json_wf(r.links);
    assert(links_to_json(r.links)[j] == (rel, links_entry_to_json(rel, ls)));
    lemma_assoc_get_at(links_to_json(r.links), j);
}

/// The curies exception by itself: the reserved `"curies"` relation
/// serializes as an array even when it holds exactly one link.
pub proof fn lemma_curies_always_array(r: SpecResource)
    requires
        resource_wf(r),
        assoc_get(r.links, "curies"@) is Some,
    ensures
        assoc_get(links_to_json(r.links), "curies"@) == Some(
            SpecJson::Array(link_seq_to_json(assoc_get(r.links, "curies"@)->Some_0)),
        ),
{
    lemma_link_collapse(r, "curies"@);
}

/// Appending a link appends: afterwards the relation holds its old
/// links with the new one at the end (a one-element sequence when the
/// relation was absent), and no other relation changes.
pub proof fn lemma_add_link_appends(r: SpecResource, rel: Seq<char>, l: SpecLink)
    requires
        resource_wf(r),
    ensures
        assoc_get(spec_add_link(r, rel, l).links, rel) == Some(
            match assoc_get(r.links, rel) {
                Some(ls) => ls.push(l),
                None => seq![l],
            },
        ),
        forall|q: Seq<char>|
            q != rel ==> #[trigger] assoc_get(spec_add_link(r, rel, l).links, q) == assoc_get(
                r.links,
                q,
            ),
{
    match assoc_get(r.links, rel) {
        Some(ls) => {
            lemma_assoc_get_set_all(r.links, rel, ls.push(l));
        },
        None => {
            lemma_assoc_get_set_all(r.links, rel, seq![l]);
        },
    }
}


/// The collapse rule read off the whole document: in the serialized
/// resource, the `"_links"` member is an object that maps each
/// relation to a single link object (exactly one link, relation not
/// `"curies"`) or to the array of its links in insertion order.
pub proof fn lemma_document_link_collapse(r: SpecResource, rel: Seq<char>)
    requires
        resource_wf(r),
        assoc_get(r.links, rel) is Some,
        !assoc_has_key(r.state, "_links"@),
    ensures
        resource_to_json(r) is Object,
        assoc_get(resource_to_json(r)->Object_0, "_links"@) == Some(
            SpecJson::Object(links_to_json(r.links)),
        ),
        ({
            let ls = assoc_get(r.links, rel)->Some_0;
            assoc_get(links_to_json(r.links), rel) == Some(
                if ls.len() == 1 && rel != "curies"@ {
                    link_to_json(ls[0])
                } else {
                    SpecJson::Array(link_seq_to_json(ls))
                },
            )
        }),
{
    assert(r.links.len() > 0);
    lemma_links_section(r);
    lemma_link_collapse(r, rel);
}

} // verus!
