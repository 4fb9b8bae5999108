//! Hyperlink relation targets. A link carries a required `href` and
//! optional metadata attributes; absent attributes are never emitted.
//! Serialization and reconstruction are exact inverses of each other.

use vstd::prelude::*;

use crate::assoc::{assoc_get, assoc_set, assoc_sorted, entries_dv, get_entry, set_entry,
    lemma_assoc_get_set_all, lemma_assoc_set_sorted, lemma_assoc_set_values};
use crate::json::{json_wf, lemma_json_entries_dv, Json, SpecJson};
use crate::HalError;

verus! {

/// Specification model of a link.
#[verifier::ext_equal]
pub struct SpecLink {
    pub href: Seq<char>,
    pub templated: Option<bool>,
    pub media_type: Option<Seq<char>>,
    pub deprecation: Option<Seq<char>>,
    pub name: Option<Seq<char>>,
    pub profile: Option<Seq<char>>,
    pub title: Option<Seq<char>>,
    pub hreflang: Option<Seq<char>>,
}

/// A hyperlink relation target.
#[derive(Clone, PartialEq, Debug)]
pub struct Link {
    href: String,
    templated: Option<bool>,
    media_type: Option<String>,
    deprecation: Option<String>,
    name: Option<String>,
    profile: Option<String>,
    title: Option<String>,
    hreflang: Option<String>,
}

pub open spec fn opt_str_dv(o: Option<String>) -> Option<Seq<char>> {
    match o {
        Option::None => Option::None,
        Option::Some(s) => Option::Some(s@),
    }
}

impl DeepView for Link {
    type V = SpecLink;

    closed spec fn deep_view(&self) -> SpecLink {
        SpecLink {
            href: self.href@,
            templated: self.templated,
            media_type: opt_str_dv(self.media_type),
            deprecation: opt_str_dv(self.deprecation),
            name: opt_str_dv(self.name),
            profile: opt_str_dv(self.profile),
            title: opt_str_dv(self.title),
            hreflang: opt_str_dv(self.hreflang),
        }
    }
}

impl Link {
    /// A link to `href` with every optional attribute absent.
    pub fn new(href: &str) -> (r: Link)
        ensures
            r.deep_view() == (SpecLink {
                href: href@,
                templated: Option::None,
                media_type: Option::None,
                deprecation: Option::None,
                name: Option::None,
                profile: Option::None,
                title: Option::None,
                hreflang: Option::None,
            }),
    {
        Link {
            href: href.to_owned(),
            templated: None,
            media_type: None,
            deprecation: None,
            name: None,
            profile: None,
            title: None,
            hreflang: None,
        }
    }

    pub fn templated(self, is_template: bool) -> (r: Link)
        ensures
            r.deep_view() == (SpecLink {
                templated: Option::Some(is_template),
                ..self.deep_view()
            }),
    {
        Link { templated: Some(is_template), ..self }
    }

    pub fn media_type(self, media_type: &str) -> (r: Link)
        ensures
            r.deep_view() == (SpecLink {
                media_type: Option::Some(media_type@),
                ..self.deep_view()
            }),
    {
        Link { media_type: Some(media_type.to_owned()), ..self }
    }

    pub fn deprecation(self, deprecation: &str) -> (r: Link)
        ensures
            r.deep_view() == (SpecLink {
                deprecation: Option::Some(deprecation@),
                ..self.deep_view()
            }),
    {
        Link { deprecation: Some(deprecation.to_owned()), ..self }
    }

    pub fn name(self, name: &str) -> (r: Link)
        ensures
            r.deep_view() == (SpecLink { name: Option::Some(name@), ..self.deep_view() }),
    {
        Link { name: Some(name.to_owned()), ..self }
    }

    pub fn title(self, title: &str) -> (r: Link)
        ensures
            r.deep_view() == (SpecLink { title: Option::Some(title@), ..self.deep_view() }),
    {
        Link { title: Some(title.to_owned()), ..self }
    }

    pub fn profile(self, profile: &str) -> (r: Link)
        ensures
            r.deep_view() == (SpecLink { profile: Option::Some(profile@), ..self.deep_view() }),
    {
        Link { profile: Some(profile.to_owned()), ..self }
    }

    pub fn hreflang(self, hreflang: &str) -> (r: Link)
        ensures
            r.deep_view() == (SpecLink {
                hreflang: Option::Some(hreflang@),
                ..self.deep_view()
            }),
    {
        Link { hreflang: Some(hreflang.to_owned()), ..self }
    }
}

/// The JSON object a link serializes to: `"href"` always, each present
/// optional attribute under its wire key (`media_type` is emitted as
/// `"type"`), keys sorted.
pub open spec fn link_entries(l: SpecLink) -> Seq<(Seq<char>, SpecJson)> {
    let e0 = assoc_set(Seq::empty(), "href"@, SpecJson::Text(l.href));
    let e1 = if l.templated is Some {
        assoc_set(e0, "templated"@, SpecJson::Boolean(l.templated->0))
    } else {
        e0
    };
    let e2 = if l.media_type is Some {
        assoc_set(e1, "type"@, SpecJson::Text(l.media_type->0))
    } else {
        e1
    };
    let e3 = if l.deprecation is Some {
        assoc_set(e2, "deprecation"@, SpecJson::Text(l.deprecation->0))
    } else {
        e2
    };
    let e4 = if l.name is Some {
        assoc_set(e3, "name"@, SpecJson::Text(l.name->0))
    } else {
        e3
    };
    let e5 = if l.title is Some {
        assoc_set(e4, "title"@, SpecJson::Text(l.title->0))
    } else {
        e4
    };
    let e6 = if l.profile is Some {
        assoc_set(e5, "profile"@, SpecJson::Text(l.profile->0))
    } else {
        e5
    };
    let e7 = if l.hreflang is Some {
        assoc_set(e6, "hreflang"@, SpecJson::Text(l.hreflang->0))
    } else {
        e6
    };
    e7
}

pub open spec fn link_to_json(l: SpecLink) -> SpecJson {
    SpecJson::Object(link_entries(l))
}

/// The serialized object is well-formed: keys sorted, values scalar.
pub proof fn lemma_link_to_json_wf(l: SpecLink)
    ensures
        assoc_sorted(link_entries(l)),
        json_wf(link_to_json(l)),
{
    let p = |v: SpecJson| json_wf(v);
    let empty = Seq::<(Seq<char>, SpecJson)>::empty();
    let e0 = assoc_set(empty, "href"@, SpecJson::Text(l.href));
    lemma_assoc_set_sorted(empty, "href"@, SpecJson::Text(l.href));
    lemma_assoc_set_values(empty, "href"@, SpecJson::Text(l.href), p);
    let e1 = if l.templated is Some {
        lemma_assoc_set_sorted(e0, "templated"@, SpecJson::Boolean(l.templated->0));
        lemma_assoc_set_values(e0, "templated"@, SpecJson::Boolean(l.templated->0), p);
        assoc_set(e0, "templated"@, SpecJson::Boolean(l.templated->0))
    } else {
        e0
    };
    let e2 = if l.media_type is Some {
        lemma_assoc_set_sorted(e1, "type"@, SpecJson::Text(l.media_type->0));
        lemma_assoc_set_values(e1, "type"@, SpecJson::Text(l.media_type->0), p);
        assoc_set(e1, "type"@, SpecJson::Text(l.media_type->0))
    } else {
        e1
    };
    let e3 = if l.deprecation is Some {
        lemma_assoc_set_sorted(e2, "deprecation"@, SpecJson::Text(l.deprecation->0));
        lemma_assoc_set_values(e2, "deprecation"@, SpecJson::Text(l.deprecation->0), p);
        assoc_set(e2, "deprecation"@, SpecJson::Text(l.deprecation->0))
    } else {
        e2
    };
    let e4 = if l.name is Some {
        lemma_assoc_set_sorted(e3, "name"@, SpecJson::Text(l.name->0));
        lemma_assoc_set_values(e3, "name"@, SpecJson::Text(l.name->0), p);
        assoc_set(e3, "name"@, SpecJson::Text(l.name->0))
    } else {
        e3
    };
    let e5 = if l.title is Some {
        lemma_assoc_set_sorted(e4, "title"@, SpecJson::Text(l.title->0));
        lemma_assoc_set_values(e4, "title"@, SpecJson::Text(l.title->0), p);
        assoc_set(e4, "title"@, SpecJson::Text(l.title->0))
    } else {
        e4
    };
    let e6 = if l.profile is Some {
        lemma_assoc_set_sorted(e5, "profile"@, SpecJson::Text(l.profile->0));
        lemma_assoc_set_values(e5, "profile"@, SpecJson::Text(l.profile->0), p);
        assoc_set(e5, "profile"@, SpecJson::Text(l.profile->0))
    } else {
        e5
    };
    if l.hreflang is Some {
        lemma_assoc_set_sorted(e6, "hreflang"@, SpecJson::Text(l.hreflang->0));
        lemma_assoc_set_values(e6, "hreflang"@, SpecJson::Text(l.hreflang->0), p);
    }
    assert forall|i: int|
        0 <= i < link_entries(l).len() implies json_wf(#[trigger] link_entries(l)[i].1) by {}
}

/// An optional string-valued field: absent, present as text, or a
/// type mismatch.
pub open spec fn get_opt_text(es: Seq<(Seq<char>, SpecJson)>, key: Seq<char>) -> Result<
    Option<Seq<char>>,
    HalError,
> {
    match assoc_get(es, key) {
        Option::None => Result::Ok(Option::None),
        Option::Some(v) => match v {
            SpecJson::Text(t) => Result::Ok(Option::Some(t)),
            _ => Result::Err(HalError::TypeMismatch),
        },
    }
}

/// An optional boolean-valued field.
pub open spec fn get_opt_bool(es: Seq<(Seq<char>, SpecJson)>, key: Seq<char>) -> Result<
    Option<bool>,
    HalError,
> {
    match assoc_get(es, key) {
        Option::None => Result::Ok(Option::None),
        Option::Some(v) => match v {
            SpecJson::Boolean(b) => Result::Ok(Option::Some(b)),
            _ => Result::Err(HalError::TypeMismatch),
        },
    }
}

pub open spec fn link_opt_fields(es: Seq<(Seq<char>, SpecJson)>, href: Seq<char>) -> Result<
    SpecLink,
    HalError,
> {
    if get_opt_bool(es, "templated"@) is Err {
        Result::Err(HalError::TypeMismatch)
    } else if get_opt_text(es, "type"@) is Err {
        Result::Err(HalError::TypeMismatch)
    } else if get_opt_text(es, "deprecation"@) is Err {
        Result::Err(HalError::TypeMismatch)
    } else if get_opt_text(es, "name"@) is Err {
        Result::Err(HalError::TypeMismatch)
    } else if get_opt_text(es, "title"@) is Err {
        Result::Err(HalError::TypeMismatch)
    } else if get_opt_text(es, "profile"@) is Err {
        Result::Err(HalError::TypeMismatch)
    } else if get_opt_text(es, "hreflang"@) is Err {
        Result::Err(HalError::TypeMismatch)
    } else {
        Result::Ok(
            SpecLink {
                href,
                templated: get_opt_bool(es, "templated"@)->Ok_0,
                media_type: get_opt_text(es, "type"@)->Ok_0,
                deprecation: get_opt_text(es, "deprecation"@)->Ok_0,
                name: get_opt_text(es, "name"@)->Ok_0,
                profile: get_opt_text(es, "profile"@)->Ok_0,
                title: get_opt_text(es, "title"@)->Ok_0,
                hreflang: get_opt_text(es, "hreflang"@)->Ok_0,
            },
        )
    }
}

/// What reconstructing a link from a JSON value gives: the object must
/// carry a string `"href"`; each optional attribute must have its
/// expected JSON type.
pub open spec fn link_from_json(j: SpecJson) -> Result<SpecLink, HalError> {
    match j {
        SpecJson::Object(es) => match assoc_get(es, "href"@) {
            Option::None => Result::Err(HalError::MissingRequiredField),
            Option::Some(hv) => match hv {
                SpecJson::Text(h) => link_opt_fields(es, h),
                _ => Result::Err(HalError::TypeMismatch),
            },
        },
        _ => Result::Err(HalError::MissingRequiredField),
    }
}

pub open spec fn link_result_dv(r: Result<Link, HalError>) -> Result<SpecLink, HalError> {
    match r {
        Result::Ok(l) => Result::Ok(l.deep_view()),
        Result::Err(e) => Result::Err(e),
    }
}

pub open spec fn text_result_dv(r: Result<Option<String>, HalError>) -> Result<
    Option<Seq<char>>,
    HalError,
> {
    match r {
        Result::Ok(o) => Result::Ok(opt_str_dv(o)),
        Result::Err(e) => Result::Err(e),
    }
}

fn opt_text_field(es: &Vec<(String, Json)>, key: &str) -> (r: Result<Option<String>, HalError>)
    ensures
        text_result_dv(r) == get_opt_text(entries_dv(es@), key@),
{
    match get_entry(es, key) {
        Option::None => Result::Ok(Option::None),
        Option::Some(Json::Text(t)) => Result::Ok(Option::Some(t.clone())),
        Option::Some(_) => Result::Err(HalError::TypeMismatch),
    }
}

impl Link {
    /// Serialize into a JSON object with `"href"` and every present
    /// optional attribute, keys sorted; absent attributes are omitted.
    pub fn to_json(&self) -> (r: Json)
        ensures
            r.deep_view() == link_to_json(self.deep_view()),
            json_wf(r.deep_view()),
    {
        let ghost l = self.deep_view();
        let mut es: Vec<(String, Json)> = Vec::new();
        proof {
            assert(entries_dv(es@) =~= Seq::<(Seq<char>, SpecJson)>::empty());
        }
        es = set_entry(es, "href", Json::Text(self.href.clone()));
        match &self.templated {
            Some(b) => {
                es = set_entry(es, "templated", Json::Boolean(*b));
            },
            None => {},
        }
        match &self.media_type {
            Some(s) => {
                es = set_entry(es, "type", Json::Text(s.clone()));
            },
            None => {},
        }
        match &self.deprecation {
            Some(s) => {
                es = set_entry(es, "deprecation", Json::Text(s.clone()));
            },
            None => {},
        }
        match &self.name {
            Some(s) => {
                es = set_entry(es, "name", Json::Text(s.clone()));
            },
            None => {},
        }
        match &self.title {
            Some(s) => {
                es = set_entry(es, "title", Json::Text(s.clone()));
            },
            None => {},
        }
        match &self.profile {
            Some(s) => {
                es = set_entry(es, "profile", Json::Text(s.clone()));
            },
            None => {},
        }
        match &self.hreflang {
            Some(s) => {
                es = set_entry(es, "hreflang", Json::Text(s.clone()));
            },
            None => {},
        }
        proof {
            lemma_json_entries_dv(es@);
            lemma_link_to_json_wf(l);
            assert(entries_dv(es@) == link_entries(l));
        }
        Json::Object(es)
    }

    /// Reconstruct a link from a JSON object; the exact inverse of
    /// `to_json`.
    pub fn from_json(json: &Json) -> (r: Result<Link, HalError>)
        ensures
            link_result_dv(r) == link_from_json(json.deep_view()),
    {
        match json {
            Json::Object(es) => {
                proof {
                    lemma_json_entries_dv(es@);
                }
                let href: String = match get_entry(es, "href") {
                    Option::None => {
                        return Result::Err(HalError::MissingRequiredField);
                    },
                    Option::Some(Json::Text(h)) => h.clone(),
                    Option::Some(_) => {
                        return Result::Err(HalError::TypeMismatch);
                    },
                };
                let templated: Option<bool> = match get_entry(es, "templated") {
                    Option::None => Option::None,
                    Option::Some(Json::Boolean(b)) => Option::Some(*b),
                    Option::Some(_) => {
                        return Result::Err(HalError::TypeMismatch);
                    },
                };
                let media_type: Option<String> = match opt_text_field(es, "type") {
                    Result::Ok(o) => o,
                    Result::Err(e) => {
                        return Result::Err(e);
                    },
                };
                let deprecation: Option<String> = match opt_text_field(es, "deprecation") {
                    Result::Ok(o) => o,
                    Result::Err(e) => {
                        return Result::Err(e);
                    },
                };
                let name: Option<String> = match opt_text_field(es, "name") {
                    Result::Ok(o) => o,
                    Result::Err(e) => {
                        return Result::Err(e);
                    },
                };
                let title: Option<String> = match opt_text_field(es, "title") {
                    Result::Ok(o) => o,
                    Result::Err(e) => {
                        return Result::Err(e);
                    },
                };
                let profile: Option<String> = match opt_text_field(es, "profile") {
                    Result::Ok(o) => o,
                    Result::Err(e) => {
                        return Result::Err(e);
                    },
                };
                let hreflang: Option<String> = match opt_text_field(es, "hreflang") {
                    Result::Ok(o) => o,
                    Result::Err(e) => {
                        return Result::Err(e);
                    },
                };
                Result::Ok(
                    Link {
                        href,
                        templated,
                        media_type,
                        deprecation,
                        name,
                        profile,
                        title,
                        hreflang,
                    },
                )
            },
            _ => Result::Err(HalError::MissingRequiredField),
        }
    }
}

proof fn lemma_link_keys_distinct()
    ensures
        "href"@ != "templated"@,
        "href"@ != "type"@,
        "href"@ != "deprecation"@,
        "href"@ != "name"@,
        "href"@ != "title"@,
        "href"@ != "profile"@,
        "href"@ != "hreflang"@,
        "templated"@ != "type"@,
        "templated"@ != "deprecation"@,
        "templated"@ != "name"@,
        "templated"@ != "title"@,
        "templated"@ != "profile"@,
        "templated"@ != "hreflang"@,
        "type"@ != "deprecation"@,
        "type"@ != "name"@,
        "type"@ != "title"@,
        "type"@ != "profile"@,
        "type"@ != "hreflang"@,
        "deprecation"@ != "name"@,
        "deprecation"@ != "title"@,
        "deprecation"@ != "profile"@,
        "deprecation"@ != "hreflang"@,
        "name"@ != "title"@,
        "name"@ != "profile"@,
        "name"@ != "hreflang"@,
        "title"@ != "profile"@,
        "title"@ != "hreflang"@,
        "profile"@ != "hreflang"@,
{
    reveal_strlit("href");
    reveal_strlit("templated");
    reveal_strlit("type");
    reveal_strlit("deprecation");
    reveal_strlit("name");
    reveal_strlit("title");
    reveal_strlit("profile");
    reveal_strlit("hreflang");
    assert("href"@.len() == 4);
    assert("templated"@.len() == 9);
    assert("type"@.len() == 4);
    assert("deprecation"@.len() == 11);
    assert("name"@.len() == 4);
    assert("title"@.len() == 5);
    assert("profile"@.len() == 7);
    assert("hreflang"@.len() == 8);
    assert("href"@[0] == 'h');
    assert("type"@[0] == 't');
    assert("name"@[0] == 'n');
}

/// Round trip: reconstructing a serialized link gives back the link,
/// for every link.
pub proof fn lemma_link_round_trip(l: SpecLink)
    ensures
        link_from_json(link_to_json(l)) == Result::<SpecLink, HalError>::Ok(l),
{
    lemma_link_keys_distinct();
    let empty = Seq::<(Seq<char>, SpecJson)>::empty();
    let e0 = assoc_set(empty, "href"@, SpecJson::Text(l.href));
    lemma_assoc_set_sorted(empty, "href"@, SpecJson::Text(l.href));
    lemma_assoc_get_set_all(empty, "href"@, SpecJson::Text(l.href));
    let e1 = if l.templated is Some {
        lemma_assoc_set_sorted(e0, "templated"@, SpecJson::Boolean(l.templated->0));
        lemma_assoc_get_set_all(e0, "templated"@, SpecJson::Boolean(l.templated->0));
        assoc_set(e0, "templated"@, SpecJson::Boolean(l.templated->0))
    } else {
        e0
    };
    let e2 = if l.media_type is Some {
        lemma_assoc_set_sorted(e1, "type"@, SpecJson::Text(l.media_type->0));
        lemma_assoc_get_set_all(e1, "type"@, SpecJson::Text(l.media_type->0));
        assoc_set(e1, "type"@, SpecJson::Text(l.media_type->0))
    } else {
        e1
    };
    let e3 = if l.deprecation is Some {
        lemma_assoc_set_sorted(e2, "deprecation"@, SpecJson::Text(l.deprecation->0));
        lemma_assoc_get_set_all(e2, "deprecation"@, SpecJson::Text(l.deprecation->0));
        assoc_set(e2, "deprecation"@, SpecJson::Text(l.deprecation->0))
    } else {
        e2
    };
    let e4 = if l.name is Some {
        lemma_assoc_set_sorted(e3, "name"@, SpecJson::Text(l.name->0));
        lemma_assoc_get_set_all(e3, "name"@, SpecJson::Text(l.name->0));
        assoc_set(e3, "name"@, SpecJson::Text(l.name->0))
    } else {
        e3
    };
    let e5 = if l.title is Some {
        lemma_assoc_set_sorted(e4, "title"@, SpecJson::Text(l.title->0));
        lemma_assoc_get_set_all(e4, "title"@, SpecJson::Text(l.title->0));
        assoc_set(e4, "title"@, SpecJson::Text(l.title->0))
    } else {
        e4
    };
    let e6 = if l.profile is Some {
        lemma_assoc_set_sorted(e5, "profile"@, SpecJson::Text(l.profile->0));
        lemma_assoc_get_set_all(e5, "profile"@, SpecJson::Text(l.profile->0));
        assoc_set(e5, "profile"@, SpecJson::Text(l.profile->0))
    } else {
        e5
    };
    if l.hreflang is Some {
        lemma_assoc_set_sorted(e6, "hreflang"@, SpecJson::Text(l.hreflang->0));
        lemma_assoc_get_set_all(e6, "hreflang"@, SpecJson::Text(l.hreflang->0));
    }
    let es = link_entries(l);
    assert(assoc_get(es, "href"@) == Some(SpecJson::Text(l.href)));
    assert(get_opt_bool(es, "templated"@) == Result::<Option<bool>, HalError>::Ok(l.templated));
    assert(get_opt_text(es, "type"@) == Result::<Option<Seq<char>>, HalError>::Ok(l.media_type));
    assert(get_opt_text(es, "deprecation"@) == Result::<Option<Seq<char>>, HalError>::Ok(
        l.deprecation,
    ));
    assert(get_opt_text(es, "name"@) == Result::<Option<Seq<char>>, HalError>::Ok(l.name));
    assert(get_opt_text(es, "title"@) == Result::<Option<Seq<char>>, HalError>::Ok(l.title));
    assert(get_opt_text(es, "profile"@) == Result::<Option<Seq<char>>, HalError>::Ok(l.profile));
    assert(get_opt_text(es, "hreflang"@) == Result::<Option<Seq<char>>, HalError>::Ok(
        l.hreflang,
    ));
    assert(link_from_json(link_to_json(l))->Ok_0 =~= l);
}

} // verus!
