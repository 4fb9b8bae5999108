//! Concrete checks of the format's stated properties: the link round
//! trip, the singular/plural collapse and its curies exception, empty
//! section omission, key ordering, and each reconstruction error.

use hal::json::Json;
use hal::link::Link;
use hal::resource::Resource;
use hal::state::{HalObject, HalState, ToHalState};
use hal::HalError;

#[test]
fn round_trip_bare_link() {
    let link = Link::new("/orders");
    assert_eq!(Link::from_json(&link.to_json()).unwrap(), Link::new("/orders"));
}

#[test]
fn round_trip_full_link() {
    let make = || {
        Link::new("https://example.org/a")
            .templated(false)
            .media_type("application/json")
            .deprecation("https://example.org/old")
            .name("a")
            .title("A")
            .profile("https://example.org/prof")
            .hreflang("de")
    };
    assert_eq!(Link::from_json(&make().to_json()).unwrap(), make());
}

fn links_section(doc: &Json) -> Vec<(String, Json)> {
    match doc {
        Json::Object(es) => match es.iter().find(|kv| kv.0 == "_links") {
            Some(kv) => match &kv.1 {
                Json::Object(ls) => ls.iter().map(|kv| (kv.0.clone(), clone_json(&kv.1))).collect(),
                _ => panic!("_links is not an object"),
            },
            None => panic!("no _links section"),
        },
        _ => panic!("document is not an object"),
    }
}

fn clone_json(j: &Json) -> Json {
    match j {
        Json::I64(v) => Json::I64(*v),
        Json::U64(v) => Json::U64(*v),
        Json::F64(bits) => Json::F64(*bits),
        Json::Text(s) => Json::Text(s.clone()),
        Json::Boolean(b) => Json::Boolean(*b),
        Json::Null => Json::Null,
        Json::Array(items) => Json::Array(items.iter().map(clone_json).collect()),
        Json::Object(es) => {
            Json::Object(es.iter().map(|kv| (kv.0.clone(), clone_json(&kv.1))).collect())
        },
    }
}

#[test]
fn one_link_collapses_to_object() {
    let hal = Resource::new().add_link("orders", Link::new("/orders/1"));
    let ls = links_section(&hal.to_json());
    assert_eq!(ls.len(), 1);
    assert_eq!(ls[0].0, "orders");
    assert!(matches!(ls[0].1, Json::Object(_)));
}

#[test]
fn second_link_turns_the_relation_into_an_array() {
    let hal = Resource::new()
        .add_link("orders", Link::new("/orders/1"))
        .add_link("orders", Link::new("/orders/2"));
    let ls = links_section(&hal.to_json());
    assert_eq!(ls.len(), 1);
    assert_eq!(ls[0].0, "orders");
    match &ls[0].1 {
        Json::Array(items) => {
            assert_eq!(items.len(), 2);
            assert_eq!(items[0], Link::new("/orders/1").to_json());
            assert_eq!(items[1], Link::new("/orders/2").to_json());
        },
        _ => panic!("expected an array"),
    }
}

#[test]
fn single_curie_stays_an_array() {
    let hal = Resource::new().add_curie("ea", "http://example.com/docs/rels/{rel}");
    let ls = links_section(&hal.to_json());
    assert_eq!(ls.len(), 1);
    assert_eq!(ls[0].0, "curies");
    match &ls[0].1 {
        Json::Array(items) => assert_eq!(items.len(), 1),
        _ => panic!("expected an array"),
    }
}

#[test]
fn empty_resource_serializes_to_empty_object() {
    assert_eq!(Resource::new().to_json(), Json::Object(vec![]));
}

#[test]
fn state_keys_come_out_sorted() {
    let hal = Resource::new().add_state("b", 1i64).add_state("a", 2i64).add_state("c", 3i64);
    match hal.to_json() {
        Json::Object(es) => {
            let keys: Vec<String> = es.iter().map(|kv| kv.0.clone()).collect();
            assert_eq!(keys, vec!["a".to_string(), "b".to_string(), "c".to_string()]);
            assert_eq!(es[0].1, Json::I64(2));
            assert_eq!(es[1].1, Json::I64(1));
            assert_eq!(es[2].1, Json::I64(3));
        },
        _ => panic!("document is not an object"),
    }
}

#[test]
fn embedded_children_keep_insertion_order() {
    let hal = Resource::new()
        .add_resource("item", Resource::new().add_state("n", 1i64))
        .add_resource("item", Resource::new().add_state("n", 2i64));
    match hal.to_json() {
        Json::Object(es) => {
            assert_eq!(es.len(), 1);
            assert_eq!(es[0].0, "_embedded");
            match &es[0].1 {
                Json::Object(rels) => {
                    assert_eq!(rels.len(), 1);
                    assert_eq!(rels[0].0, "item");
                    match &rels[0].1 {
                        Json::Array(items) => {
                            assert_eq!(items.len(), 2);
                            assert_eq!(
                                *items.get(0).unwrap(),
                                Resource::new().add_state("n", 1i64).to_json()
                            );
                            assert_eq!(
                                *items.get(1).unwrap(),
                                Resource::new().add_state("n", 2i64).to_json()
                            );
                        },
                        _ => panic!("expected an array of children"),
                    }
                },
                _ => panic!("_embedded is not an object"),
            }
        },
        _ => panic!("document is not an object"),
    }
}

#[test]
fn one_embedded_child_collapses_to_object() {
    let hal = Resource::new().add_resource("item", Resource::new().add_state("n", 1i64));
    match hal.to_json() {
        Json::Object(es) => match &es[0].1 {
            Json::Object(rels) => {
                assert!(matches!(rels[0].1, Json::Object(_)));
            },
            _ => panic!("_embedded is not an object"),
        },
        _ => panic!("document is not an object"),
    }
}

#[test]
fn list_state_value_serializes_in_order() {
    let hal = Resource::new().add_state("friends", vec!["Mary", "Timmy"]);
    match hal.to_json() {
        Json::Object(es) => {
            assert_eq!(es[0].0, "friends");
            assert_eq!(
                es[0].1,
                Json::Array(vec![
                    Json::Text("Mary".to_string()),
                    Json::Text("Timmy".to_string()),
                ])
            );
        },
        _ => panic!("document is not an object"),
    }
}

#[test]
fn object_state_value_serializes_key_sorted() {
    let fullname = HalObject::new().insert("given", "John").insert("family", "Doe");
    let hal = Resource::new().add_state("fullname", fullname);
    match hal.to_json() {
        Json::Object(es) => {
            assert_eq!(es[0].0, "fullname");
            assert_eq!(
                es[0].1,
                Json::Object(vec![
                    ("family".to_string(), Json::Text("Doe".to_string())),
                    ("given".to_string(), Json::Text("John".to_string())),
                ])
            );
        },
        _ => panic!("document is not an object"),
    }
}

#[test]
fn repeated_state_key_overwrites() {
    let a = Resource::new().add_state("x", 1i64).add_state("x", 2i64);
    let b = Resource::new().add_state("x", 2i64);
    assert_eq!(a, b);
}

#[test]
fn float_bits_survive_the_round_trip() {
    let bits = (0.1f64).to_bits();
    let hal = Resource::new().add_state("v", HalState::F64(bits));
    let back = Resource::from_json(hal.to_json()).unwrap();
    assert_eq!(back, hal);
}

#[test]
fn link_without_href_is_missing_required_field() {
    let json = Json::Object(vec![]);
    assert_eq!(Link::from_json(&json), Err(HalError::MissingRequiredField));
}

#[test]
fn link_from_non_object_is_missing_required_field() {
    assert_eq!(Link::from_json(&Json::Null), Err(HalError::MissingRequiredField));
}

#[test]
fn link_with_non_string_href_is_type_mismatch() {
    let json = Json::Object(vec![("href".to_string(), Json::I64(1))]);
    assert_eq!(Link::from_json(&json), Err(HalError::TypeMismatch));
}

#[test]
fn link_with_non_boolean_templated_is_type_mismatch() {
    let json = Json::Object(vec![
        ("href".to_string(), Json::Text("/a".to_string())),
        ("templated".to_string(), Json::Text("yes".to_string())),
    ]);
    assert_eq!(Link::from_json(&json), Err(HalError::TypeMismatch));
}

#[test]
fn resource_with_non_object_links_is_type_mismatch() {
    let json = Json::Object(vec![("_links".to_string(), Json::I64(3))]);
    assert_eq!(Resource::from_json(json), Err(HalError::TypeMismatch));
}

#[test]
fn resource_from_non_object_is_empty() {
    assert_eq!(Resource::from_json(Json::Null).unwrap(), Resource::new());
}

#[test]
fn reconstruction_accepts_the_array_link_form() {
    let hal = Resource::new()
        .add_link("orders", Link::new("/orders/1"))
        .add_link("orders", Link::new("/orders/2"));
    let back = Resource::from_json(hal.to_json()).unwrap();
    assert_eq!(back, hal);
}

#[test]
fn option_collapse_for_strings() {
    assert_eq!(Some("x".to_string()).to_hal_state(), HalState::HalString("x".to_string()));
    assert_eq!(None::<String>.to_hal_state(), HalState::Null);
}
