//! The builder API rendered to compact JSON text, with integral
//! floats printed without a decimal point.

use hal::json::Json;
use hal::link::Link;
use hal::resource::Resource;
use hal::state::{HalState, ToHalState};
use hal::ToHal;

fn render_string(s: &str) -> String {
    let mut out = String::from("\"");
    for c in s.chars() {
        match c {
            '"' => out.push_str("\\\""),
            '\\' => out.push_str("\\\\"),
            '\n' => out.push_str("\\n"),
            '\r' => out.push_str("\\r"),
            '\t' => out.push_str("\\t"),
            c if (c as u32) < 0x20 => out.push_str(&format!("\\u{:04x}", c as u32)),
            c => out.push(c),
        }
    }
    out.push('"');
    out
}

fn render(j: &Json) -> String {
    match j {
        Json::I64(v) => format!("{}", v),
        Json::U64(v) => format!("{}", v),
        Json::F64(bits) => {
            let f = f64::from_bits(*bits);
            if f.is_nan() || f.is_infinite() {
                "null".to_string()
            } else {
                format!("{}", f)
            }
        },
        Json::Text(s) => render_string(s),
        Json::Boolean(b) => {
            if *b {
                "true".to_string()
            } else {
                "false".to_string()
            }
        },
        Json::Null => "null".to_string(),
        Json::Array(items) => {
            let mut out = String::from("[");
            for (i, it) in items.iter().enumerate() {
                if i > 0 {
                    out.push(',');
                }
                out.push_str(&render(it));
            }
            out.push(']');
            out
        },
        Json::Object(es) => {
            let mut out = String::from("{");
            for (i, kv) in es.iter().enumerate() {
                if i > 0 {
                    out.push(',');
                }
                out.push_str(&render_string(&kv.0));
                out.push(':');
                out.push_str(&render(&kv.1));
            }
            out.push('}');
            out
        },
    }
}

struct Order {
    total: f64,
    currency: String,
    status: String,
}

impl ToHal for Order {
    fn to_hal(self) -> Resource {
        Resource::with_self("https://www.example.com/orders/1")
            .add_state("total", HalState::F64(self.total.to_bits()))
            .add_state("currency", self.currency.to_hal_state())
            .add_state("status", self.status.to_hal_state())
    }
}

#[test]
fn tests_link_new() {
    let link = Link::new("https://www.example.com");

    let output = r#"{"href":"https://www.example.com"}"#;
    assert_eq!(render(&link.to_json()), output.to_owned());
}

#[test]
fn tests_link_attributes() {
    let link = Link::new("https://www.example.com")
        .templated(true)
        .deprecation("https://www.example.com/newer")
        .media_type("text/html")
        .name("example")
        .title("An example link")
        .profile("http://tools.ietf.org/html/draft-wilde-profile-link-04")
        .hreflang("en");

    let output = r#"{"deprecation":"https://www.example.com/newer","href":"https://www.example.com","hreflang":"en","name":"example","profile":"http://tools.ietf.org/html/draft-wilde-profile-link-04","templated":true,"title":"An example link","type":"text/html"}"#;
    assert_eq!(render(&link.to_json()), output.to_owned());
}

#[test]
fn tests_hal_add_resource() {
    let hal = Resource::new();
    hal.add_resource("orders", Resource::new());
}

#[test]
fn tests_hal_new() {
    let hal = Resource::new();

    let output = r#"{}"#;
    assert_eq!(render(&hal.to_json()), output.to_owned());
}

#[test]
fn tests_hal_with_self() {
    let hal = Resource::with_self("https://www.example.com");

    let output = r#"{"_links":{"self":{"href":"https://www.example.com"}}}"#;
    assert_eq!(render(&hal.to_json()), output.to_owned());
}

#[test]
fn tests_hal_with_self_and_link() {
    let output = r#"{"_links":{"orders":{"href":"https://www.example.com/orders"},"self":{"href":"https://www.example.com"}}}"#;
    let hal = Resource::with_self("https://www.example.com")
        .add_link("orders", Link::new("https://www.example.com/orders"));
    assert_eq!(render(&hal.to_json()), output.to_owned());
}

#[test]
fn tests_hal_with_self_and_two_links() {
    let hal = Resource::with_self("https://www.example.com")
        .add_link("orders", Link::new("https://www.example.com/orders/1"))
        .add_link("orders", Link::new("https://www.example.com/orders/2"));

    let output = r#"{"_links":{"orders":[{"href":"https://www.example.com/orders/1"},{"href":"https://www.example.com/orders/2"}],"self":{"href":"https://www.example.com"}}}"#;
    assert_eq!(render(&hal.to_json()), output.to_owned());
}

#[test]
fn tests_hal_and_add_curie() {
    let hal = Resource::with_self("https://www.example.com")
        .add_curie("ea", "http://example.com/docs/rels/{rel}");

    let output = r#"{"_links":{"curies":[{"href":"http://example.com/docs/rels/{rel}","name":"ea","templated":true}],"self":{"href":"https://www.example.com"}}}"#;
    assert_eq!(render(&hal.to_json()), output.to_owned());
}

#[test]
fn tests_hal_add_state() {
    let hal = Resource::new()
        .add_state("currentlyProcessing", (14 as isize).to_hal_state())
        .add_state("currency", "USD".to_owned().to_hal_state())
        .add_state("active", true.to_hal_state())
        .add_state("errors", ().to_hal_state());

    let output = r#"{"active":true,"currency":"USD","currentlyProcessing":14,"errors":null}"#;
    assert_eq!(render(&hal.to_json()), output.to_owned());
}

#[test]
fn tests_hal_spec() {
    let hal = Resource::with_self("/orders")
        .add_curie("ea", "http://example.com/docs/rels/{rel}")
        .add_link("next", Link::new("/orders?page=2"))
        .add_link("ea:find", Link::new("/orders{?id}").templated(true))
        .add_link("ea:admin", Link::new("/admins/2").title("Fred"))
        .add_link("ea:admin", Link::new("/admins/5").title("Kate"))
        .add_state("currentlyProcessing", (14 as isize).to_hal_state())
        .add_state("shippedToday", (14 as isize).to_hal_state())
        .add_resource(
            "ea:order",
            Resource::with_self("/orders/123")
                .add_link("ea:basket", Link::new("/baskets/98712"))
                .add_link("ea:customer", Link::new("/customers/7809"))
                .add_state("total", HalState::F64((30.00 as f64).to_bits()))
                .add_state("currency", "USD".to_owned().to_hal_state())
                .add_state("status", "shipped".to_owned().to_hal_state()),
        )
        .add_resource(
            "ea:order",
            Resource::with_self("/orders/124")
                .add_link("ea:basket", Link::new("/baskets/97213"))
                .add_link("ea:customer", Link::new("/customers/12369"))
                .add_state("total", HalState::F64((20.00 as f64).to_bits()))
                .add_state("currency", "USD".to_owned().to_hal_state())
                .add_state("status", "processing".to_owned().to_hal_state()),
        );

    let output = r#"{"_embedded":{"ea:order":[{"_links":{"ea:basket":{"href":"/baskets/98712"},"ea:customer":{"href":"/customers/7809"},"self":{"href":"/orders/123"}},"currency":"USD","status":"shipped","total":30},{"_links":{"ea:basket":{"href":"/baskets/97213"},"ea:customer":{"href":"/customers/12369"},"self":{"href":"/orders/124"}},"currency":"USD","status":"processing","total":20}]},"_links":{"curies":[{"href":"http://example.com/docs/rels/{rel}","name":"ea","templated":true}],"ea:admin":[{"href":"/admins/2","title":"Fred"},{"href":"/admins/5","title":"Kate"}],"ea:find":{"href":"/orders{?id}","templated":true},"next":{"href":"/orders?page=2"},"self":{"href":"/orders"}},"currentlyProcessing":14,"shippedToday":14}"#;
    assert_eq!(render(&hal.to_json()), output.to_owned());
}

#[test]
fn tests_order_to_hal() {
    let order = Order {
        total: 20.00 as f64,
        currency: String::from("USD"),
        status: String::from("processing"),
    };

    let output = r#"{"_links":{"self":{"href":"https://www.example.com/orders/1"}},"currency":"USD","status":"processing","total":20}"#;
    assert_eq!(render(&order.to_hal().to_json()), output.to_owned());
}

#[test]
fn tests_list_to_hal_state() {
    let friends = vec!["Mary", "Timmy", "Sally", "Wally"];

    let hal = Resource::with_self("/user/1").add_state("friends", friends.to_hal_state());

    let output = r#"{"_links":{"self":{"href":"/user/1"}},"friends":["Mary","Timmy","Sally","Wally"]}"#;
    assert_eq!(render(&hal.to_json()), output.to_owned());
}
