use axum::http::{HeaderMap, HeaderName, HeaderValue};
use failover_proxy::body::{replace_model, rewrite_model};
use failover_proxy::headers::{
    checked_relay_headers, checked_strip_auth_headers, relay_headers, strip_auth_headers, MAX_NAMES,
};
use failover_proxy::table::Table;

fn ids() -> Table<String> {
    let mut map: Table<String> = Table::new();
    map.insert("opus".to_string(), "up/opus".to_string());
    map
}

fn headers(fields: &[(&str, &str)]) -> HeaderMap<HeaderValue> {
    let mut out = HeaderMap::new();
    for (name, value) in fields {
        out.append(
            HeaderName::from_bytes(name.as_bytes()).unwrap(),
            HeaderValue::from_str(value).unwrap(),
        );
    }
    out
}

#[test]
fn model_ids_are_translated() {
    let body = b"{\"max_tokens\": 5, \"model\": \"opus\", \"a\": [1.5, null]}";
    let out = rewrite_model(body, &ids());
    assert_eq!(out, b"{\"a\":[1.5,null],\"max_tokens\":5,\"model\":\"up/opus\"}".to_vec());
    assert_eq!(rewrite_model(&out, &ids()), out);
}

#[test]
fn other_bodies_stay_as_they_are() {
    let bodies: [&[u8]; 7] = [
        b"",
        b"not json",
        b"{ \"model\": \"sonnet\" }",
        b"{ \"model\": 3 }",
        b"{ \"x\": 1 }",
        b"[ \"model\" ]",
        b"{\"model\": \"opus\"",
    ];
    for body in bodies {
        assert_eq!(rewrite_model(body, &ids()), body.to_vec());
    }
    let mapped = b"{ \"model\": \"opus\" }";
    assert_eq!(rewrite_model(mapped, &Table::new()), mapped.to_vec());
}

#[test]
fn parsed_requests_change_their_model_alone() {
    let mut request: serde_json::Value =
        serde_json::from_str("{\"model\":\"opus\",\"m\":{\"model\":\"opus\"}}").unwrap();
    assert!(replace_model(&mut request, &ids()));
    assert_eq!(request["model"].as_str(), Some("up/opus"));
    assert_eq!(request["m"]["model"].as_str(), Some("opus"));
    assert!(!replace_model(&mut request, &ids()));
    let mut list = serde_json::Value::Array(vec![]);
    assert!(!replace_model(&mut list, &ids()));
}

#[test]
fn credentials_of_the_client_are_stripped() {
    let input = headers(&[
        ("Authorization", "Bearer client"),
        ("x-api-key", "k"),
        ("Host", "h"),
        ("Transfer-Encoding", "chunked"),
        ("Content-Length", "3"),
        ("content-type", "application/json"),
        ("x-authorization", "kept"),
    ]);
    let out = strip_auth_headers(&input);
    assert_eq!(out, headers(&[("content-type", "application/json"), ("x-authorization", "kept")]));
    assert_eq!(strip_auth_headers(&out), out);
    assert_eq!(checked_strip_auth_headers(&input), Some(out));
}

#[test]
fn repeated_fields_keep_their_last_value() {
    let input = headers(&[("accept", "a"), ("x", "1"), ("accept", "b"), ("accept", "c")]);
    assert_eq!(strip_auth_headers(&input), headers(&[("accept", "c"), ("x", "1")]));
    assert_eq!(relay_headers(&input), headers(&[("accept", "c"), ("x", "1")]));
}

#[test]
fn replies_lose_their_transfer_encoding() {
    let mut input = headers(&[
        ("transfer-encoding", "chunked"),
        ("content-length", "3"),
        ("set-cookie", "a=1"),
    ]);
    input.insert(
        HeaderName::from_lowercase(b"odd\"name").unwrap(),
        HeaderValue::from_static("dropped"),
    );
    let out = relay_headers(&input);
    assert_eq!(out, headers(&[("content-length", "3"), ("set-cookie", "a=1")]));
    assert_eq!(relay_headers(&out), out);
    assert_eq!(checked_relay_headers(&input), Some(out));
}

#[test]
fn oversized_header_maps_are_refused() {
    let mut input = HeaderMap::new();
    for i in 0..MAX_NAMES {
        let name = format!("x-{i}");
        input.insert(HeaderName::from_bytes(name.as_bytes()).unwrap(), HeaderValue::from_static("v"));
    }
    assert_eq!(checked_relay_headers(&input).unwrap().len(), MAX_NAMES);
    input.insert(HeaderName::from_static("one-more"), HeaderValue::from_static("v"));
    assert!(checked_relay_headers(&input).is_none());
    assert!(checked_strip_auth_headers(&input).is_none());
}

#[test]
fn withheld_fields_make_no_difference() {
    let a = headers(&[("authorization", "x"), ("accept", "a"), ("content-length", "3")]);
    let b = headers(&[("x-api-key", "y"), ("host", "h"), ("accept", "a")]);
    assert_eq!(strip_auth_headers(&a), strip_auth_headers(&b));
}

#[test]
fn long_names_that_are_not_valid_are_dropped() {
    const LONG: &str = "a-name-that-is-too-long-for-a-check-and-holds-a character-that-is-not-valid-in-it";
    let mut input = headers(&[("set-cookie", "a=1")]);
    input.insert(LONG, HeaderValue::from_static("v"));
    assert_eq!(input.len(), 2);
    assert!(input.keys().any(|name| name.as_str().contains('\0')));
    let kept = headers(&[("set-cookie", "a=1")]);
    assert_eq!(relay_headers(&input), kept);
    assert_eq!(checked_relay_headers(&input), Some(kept));
    assert_eq!(strip_auth_headers(&input).len(), 2);
}

#[test]
fn deep_bodies_stay_as_they_are() {
    let arrays = |n: usize| "[".repeat(n) + &"]".repeat(n);
    let body = |n: usize| format!("{{\"model\":\"opus\",\"a\":{}}}", arrays(n)).into_bytes();
    assert_eq!(rewrite_model(&body(200_000), &ids()), body(200_000));
    assert_eq!(rewrite_model(&body(128), &ids()), body(128));
    let rewritten = format!("{{\"a\":{},\"model\":\"up/opus\"}}", arrays(100)).into_bytes();
    assert_eq!(rewrite_model(&body(100), &ids()), rewritten);
}

#[test]
fn no_member_is_read_as_json_of_its_own() {
    let body = b"{\"$serde_json::private::RawValue\":\"{\\\"model\\\":\\\"opus\\\"}\"}";
    assert_eq!(rewrite_model(body, &ids()), body.to_vec());
}
