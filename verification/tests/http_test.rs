use dtbh::http::{utf8_bytes, HeaderMap, HttpResponse};

fn vals(v: &[&str]) -> Vec<String> {
    v.iter().map(|s| s.to_string()).collect()
}

#[test]
fn header_map_insert_replaces() {
    let mut h = HeaderMap::new();
    assert!(!h.contains_key("A"));
    h.insert("A".to_string(), vals(&["1"]));
    h.insert("B".to_string(), vals(&["2", "3"]));
    h.insert("A".to_string(), vals(&["4"]));
    assert_eq!(h.get("A"), Some(&vals(&["4"])));
    assert_eq!(h.get("B"), Some(&vals(&["2", "3"])));
    assert_eq!(h.get("a"), None);
    assert_eq!(h.entries().len(), 2);
    let s = HeaderMap::single("X".to_string(), vals(&["y"]));
    assert_eq!(s.entries(), &vec![("X".to_string(), vals(&["y"]))]);
}

#[test]
fn response_constructors() {
    let r = HttpResponse::ok(vec![1]);
    assert_eq!((r.status_code, r.body), (200, vec![1]));
    assert!(r.header.entries().is_empty());
    let r = HttpResponse::not_found();
    assert_eq!((r.status_code, r.body.len()), (404, 0));
    let r = HttpResponse::internal_server_error("oops");
    assert_eq!((r.status_code, r.body), (500, b"oops".to_vec()));
    assert_eq!(utf8_bytes("é"), vec![0xC3, 0xA9]);
}

#[test]
fn json_with_headers_lowers_names() {
    let mut h = HeaderMap::new();
    h.insert("X-Trace".to_string(), vals(&["1"]));
    h.insert("Content-Type".to_string(), vals(&["text/plain"]));
    let r = HttpResponse::json_with_headers("a\"b", 201, &h);
    assert_eq!(r.status_code, 201);
    assert_eq!(r.body, b"\"a\\\"b\"".to_vec());
    assert_eq!(r.header.get("x-trace"), Some(&vals(&["1"])));
    // A content type that is already there is kept.
    assert_eq!(r.header.get("content-type"), Some(&vals(&["text/plain"])));
    assert_eq!(r.header.entries().len(), 2);
    let r = HttpResponse::json_with_headers("{}", 200, &HeaderMap::new());
    assert_eq!(r.header.get("content-type"), Some(&vals(&["application/json"])));
    assert_eq!(r.body, b"\"{}\"".to_vec());
}

#[test]
fn json_bytes_is_a_number_array() {
    let r = HttpResponse::json_bytes(&[0, 7, 255], 200);
    assert_eq!(String::from_utf8(r.body).unwrap(), "[0,7,255]");
    assert_eq!(r.header.get("content-type"), Some(&vals(&["application/json"])));
    let r = HttpResponse::json_bytes(&[], 200);
    assert_eq!(String::from_utf8(r.body).unwrap(), "[]");
}

#[test]
fn json_bodies_escape_as_serde_json_does() {
    let payload = "a\u{1}\u{8}\u{c}\n\r\t\"\\/\u{1f}\u{7f}é";
    let r = HttpResponse::json_with_headers(payload, 200, &HeaderMap::new());
    assert_eq!(String::from_utf8(r.body).unwrap(), serde_json::to_string(payload).unwrap());
    let r = HttpResponse::json_with_headers(payload, 200, &HeaderMap::new());
    assert_eq!(
        String::from_utf8(r.body).unwrap(),
        "\"a\\u0001\\b\\f\\n\\r\\t\\\"\\\\/\\u001f\u{7f}é\""
    );
}
