use dtbh::gateway::{
    auth_http_response, failed_forward_response, immediate_response, auth_scope, get_jwt_from_headers, reports_http_response, reports_to_send,
    request_type, route, run_scans_requests, scan_http_response, set_jwt_cookie, sign_up_precheck,
    unauthorised_http_response, www_auth_header, Credentials, RequestType, Route, RoutedBody,
};
use dtbh::http::HeaderMap;
use dtbh::model::{GetReportsRequest, GetReportsResult, Report, ScanRequest, Timestamp};
use dtbh::surreal::{SignInResponse, SurrealDbError};

fn headers(pairs: &[(&str, &[&str])]) -> HeaderMap {
    let mut h = HeaderMap::new();
    for (name, values) in pairs {
        h.insert(name.to_string(), values.iter().map(|v| v.to_string()).collect());
    }
    h
}

fn values(h: &HeaderMap, name: &str) -> Option<Vec<String>> {
    h.get(name).cloned()
}

fn scan_request(jwt: &str) -> ScanRequest {
    ScanRequest {
        targets: vec!["www.google.com".to_string(), "www.github.com".to_string()],
        jwt: jwt.to_string(),
        user_agent_tag: None,
    }
}

fn reports_request(jwt: &str) -> GetReportsRequest {
    GetReportsRequest {
        jwt: jwt.to_string(),
        target: vec!["www.google.com".to_string()],
        start_timestamp: None,
        end_timestamp: Some(Timestamp { sec: 420, nsec: 69 }),
    }
}

fn creds(u: &str, p: &str) -> Credentials {
    Credentials { username: u.to_string(), password: p.to_string() }
}

#[test]
fn token_from_cookie() {
    let h = headers(&[("Cookie", &["theme=dark", "jwt=abc.def"])]);
    assert_eq!(get_jwt_from_headers(&h), Some("abc.def".to_string()));
    // Repeated prefixes are all removed.
    let h = headers(&[("Cookie", &["jwt=jwt=abc"])]);
    assert_eq!(get_jwt_from_headers(&h), Some("abc".to_string()));
    // A value that only mentions the prefix further in is taken as it is.
    let h = headers(&[("Cookie", &["xjwt=abc"])]);
    assert_eq!(get_jwt_from_headers(&h), Some("xjwt=abc".to_string()));
}

#[test]
fn token_from_bearer_header() {
    let h = headers(&[("Authorization", &["Bearer tok123"])]);
    assert_eq!(get_jwt_from_headers(&h), Some("tok123".to_string()));
    // Cookies win over the authorization header.
    let h = headers(&[("Authorization", &["Bearer b"]), ("Cookie", &["jwt=c"])]);
    assert_eq!(get_jwt_from_headers(&h), Some("c".to_string()));
    // A cookie header without the token falls back to the bearer token.
    let h = headers(&[("Cookie", &["a=b"]), ("Authorization", &["Bearer b"])]);
    assert_eq!(get_jwt_from_headers(&h), Some("b".to_string()));
}

#[test]
fn no_token() {
    assert_eq!(get_jwt_from_headers(&HeaderMap::new()), None);
    let h = headers(&[("Authorization", &["Basic dXNlcjpwYXNz"])]);
    assert_eq!(get_jwt_from_headers(&h), None);
    let h = headers(&[("Authorization", &[])]);
    assert_eq!(get_jwt_from_headers(&h), None);
    // Header names are matched exactly.
    let h = headers(&[("authorization", &["Bearer x"])]);
    assert_eq!(get_jwt_from_headers(&h), None);
}

#[test]
fn cookie_set_by_gateway_authenticates() {
    let set = set_jwt_cookie("tok".to_string());
    let cookie = values(&set, "Set-Cookie").unwrap();
    assert_eq!(cookie, vec!["jwt=tok", "Secure", "HttpOnly", "SameSite=Strict"]);
    let back = headers(&[("Cookie", &[cookie[0].as_str()])]);
    assert_eq!(get_jwt_from_headers(&back), Some("tok".to_string()));
}

#[test]
fn unauthorised_response_challenges() {
    let r = unauthorised_http_response(None);
    assert_eq!(r.status_code, 401);
    assert!(r.body.is_empty());
    assert_eq!(values(&r.header, "WWW-Authenticate"), Some(vec!["Bearer scope=\"user_scope\"".to_string()]));
    let r = unauthorised_http_response(Some(b"x".to_vec()));
    assert_eq!(r.body, b"x".to_vec());
    assert_eq!(r.header.entries().len(), 1);
    assert_eq!(www_auth_header().entries().len(), 1);
}

#[test]
fn routes() {
    assert_eq!(route("post", "/scan"), Route::Scan);
    assert_eq!(route("POST", " /scan/ "), Route::Scan);
    assert_eq!(route("post", "/reports"), Route::Reports);
    assert_eq!(
        route("get", "/reports"),
        Route::Invalid { method: "GET".to_string(), path: "reports".to_string() }
    );
    assert_eq!(route("Post", "sign_in"), Route::SignIn);
    assert_eq!(route("post", "/sign_up/"), Route::SignUp);
    assert_eq!(
        route("get", "/scan"),
        Route::Invalid { method: "GET".to_string(), path: "scan".to_string() }
    );
    assert_eq!(
        route("postsdfs", "/invalid_path"),
        Route::Invalid { method: "POSTSDFS".to_string(), path: "invalid_path".to_string() }
    );
}

/// The outcome of reading a body as a scan request: the fields a scan
/// request needs (`targets` and `jwt`) must be there with their types.
fn parse_scan(body: &[u8]) -> Result<ScanRequest, String> {
    let v: serde_json::Value = serde_json::from_slice(body).map_err(|e| e.to_string())?;
    let targets = v["targets"].as_array().ok_or("missing field `targets`")?;
    let jwt = v["jwt"].as_str().ok_or("missing field `jwt`")?;
    Ok(ScanRequest {
        targets: targets.iter().map(|t| t.as_str().unwrap_or_default().to_string()).collect(),
        jwt: jwt.to_string(),
        user_agent_tag: v["user_agent_tag"].as_str().map(|t| t.to_string()),
    })
}

/// The outcome of reading a body as a reports request: `jwt` and `target`
/// must be there.
fn parse_reports(body: &[u8]) -> Result<GetReportsRequest, String> {
    let v: serde_json::Value = serde_json::from_slice(body).map_err(|e| e.to_string())?;
    let target = v["target"].as_array().ok_or("missing field `target`")?;
    let jwt = v["jwt"].as_str().ok_or("missing field `jwt`")?;
    Ok(GetReportsRequest {
        jwt: jwt.to_string(),
        target: target.iter().map(|t| t.as_str().unwrap_or_default().to_string()).collect(),
        start_timestamp: None,
        end_timestamp: None,
    })
}

fn routed(method: &str, path: &str, body: &[u8]) -> RoutedBody {
    match route(method, path) {
        Route::Scan => RoutedBody::Scan(parse_scan(body)),
        Route::Reports => RoutedBody::Reports(parse_reports(body)),
        Route::SignIn | Route::SignUp => panic!("not used here"),
        Route::Invalid { method, path } => RoutedBody::Unrouted { method, path },
    }
}

#[test]
fn test_parse_req_type_invalid() {
    let scan_body = b"{\"targets\":[\"www.google.com\",\"www.github.com\",\"www.cosmonic.com\"],\"jwt\":\"test\",\"user_agent_tag\":null}";
    let reports_body = b"{\"jwt\":\"test\",\"target\":[\"www.google.com\"],\"start_timestamp\":null,\"end_timestamp\":{\"sec\":420,\"nsec\":69}}";
    let invalid_http_requests: Vec<(&str, &str, &[u8])> = vec![
        ("post", "/scan", reports_body),
        ("get", "/scan", scan_body),
        ("post", "/reports", scan_body),
        ("post", "/reports", scan_body),
        ("postsdfs", "/invalid_path", scan_body),
    ];
    let none = HeaderMap::new();
    for (m, p, body) in invalid_http_requests {
        match request_type(routed(m, p, body), &none) {
            RequestType::Invalid(_) => {}
            _ => panic!("{m} {p}"),
        }
    }
    // The same bodies on their own routes are accepted.
    assert!(matches!(request_type(routed("post", "/scan", scan_body), &none), RequestType::Scan(_)));
    assert!(matches!(
        request_type(routed("post", "/reports", reports_body), &none),
        RequestType::GetReports(_)
    ));
}

#[test]
fn request_types_prefer_the_header_token() {
    let h = headers(&[("Authorization", &["Bearer real"])]);
    match request_type(RoutedBody::Scan(Ok(scan_request("body"))), &h) {
        RequestType::Scan(r) => assert_eq!(r, scan_request("real")),
        _ => panic!(),
    }
    match request_type(RoutedBody::Reports(Ok(reports_request("body"))), &h) {
        RequestType::GetReports(r) => assert_eq!(r, reports_request("real")),
        _ => panic!(),
    }
    // Without a token in the headers, the body's token is kept.
    let none = HeaderMap::new();
    match request_type(RoutedBody::Scan(Ok(scan_request("body"))), &none) {
        RequestType::Scan(r) => assert_eq!(r, scan_request("body")),
        _ => panic!(),
    }
    match request_type(RoutedBody::Reports(Ok(reports_request("body"))), &none) {
        RequestType::GetReports(r) => assert_eq!(r, reports_request("body")),
        _ => panic!(),
    }
    // Without a token in either place, the request is refused.
    assert!(matches!(
        request_type(RoutedBody::Scan(Ok(scan_request(""))), &none),
        RequestType::Unauthorised
    ));
    assert!(matches!(
        request_type(RoutedBody::Reports(Ok(reports_request(""))), &none),
        RequestType::Unauthorised
    ));
}

#[test]
fn test_parse_req_type_scan() {
    let valid_scan_req = ScanRequest {
        targets: vec!["www.google.com", "www.github.com", "www.cosmonic.com"]
            .into_iter()
            .map(|s| s.to_string())
            .collect(),
        jwt: "test".to_string(),
        user_agent_tag: None,
    };
    assert_eq!(route("post", "/scan"), Route::Scan);
    let parsed_req = request_type(RoutedBody::Scan(Ok(valid_scan_req.clone())), &HeaderMap::new());
    if let RequestType::Scan(req) = parsed_req {
        assert_eq!(valid_scan_req, req);
    } else {
        panic!();
    }
}

#[test]
fn test_parse_req_type_get_reports() {
    let valid_get_reports_req = GetReportsRequest {
        jwt: "test".to_string(),
        target: vec!["www.google.com".to_string()],
        start_timestamp: None,
        end_timestamp: Some(Timestamp { sec: 420, nsec: 69 }),
    };
    assert_eq!(route("post", "/reports"), Route::Reports);
    let parsed_req =
        request_type(RoutedBody::Reports(Ok(valid_get_reports_req.clone())), &HeaderMap::new());
    if let RequestType::GetReports(req) = parsed_req {
        assert_eq!(valid_get_reports_req, req);
    } else {
        panic!();
    }
}

#[test]
fn request_type_messages() {
    let none = HeaderMap::new();
    let msg = |b: RoutedBody| match request_type(b, &none) {
        RequestType::Invalid(m) => m,
        _ => panic!(),
    };
    assert_eq!(msg(RoutedBody::Scan(Err("e1".to_string()))), "Invalid body for scan request: e1");
    assert_eq!(
        msg(RoutedBody::Reports(Err("e2".to_string()))),
        "Invalid body for reports request: e2"
    );
    assert_eq!(
        msg(RoutedBody::SignIn(Err("e3".to_string()))),
        "Invalid body for sign_in request: e3"
    );
    assert_eq!(
        msg(RoutedBody::SignUp(Err("e4".to_string()))),
        "Invalid body for sign_up request: e4"
    );
    assert_eq!(
        msg(RoutedBody::Unrouted { method: "PUT".to_string(), path: "x".to_string() }),
        "Invalid method or path PUT: x"
    );
    match request_type(RoutedBody::SignIn(Ok(creds("u", "p"))), &none) {
        RequestType::SignIn(c) => assert_eq!(c, creds("u", "p")),
        _ => panic!(),
    }
    match request_type(RoutedBody::SignUp(Ok(creds("u", "p"))), &none) {
        RequestType::SignUp(c) => assert_eq!(c, creds("u", "p")),
        _ => panic!(),
    }
}

#[test]
fn auth_scope_is_user_scope() {
    let s = auth_scope(creds("alice", "pw"));
    assert_eq!(s.scope_name, Some("user_scope".to_string()));
    assert_eq!(s.database, None);
    assert_eq!(s.namespace, None);
    let a = s.auth_params.unwrap();
    assert_eq!(a.username, Some("alice".to_string()));
    assert_eq!(a.password, Some("pw".to_string()));
    assert_eq!(a.jwt, None);
}

#[test]
fn sign_in_success_sets_cookie() {
    let r = auth_http_response(Ok(SignInResponse {
        success: true,
        jwt: Some("tok".to_string()),
        error: None,
    }));
    assert_eq!(r.status_code, 200);
    assert_eq!(r.body, b"\"{}\"".to_vec());
    assert_eq!(
        values(&r.header, "set-cookie"),
        Some(vec![
            "jwt=tok".to_string(),
            "Secure".to_string(),
            "HttpOnly".to_string(),
            "SameSite=Strict".to_string()
        ])
    );
    assert_eq!(values(&r.header, "content-type"), Some(vec!["application/json".to_string()]));
    assert_eq!(r.header.entries().len(), 2);
}

#[test]
fn sign_in_failures() {
    let err = |name: &str| SurrealDbError { message: "m".to_string(), name: name.to_string() };
    let r = auth_http_response(Ok(SignInResponse {
        success: false,
        jwt: None,
        error: Some(err("SIGNIN_ERROR")),
    }));
    assert_eq!(r.status_code, 401);
    assert!(r.body.is_empty());
    assert!(r.header.contains_key("WWW-Authenticate"));
    let r = auth_http_response(Ok(SignInResponse {
        success: false,
        jwt: None,
        error: Some(err("OTHER")),
    }));
    assert_eq!(r.status_code, 500);
    assert_eq!(r.body, b"Something went wrong".to_vec());
    // Success without a token, and no error either.
    let r = auth_http_response(Ok(SignInResponse { success: true, jwt: None, error: None }));
    assert_eq!(r.status_code, 500);
    assert_eq!(r.body, b"Something went terribly wrong".to_vec());
    let r = auth_http_response(Err("unreachable".to_string()));
    assert_eq!(r.status_code, 500);
    assert_eq!(r.body, b"Something went wrong".to_vec());
}

#[test]
fn sign_up_needs_both_credentials() {
    let r = sign_up_precheck(&creds("", "pw")).unwrap();
    assert_eq!(r.status_code, 401);
    assert_eq!(r.body, b"{\"msg\":\"username or password is empty\"}".to_vec());
    assert!(sign_up_precheck(&creds("u", "")).is_some());
    assert!(sign_up_precheck(&creds("u", "p")).is_none());
}

#[test]
fn scans_start_one_per_target() {
    let reqs = run_scans_requests(&scan_request("j"));
    assert_eq!(reqs.len(), 2);
    assert_eq!(reqs[0].target, "www.google.com");
    assert_eq!(reqs[1].target, "www.github.com");
    assert!(reqs.iter().all(|r| r.jwt == "j"));
}

#[test]
fn scan_response_lists_failures() {
    let targets = vec!["a.com".to_string(), "b.com".to_string(), "c.com".to_string()];
    let ok = scan_http_response(&targets, &vec![true, true, true]);
    assert_eq!(ok.status_code, 200);
    assert!(ok.body.is_empty());
    let bad = scan_http_response(&targets, &vec![true, false]);
    assert_eq!(bad.status_code, 500);
    assert_eq!(
        String::from_utf8(bad.body).unwrap(),
        "The following targets failed to begin scanning:\n\tb.com\n\tc.com"
    );
}

#[test]
fn reports_answers() {
    let report = Report {
        subdomains: vec![],
        target: "t".to_string(),
        timestamp: Timestamp { sec: 1, nsec: 0 },
        user_id: "u".to_string(),
    };
    let ok = GetReportsResult { success: true, reason: None, reports: Some(vec![report.clone()]) };
    assert_eq!(ok.result(), Ok(&Some(vec![report.clone()])));
    assert_eq!(reports_to_send(Ok(ok)), Some(vec![report]));
    let empty = GetReportsResult { success: true, reason: None, reports: None };
    assert_eq!(reports_to_send(Ok(empty)), Some(vec![]));
    let failed = GetReportsResult { success: false, reason: Some("db down".to_string()), reports: None };
    assert_eq!(failed.result(), Err("Error fetching reports: db down".to_string()));
    let unknown = GetReportsResult { success: false, reason: None, reports: None };
    assert_eq!(unknown.result(), Err("Error fetching reports: unknown".to_string()));
    assert_eq!(reports_to_send(Ok(failed)), None);
    assert_eq!(reports_to_send(Err("no answer".to_string())), None);

    let r = reports_http_response(Some(b"[]".to_vec()));
    assert_eq!(r.status_code, 200);
    assert_eq!(String::from_utf8(r.body).unwrap(), "[91,93]");
    assert_eq!(values(&r.header, "content-type"), Some(vec!["application/json".to_string()]));
    let r = reports_http_response(None);
    assert_eq!(r.status_code, 404);
    assert!(r.body.is_empty());
}

#[test]
fn gateway_answers_without_forwarding() {
    let r = immediate_response(&RequestType::Invalid("x".to_string())).unwrap();
    assert_eq!(r.status_code, 404);
    assert!(r.body.is_empty());
    let r = immediate_response(&RequestType::Unauthorised).unwrap();
    assert_eq!(r.status_code, 401);
    assert!(r.header.contains_key("WWW-Authenticate"));
    assert!(immediate_response(&RequestType::SignIn(creds("u", "p"))).is_none());
    assert!(immediate_response(&RequestType::Scan(scan_request("j"))).is_none());
}

#[test]
fn failed_forwards() {
    let r = failed_forward_response(&RequestType::SignIn(creds("u", "p")));
    assert_eq!((r.status_code, r.body), (500, b"Error signing in".to_vec()));
    let r = failed_forward_response(&RequestType::SignUp(creds("u", "p")));
    assert_eq!((r.status_code, r.body), (500, b"Error signing up".to_vec()));
    let r = failed_forward_response(&RequestType::GetReports(reports_request("j")));
    assert_eq!((r.status_code, r.body.len()), (404, 0));
}
