//! The API gateway: how it authenticates requests, routes them, and what it
//! answers.
use crate::http::{
    content_type_name, json_content_type, json_u8_array,
    values_view, HeaderMap, HttpResponse,
};
use crate::model::{
    copy_reports, reports_view, GetReportsRequest, GetReportsResult, Report, ReportView,
    RunScansRequest, ScanRequest,
};
use crate::surreal::{opt_str_or, AuthParams, RequestScope, SignInResponse};
use crate::text::{
    ascii_upper, chars_of, contains, has_substring, string_of, to_ascii_uppercase, trim_chars,
    trim_set, trim_start_matches, trim_start_matching, TrimSet,
};
use vstd::utf8::encode_utf8;
use vstd::prelude::*;

verus! {

/// Name of the header that challenges an unauthenticated client.
pub const WWW_AUTHENTICATE: &'static str = "WWW-Authenticate";

/// The challenge sent in the `WWW-Authenticate` header.
pub const WWW_AUTHENTICATE_CHALLENGE: &'static str = "Bearer scope=\"user_scope\"";

/// Name of the header that carries a bearer token.
pub const AUTHORIZATION_HEADER: &'static str = "Authorization";

/// Name of the header that carries cookies.
pub const COOKIE_HEADER: &'static str = "Cookie";

/// The scheme prefix of a bearer token.
pub const BEARER_AUTH_SCHEME: &'static str = "Bearer ";

/// Name of the header that sets a cookie.
pub const SET_COOKIE: &'static str = "Set-Cookie";

/// The prefix of the cookie that holds the token.
pub const JWT_COOKIE_PREFIX: &'static str = "jwt=";

/// The character view of an optional string.
pub open spec fn opt_view(o: Option<String>) -> Option<Seq<char>> {
    match o {
        Some(s) => Some(s@),
        None => None,
    }
}

/// The token in the first cookie value that mentions `jwt=`: that value
/// without its leading `jwt=` prefixes.
pub open spec fn cookie_jwt(cookies: Seq<Seq<char>>) -> Option<Seq<char>>
    decreases cookies.len(),
{
    if cookies.len() == 0 {
        None
    } else if has_substring(cookies[0], JWT_COOKIE_PREFIX@) {
        Some(trim_start_matches(cookies[0], JWT_COOKIE_PREFIX@))
    } else {
        cookie_jwt(cookies.drop_first())
    }
}

/// The token of a request: from the cookies if one holds it, else from an
/// `Authorization` header whose first value mentions `Bearer `, without its
/// leading `Bearer ` prefixes.
pub open spec fn spec_jwt_from_headers(h: Map<Seq<char>, Seq<Seq<char>>>) -> Option<Seq<char>> {
    let from_cookie = if h.contains_key(COOKIE_HEADER@) {
        cookie_jwt(h[COOKIE_HEADER@])
    } else {
        None
    };
    if from_cookie is Some {
        from_cookie
    } else if h.contains_key(AUTHORIZATION_HEADER@) && h[AUTHORIZATION_HEADER@].len() > 0
        && has_substring(h[AUTHORIZATION_HEADER@][0], BEARER_AUTH_SCHEME@) {
        Some(trim_start_matches(h[AUTHORIZATION_HEADER@][0], BEARER_AUTH_SCHEME@))
    } else {
        None
    }
}

fn get_jwt_from_cookies(headers: &HeaderMap) -> (res: Option<String>)
    ensures
        opt_view(res) == (if headers@.contains_key(COOKIE_HEADER@) {
            cookie_jwt(headers@[COOKIE_HEADER@])
        } else {
            None
        }),
{
    let cookies = match headers.get(COOKIE_HEADER) {
        Some(c) => c,
        None => {
            return None;
        },
    };
    let ghost vs = values_view(cookies@);
    let prefix = chars_of(JWT_COOKIE_PREFIX);
    proof {
        reveal_strlit("jwt=");
    }
    let mut i: usize = 0;
    assert(vs.skip(0) == vs);
    while i < cookies.len()
        invariant
            i <= cookies@.len(),
            vs == values_view(cookies@),
            headers@.contains_key(COOKIE_HEADER@),
            vs == headers@[COOKIE_HEADER@],
            prefix@ == JWT_COOKIE_PREFIX@,
            prefix@.len() == 4,
            cookie_jwt(vs) == cookie_jwt(vs.skip(i as int)),
        decreases cookies@.len() - i,
    {
        let cookie = chars_of(cookies[i].as_str());
        let ghost rest = vs.skip(i as int);
        assert(rest[0] == cookie@);
        assert(rest.drop_first() == vs.skip(i + 1));
        if contains(cookie.as_slice(), prefix.as_slice()) {
            let t = trim_start_matching(cookie.as_slice(), prefix.as_slice());
            return Some(string_of(t.as_slice()));
        }
        i = i + 1;
    }
    assert(vs.skip(i as int).len() == 0);
    None
}

/// The token that authenticates a request, taken from its cookies or from
/// its bearer authorization header.
pub fn get_jwt_from_headers(headers: &HeaderMap) -> (res: Option<String>)
    ensures
        opt_view(res) == spec_jwt_from_headers(headers@),
{
    let from_cookie = get_jwt_from_cookies(headers);
    if from_cookie.is_some() {
        return from_cookie;
    }
    let values = match headers.get(AUTHORIZATION_HEADER) {
        Some(v) => v,
        None => {
            return None;
        },
    };
    if values.len() == 0 {
        return None;
    }
    let auth = chars_of(values[0].as_str());
    let scheme = chars_of(BEARER_AUTH_SCHEME);
    proof {
        reveal_strlit("Bearer ");
        assert(values_view(values@)[0] == values@[0]@);
    }
    if contains(auth.as_slice(), scheme.as_slice()) {
        let t = trim_start_matching(auth.as_slice(), scheme.as_slice());
        Some(string_of(t.as_slice()))
    } else {
        None
    }
}

/// The header that sets the token cookie: `jwt=<token>` with the `Secure`,
/// `HttpOnly` and `SameSite=Strict` attributes.
pub fn set_jwt_cookie(jwt: String) -> (res: HeaderMap)
    ensures
        res@ == Map::<Seq<char>, Seq<Seq<char>>>::empty().insert(
            SET_COOKIE@,
            seq![JWT_COOKIE_PREFIX@ + jwt@, "Secure"@, "HttpOnly"@, "SameSite=Strict"@],
        ),
        res.entry_seq().len() == 1,
        res.entry_seq()[0].0@ == SET_COOKIE@,
{
    let cookie = String::from_str(JWT_COOKIE_PREFIX).concat(jwt.as_str());
    let mut values: Vec<String> = Vec::new();
    values.push(cookie);
    values.push(String::from_str("Secure"));
    values.push(String::from_str("HttpOnly"));
    values.push(String::from_str("SameSite=Strict"));
    let res = HeaderMap::single(String::from_str(SET_COOKIE), values);
    assert(values_view(values@) =~= seq![
        JWT_COOKIE_PREFIX@ + jwt@,
        "Secure"@,
        "HttpOnly"@,
        "SameSite=Strict"@,
    ]);
    res
}

/// The header that challenges a client to authenticate.
pub fn www_auth_header() -> (res: HeaderMap)
    ensures
        res@ == Map::<Seq<char>, Seq<Seq<char>>>::empty().insert(
            WWW_AUTHENTICATE@,
            seq![WWW_AUTHENTICATE_CHALLENGE@],
        ),
{
    let mut values: Vec<String> = Vec::new();
    values.push(String::from_str(WWW_AUTHENTICATE_CHALLENGE));
    let res = HeaderMap::single(String::from_str(WWW_AUTHENTICATE), values);
    assert(values_view(values@) =~= seq![WWW_AUTHENTICATE_CHALLENGE@]);
    res
}

/// The 401 response: the authentication challenge and the given body (empty
/// when none is given).
pub fn unauthorised_http_response(body: Option<Vec<u8>>) -> (res: HttpResponse)
    ensures
        res.status_code == 401,
        res.header@ == Map::<Seq<char>, Seq<Seq<char>>>::empty().insert(
            WWW_AUTHENTICATE@,
            seq![WWW_AUTHENTICATE_CHALLENGE@],
        ),
        res.body@ == match body {
            Some(b) => b@,
            None => Seq::<u8>::empty(),
        },
{
    let body = match body {
        Some(b) => b,
        None => Vec::new(),
    };
    HttpResponse { status_code: 401, header: www_auth_header(), body }
}

} // verus!

verus! {

/// The user name and password a client signs up or in with.
#[derive(Clone, Debug, PartialEq, Eq)]
pub struct Credentials {
    pub username: String,
    pub password: String,
}

/// Where the gateway sends a request.
#[derive(Clone, Debug, PartialEq, Eq)]
pub enum Route {
    Scan,
    Reports,
    SignIn,
    SignUp,
    /// No route: the upper-cased method and the trimmed path.
    Invalid { method: String, path: String },
}

/// The method of a request, upper-cased.
pub open spec fn normal_method(method: Seq<char>) -> Seq<char> {
    method.map_values(|c: char| ascii_upper(c))
}

/// The path of a request without surrounding spaces and slashes.
pub open spec fn normal_path(path: Seq<char>) -> Seq<char> {
    trim_set(path, TrimSet::SpaceOrSlash)
}

/// Whether two runs of characters are equal.
pub fn chars_eq(a: &[char], b: &[char]) -> (res: bool)
    ensures
        res == (a@ == b@),
{
    if a.len() != b.len() {
        return false;
    }
    let r = crate::text::starts_with(a, b);
    assert(a@.take(b@.len() as int) == a@);
    r
}

/// Routes a request by its method (in any case) and its path (ignoring
/// surrounding spaces and slashes): `POST scan`, `POST reports`, `POST sign_in`
/// and `POST sign_up`.
pub fn route(method: &str, path: &str) -> (res: Route)
    ensures
        res is Scan <==> normal_method(method@) == "POST"@ && normal_path(path@) == "scan"@,
        res is Reports <==> normal_method(method@) == "POST"@ && normal_path(path@) == "reports"@,
        res is SignIn <==> normal_method(method@) == "POST"@ && normal_path(path@) == "sign_in"@,
        res is SignUp <==> normal_method(method@) == "POST"@ && normal_path(path@) == "sign_up"@,
        res matches Route::Invalid { method: m, path: p } ==> m@ == normal_method(method@) && p@
            == normal_path(path@),
{
    let mc = chars_of(method);
    let m = to_ascii_uppercase(mc.as_slice());
    let pc = chars_of(path);
    let p = trim_chars(pc.as_slice(), TrimSet::SpaceOrSlash);
    let post = chars_of("POST");
    let scan = chars_of("scan");
    let reports = chars_of("reports");
    let sign_in = chars_of("sign_in");
    let sign_up = chars_of("sign_up");
    proof {
        reveal_strlit("POST");
        reveal_strlit("scan");
        reveal_strlit("reports");
        reveal_strlit("sign_in");
        reveal_strlit("sign_up");
        assert("scan"@.len() == 4 && "reports"@.len() == 7);
        assert("scan"@ != "reports"@);
        assert("scan"@ != "sign_in"@);
        assert("scan"@ != "sign_up"@);
        assert("reports"@[0] != "sign_in"@[0] && "reports"@[0] != "sign_up"@[0]);
        assert("reports"@ != "sign_in"@ && "reports"@ != "sign_up"@);
        assert("sign_in"@[5] != "sign_up"@[5]);
        assert("sign_in"@ != "sign_up"@);
    }
    let is_post = chars_eq(m.as_slice(), post.as_slice());
    if is_post && chars_eq(p.as_slice(), scan.as_slice()) {
        Route::Scan
    } else if is_post && chars_eq(p.as_slice(), reports.as_slice()) {
        Route::Reports
    } else if is_post && chars_eq(p.as_slice(), sign_in.as_slice()) {
        Route::SignIn
    } else if is_post && chars_eq(p.as_slice(), sign_up.as_slice()) {
        Route::SignUp
    } else {
        Route::Invalid { method: string_of(m.as_slice()), path: string_of(p.as_slice()) }
    }
}

/// A routed request with its body parsed for the route (the parse error's
/// text where the body did not parse).
pub enum RoutedBody {
    Scan(Result<ScanRequest, String>),
    Reports(Result<GetReportsRequest, String>),
    SignIn(Result<Credentials, String>),
    SignUp(Result<Credentials, String>),
    Unrouted { method: String, path: String },
}

/// What the gateway does with a request.
pub enum RequestType {
    GetReports(GetReportsRequest),
    Scan(ScanRequest),
    SignIn(Credentials),
    SignUp(Credentials),
    /// Refused, for the reason given.
    Invalid(String),
    /// Refused for want of a token.
    Unauthorised,
}

/// Classifies a routed request: a token in the headers of a scan or reports
/// request replaces the one in its body; without one the body is kept as it
/// is if it holds a token, and the request is refused as unauthorised if it
/// holds none. A body that did not parse, or a request without a route, is
/// refused with a message saying why.
pub fn request_type(body: RoutedBody, headers: &HeaderMap) -> (res: RequestType)
    ensures
        match body {
            RoutedBody::Scan(Ok(req)) => match spec_jwt_from_headers(headers@) {
                Some(j) => res matches RequestType::Scan(r) && r.jwt@ == j && r.targets
                    == req.targets && r.user_agent_tag == req.user_agent_tag,
                None => if req.jwt@.len() == 0 {
                    res is Unauthorised
                } else {
                    res == RequestType::Scan(req)
                },
            },
            RoutedBody::Scan(Err(e)) => res matches RequestType::Invalid(m) && m@
                == "Invalid body for scan request: "@ + e@,
            RoutedBody::Reports(Ok(req)) => match spec_jwt_from_headers(headers@) {
                Some(j) => res matches RequestType::GetReports(r) && r.jwt@ == j && r.target
                    == req.target && r.start_timestamp == req.start_timestamp && r.end_timestamp
                    == req.end_timestamp,
                None => if req.jwt@.len() == 0 {
                    res is Unauthorised
                } else {
                    res == RequestType::GetReports(req)
                },
            },
            RoutedBody::Reports(Err(e)) => res matches RequestType::Invalid(m) && m@
                == "Invalid body for reports request: "@ + e@,
            RoutedBody::SignIn(Ok(c)) => res == RequestType::SignIn(c),
            RoutedBody::SignIn(Err(e)) => res matches RequestType::Invalid(m) && m@
                == "Invalid body for sign_in request: "@ + e@,
            RoutedBody::SignUp(Ok(c)) => res == RequestType::SignUp(c),
            RoutedBody::SignUp(Err(e)) => res matches RequestType::Invalid(m) && m@
                == "Invalid body for sign_up request: "@ + e@,
            RoutedBody::Unrouted { method, path } => res matches RequestType::Invalid(m) && m@
                == "Invalid method or path "@ + method@ + ": "@ + path@,
        },
{
    match body {
        RoutedBody::Scan(Ok(mut req)) => match get_jwt_from_headers(headers) {
            Some(jwt) => {
                req.jwt = jwt;
                RequestType::Scan(req)
            },
            None => if req.jwt.as_str().is_empty() {
                RequestType::Unauthorised
            } else {
                RequestType::Scan(req)
            },
        },
        RoutedBody::Scan(Err(e)) => RequestType::Invalid(
            String::from_str("Invalid body for scan request: ").concat(e.as_str()),
        ),
        RoutedBody::Reports(Ok(mut req)) => match get_jwt_from_headers(headers) {
            Some(jwt) => {
                req.jwt = jwt;
                RequestType::GetReports(req)
            },
            None => if req.jwt.as_str().is_empty() {
                RequestType::Unauthorised
            } else {
                RequestType::GetReports(req)
            },
        },
        RoutedBody::Reports(Err(e)) => RequestType::Invalid(
            String::from_str("Invalid body for reports request: ").concat(e.as_str()),
        ),
        RoutedBody::SignIn(Ok(c)) => RequestType::SignIn(c),
        RoutedBody::SignIn(Err(e)) => RequestType::Invalid(
            String::from_str("Invalid body for sign_in request: ").concat(e.as_str()),
        ),
        RoutedBody::SignUp(Ok(c)) => RequestType::SignUp(c),
        RoutedBody::SignUp(Err(e)) => RequestType::Invalid(
            String::from_str("Invalid body for sign_up request: ").concat(e.as_str()),
        ),
        RoutedBody::Unrouted { method, path } => RequestType::Invalid(
            String::from_str("Invalid method or path ").concat(method.as_str()).concat(
                ": ",
            ).concat(path.as_str()),
        ),
    }
}

/// The answer to a request that the gateway answers itself: 404 for a
/// refused request and the authentication challenge for one without a token.
/// The other requests (`None`) are forwarded.
pub fn immediate_response(req: &RequestType) -> (res: Option<HttpResponse>)
    ensures
        match req {
            RequestType::Invalid(_) => res matches Some(r) && r.status_code == 404 && r.body@.len()
                == 0 && r.header@ == Map::<Seq<char>, Seq<Seq<char>>>::empty(),
            RequestType::Unauthorised => res matches Some(r) && r.status_code == 401
                && r.body@.len() == 0 && r.header@ == Map::<Seq<char>, Seq<Seq<char>>>::empty().insert(
                WWW_AUTHENTICATE@,
                seq![WWW_AUTHENTICATE_CHALLENGE@],
            ),
            _ => res is None,
        },
{
    match req {
        RequestType::Invalid(_) => Some(HttpResponse::not_found()),
        RequestType::Unauthorised => Some(unauthorised_http_response(None)),
        _ => None,
    }
}

/// The answer to a forwarded request whose handling failed: 404 for a scan
/// or reports request, 500 saying which for a sign-in or sign-up.
pub fn failed_forward_response(req: &RequestType) -> (res: HttpResponse)
    ensures
        res.header@ == Map::<Seq<char>, Seq<Seq<char>>>::empty(),
        match req {
            RequestType::SignIn(_) => res.status_code == 500 && res.body@ == encode_utf8(
                "Error signing in"@,
            ),
            RequestType::SignUp(_) => res.status_code == 500 && res.body@ == encode_utf8(
                "Error signing up"@,
            ),
            _ => res.status_code == 404 && res.body@.len() == 0,
        },
{
    match req {
        RequestType::SignIn(_) => HttpResponse::internal_server_error("Error signing in"),
        RequestType::SignUp(_) => HttpResponse::internal_server_error("Error signing up"),
        _ => HttpResponse::not_found(),
    }
}

/// The scope a sign-in or sign-up with `credentials` asks for: the user
/// scope, with the credentials and no token.
pub fn auth_scope(credentials: Credentials) -> (res: RequestScope)
    ensures
        res == (RequestScope {
            auth_params: Some(
                AuthParams {
                    username: Some(credentials.username),
                    password: Some(credentials.password),
                    jwt: None,
                },
            ),
            database: None,
            namespace: None,
            scope_name: res.scope_name,
        }),
        res.scope_name matches Some(s) && s@ == "user_scope"@,
{
    RequestScope {
        auth_params: Some(
            AuthParams {
                username: Some(credentials.username),
                password: Some(credentials.password),
                jwt: None,
            },
        ),
        database: None,
        namespace: None,
        scope_name: Some(String::from_str("user_scope")),
    }
}

/// The headers of a successful sign-in: the token cookie under the
/// lower-cased name `set-cookie`, and a JSON content type.
pub open spec fn cookie_response_header(jwt: Seq<char>) -> Map<Seq<char>, Seq<Seq<char>>> {
    Map::<Seq<char>, Seq<Seq<char>>>::empty().insert(
        "set-cookie"@,
        seq![JWT_COOKIE_PREFIX@ + jwt, "Secure"@, "HttpOnly"@, "SameSite=Strict"@],
    ).insert(content_type_name(), json_content_type())
}

/// What the gateway answers to a sign-in or sign-up, given how the database
/// answered (`Err` where it could not be asked): 200 with the token cookie
/// when it gave a token, 401 when it refused the credentials, else 500.
pub fn auth_http_response(outcome: Result<SignInResponse, String>) -> (res: HttpResponse)
    ensures
        match outcome {
            Ok(r) => if r.success && r.jwt is Some {
                &&& res.status_code == 200
                &&& res.body@ == encode_utf8("\"{}\""@)
                &&& res.header@ == cookie_response_header(r.jwt->0@)
            } else if r.error is Some {
                if r.error->0.name@ == "SIGNIN_ERROR"@ {
                    &&& res.status_code == 401
                    &&& res.header@ == Map::<Seq<char>, Seq<Seq<char>>>::empty().insert(
                        WWW_AUTHENTICATE@,
                        seq![WWW_AUTHENTICATE_CHALLENGE@],
                    )
                    &&& res.body@.len() == 0
                } else {
                    &&& res.status_code == 500
                    &&& res.body@ == encode_utf8("Something went wrong"@)
                    &&& res.header@ == Map::<Seq<char>, Seq<Seq<char>>>::empty()
                }
            } else {
                &&& res.status_code == 500
                &&& res.body@ == encode_utf8("Something went terribly wrong"@)
                &&& res.header@ == Map::<Seq<char>, Seq<Seq<char>>>::empty()
            },
            Err(_) => {
                &&& res.status_code == 500
                &&& res.body@ == encode_utf8("Something went wrong"@)
                &&& res.header@ == Map::<Seq<char>, Seq<Seq<char>>>::empty()
            },
        },
{
    match outcome {
        Ok(r) => {
            if r.success && r.jwt.is_some() {
                let jwt = r.jwt.unwrap();
                let cookie = set_jwt_cookie(jwt);
                let res = HttpResponse::json_with_headers("{}", 200, &cookie);
                proof {
                    let e = cookie.entry_seq();
                    assert(e.len() == 1);
                    assert(e.drop_last() == Seq::<(String, Vec<String>)>::empty());
                    crate::http::lemma_single_entry_values(cookie);
                    reveal_strlit("Set-Cookie");
                    reveal_strlit("set-cookie");
                    reveal_strlit("content-type");
                    reveal_strlit("{}");
                    reveal_strlit("\"{}\"");
                    assert(crate::http::json_plain_text("{}"@));
                    crate::http::lemma_json_quoted_plain("{}"@);
                    assert(seq!['"'] + "{}"@ + seq!['"'] =~= "\"{}\""@);
                    assert(e[0].0@ == SET_COOKIE@);
                    assert(crate::http::is_ascii_text(e[0].0@));
                    assert(SET_COOKIE@.map_values(|c: char| crate::text::ascii_lower(c))
                        =~= "set-cookie"@);
                    assert("set-cookie"@ != content_type_name());
                }
                res
            } else {
                match r.error {
                    Some(err) => {
                        if err.name == String::from_str("SIGNIN_ERROR") {
                            unauthorised_http_response(None)
                        } else {
                            HttpResponse::internal_server_error("Something went wrong")
                        }
                    },
                    None => HttpResponse::internal_server_error("Something went terribly wrong"),
                }
            }
        },
        Err(_) => HttpResponse::internal_server_error("Something went wrong"),
    }
}

/// The body of the answer to a sign-up with an empty user name or password.
pub const EMPTY_CREDENTIALS_BODY: &'static str = "{\"msg\":\"username or password is empty\"}";

/// A sign-up with an empty user name or password is answered 401 with a JSON
/// message, without asking the database; other sign-ups go ahead (`None`).
pub fn sign_up_precheck(credentials: &Credentials) -> (res: Option<HttpResponse>)
    ensures
        res is Some <==> (credentials.password@.len() == 0 || credentials.username@.len() == 0),
        res matches Some(r) ==> r.status_code == 401 && r.header@ == Map::<
            Seq<char>,
            Seq<Seq<char>>,
        >::empty().insert(WWW_AUTHENTICATE@, seq![WWW_AUTHENTICATE_CHALLENGE@]) && r.body@
            == encode_utf8(EMPTY_CREDENTIALS_BODY@),
{
    if credentials.password.as_str().is_empty() || credentials.username.as_str().is_empty() {
        Some(unauthorised_http_response(Some(crate::http::utf8_bytes(EMPTY_CREDENTIALS_BODY))))
    } else {
        None
    }
}

/// The requests that start the scans of a scan request, one per target.
pub fn run_scans_requests(req: &ScanRequest) -> (res: Vec<RunScansRequest>)
    ensures
        res@.len() == req.targets@.len(),
        forall|i: int|
            0 <= i < res@.len() ==> (#[trigger] res@[i]).target == req.targets@[i] && res@[i].jwt
                == req.jwt,
{
    let mut res: Vec<RunScansRequest> = Vec::new();
    let mut i: usize = 0;
    while i < req.targets.len()
        invariant
            i <= req.targets@.len(),
            res@.len() == i,
            forall|j: int|
                0 <= j < i ==> (#[trigger] res@[j]).target == req.targets@[j] && res@[j].jwt
                    == req.jwt,
        decreases req.targets@.len() - i,
    {
        res.push(RunScansRequest { target: req.targets[i].clone(), jwt: req.jwt.clone() });
        i = i + 1;
    }
    res
}

/// The targets whose scans did not start (`started[i]` tells whether the
/// i-th did; a missing entry counts as not started).
pub open spec fn unstarted(targets: Seq<Seq<char>>, started: Seq<bool>) -> Seq<Seq<char>>
    decreases targets.len(),
{
    if targets.len() == 0 {
        Seq::empty()
    } else {
        let i = targets.len() - 1;
        let rest = unstarted(targets.drop_last(), started);
        if i < started.len() && started[i] {
            rest
        } else {
            rest.push(targets.last())
        }
    }
}

proof fn lemma_unstarted_flagged(targets: Seq<Seq<char>>, started: Seq<bool>, g: Seq<bool>)
    requires
        targets.len() <= g.len(),
        forall|i: int| 0 <= i < targets.len() ==> #[trigger] g[i] == !(i < started.len() && started[i]),
    ensures
        unstarted(targets, started) == crate::enumerator::flagged(targets, g),
    decreases targets.len(),
{
    if targets.len() > 0 {
        let d = targets.drop_last();
        assert forall|i: int| 0 <= i < d.len() implies #[trigger] g[i] == !(i < started.len()
            && started[i]) by {
            assert(g[i] == !(i < started.len() && started[i]));
        }
        lemma_unstarted_flagged(d, started, g);
        let n = targets.len() - 1;
        assert(g[n] == !(n < started.len() && started[n]));
    }
}

/// The targets whose scans did not start are the targets whose flag is
/// unset or missing, kept in order: each such target is among them, and each
/// of them is such a target.
pub proof fn lemma_unstarted(targets: Seq<Seq<char>>, started: Seq<bool>)
    ensures
        unstarted(targets, started) == crate::enumerator::flagged(
            targets,
            Seq::new(targets.len(), |i: int| !(i < started.len() && started[i])),
        ),
{
    let g = Seq::new(targets.len(), |i: int| !(i < started.len() && started[i]));
    lemma_unstarted_flagged(targets, started, g);
    crate::enumerator::lemma_flagged_keeps_flagged(targets, g);
}

/// The list of failed targets is each target on a line of its own, after a
/// line break and a tab: two lists one after the other give their lines one
/// after the other, and a single target gives `\n\t` and itself.
pub proof fn lemma_failure_lines(a: Seq<Seq<char>>, b: Seq<Seq<char>>, x: Seq<char>)
    ensures
        failure_lines(a + b) == failure_lines(a) + failure_lines(b),
        failure_lines(seq![x]) == "\n\t"@ + x,
    decreases b.len(),
{
    assert(seq![x].drop_last() == Seq::<Seq<char>>::empty());
    assert(seq![x].last() == x);
    assert(failure_lines(Seq::<Seq<char>>::empty()) == Seq::<char>::empty());
    assert(failure_lines(seq![x]) == Seq::<char>::empty() + "\n\t"@ + x);
    assert(Seq::<char>::empty() + "\n\t"@ + x == "\n\t"@ + x);
    if b.len() == 0 {
        assert(a + b == a);
    } else {
        lemma_failure_lines(a, b.drop_last(), x);
        assert((a + b).drop_last() == a + b.drop_last());
        assert((a + b).last() == b.last());
    }
}

/// Each failed target on a line of its own, indented by a tab.
pub open spec fn failure_lines(failed: Seq<Seq<char>>) -> Seq<char>
    decreases failed.len(),
{
    if failed.len() == 0 {
        Seq::empty()
    } else {
        failure_lines(failed.drop_last()) + "\n\t"@ + failed.last()
    }
}

/// What the gateway answers to a scan request: 200 with an empty body when
/// every target's scan started, else 500 listing the targets that did not.
pub fn scan_http_response(targets: &Vec<String>, started: &Vec<bool>) -> (res: HttpResponse)
    ensures
        ({
            let failed = unstarted(crate::enumerator::strings_view(targets@), started@);
            if failed.len() == 0 {
                &&& res.status_code == 200
                &&& res.body@.len() == 0
                &&& res.header@ == Map::<Seq<char>, Seq<Seq<char>>>::empty()
            } else {
                &&& res.status_code == 500
                &&& res.body@ == encode_utf8(
                    "The following targets failed to begin scanning:"@ + failure_lines(failed),
                )
                &&& res.header@ == Map::<Seq<char>, Seq<Seq<char>>>::empty()
            }
        }),
{
    let ghost ts = crate::enumerator::strings_view(targets@);
    let mut n_failed: usize = 0;
    let mut lines = String::new();
    let mut i: usize = 0;
    while i < targets.len()
        invariant
            i <= targets@.len(),
            ts == crate::enumerator::strings_view(targets@),
            n_failed == unstarted(ts.take(i as int), started@).len(),
            lines@ == failure_lines(unstarted(ts.take(i as int), started@)),
            n_failed <= i,
        decreases targets@.len() - i,
    {
        proof {
            assert(ts.take(i + 1).drop_last() == ts.take(i as int));
            assert(ts.take(i + 1).last() == targets@[i as int]@);
        }
        if !(i < started.len() && started[i]) {
            let ghost prev = unstarted(ts.take(i as int), started@);
            lines = lines.concat("\n\t").concat(targets[i].as_str());
            n_failed = n_failed + 1;
            proof {
                assert(unstarted(ts.take(i + 1), started@) == prev.push(targets@[i as int]@));
                assert(prev.push(targets@[i as int]@).drop_last() == prev);
            }
        }
        i = i + 1;
    }
    proof {
        assert(ts.take(ts.len() as int) == ts);
    }
    if n_failed == 0 {
        HttpResponse::ok(Vec::new())
    } else {
        let msg = String::from_str("The following targets failed to begin scanning:").concat(
            lines.as_str(),
        );
        HttpResponse::internal_server_error(msg.as_str())
    }
}

impl GetReportsResult {
    /// The reports of a successful answer; for a failed one, an error that
    /// gives its reason (`unknown` when it gives none).
    pub fn result(&self) -> (res: Result<&Option<Vec<Report>>, String>)
        ensures
            self.success ==> (res matches Ok(r) && r == &self.reports),
            !self.success ==> (res matches Err(m) && m@ == "Error fetching reports: "@
                + opt_str_or(self.reason, "unknown"@)),
    {
        if self.success {
            Ok(&self.reports)
        } else {
            let reason = match &self.reason {
                Some(r) => r.clone(),
                None => String::from_str("unknown"),
            };
            Err(String::from_str("Error fetching reports: ").concat(reason.as_str()))
        }
    }
}

/// The reports to answer a reports request with, given how the report writer
/// answered (`Err` where it could not be asked): those of a successful answer
/// (none when it holds none), nothing for a failed one.
pub fn reports_to_send(outcome: Result<GetReportsResult, String>) -> (res: Option<Vec<Report>>)
    ensures
        match outcome {
            Ok(r) => if r.success {
                res matches Some(v) && reports_view(v@) == match r.reports {
                    Some(x) => reports_view(x@),
                    None => Seq::<ReportView>::empty(),
                }
            } else {
                res is None
            },
            Err(_) => res is None,
        },
{
    match outcome {
        Ok(r) => match r.result() {
            Ok(reports) => match reports {
                Some(x) => Some(copy_reports(x)),
                None => {
                    let v: Vec<Report> = Vec::new();
                    assert(reports_view(v@) =~= Seq::<ReportView>::empty());
                    Some(v)
                },
            },
            Err(_) => None,
        },
        Err(_) => None,
    }
}

/// What the gateway answers with the serialised reports (`None` where they
/// could not be serialised or fetched): the bytes as a JSON array of numbers
/// with status 200, or 404.
pub fn reports_http_response(serialized: Option<Vec<u8>>) -> (res: HttpResponse)
    ensures
        match serialized {
            Some(b) => {
                &&& res.status_code == 200
                &&& res.body@ == encode_utf8(json_u8_array(b@))
                &&& res.header@ == Map::<Seq<char>, Seq<Seq<char>>>::empty().insert(
                    content_type_name(),
                    json_content_type(),
                )
            },
            None => {
                &&& res.status_code == 404
                &&& res.body@.len() == 0
                &&& res.header@ == Map::<Seq<char>, Seq<Seq<char>>>::empty()
            },
        },
{
    match serialized {
        Some(b) => HttpResponse::json_bytes(b.as_slice(), 200),
        None => HttpResponse::not_found(),
    }
}

} // verus!

verus! {

/// A token that the gateway set with `set_jwt_cookie` and that the client
/// sends back as its cookie is the token the gateway authenticates the
/// request with (a token that itself begins with `jwt=` loses that prefix).
pub proof fn lemma_cookie_token_roundtrip(jwt: Seq<char>, headers: Map<Seq<char>, Seq<Seq<char>>>)
    requires
        headers.contains_key(COOKIE_HEADER@),
        headers[COOKIE_HEADER@] == seq![JWT_COOKIE_PREFIX@ + jwt],
        !crate::text::has_prefix(jwt, JWT_COOKIE_PREFIX@),
    ensures
        spec_jwt_from_headers(headers) == Some(jwt),
{
    reveal_strlit("jwt=");
    let p = JWT_COOKIE_PREFIX@;
    let c = p + jwt;
    let i: int = 0;
    assert(c.subrange(i, i + p.len()) == p);
    assert(has_substring(c, p));
    assert(c.take(p.len() as int) == p);
    assert(c.skip(p.len() as int) == jwt);
    assert(trim_start_matches(c, p) == trim_start_matches(jwt, p));
    assert(seq![c].drop_first().len() == 0);
}

/// A request without a token cookie that carries `Authorization: Bearer <token>`
/// (as the command line client sends it) is authenticated with that token
/// (a token that itself begins with `Bearer ` loses that prefix).
pub proof fn lemma_bearer_token_roundtrip(jwt: Seq<char>, headers: Map<Seq<char>, Seq<Seq<char>>>)
    requires
        !headers.contains_key(COOKIE_HEADER@) || cookie_jwt(headers[COOKIE_HEADER@]) is None,
        headers.contains_key(AUTHORIZATION_HEADER@),
        headers[AUTHORIZATION_HEADER@] == seq![BEARER_AUTH_SCHEME@ + jwt],
        !crate::text::has_prefix(jwt, BEARER_AUTH_SCHEME@),
    ensures
        spec_jwt_from_headers(headers) == Some(jwt),
{
    reveal_strlit("Bearer ");
    let p = BEARER_AUTH_SCHEME@;
    let c = p + jwt;
    let i: int = 0;
    assert(c.subrange(i, i + p.len()) == p);
    assert(has_substring(c, p));
    assert(c.take(p.len() as int) == p);
    assert(c.skip(p.len() as int) == jwt);
    assert(trim_start_matches(c, p) == trim_start_matches(jwt, p));
}

} // verus!
