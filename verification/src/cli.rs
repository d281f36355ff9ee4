//! The command line client: which token it uses, which request each command
//! sends, and how it reads the answers.
use crate::http::{json_quote, json_quoted};
use crate::model::Timestamp;
use crate::text::{decimal, push_char, push_decimal};
use crate::time::{parse_iso8601, spec_parse_iso8601};
use vstd::prelude::*;

verus! {

/// The service the client talks to.
pub const URL: &'static str = "https://divine-ocean-2029.cosmonic.app";

/// The environment variable that may hold the token.
pub const ENV_JWT: &'static str = "DTBH_ENV";

/// The directory, under the home directory, that holds the token file.
pub const JWT_DIR: &'static str = ".dtbh";

/// The user name and password of a sign-up or sign-in.
#[derive(Clone, Debug, PartialEq, Eq)]
pub struct AuthArgs {
    pub username: String,
    pub password: String,
    /// Print the token instead of storing it.
    pub print_jwt: bool,
}

/// The client's commands.
#[derive(Clone, Debug, PartialEq, Eq)]
pub enum Commands {
    /// Scan the given targets.
    Scan { target: Vec<String> },
    /// Create an account.
    SignUp(AuthArgs),
    /// Sign in to an account.
    SignIn(AuthArgs),
    /// Fetch reports, of the given targets (all when none is given), between
    /// the given bounds; a bound given both ways is taken in seconds.
    Reports {
        target: Vec<String>,
        /// Start time, in ISO 8601.
        start_time: Option<String>,
        /// End time, in ISO 8601.
        end_time: Option<String>,
        /// Start time, in seconds since the epoch.
        start_timestamp: Option<i64>,
        /// End time, in seconds since the epoch.
        end_timestamp: Option<i64>,
    },
}

/// The client's arguments.
#[derive(Clone, Debug, PartialEq, Eq)]
pub struct Cli {
    /// Token given on the command line.
    pub jwt: Option<String>,
    /// File that holds the token.
    pub jwt_path: Option<String>,
    pub command: Commands,
}

/// Where the token comes from.
#[derive(Clone, Debug, PartialEq, Eq)]
pub enum JwtSource {
    /// This token, or none at all.
    Known(Option<String>),
    /// The token file.
    ReadFile,
}

/// Why a command failed.
#[derive(Clone, Debug, PartialEq, Eq)]
pub enum CliError {
    NoJwt,
    NoTargets,
    ScanFailed(String),
    AuthenticationFailed(String),
    NoJwtInResponse,
    /// A time bound given in ISO 8601 that does not read as one.
    InvalidTime(String),
    /// The reports request was answered with this failure status.
    ReportsFailed(String),
}

impl CliError {
    /// The error text the client prints.
    pub fn message(&self) -> (res: String)
        ensures
            res@ == match self {
                CliError::NoJwt => "No JWT provided, please sign in or sign up"@,
                CliError::NoTargets => "No targets provided, please provide at least one target"@,
                CliError::ScanFailed(s) => "Scan failed to start: "@ + s@,
                CliError::AuthenticationFailed(t) => "Authentication failed: "@ + t@,
                CliError::NoJwtInResponse => "No JWT found in response"@,
                CliError::InvalidTime(t) => "Invalid ISO 8601 time: "@ + t@,
                CliError::ReportsFailed(s) => "Failed to fetch reports: "@ + s@,
            },
    {
        match self {
            CliError::NoJwt => String::from_str("No JWT provided, please sign in or sign up"),
            CliError::NoTargets => String::from_str(
                "No targets provided, please provide at least one target",
            ),
            CliError::ScanFailed(s) => String::from_str("Scan failed to start: ").concat(
                s.as_str(),
            ),
            CliError::AuthenticationFailed(t) => String::from_str(
                "Authentication failed: ",
            ).concat(t.as_str()),
            CliError::NoJwtInResponse => String::from_str("No JWT found in response"),
            CliError::InvalidTime(t) => String::from_str("Invalid ISO 8601 time: ").concat(
                t.as_str(),
            ),
            CliError::ReportsFailed(st) => String::from_str("Failed to fetch reports: ").concat(
                st.as_str(),
            ),
        }
    }
}

/// How the client reads the answer to its request.
#[derive(Clone, Copy, Debug, PartialEq, Eq)]
pub enum Expect {
    /// A scan start: success or the failure status.
    ScanStarted,
    /// A sign-up or sign-in: the token cookie, printed or stored.
    Auth { print_jwt: bool },
    /// The reports: printed, or the failure status.
    Reports,
}

/// The POST request a command sends.
#[derive(Clone, Debug, PartialEq, Eq)]
pub struct CliRequest {
    pub url: String,
    /// JSON body, if any.
    pub body: Option<String>,
    /// Bearer token, if any.
    pub bearer: Option<String>,
    pub expect: Expect,
}

/// The JSON array of the given strings.
pub open spec fn json_items(items: Seq<Seq<char>>) -> Seq<char>
    decreases items.len(),
{
    if items.len() == 0 {
        Seq::empty()
    } else if items.len() == 1 {
        json_quoted(items[0])
    } else {
        json_items(items.drop_last()) + seq![','] + json_quoted(items.last())
    }
}

/// The items of a JSON array: each string quoted, and exactly one comma
/// between two neighbours; so the items of two non-empty lists one after the
/// other are their items joined by one comma, and a single string is just its
/// quoted form.
pub proof fn lemma_json_items_append(a: Seq<Seq<char>>, b: Seq<Seq<char>>)
    requires
        a.len() > 0,
        b.len() > 0,
    ensures
        json_items(a + b) == json_items(a) + seq![','] + json_items(b),
        json_items(seq![b[0]]) == json_quoted(b[0]),
        json_items(Seq::<Seq<char>>::empty()).len() == 0,
    decreases b.len(),
{
    assert(seq![b[0]].len() == 1);
    if b.len() == 1 {
        assert((a + b).drop_last() == a);
        assert((a + b).last() == b[0]);
    } else {
        let c = b.drop_last();
        lemma_json_items_append(a, c);
        assert((a + b).drop_last() == a + c);
        assert((a + b).last() == b.last());
    }
}

/// The body of a scan request: `{"targets":[...]}`.
pub open spec fn scan_body(targets: Seq<Seq<char>>) -> Seq<char> {
    "{\"targets\":["@ + json_items(targets) + "]}"@
}

/// The body of a sign-up or sign-in: the JSON object of the password and the
/// user name, keys in order.
pub open spec fn auth_body(username: Seq<char>, password: Seq<char>) -> Seq<char> {
    "{\"password\":"@ + json_quoted(password) + ",\"username\":"@ + json_quoted(username) + "}"@
}

fn items_text(targets: &Vec<String>) -> (res: String)
    ensures
        res@ == json_items(crate::enumerator::strings_view(targets@)),
{
    let ghost ts = crate::enumerator::strings_view(targets@);
    let mut items = String::new();
    let mut i: usize = 0;
    while i < targets.len()
        invariant
            i <= targets@.len(),
            ts == crate::enumerator::strings_view(targets@),
            items@ == json_items(ts.take(i as int)),
        decreases targets@.len() - i,
    {
        proof {
            assert(ts.take(i + 1).drop_last() == ts.take(i as int));
            assert(ts.take(i + 1).last() == targets@[i as int]@);
        }
        if i > 0 {
            push_char(&mut items, ',');
        }
        let q = json_quote(targets[i].as_str());
        items = items.concat(q.as_str());
        proof {
            if i == 0 {
                assert(ts.take(1)[0] == targets@[0]@);
            }
        }
        i = i + 1;
    }
    proof {
        assert(ts.take(ts.len() as int) == ts);
    }
    items
}

fn scan_body_text(targets: &Vec<String>) -> (res: String)
    ensures
        res@ == scan_body(crate::enumerator::strings_view(targets@)),
{
    let items = items_text(targets);
    String::from_str("{\"targets\":[").concat(items.as_str()).concat("]}")
}

/// A JSON integer.
pub open spec fn json_int(n: int) -> Seq<char> {
    if n < 0 {
        seq!['-'] + decimal((-n) as nat)
    } else {
        decimal(n as nat)
    }
}

/// A JSON timestamp object, or `null`.
pub open spec fn json_timestamp(t: Option<Timestamp>) -> Seq<char> {
    match t {
        Some(ts) => "{\"sec\":"@ + json_int(ts.sec as int) + ",\"nsec\":"@ + decimal(ts.nsec as nat)
            + "}"@,
        None => "null"@,
    }
}

/// The body of a reports request: the token, the targets (none meaning
/// all), and the time bounds.
pub open spec fn reports_body(
    jwt: Seq<char>,
    targets: Seq<Seq<char>>,
    start: Option<Timestamp>,
    end: Option<Timestamp>,
) -> Seq<char> {
    "{\"jwt\":"@ + json_quoted(jwt) + ",\"target\":["@ + json_items(targets)
        + "],\"start_timestamp\":"@ + json_timestamp(start) + ",\"end_timestamp\":"@
        + json_timestamp(end) + "}"@
}

/// A time bound of a reports request: the seconds since the epoch when they
/// are given, else the ISO 8601 time when it is given (an error when it does
/// not read as one), else none.
pub open spec fn spec_time_bound(time: Option<String>, timestamp: Option<i64>) -> Result<
    Option<Timestamp>,
    CliError,
> {
    match timestamp {
        Some(sec) => Ok(Some(Timestamp { sec, nsec: 0 })),
        None => match time {
            Some(t) => match spec_parse_iso8601(t@) {
                Some(ts) => Ok(Some(ts)),
                None => Err(CliError::InvalidTime(t)),
            },
            None => Ok(None),
        },
    }
}

/// The time bound of a reports request (see `spec_time_bound`).
pub fn time_bound(time: &Option<String>, timestamp: Option<i64>) -> (res: Result<
    Option<Timestamp>,
    CliError,
>)
    ensures
        res == spec_time_bound(*time, timestamp),
{
    match timestamp {
        Some(sec) => Ok(Some(Timestamp { sec, nsec: 0 })),
        None => match time {
            Some(t) => match parse_iso8601(t.as_str()) {
                Some(ts) => Ok(Some(ts)),
                None => Err(CliError::InvalidTime(t.clone())),
            },
            None => Ok(None),
        },
    }
}

fn push_int(out: &mut String, n: i64)
    ensures
        final(out)@ == old(out)@ + json_int(n as int),
{
    if n < 0 {
        push_char(out, '-');
        let m: u64 = (-(n + 1)) as u64 + 1;
        push_decimal(out, m);
        assert(old(out)@.push('-') + decimal(m as nat) == old(out)@ + (seq!['-'] + decimal(m as nat)));
    } else {
        push_decimal(out, n as u64);
    }
}

fn timestamp_text(t: &Option<Timestamp>) -> (res: String)
    ensures
        res@ == json_timestamp(*t),
{
    match t {
        Some(ts) => {
            let mut out = String::from_str("{\"sec\":");
            push_int(&mut out, ts.sec);
            let out = out.concat(",\"nsec\":");
            let mut out = out;
            push_decimal(&mut out, ts.nsec as u64);
            out.concat("}")
        },
        None => String::from_str("null"),
    }
}

fn reports_body_text(
    jwt: &str,
    targets: &Vec<String>,
    start: &Option<Timestamp>,
    end: &Option<Timestamp>,
) -> (res: String)
    ensures
        res@ == reports_body(jwt@, crate::enumerator::strings_view(targets@), *start, *end),
{
    let j = json_quote(jwt);
    let items = items_text(targets);
    let st = timestamp_text(start);
    let en = timestamp_text(end);
    String::from_str("{\"jwt\":").concat(j.as_str()).concat(",\"target\":[").concat(
        items.as_str(),
    ).concat("],\"start_timestamp\":").concat(st.as_str()).concat(",\"end_timestamp\":").concat(
        en.as_str(),
    ).concat("}")
}

fn auth_body_text(username: &str, password: &str) -> (res: String)
    ensures
        res@ == auth_body(username@, password@),
{
    let p = json_quote(password);
    let u = json_quote(username);
    String::from_str("{\"password\":").concat(p.as_str()).concat(",\"username\":").concat(
        u.as_str(),
    ).concat("}")
}

impl Cli {
    /// Where the token comes from: the command line, else the environment
    /// variable (an empty value meaning no token), else the token file.
    pub fn jwt_source(&self, env_jwt: Option<String>) -> (res: JwtSource)
        ensures
            res == match self.jwt {
                Some(j) => JwtSource::Known(Some(j)),
                None => match env_jwt {
                    Some(e) => if e@.len() == 0 {
                        JwtSource::Known(None)
                    } else {
                        JwtSource::Known(Some(e))
                    },
                    None => JwtSource::ReadFile,
                },
            },
    {
        match &self.jwt {
            Some(j) => JwtSource::Known(Some(j.clone())),
            None => match env_jwt {
                Some(e) => if e.as_str().is_empty() {
                    JwtSource::Known(None)
                } else {
                    JwtSource::Known(Some(e))
                },
                None => JwtSource::ReadFile,
            },
        }
    }

    /// The request that the command sends, given the token in use: a scan
    /// needs a token and at least one target and sends them as a bearer token
    /// and a JSON body; sign-up and sign-in send the credentials; fetching
    /// reports needs a token and sends it, as a bearer token and in a JSON
    /// body, with the targets (none meaning all) and the time bounds, where
    /// seconds since the epoch win over an ISO 8601 time.
    pub fn process_command(&self, jwt: Option<String>) -> (res: Result<CliRequest, CliError>)
        ensures
            match self.command {
                Commands::Scan { target } => if jwt is None {
                    res == Err::<CliRequest, CliError>(CliError::NoJwt)
                } else if target@.len() == 0 {
                    res == Err::<CliRequest, CliError>(CliError::NoTargets)
                } else {
                    res matches Ok(r) && r.url@ == URL@ + "/scan"@ && r.body is Some
                        && r.body->0@ == scan_body(crate::enumerator::strings_view(target@)) && r.bearer
                        == jwt && r.expect == Expect::ScanStarted
                },
                Commands::SignUp(a) => res matches Ok(r) && r.url@ == URL@ + "/sign_up"@
                    && r.body is Some && r.body->0@ == auth_body(a.username@, a.password@)
                    && r.bearer is None && r.expect == (Expect::Auth { print_jwt: a.print_jwt }),
                Commands::SignIn(a) => res matches Ok(r) && r.url@ == URL@ + "/sign_in"@
                    && r.body is Some && r.body->0@ == auth_body(a.username@, a.password@)
                    && r.bearer is None && r.expect == (Expect::Auth { print_jwt: a.print_jwt }),
                Commands::Reports { target, start_time, end_time, start_timestamp, end_timestamp } =>
                match jwt {
                    None => res == Err::<CliRequest, CliError>(CliError::NoJwt),
                    Some(j) => match (
                        spec_time_bound(start_time, start_timestamp),
                        spec_time_bound(end_time, end_timestamp),
                    ) {
                        (Err(e), _) => res == Err::<CliRequest, CliError>(e),
                        (Ok(_), Err(e)) => res == Err::<CliRequest, CliError>(e),
                        (Ok(st), Ok(en)) => res matches Ok(r) && r.url@ == URL@ + "/reports"@
                            && r.body is Some && r.body->0@ == reports_body(
                            j@,
                            crate::enumerator::strings_view(target@),
                            st,
                            en,
                        ) && r.bearer == jwt && r.expect == Expect::Reports,
                    },
                },
            },
    {
        match &self.command {
            Commands::Scan { target } => {
                if jwt.is_none() {
                    return Err(CliError::NoJwt);
                }
                if target.len() == 0 {
                    return Err(CliError::NoTargets);
                }
                Ok(
                    CliRequest {
                        url: String::from_str(URL).concat("/scan"),
                        body: Some(scan_body_text(target)),
                        bearer: jwt,
                        expect: Expect::ScanStarted,
                    },
                )
            },
            Commands::SignUp(a) => Ok(
                CliRequest {
                    url: String::from_str(URL).concat("/sign_up"),
                    body: Some(auth_body_text(a.username.as_str(), a.password.as_str())),
                    bearer: None,
                    expect: Expect::Auth { print_jwt: a.print_jwt },
                },
            ),
            Commands::SignIn(a) => Ok(
                CliRequest {
                    url: String::from_str(URL).concat("/sign_in"),
                    body: Some(auth_body_text(a.username.as_str(), a.password.as_str())),
                    bearer: None,
                    expect: Expect::Auth { print_jwt: a.print_jwt },
                },
            ),
            Commands::Reports { target, start_time, end_time, start_timestamp, end_timestamp } => {
                let j = match &jwt {
                    Some(j) => j,
                    None => return Err(CliError::NoJwt),
                };
                let st = match time_bound(start_time, *start_timestamp) {
                    Ok(b) => b,
                    Err(e) => return Err(e),
                };
                let en = match time_bound(end_time, *end_timestamp) {
                    Ok(b) => b,
                    Err(e) => return Err(e),
                };
                let body = reports_body_text(j.as_str(), target, &st, &en);
                Ok(
                    CliRequest {
                        url: String::from_str(URL).concat("/reports"),
                        body: Some(body),
                        bearer: jwt,
                        expect: Expect::Reports,
                    },
                )
            },
        }
    }
}

/// How a scan-start answer ends the command: success, or the failure with
/// the answer's status.
pub fn scan_outcome(success: bool, status: String) -> (res: Result<(), CliError>)
    ensures
        success ==> res is Ok,
        !success ==> res == Err::<(), CliError>(CliError::ScanFailed(status)),
{
    if success {
        Ok(())
    } else {
        Err(CliError::ScanFailed(status))
    }
}

/// The first cookie named `name` in `cookies` has value `v`.
pub open spec fn first_cookie_is(cookies: Seq<(String, String)>, name: Seq<char>, v: String) -> bool {
    exists|i: int|
        0 <= i < cookies.len() && (#[trigger] cookies[i]).0@ == name && cookies[i].1 == v
            && forall|j: int| 0 <= j < i ==> (#[trigger] cookies[j]).0@ != name
}

/// How a reports answer ends the command: the text of a successful answer
/// to print, or the failure with the answer's status.
pub fn reports_outcome(success: bool, status: String, text: String) -> (res: Result<
    String,
    CliError,
>)
    ensures
        success ==> res == Ok::<String, CliError>(text),
        !success ==> res == Err::<String, CliError>(CliError::ReportsFailed(status)),
{
    if success {
        Ok(text)
    } else {
        Err(CliError::ReportsFailed(status))
    }
}

/// The value of the first cookie named `name`.
pub fn find_cookie(cookies: &Vec<(String, String)>, name: &str) -> (res: Option<String>)
    ensures
        match res {
            Some(v) => first_cookie_is(cookies@, name@, v),
            None => forall|i: int| 0 <= i < cookies@.len() ==> (#[trigger] cookies@[i]).0@ != name@,
        },
{
    let mut i: usize = 0;
    while i < cookies.len()
        invariant
            i <= cookies@.len(),
            forall|j: int| 0 <= j < i ==> (#[trigger] cookies@[j]).0@ != name@,
        decreases cookies@.len() - i,
    {
        if crate::text::str_eq(cookies[i].0.as_str(), name) {
            return Some(cookies[i].1.clone());
        }
        i = i + 1;
    }
    None
}

/// What a sign-up or sign-in does with the token it received.
#[derive(Clone, Debug, PartialEq, Eq)]
pub enum AuthOutcome {
    /// Print the token.
    Print(String),
    /// Store the token in the token file.
    Store(String),
}

/// How a sign-up or sign-in answer ends the command: a failure status fails
/// with the answer's text; else the `jwt` cookie is required, and printed or
/// stored as asked.
pub fn handle_auth_response(
    success: bool,
    text: String,
    cookies: &Vec<(String, String)>,
    output_jwt: bool,
) -> (res: Result<AuthOutcome, CliError>)
    ensures
        !success ==> res == Err::<AuthOutcome, CliError>(CliError::AuthenticationFailed(text)),
        success ==> match res {
            Ok(AuthOutcome::Print(j)) => output_jwt && first_cookie_is(cookies@, "jwt"@, j),
            Ok(AuthOutcome::Store(j)) => !output_jwt && first_cookie_is(cookies@, "jwt"@, j),
            Err(e) => e == CliError::NoJwtInResponse && forall|i: int|
                0 <= i < cookies@.len() ==> (#[trigger] cookies@[i]).0@ != "jwt"@,
        },
{
    if !success {
        return Err(CliError::AuthenticationFailed(text));
    }
    match find_cookie(cookies, "jwt") {
        Some(jwt) => if output_jwt {
            Ok(AuthOutcome::Print(jwt))
        } else {
            Ok(AuthOutcome::Store(jwt))
        },
        None => Err(CliError::NoJwtInResponse),
    }
}

} // verus!
