//! The SurrealDB provider: its per-link configuration, how it signs a
//! connection in for a request, and how it reports query results.
use crate::http::utf8_bytes;
use crate::text::{decimal, push_char, push_decimal, str_eq};
use vstd::prelude::*;
use vstd::utf8::encode_utf8;

use base64::engine::general_purpose::GeneralPurpose;
use base64::Engine;

verus! {

/// Per-actor configuration of a link to the database.
#[derive(Clone, Debug, PartialEq, Eq)]
pub struct Config {
    /// Host address of the SurrealDB instance. Defaults to `ws://localhost`.
    pub host: String,
    /// Port of the SurrealDB instance. Defaults to `8000`.
    pub port: u16,
    /// User name for the root scope. Defaults to `root`.
    pub user: String,
    /// Password for the root scope. Defaults to `root`.
    pub pass: String,
    /// Concurrency limit of the connection pool; `0` is unbounded. Defaults to `100_000`.
    pub concurrency: usize,
    /// Namespace used when a request names none. Defaults to `ns`.
    pub default_namespace: String,
    /// Database used when a request names none. Defaults to `db`.
    pub default_database: String,
}

impl Default for Config {
    /// Every string empty and every number zero (the per-field defaults of
    /// [`default_host`] and its siblings apply to parsed configurations only).
    fn default() -> (res: Config)
        ensures
            res.host@ == Seq::<char>::empty(),
            res.port == 0,
            res.user@ == Seq::<char>::empty(),
            res.pass@ == Seq::<char>::empty(),
            res.concurrency == 0,
            res.default_namespace@ == Seq::<char>::empty(),
            res.default_database@ == Seq::<char>::empty(),
    {
        Config {
            host: String::new(),
            port: 0,
            user: String::new(),
            pass: String::new(),
            concurrency: 0,
            default_namespace: String::new(),
            default_database: String::new(),
        }
    }
}

impl Config {
    /// The address to connect to: `host:port`.
    pub fn get_url(&self) -> (res: String)
        ensures
            res@ == self.host@ + seq![':'] + decimal(self.port as nat),
    {
        let mut url = self.host.clone();
        push_char(&mut url, ':');
        push_decimal(&mut url, self.port as u64);
        url
    }
}

/// How a link connects to the database.
#[derive(Clone, Copy, Debug, PartialEq, Eq)]
pub enum ClientType {
    Ws,
    Wss,
    Http,
    Embedded,
}

impl Default for ClientType {
    fn default() -> (res: ClientType)
        ensures
            res == ClientType::Ws,
    {
        ClientType::Ws
    }
}

/// The host used when a configuration names none: `ws://localhost`.
pub fn default_host() -> (res: String)
    ensures
        res@ == "ws://localhost"@,
{
    String::from_str("ws://localhost")
}

/// The port used when a configuration names none: 8000.
pub fn default_port() -> (res: u16)
    ensures
        res == 8000,
{
    8000
}

/// The root user used when a configuration names none: `root`.
pub fn default_user() -> (res: String)
    ensures
        res@ == "root"@,
{
    String::from_str("root")
}

/// The root password used when a configuration names none: `root`.
pub fn default_pass() -> (res: String)
    ensures
        res@ == "root"@,
{
    String::from_str("root")
}

/// The concurrency limit used when a configuration names none: 100000.
pub fn default_concurrency() -> (res: usize)
    ensures
        res == 100_000,
{
    100_000
}

/// The namespace used when a configuration names none: `ns`.
pub fn default_default_namespace() -> (res: String)
    ensures
        res@ == "ns"@,
{
    String::from_str("ns")
}

/// The database used when a configuration names none: `db`.
pub fn default_default_database() -> (res: String)
    ensures
        res@ == "db"@,
{
    String::from_str("db")
}

/// A configuration as parsed from JSON: a field is `None` where the JSON
/// object does not hold it.
#[derive(Clone, Debug, PartialEq, Eq)]
pub struct PartialConfig {
    pub host: Option<String>,
    pub port: Option<u16>,
    pub user: Option<String>,
    pub pass: Option<String>,
    pub concurrency: Option<usize>,
    pub default_namespace: Option<String>,
    pub default_database: Option<String>,
}

/// `o` with `d` in place of `None`.
pub open spec fn or_default<T>(o: Option<T>, d: T) -> T {
    match o {
        Some(v) => v,
        None => d,
    }
}

/// The characters of `o`, or `d` where `o` is `None`.
pub open spec fn opt_str_or(o: Option<String>, d: Seq<char>) -> Seq<char> {
    match o {
        Some(s) => s@,
        None => d,
    }
}

impl Config {
    /// The configuration that a parsed JSON object denotes: every missing
    /// field takes its default.
    pub fn from_partial(p: PartialConfig) -> (res: Config)
        ensures
            res.host@ == opt_str_or(p.host, "ws://localhost"@),
            res.port == or_default(p.port, 8000),
            res.user@ == opt_str_or(p.user, "root"@),
            res.pass@ == opt_str_or(p.pass, "root"@),
            res.concurrency == or_default(p.concurrency, 100_000),
            res.default_namespace@ == opt_str_or(p.default_namespace, "ns"@),
            res.default_database@ == opt_str_or(p.default_database, "db"@),
    {
        Config {
            host: match p.host {
                Some(v) => v,
                None => default_host(),
            },
            port: match p.port {
                Some(v) => v,
                None => default_port(),
            },
            user: match p.user {
                Some(v) => v,
                None => default_user(),
            },
            pass: match p.pass {
                Some(v) => v,
                None => default_pass(),
            },
            concurrency: match p.concurrency {
                Some(v) => v,
                None => default_concurrency(),
            },
            default_namespace: match p.default_namespace {
                Some(v) => v,
                None => default_default_namespace(),
            },
            default_database: match p.default_database {
                Some(v) => v,
                None => default_default_database(),
            },
        }
    }
}

/// The character of the standard base64 alphabet for `v < 64`.
pub open spec fn b64_char(v: int) -> char {
    if v < 26 {
        (65 + v) as char
    } else if v < 52 {
        (71 + v) as char
    } else if v < 62 {
        (v - 4) as char
    } else if v == 62 {
        '+'
    } else {
        '/'
    }
}

/// The standard base64 encoding of `bs` with padding (RFC 4648): each group
/// of three bytes as four characters of six bits each, and a last group of
/// one or two bytes padded with `=`.
pub open spec fn base64_standard_encoded(bs: Seq<u8>) -> Seq<char>
    decreases bs.len(),
{
    if bs.len() == 0 {
        Seq::empty()
    } else if bs.len() == 1 {
        seq![b64_char(bs[0] as int / 4), b64_char((bs[0] as int % 4) * 16), '=', '=']
    } else if bs.len() == 2 {
        seq![
            b64_char(bs[0] as int / 4),
            b64_char((bs[0] as int % 4) * 16 + bs[1] as int / 16),
            b64_char((bs[1] as int % 16) * 4),
            '=',
        ]
    } else {
        seq![
            b64_char(bs[0] as int / 4),
            b64_char((bs[0] as int % 4) * 16 + bs[1] as int / 16),
            b64_char((bs[1] as int % 16) * 4 + bs[2] as int / 64),
            b64_char(bs[2] as int % 64),
        ] + base64_standard_encoded(bs.skip(3))
    }
}

/// What the base64 crate's decoder with the standard alphabet and the default
/// configuration (canonical padding required, no trailing bits) returns for
/// the bytes of a string; `None` stands for a decoding error.
pub uninterp spec fn base64_standard_decoded(input: Seq<char>) -> Option<Seq<u8>>;

/// Calls `GeneralPurpose::new(&alphabet::STANDARD, GeneralPurposeConfig::default()).decode(input)`
/// of the base64 crate, with the error dropped. Its result is named by
/// `base64_standard_decoded`; what is stated of it is that decoding the padded
/// standard encoding of some bytes gives those bytes back. Which other inputs
/// decode, and to what, is not stated here.
#[verifier::external_body]
fn base64_decode(input: &str) -> (res: Option<Vec<u8>>)
    ensures
        match res {
            Some(v) => base64_standard_decoded(input@) == Some(v@),
            None => base64_standard_decoded(input@) is None,
        },
        res is Some <== exists|bytes: Seq<u8>| input@ == #[trigger] base64_standard_encoded(bytes),
        res matches Some(v) ==> forall|bytes: Seq<u8>|
            input@ == #[trigger] base64_standard_encoded(bytes) ==> v@ == bytes,
{
    let engine = GeneralPurpose::new(
        &base64::alphabet::STANDARD,
        base64::engine::GeneralPurposeConfig::default(),
    );
    match engine.decode(input) {
        Ok(bytes) => Some(bytes),
        Err(_) => None,
    }
}

/// Why a link's configuration could not be loaded.
#[derive(Clone, Debug, PartialEq, Eq)]
pub enum ConfigError {
    /// `config_b64` is not valid base64.
    InvalidBase64,
    /// The configuration is not valid JSON for a configuration.
    InvalidJson(String),
    /// The empty configuration could not be parsed.
    InvalidEmpty(String),
}

impl ConfigError {
    /// The error text the provider reports.
    pub fn message(&self) -> (res: String)
        ensures
            res@ == match self {
                ConfigError::InvalidBase64 => "invalid config_base64 encoding"@,
                ConfigError::InvalidJson(e) => "invalid json config: "@ + e@,
                ConfigError::InvalidEmpty(e) => "can't deserialise empty config: "@ + e@,
            },
    {
        match self {
            ConfigError::InvalidBase64 => String::from_str("invalid config_base64 encoding"),
            ConfigError::InvalidJson(e) => String::from_str("invalid json config: ").concat(
                e.as_str(),
            ),
            ConfigError::InvalidEmpty(e) => String::from_str(
                "can't deserialise empty config: ",
            ).concat(e.as_str()),
        }
    }
}

/// The JSON text of a link's configuration, from the link's `config_b64`
/// value (base64 of the JSON) if it has one, else from its `config_json`
/// value, else the empty object (which yields every default).
pub fn config_json_bytes(config_b64: Option<&str>, config_json: Option<&str>) -> (res: Result<
    Vec<u8>,
    ConfigError,
>)
    ensures
        match config_b64 {
            Some(b) => match base64_standard_decoded(b@) {
                Some(bytes) => res matches Ok(v) && v@ == bytes,
                None => res == Err::<Vec<u8>, ConfigError>(ConfigError::InvalidBase64),
            },
            None => match config_json {
                Some(j) => res matches Ok(v) && v@ == encode_utf8(j@),
                None => res matches Ok(v) && v@ == encode_utf8("{}"@),
            },
        },
        forall|bytes: Seq<u8>|
            (config_b64 matches Some(b) && b@ == #[trigger] base64_standard_encoded(bytes)) ==> (
            res matches Ok(v) && v@ == bytes),
{
    match config_b64 {
        Some(b) => match base64_decode(b) {
            Some(bytes) => Ok(bytes),
            None => Err(ConfigError::InvalidBase64),
        },
        None => match config_json {
            Some(j) => Ok(utf8_bytes(j)),
            None => Ok(utf8_bytes("{}")),
        },
    }
}

} // verus!

verus! {

/// Credentials a request signs in with: a user name and password, or a token.
#[derive(Clone, Debug, PartialEq, Eq)]
pub struct AuthParams {
    pub username: Option<String>,
    pub password: Option<String>,
    pub jwt: Option<String>,
}

/// The scope a request asks to act in.
#[derive(Clone, Debug, PartialEq, Eq)]
pub struct RequestScope {
    pub auth_params: Option<AuthParams>,
    pub database: Option<String>,
    pub namespace: Option<String>,
    pub scope_name: Option<String>,
}

/// The root user of a link.
#[derive(Clone, Debug, PartialEq, Eq)]
pub struct RootCredentials {
    pub username: String,
    pub password: String,
}

/// The root credentials of a link's configuration.
pub fn root_credentials(conf: &Config) -> (res: RootCredentials)
    ensures
        res.username == conf.user,
        res.password == conf.pass,
{
    RootCredentials { username: conf.user.clone(), password: conf.pass.clone() }
}

/// The credentials of one sign-in call.
#[derive(Clone, Debug, PartialEq, Eq)]
pub enum Signin {
    ScopeJwt { namespace: String, database: String, scope: String, jwt: String },
    ScopeUserPass {
        namespace: String,
        database: String,
        scope: String,
        username: String,
        password: String,
    },
    Database { namespace: String, database: String, username: String, password: String },
    Namespace { namespace: String, username: String, password: String },
    Root { username: String, password: String },
}

/// One call that signing a connection in makes.
#[derive(Clone, Debug, PartialEq, Eq)]
pub enum SignInStep {
    /// Sign in with these credentials.
    SignIn(Signin),
    /// Select this namespace and database.
    UseNsDb { namespace: String, database: String },
}

/// Why a request's scope cannot be signed in.
#[derive(Clone, Copy, Debug, PartialEq, Eq)]
pub enum SignInError {
    /// The credentials hold neither a token nor both a user name and a password.
    InvalidCredentials,
    /// The scope names no usable combination of namespace and database.
    InvalidScopeParams,
}

impl SignInError {
    /// The error text the provider reports.
    pub fn message(&self) -> (res: String)
        ensures
            res@ == match self {
                SignInError::InvalidCredentials => "Invalid combination of username, password and JWT"@,
                SignInError::InvalidScopeParams => "Invalid combination of scope params"@,
            },
    {
        match self {
            SignInError::InvalidCredentials => String::from_str(
                "Invalid combination of username, password and JWT",
            ),
            SignInError::InvalidScopeParams => String::from_str(
                "Invalid combination of scope params",
            ),
        }
    }
}

/// The calls that sign a connection in for a request, in order, and how the
/// sign-in ends once they all succeed (a failing call ends it with its own
/// error).
#[derive(Debug, PartialEq, Eq)]
pub struct SignInPlan {
    pub steps: Vec<SignInStep>,
    pub outcome: Result<(), SignInError>,
}

/// The user name and password of `a`, where it holds both.
pub open spec fn user_pass(a: AuthParams) -> Option<(String, String)> {
    match (a.username, a.password) {
        (Some(u), Some(p)) => Some((u, p)),
        _ => None,
    }
}

/// The credentials of `a` for a sign-in into scope `scope` of database `db`
/// in namespace `ns`: the token if there is one, else the user name and password.
pub open spec fn scope_signin(a: AuthParams, ns: String, db: String, scope: String) -> Option<
    Signin,
> {
    match a.jwt {
        Some(j) => Some(Signin::ScopeJwt { namespace: ns, database: db, scope, jwt: j }),
        None => match user_pass(a) {
            Some((u, p)) => Some(
                Signin::ScopeUserPass { namespace: ns, database: db, scope, username: u, password: p },
            ),
            None => None,
        },
    }
}

/// The steps and outcome of signing in for `scope`:
/// - no scope: root, then the configured default namespace and database;
/// - credentials, database, namespace and scope name: a scope sign-in;
/// - credentials, database and namespace: a database user;
/// - credentials and namespace: a namespace user;
/// - credentials only: a root user with those credentials;
/// - a namespace without credentials: root, then that namespace and the
///   database, which must be given;
/// - anything else is refused.
pub open spec fn spec_sign_in_plan(scope: Option<RequestScope>, conf: Config) -> (
    Seq<SignInStep>,
    Result<(), SignInError>,
) {
    let root = SignInStep::SignIn(Signin::Root { username: conf.user, password: conf.pass });
    let refused = (Seq::<SignInStep>::empty(), Err(SignInError::InvalidCredentials));
    match scope {
        None => (
            seq![
                root,
                SignInStep::UseNsDb {
                    namespace: conf.default_namespace,
                    database: conf.default_database,
                },
            ],
            Ok(()),
        ),
        Some(s) => match (s.auth_params, s.database, s.namespace, s.scope_name) {
            (Some(a), Some(db), Some(ns), Some(sc)) => match scope_signin(a, ns, db, sc) {
                Some(si) => (seq![SignInStep::SignIn(si)], Ok(())),
                None => refused,
            },
            (Some(a), Some(db), Some(ns), None) => match user_pass(a) {
                Some((u, p)) => (
                    seq![
                        SignInStep::SignIn(
                            Signin::Database { namespace: ns, database: db, username: u, password: p },
                        ),
                    ],
                    Ok(()),
                ),
                None => refused,
            },
            (Some(a), None, Some(ns), _) => match user_pass(a) {
                Some((u, p)) => (
                    seq![
                        SignInStep::SignIn(
                            Signin::Namespace { namespace: ns, username: u, password: p },
                        ),
                    ],
                    Ok(()),
                ),
                None => refused,
            },
            (Some(a), _, None, _) => match user_pass(a) {
                Some((u, p)) => (
                    seq![SignInStep::SignIn(Signin::Root { username: u, password: p })],
                    Ok(()),
                ),
                None => refused,
            },
            (None, db, Some(ns), _) => match db {
                Some(d) => (seq![root, SignInStep::UseNsDb { namespace: ns, database: d }], Ok(())),
                None => (seq![root], Err(SignInError::InvalidScopeParams)),
            },
            (None, _, None, _) => (Seq::empty(), Err(SignInError::InvalidScopeParams)),
        },
    }
}

fn user_pass_of(a: &AuthParams) -> (res: Option<(String, String)>)
    ensures
        res == user_pass(*a),
{
    match (&a.username, &a.password) {
        (Some(u), Some(p)) => Some((u.clone(), p.clone())),
        _ => None,
    }
}

fn root_step(conf: &Config) -> (res: SignInStep)
    ensures
        res == SignInStep::SignIn(Signin::Root { username: conf.user, password: conf.pass }),
{
    let r = root_credentials(conf);
    SignInStep::SignIn(Signin::Root { username: r.username, password: r.password })
}

fn one_step(step: SignInStep) -> (res: SignInPlan)
    ensures
        res.steps@ == seq![step],
        res.outcome == Ok::<(), SignInError>(()),
{
    let mut steps: Vec<SignInStep> = Vec::new();
    steps.push(step);
    SignInPlan { steps, outcome: Ok(()) }
}

fn refused(e: SignInError) -> (res: SignInPlan)
    ensures
        res.steps@ == Seq::<SignInStep>::empty(),
        res.outcome == Err::<(), SignInError>(e),
{
    SignInPlan { steps: Vec::new(), outcome: Err(e) }
}

/// How the provider signs a connection in for a request made in `scope`.
pub fn sign_in_plan(scope: &Option<RequestScope>, conf: &Config) -> (res: SignInPlan)
    ensures
        (res.steps@, res.outcome) == spec_sign_in_plan(*scope, *conf),
{
    match scope {
        None => {
            let mut steps: Vec<SignInStep> = Vec::new();
            steps.push(root_step(conf));
            steps.push(
                SignInStep::UseNsDb {
                    namespace: conf.default_namespace.clone(),
                    database: conf.default_database.clone(),
                },
            );
            SignInPlan { steps, outcome: Ok(()) }
        },
        Some(s) => match (&s.auth_params, &s.database, &s.namespace, &s.scope_name) {
            (Some(a), Some(db), Some(ns), Some(sc)) => {
                match &a.jwt {
                    Some(j) => one_step(
                        SignInStep::SignIn(
                            Signin::ScopeJwt {
                                namespace: ns.clone(),
                                database: db.clone(),
                                scope: sc.clone(),
                                jwt: j.clone(),
                            },
                        ),
                    ),
                    None => match user_pass_of(a) {
                        Some((u, p)) => one_step(
                            SignInStep::SignIn(
                                Signin::ScopeUserPass {
                                    namespace: ns.clone(),
                                    database: db.clone(),
                                    scope: sc.clone(),
                                    username: u,
                                    password: p,
                                },
                            ),
                        ),
                        None => refused(SignInError::InvalidCredentials),
                    },
                }
            },
            (Some(a), Some(db), Some(ns), None) => match user_pass_of(a) {
                Some((u, p)) => one_step(
                    SignInStep::SignIn(
                        Signin::Database {
                            namespace: ns.clone(),
                            database: db.clone(),
                            username: u,
                            password: p,
                        },
                    ),
                ),
                None => refused(SignInError::InvalidCredentials),
            },
            (Some(a), None, Some(ns), _) => match user_pass_of(a) {
                Some((u, p)) => one_step(
                    SignInStep::SignIn(
                        Signin::Namespace { namespace: ns.clone(), username: u, password: p },
                    ),
                ),
                None => refused(SignInError::InvalidCredentials),
            },
            (Some(a), _, None, _) => match user_pass_of(a) {
                Some((u, p)) => one_step(
                    SignInStep::SignIn(Signin::Root { username: u, password: p }),
                ),
                None => refused(SignInError::InvalidCredentials),
            },
            (None, db, Some(ns), _) => {
                let mut steps: Vec<SignInStep> = Vec::new();
                steps.push(root_step(conf));
                match db {
                    Some(d) => {
                        steps.push(
                            SignInStep::UseNsDb { namespace: ns.clone(), database: d.clone() },
                        );
                        SignInPlan { steps, outcome: Ok(()) }
                    },
                    None => SignInPlan { steps, outcome: Err(SignInError::InvalidScopeParams) },
                }
            },
            (None, _, None, _) => refused(SignInError::InvalidScopeParams),
        },
    }
}

} // verus!

verus! {

/// An error reported to the actor that made a request.
#[derive(Clone, Debug, PartialEq, Eq)]
pub struct SurrealDbError {
    pub message: String,
    pub name: String,
}

/// The answer to a sign-in or sign-up request.
#[derive(Clone, Debug, PartialEq, Eq)]
pub struct SignInResponse {
    pub success: bool,
    pub jwt: Option<String>,
    pub error: Option<SurrealDbError>,
}

/// The results of one query: for each statement the JSON of the values it
/// returned (empty where it failed), and the errors of the failed ones.
#[derive(Clone, Debug, PartialEq, Eq)]
pub struct QueryResponse {
    pub response: Vec<Vec<u8>>,
    pub errors: Vec<SurrealDbError>,
}

/// How one statement of a query ended.
#[derive(Clone, Debug, PartialEq, Eq)]
pub enum StatementOutcome {
    /// The statement's values, serialised as JSON.
    Values(Vec<u8>),
    /// The statement's values could not be serialised; the error text.
    SerializeFailed(String),
    /// The statement failed; the error text.
    QueryFailed(String),
}

/// The body that a statement's outcome contributes to the response.
pub open spec fn outcome_body(o: StatementOutcome) -> Seq<u8> {
    match o {
        StatementOutcome::Values(b) => b@,
        _ => Seq::empty(),
    }
}

/// The (message, name) of the error a statement's outcome reports, if any.
pub open spec fn outcome_errors(o: StatementOutcome) -> Seq<(Seq<char>, Seq<char>)> {
    match o {
        StatementOutcome::Values(_) => Seq::empty(),
        StatementOutcome::SerializeFailed(e) => seq![(e@, "serde_json_error"@)],
        StatementOutcome::QueryFailed(e) => seq![(e@, "query_error"@)],
    }
}

/// The errors of a list of outcomes, in order.
pub open spec fn outcomes_errors(os: Seq<StatementOutcome>) -> Seq<(Seq<char>, Seq<char>)>
    decreases os.len(),
{
    if os.len() == 0 {
        Seq::empty()
    } else {
        outcomes_errors(os.drop_last()) + outcome_errors(os.last())
    }
}

/// The (message, name) view of a list of errors.
pub open spec fn errors_view(es: Seq<SurrealDbError>) -> Seq<(Seq<char>, Seq<char>)> {
    es.map_values(|e: SurrealDbError| (e.message@, e.name@))
}

/// The byte views of a list of bodies.
pub open spec fn bodies_view(bs: Seq<Vec<u8>>) -> Seq<Seq<u8>> {
    bs.map_values(|b: Vec<u8>| b@)
}

/// The response to a query whose statements ended as `outcomes`.
pub fn query_response(outcomes: Vec<StatementOutcome>) -> (res: QueryResponse)
    ensures
        bodies_view(res.response@) == outcomes@.map_values(|o: StatementOutcome| outcome_body(o)),
        errors_view(res.errors@) == outcomes_errors(outcomes@),
{
    let mut response: Vec<Vec<u8>> = Vec::new();
    let mut errors: Vec<SurrealDbError> = Vec::new();
    let n = outcomes.len();
    let mut i: usize = 0;
    while i < n
        invariant
            n == outcomes@.len(),
            i <= n,
            response@.len() == i,
            bodies_view(response@) == outcomes@.take(i as int).map_values(
                |o: StatementOutcome| outcome_body(o),
            ),
            errors_view(errors@) == outcomes_errors(outcomes@.take(i as int)),
        decreases n - i,
    {
        let ghost prev_r = response@;
        let ghost prev_e = errors@;
        let ghost t = outcomes@.take(i + 1);
        proof {
            assert(t.drop_last() == outcomes@.take(i as int));
            assert(t.last() == outcomes@[i as int]);
        }
        match &outcomes[i] {
            StatementOutcome::Values(b) => {
                response.push(b.clone());
            },
            StatementOutcome::SerializeFailed(e) => {
                response.push(Vec::new());
                errors.push(
                    SurrealDbError {
                        message: e.clone(),
                        name: String::from_str("serde_json_error"),
                    },
                );
            },
            StatementOutcome::QueryFailed(e) => {
                response.push(Vec::new());
                errors.push(
                    SurrealDbError { message: e.clone(), name: String::from_str("query_error") },
                );
            },
        }
        proof {
            assert forall|j: int| 0 <= j < i + 1 implies #[trigger] bodies_view(response@)[j]
                == t.map_values(|o: StatementOutcome| outcome_body(o))[j] by {
                if j < i {
                    assert(bodies_view(prev_r)[j] == outcomes@.take(i as int).map_values(
                        |o: StatementOutcome| outcome_body(o),
                    )[j]);
                }
            }
            assert(bodies_view(response@) =~= t.map_values(|o: StatementOutcome| outcome_body(o)));
            assert(errors_view(errors@) =~= errors_view(prev_e) + outcome_errors(t.last()));
        }
        i = i + 1;
    }
    proof {
        assert(outcomes@.take(n as int) == outcomes@);
    }
    QueryResponse { response, errors }
}

/// The response to a query that could not be sent: one `QUERY_SEND_ERROR`
/// with the error text, and no results.
pub fn send_error_response(message: String) -> (res: QueryResponse)
    ensures
        res.response@.len() == 0,
        errors_view(res.errors@) == seq![(message@, "QUERY_SEND_ERROR"@)],
{
    let mut errors: Vec<SurrealDbError> = Vec::new();
    errors.push(SurrealDbError { message, name: String::from_str("QUERY_SEND_ERROR") });
    assert(errors_view(errors@) =~= seq![(message@, "QUERY_SEND_ERROR"@)]);
    QueryResponse { response: Vec::new(), errors }
}

/// The indices of the bindings that parsed, in order.
pub open spec fn parsed_indices(parsed: Seq<bool>) -> Seq<int>
    decreases parsed.len(),
{
    if parsed.len() == 0 {
        Seq::empty()
    } else if parsed.last() {
        parsed_indices(parsed.drop_last()).push(parsed.len() - 1)
    } else {
        parsed_indices(parsed.drop_last())
    }
}

proof fn lemma_parsed_indices_bounds(parsed: Seq<bool>)
    ensures
        parsed_indices(parsed).len() <= parsed.len(),
        forall|j: int|
            0 <= j < parsed_indices(parsed).len() ==> 0 <= #[trigger] parsed_indices(parsed)[j]
                < parsed.len(),
    decreases parsed.len(),
{
    if parsed.len() > 0 {
        lemma_parsed_indices_bounds(parsed.drop_last());
    }
}

/// The parsed bindings' indices are exactly the indices of the bindings that
/// parsed, each once, in increasing order.
pub proof fn lemma_parsed_indices(parsed: Seq<bool>)
    ensures
        forall|j: int|
            0 <= j < parsed_indices(parsed).len() ==> 0 <= #[trigger] parsed_indices(parsed)[j]
                < parsed.len() && parsed[parsed_indices(parsed)[j]],
        forall|j: int, k: int|
            0 <= j < k < parsed_indices(parsed).len() ==> #[trigger] parsed_indices(parsed)[j]
                < #[trigger] parsed_indices(parsed)[k],
        forall|i: int| 0 <= i < parsed.len() && parsed[i] ==> parsed_indices(parsed).contains(i),
    decreases parsed.len(),
{
    if parsed.len() > 0 {
        let d = parsed.drop_last();
        lemma_parsed_indices(d);
        let pd = parsed_indices(d);
        let p = parsed_indices(parsed);
        assert forall|j: int| 0 <= j < p.len() implies 0 <= #[trigger] p[j] < parsed.len()
            && parsed[p[j]] by {
            if j < pd.len() {
                assert(p[j] == pd[j]);
                assert(parsed[pd[j]] == d[pd[j]]);
            }
        }
        assert forall|j: int, k: int| 0 <= j < k < p.len() implies #[trigger] p[j] < #[trigger] p[k] by {
            assert(p[j] == pd[j]);
            if k < pd.len() {
                assert(p[k] == pd[k]);
            }
        }
        assert forall|i: int| 0 <= i < parsed.len() && parsed[i] implies p.contains(i) by {
            if i < parsed.len() - 1 {
                assert(d[i] == parsed[i]);
                let w = choose|w: int| 0 <= w < pd.len() && pd[w] == i;
                assert(p[w] == pd[w]);
            } else {
                assert(p[p.len() - 1] == i);
            }
        }
    }
}

/// Which query is sent with which binding: bindings that do not parse are
/// dropped, and the i-th query goes with the i-th binding that parsed, as
/// far as both lists reach. Returns (query index, binding index) pairs.
pub fn query_binding_pairs(n_queries: usize, parsed: &Vec<bool>) -> (res: Vec<(usize, usize)>)
    ensures
        res@.len() == if n_queries < parsed_indices(parsed@).len() {
            n_queries as int
        } else {
            parsed_indices(parsed@).len() as int
        },
        forall|j: int|
            0 <= j < res@.len() ==> (#[trigger] res@[j]).0 == j && res@[j].1
                == parsed_indices(parsed@)[j] && res@[j].1 < parsed@.len(),
{
    proof {
        lemma_parsed_indices_bounds(parsed@);
    }
    let mut kept: Vec<usize> = Vec::new();
    let mut i: usize = 0;
    while i < parsed.len()
        invariant
            i <= parsed@.len(),
            kept@.len() == parsed_indices(parsed@.take(i as int)).len(),
            forall|j: int|
                0 <= j < kept@.len() ==> kept@[j] as int == #[trigger] parsed_indices(
                    parsed@.take(i as int),
                )[j],
        decreases parsed@.len() - i,
    {
        proof {
            assert(parsed@.take(i + 1).drop_last() == parsed@.take(i as int));
        }
        if parsed[i] {
            kept.push(i);
        }
        i = i + 1;
    }
    proof {
        assert(parsed@.take(parsed@.len() as int) == parsed@);
    }
    let mut res: Vec<(usize, usize)> = Vec::new();
    let mut j: usize = 0;
    while j < n_queries && j < kept.len()
        invariant
            j <= kept@.len(),
            j <= n_queries,
            kept@.len() == parsed_indices(parsed@).len(),
            forall|k: int|
                0 <= k < kept@.len() ==> kept@[k] as int == #[trigger] parsed_indices(parsed@)[k],
            res@.len() == j,
            forall|k: int|
                0 <= k < j ==> (#[trigger] res@[k]).0 == k && res@[k].1 == parsed_indices(
                    parsed@,
                )[k] && res@[k].1 < parsed@.len(),
            parsed_indices(parsed@).len() <= parsed@.len(),
            forall|k: int|
                0 <= k < parsed_indices(parsed@).len() ==> 0 <= #[trigger] parsed_indices(parsed@)[k]
                    < parsed@.len(),
        decreases n_queries - j,
    {
        assert(parsed_indices(parsed@)[j as int] < parsed@.len());
        res.push((j, kept[j]));
        j = j + 1;
    }
    res
}

} // verus!

verus! {

/// A request whose credentials hold a user name and a password and whose
/// scope names no namespace signs in as that root user, and only that,
/// whatever database, scope name or token it names (the gateway's user
/// sign-in is such a request).
pub proof fn lemma_sign_in_without_namespace_is_root(
    auth: AuthParams,
    database: Option<String>,
    scope_name: Option<String>,
    conf: Config,
    username: String,
    password: String,
)
    requires
        auth.username == Some(username),
        auth.password == Some(password),
    ensures
        spec_sign_in_plan(
            Some(
                RequestScope {
                    auth_params: Some(auth),
                    database,
                    namespace: None,
                    scope_name,
                },
            ),
            conf,
        ) == (
            seq![SignInStep::SignIn(Signin::Root { username, password })],
            Ok::<(), SignInError>(()),
        ),
{
}

/// Without a scope, a connection signs in as the link's root user and then
/// selects the link's default namespace and database.
pub proof fn lemma_sign_in_without_scope(conf: Config)
    ensures
        spec_sign_in_plan(None, conf) == (
            seq![
                SignInStep::SignIn(Signin::Root { username: conf.user, password: conf.pass }),
                SignInStep::UseNsDb {
                    namespace: conf.default_namespace,
                    database: conf.default_database,
                },
            ],
            Ok::<(), SignInError>(()),
        ),
{
}

/// A request naming a namespace, database and scope signs in to that scope
/// alone: with its token when it has one, else with its user name and
/// password, and is refused for invalid credentials when it has neither.
pub proof fn lemma_sign_in_scope(
    auth: AuthParams,
    database: String,
    namespace: String,
    scope: String,
    conf: Config,
)
    ensures
        spec_sign_in_plan(
            Some(
                RequestScope {
                    auth_params: Some(auth),
                    database: Some(database),
                    namespace: Some(namespace),
                    scope_name: Some(scope),
                },
            ),
            conf,
        ) == match (auth.jwt, auth.username, auth.password) {
            (Some(jwt), _, _) => (
                seq![SignInStep::SignIn(Signin::ScopeJwt { namespace, database, scope, jwt })],
                Ok::<(), SignInError>(()),
            ),
            (None, Some(username), Some(password)) => (
                seq![
                    SignInStep::SignIn(
                        Signin::ScopeUserPass { namespace, database, scope, username, password },
                    ),
                ],
                Ok::<(), SignInError>(()),
            ),
            _ => (Seq::<SignInStep>::empty(), Err::<(), SignInError>(SignInError::InvalidCredentials)),
        },
{
}

/// A request with a user name and password naming a namespace but no scope
/// signs in as a database user when it names a database, and as a namespace
/// user when it does not (whatever scope name it gives then).
pub proof fn lemma_sign_in_database_or_namespace_user(
    auth: AuthParams,
    database: Option<String>,
    namespace: String,
    scope_name: Option<String>,
    conf: Config,
    username: String,
    password: String,
)
    requires
        auth.username == Some(username),
        auth.password == Some(password),
        database is None || scope_name is None,
    ensures
        spec_sign_in_plan(
            Some(
                RequestScope {
                    auth_params: Some(auth),
                    database,
                    namespace: Some(namespace),
                    scope_name,
                },
            ),
            conf,
        ) == match database {
            Some(database) => (
                seq![
                    SignInStep::SignIn(
                        Signin::Database { namespace, database, username, password },
                    ),
                ],
                Ok::<(), SignInError>(()),
            ),
            None => (
                seq![SignInStep::SignIn(Signin::Namespace { namespace, username, password })],
                Ok::<(), SignInError>(()),
            ),
        },
{
}

/// A request with a namespace and no credentials signs in as the link's root
/// user and then selects that namespace and the given database; without a
/// database it is refused after the root sign-in.
pub proof fn lemma_sign_in_namespace_without_credentials(
    database: Option<String>,
    namespace: String,
    scope_name: Option<String>,
    conf: Config,
)
    ensures
        ({
            let (steps, outcome) = spec_sign_in_plan(
                Some(
                    RequestScope {
                        auth_params: None,
                        database,
                        namespace: Some(namespace),
                        scope_name,
                    },
                ),
                conf,
            );
            &&& steps[0] == SignInStep::SignIn(
                Signin::Root { username: conf.user, password: conf.pass },
            )
            &&& match database {
                Some(d) => steps.len() == 2 && steps[1] == (SignInStep::UseNsDb {
                    namespace,
                    database: d,
                }) && outcome == Ok::<(), SignInError>(()),
                None => steps.len() == 1 && outcome == Err::<(), SignInError>(
                    SignInError::InvalidScopeParams,
                ),
            }
        }),
{
}

/// Every sign-in that is not refused outright begins by signing in, and a
/// namespace and database are only selected after a root sign-in.
pub proof fn lemma_sign_in_plan_signs_in_first(scope: Option<RequestScope>, conf: Config)
    ensures
        ({
            let (steps, outcome) = spec_sign_in_plan(scope, conf);
            &&& (outcome is Ok ==> steps.len() >= 1 && steps[0] is SignIn)
            &&& forall|i: int|
                0 <= i < steps.len() && (#[trigger] steps[i]) is UseNsDb ==> i == 1 && steps[0]
                    == SignInStep::SignIn(
                    Signin::Root { username: conf.user, password: conf.pass },
                )
        }),
{
}

/// The error text when a request comes from an actor that has no link.
pub fn missing_client_message(actor_id: &str) -> (res: String)
    ensures
        res@ == "No client defined for actor: "@ + actor_id@,
{
    String::from_str("No client defined for actor: ").concat(actor_id)
}

} // verus!

verus! {

/// The configurations of the links, by actor id, as a list of entries.
pub open spec fn configs_map(es: Seq<(String, Config)>) -> Map<Seq<char>, Config>
    decreases es.len(),
{
    if es.len() == 0 {
        Map::empty()
    } else {
        configs_map(es.drop_last()).insert(es.last().0@, es.last().1)
    }
}

/// No actor id occurs twice.
pub open spec fn distinct_actors(es: Seq<(String, Config)>) -> bool {
    forall|i: int, j: int| 0 <= i < j < es.len() ==> es[i].0@ != es[j].0@
}

proof fn lemma_configs_map_index(es: Seq<(String, Config)>, i: int)
    requires
        distinct_actors(es),
        0 <= i < es.len(),
    ensures
        configs_map(es).contains_key(es[i].0@),
        configs_map(es)[es[i].0@] == es[i].1,
    decreases es.len(),
{
    if i < es.len() - 1 {
        let d = es.drop_last();
        assert(d[i] == es[i]);
        lemma_configs_map_index(d, i);
        assert(es[i].0@ != es.last().0@);
    }
}

proof fn lemma_configs_map_absent(es: Seq<(String, Config)>, k: Seq<char>)
    requires
        forall|i: int| 0 <= i < es.len() ==> (#[trigger] es[i]).0@ != k,
    ensures
        !configs_map(es).contains_key(k),
    decreases es.len(),
{
    if es.len() > 0 {
        let d = es.drop_last();
        assert forall|i: int| 0 <= i < d.len() implies (#[trigger] d[i]).0@ != k by {
            assert(d[i] == es[i]);
        }
        lemma_configs_map_absent(d, k);
    }
}

proof fn lemma_configs_map_update(es: Seq<(String, Config)>, i: int, e: (String, Config))
    requires
        distinct_actors(es),
        0 <= i < es.len(),
        es[i].0@ == e.0@,
    ensures
        configs_map(es.update(i, e)) == configs_map(es).insert(e.0@, e.1),
    decreases es.len(),
{
    let u = es.update(i, e);
    if i == es.len() - 1 {
        assert(u.drop_last() == es.drop_last());
        assert(configs_map(u) =~= configs_map(es).insert(e.0@, e.1));
    } else {
        let d = es.drop_last();
        assert(u.drop_last() == d.update(i, e));
        assert(d[i] == es[i]);
        lemma_configs_map_update(d, i, e);
        assert(es.last().0@ != e.0@);
        assert(configs_map(u) =~= configs_map(es).insert(e.0@, e.1));
    }
}

/// The configuration of each linked actor.
pub struct LinkConfigs {
    entries: Vec<(String, Config)>,
}

impl View for LinkConfigs {
    type V = Map<Seq<char>, Config>;

    closed spec fn view(&self) -> Map<Seq<char>, Config> {
        configs_map(self.entries@)
    }
}

impl LinkConfigs {
    #[verifier::type_invariant]
    spec fn actors_distinct(self) -> bool {
        distinct_actors(self.entries@)
    }

    /// No actor is linked.
    pub fn new() -> (res: LinkConfigs)
        ensures
            res@ == Map::<Seq<char>, Config>::empty(),
    {
        LinkConfigs { entries: Vec::new() }
    }

    /// Records the configuration of a new link of `actor_id`, replacing that
    /// of an earlier link.
    pub fn put_link(&mut self, actor_id: String, config: Config)
        ensures
            final(self)@ == old(self)@.insert(actor_id@, config),
    {
        proof {
            use_type_invariant(&*self);
        }
        let ghost orig = self.entries@;
        let ghost new_entry = (actor_id, config);
        let n = self.entries.len();
        let mut i: usize = 0;
        while i < n
            invariant
                n == self.entries@.len(),
                i <= n,
                self.entries@ == orig,
                orig == old(self).entries@,
                new_entry == (actor_id, config),
                distinct_actors(self.entries@),
                forall|j: int| 0 <= j < i ==> (#[trigger] self.entries@[j]).0@ != actor_id@,
            decreases n - i,
        {
            if str_eq(self.entries[i].0.as_str(), actor_id.as_str()) {
                let ghost e = (actor_id, config);
                proof {
                    lemma_configs_map_update(orig, i as int, e);
                    let u = orig.update(i as int, e);
                    assert forall|a: int, b: int| 0 <= a < b < u.len() implies u[a].0@ != u[b].0@ by {
                        assert(orig[a].0@ != orig[b].0@);
                    }
                }
                let mut es: Vec<(String, Config)> = Vec::new();
                std::mem::swap(&mut es, &mut self.entries);
                es.set(i, (actor_id, config));
                self.entries = es;
                assert(self.entries@ == orig.update(i as int, new_entry));
                return ;
            }
            i = i + 1;
        }
        proof {
            let p = orig.push((actor_id, config));
            assert(p.drop_last() == orig);
            assert forall|a: int, b: int| 0 <= a < b < p.len() implies p[a].0@ != p[b].0@ by {
                if b == p.len() - 1 {
                    assert(p[a] == orig[a]);
                } else {
                    assert(p[a] == orig[a] && p[b] == orig[b]);
                }
            }
        }
        let mut es: Vec<(String, Config)> = Vec::new();
        std::mem::swap(&mut es, &mut self.entries);
        es.push((actor_id, config));
        self.entries = es;
        assert(self.entries@ == orig.push(new_entry));
        assert(self.entries@.drop_last() == orig);
    }

    /// The configuration of `actor_id`'s link, or the error that it has none.
    pub fn get_config(&self, actor_id: &str) -> (res: Result<&Config, String>)
        ensures
            match res {
                Ok(c) => self@.contains_key(actor_id@) && self@[actor_id@] == *c,
                Err(m) => !self@.contains_key(actor_id@) && m@ == "No client defined for actor: "@
                    + actor_id@,
            },
    {
        proof {
            use_type_invariant(self);
        }
        let n = self.entries.len();
        let mut i: usize = 0;
        while i < n
            invariant
                n == self.entries@.len(),
                i <= n,
                distinct_actors(self.entries@),
                forall|j: int| 0 <= j < i ==> (#[trigger] self.entries@[j]).0@ != actor_id@,
            decreases n - i,
        {
            if str_eq(self.entries[i].0.as_str(), actor_id) {
                proof {
                    lemma_configs_map_index(self.entries@, i as int);
                }
                return Ok(&self.entries[i].1);
            }
            i = i + 1;
        }
        proof {
            lemma_configs_map_absent(self.entries@, actor_id@);
        }
        Err(missing_client_message(actor_id))
    }
}

/// The configuration recorded for a link is the one found for its actor
/// until another link of the same actor replaces it; links of other actors
/// leave it as it is.
pub proof fn lemma_put_then_get(before: LinkConfigs, actor: Seq<char>, config: Config, other: Seq<char>)
    ensures
        ({
            let after = before@.insert(actor, config);
            &&& after.contains_key(actor)
            &&& after[actor] == config
            &&& other != actor ==> (after.contains_key(other) == before@.contains_key(other))
            &&& other != actor && before@.contains_key(other) ==> after[other] == before@[other]
        }),
{
}

} // verus!
