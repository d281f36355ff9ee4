use base64::engine::general_purpose::STANDARD;
use base64::Engine;
use dtbh::surreal::{
    config_json_bytes, default_concurrency, default_default_database, default_default_namespace,
    default_host, default_pass, default_port, default_user, missing_client_message,
    query_binding_pairs, query_response, root_credentials, send_error_response, sign_in_plan,
    AuthParams, ClientType, Config, ConfigError, LinkConfigs, PartialConfig, RequestScope, SignInError,
    SignInStep, Signin, StatementOutcome,
};

fn partial_none() -> PartialConfig {
    PartialConfig {
        host: None,
        port: None,
        user: None,
        pass: None,
        concurrency: None,
        default_namespace: None,
        default_database: None,
    }
}

fn conf() -> Config {
    Config::from_partial(partial_none())
}

fn s(x: &str) -> Option<String> {
    Some(x.to_string())
}

fn up(u: &str, p: &str) -> AuthParams {
    AuthParams { username: s(u), password: s(p), jwt: None }
}

fn scope(a: Option<AuthParams>, db: Option<&str>, ns: Option<&str>, sc: Option<&str>) -> Option<RequestScope> {
    Some(RequestScope {
        auth_params: a,
        database: db.map(|x| x.to_string()),
        namespace: ns.map(|x| x.to_string()),
        scope_name: sc.map(|x| x.to_string()),
    })
}

fn root(u: &str, p: &str) -> SignInStep {
    SignInStep::SignIn(Signin::Root { username: u.to_string(), password: p.to_string() })
}

#[test]
fn defaults() {
    assert_eq!(default_host(), "ws://localhost");
    assert_eq!(default_port(), 8000);
    assert_eq!(default_user(), "root");
    assert_eq!(default_pass(), "root");
    assert_eq!(default_concurrency(), 100_000);
    assert_eq!(default_default_namespace(), "ns");
    assert_eq!(default_default_database(), "db");
    assert_eq!(ClientType::default(), ClientType::Ws);
}

#[test]
fn parsed_config_takes_defaults() {
    let c = conf();
    assert_eq!(c.host, "ws://localhost");
    assert_eq!(c.port, 8000);
    assert_eq!(c.user, "root");
    assert_eq!(c.pass, "root");
    assert_eq!(c.concurrency, 100_000);
    assert_eq!(c.default_namespace, "ns");
    assert_eq!(c.default_database, "db");
    assert_eq!(c.get_url(), "ws://localhost:8000");
    let mut p = partial_none();
    p.host = s("wss://db.example");
    p.port = Some(443);
    p.default_database = s("reports");
    let c = Config::from_partial(p);
    assert_eq!(c.get_url(), "wss://db.example:443");
    assert_eq!(c.default_database, "reports");
    assert_eq!(c.default_namespace, "ns");
}

#[test]
fn default_config_is_empty() {
    let c = Config::default();
    assert_eq!(c.host, "");
    assert_eq!(c.port, 0);
    assert_eq!(c.concurrency, 0);
    assert_eq!(c.get_url(), ":0");
}

#[test]
fn config_sources() {
    // base64 of {"port":8001}
    assert_eq!(
        config_json_bytes(Some("eyJwb3J0Ijo4MDAxfQ=="), Some("ignored")),
        Ok(b"{\"port\":8001}".to_vec())
    );
    assert_eq!(config_json_bytes(Some("not base64!"), None), Err(ConfigError::InvalidBase64));
    // Padding is required.
    assert_eq!(config_json_bytes(Some("eyJwb3J0Ijo4MDAxfQ"), None), Err(ConfigError::InvalidBase64));
    assert_eq!(config_json_bytes(None, Some("{\"user\":\"me\"}")), Ok(b"{\"user\":\"me\"}".to_vec()));
    assert_eq!(config_json_bytes(None, None), Ok(b"{}".to_vec()));
}

#[test]
fn config_error_messages() {
    assert_eq!(ConfigError::InvalidBase64.message(), "invalid config_base64 encoding");
    assert_eq!(ConfigError::InvalidJson("eof".to_string()).message(), "invalid json config: eof");
    assert_eq!(
        ConfigError::InvalidEmpty("x".to_string()).message(),
        "can't deserialise empty config: x"
    );
}

#[test]
fn root_credentials_of_config() {
    let r = root_credentials(&conf());
    assert_eq!(r.username, "root");
    assert_eq!(r.password, "root");
}

#[test]
fn sign_in_without_scope_uses_root_and_defaults() {
    let plan = sign_in_plan(&None, &conf());
    assert_eq!(
        plan.steps,
        vec![
            root("root", "root"),
            SignInStep::UseNsDb { namespace: "ns".to_string(), database: "db".to_string() }
        ]
    );
    assert_eq!(plan.outcome, Ok(()));
}

#[test]
fn sign_in_scope_user() {
    let plan = sign_in_plan(&scope(Some(up("u", "p")), Some("d"), Some("n"), Some("sc")), &conf());
    assert_eq!(
        plan.steps,
        vec![SignInStep::SignIn(Signin::ScopeUserPass {
            namespace: "n".to_string(),
            database: "d".to_string(),
            scope: "sc".to_string(),
            username: "u".to_string(),
            password: "p".to_string(),
        })]
    );
    assert_eq!(plan.outcome, Ok(()));
    // A token wins over a user name and password.
    let a = AuthParams { username: s("u"), password: s("p"), jwt: s("t") };
    let plan = sign_in_plan(&scope(Some(a), Some("d"), Some("n"), Some("sc")), &conf());
    assert_eq!(
        plan.steps,
        vec![SignInStep::SignIn(Signin::ScopeJwt {
            namespace: "n".to_string(),
            database: "d".to_string(),
            scope: "sc".to_string(),
            jwt: "t".to_string(),
        })]
    );
}

#[test]
fn sign_in_database_namespace_and_root_users() {
    let plan = sign_in_plan(&scope(Some(up("u", "p")), Some("d"), Some("n"), None), &conf());
    assert_eq!(
        plan.steps,
        vec![SignInStep::SignIn(Signin::Database {
            namespace: "n".to_string(),
            database: "d".to_string(),
            username: "u".to_string(),
            password: "p".to_string(),
        })]
    );
    let plan = sign_in_plan(&scope(Some(up("u", "p")), None, Some("n"), Some("sc")), &conf());
    assert_eq!(
        plan.steps,
        vec![SignInStep::SignIn(Signin::Namespace {
            namespace: "n".to_string(),
            username: "u".to_string(),
            password: "p".to_string(),
        })]
    );
    let plan = sign_in_plan(&scope(Some(up("u", "p")), Some("d"), None, None), &conf());
    assert_eq!(plan.steps, vec![root("u", "p")]);
    assert_eq!(plan.outcome, Ok(()));
}

#[test]
fn sign_in_refusals() {
    let only_user = AuthParams { username: s("u"), password: None, jwt: None };
    let plan = sign_in_plan(&scope(Some(only_user), Some("d"), Some("n"), None), &conf());
    assert!(plan.steps.is_empty());
    assert_eq!(plan.outcome, Err(SignInError::InvalidCredentials));
    // A token alone is only accepted for a scope sign-in.
    let token = AuthParams { username: None, password: None, jwt: s("t") };
    let plan = sign_in_plan(&scope(Some(token), None, None, None), &conf());
    assert_eq!(plan.outcome, Err(SignInError::InvalidCredentials));
    let plan = sign_in_plan(&scope(None, Some("d"), None, None), &conf());
    assert!(plan.steps.is_empty());
    assert_eq!(plan.outcome, Err(SignInError::InvalidScopeParams));
}

#[test]
fn sign_in_namespace_without_credentials() {
    let plan = sign_in_plan(&scope(None, Some("d"), Some("n"), None), &conf());
    assert_eq!(
        plan.steps,
        vec![
            root("root", "root"),
            SignInStep::UseNsDb { namespace: "n".to_string(), database: "d".to_string() }
        ]
    );
    assert_eq!(plan.outcome, Ok(()));
    let plan = sign_in_plan(&scope(None, None, Some("n"), None), &conf());
    assert_eq!(plan.steps, vec![root("root", "root")]);
    assert_eq!(plan.outcome, Err(SignInError::InvalidScopeParams));
}

#[test]
fn sign_in_error_messages() {
    assert_eq!(
        SignInError::InvalidCredentials.message(),
        "Invalid combination of username, password and JWT"
    );
    assert_eq!(SignInError::InvalidScopeParams.message(), "Invalid combination of scope params");
}

#[test]
fn query_results() {
    let r = query_response(vec![
        StatementOutcome::Values(b"[1]".to_vec()),
        StatementOutcome::QueryFailed("bad".to_string()),
        StatementOutcome::SerializeFailed("ser".to_string()),
    ]);
    assert_eq!(r.response, vec![b"[1]".to_vec(), vec![], vec![]]);
    assert_eq!(r.errors.len(), 2);
    assert_eq!((r.errors[0].message.as_str(), r.errors[0].name.as_str()), ("bad", "query_error"));
    assert_eq!(
        (r.errors[1].message.as_str(), r.errors[1].name.as_str()),
        ("ser", "serde_json_error")
    );
    let e = send_error_response("offline".to_string());
    assert!(e.response.is_empty());
    assert_eq!(e.errors.len(), 1);
    assert_eq!(e.errors[0].name, "QUERY_SEND_ERROR");
    assert_eq!(e.errors[0].message, "offline");
}

#[test]
fn bindings_pair_with_queries() {
    assert_eq!(query_binding_pairs(3, &vec![true, false, true, true]), vec![(0, 0), (1, 2), (2, 3)]);
    assert_eq!(query_binding_pairs(1, &vec![false, true, true]), vec![(0, 1)]);
    assert_eq!(query_binding_pairs(4, &vec![true]), vec![(0, 0)]);
    assert!(query_binding_pairs(2, &vec![]).is_empty());
}

#[test]
fn missing_client() {
    assert_eq!(missing_client_message("M123"), "No client defined for actor: M123");
}

#[test]
fn link_configs_by_actor() {
    let mut links = LinkConfigs::new();
    assert_eq!(links.get_config("A1"), Err("No client defined for actor: A1".to_string()));
    links.put_link("A1".to_string(), conf());
    let mut other = conf();
    other.port = 9000;
    links.put_link("A2".to_string(), other.clone());
    assert_eq!(links.get_config("A1"), Ok(&conf()));
    assert_eq!(links.get_config("A2"), Ok(&other));
    // A new link of the same actor replaces its configuration.
    links.put_link("A1".to_string(), other.clone());
    assert_eq!(links.get_config("A1"), Ok(&other));
}

#[test]
fn base64_config_is_read_as_its_json() {
    use_engine_round_trip("{\"port\":8001}", "{\"user\":\"x\"}");
    use_engine_round_trip("", "{}");
    use_engine_round_trip("{\"host\":\"ws://db\"}", "ignored");
}

fn use_engine_round_trip(json: &str, other: &str) {
    let encoded = STANDARD.encode(json);
    assert_eq!(
        config_json_bytes(Some(&encoded), Some(other)),
        config_json_bytes(None, Some(json))
    );
}
