use dtbh::cli::{
    find_cookie, handle_auth_response, reports_outcome, scan_outcome, time_bound, AuthArgs, AuthOutcome, Cli, CliError,
    Commands, Expect, JwtSource, ENV_JWT, JWT_DIR, URL,
};

fn cli(jwt: Option<&str>, command: Commands) -> Cli {
    Cli { jwt: jwt.map(|j| j.to_string()), jwt_path: None, command }
}

fn auth_args(print_jwt: bool) -> AuthArgs {
    AuthArgs { username: "alice".to_string(), password: "p\"w".to_string(), print_jwt }
}

fn reports() -> Commands {
    Commands::Reports {
        target: vec![],
        start_time: None,
        end_time: None,
        start_timestamp: None,
        end_timestamp: None,
    }
}

fn cookies(pairs: &[(&str, &str)]) -> Vec<(String, String)> {
    pairs.iter().map(|(n, v)| (n.to_string(), v.to_string())).collect()
}

#[test]
fn constants() {
    assert_eq!(URL, "https://divine-ocean-2029.cosmonic.app");
    assert_eq!(ENV_JWT, "DTBH_ENV");
    assert_eq!(JWT_DIR, ".dtbh");
}

#[test]
fn token_sources_in_order() {
    let c = cli(Some("flag"), reports());
    assert_eq!(c.jwt_source(Some("env".to_string())), JwtSource::Known(Some("flag".to_string())));
    let c = cli(None, reports());
    assert_eq!(c.jwt_source(Some("env".to_string())), JwtSource::Known(Some("env".to_string())));
    assert_eq!(c.jwt_source(Some(String::new())), JwtSource::Known(None));
    assert_eq!(c.jwt_source(None), JwtSource::ReadFile);
}

#[test]
fn scan_command() {
    let targets = vec!["a.com".to_string(), "b\"c.com".to_string()];
    let c = cli(None, Commands::Scan { target: targets.clone() });
    let req = c.process_command(Some("tok".to_string())).unwrap();
    assert_eq!(req.url, "https://divine-ocean-2029.cosmonic.app/scan");
    assert_eq!(req.bearer, Some("tok".to_string()));
    assert_eq!(req.expect, Expect::ScanStarted);
    let body = req.body.unwrap();
    assert_eq!(body, "{\"targets\":[\"a.com\",\"b\\\"c.com\"]}");
    let parsed: serde_json::Value = serde_json::from_str(&body).unwrap();
    assert_eq!(parsed["targets"][1].as_str(), Some("b\"c.com"));

    assert_eq!(c.process_command(None), Err(CliError::NoJwt));
    let empty = cli(None, Commands::Scan { target: vec![] });
    assert_eq!(empty.process_command(Some("t".to_string())), Err(CliError::NoTargets));
    // Without a token the missing token is reported first.
    assert_eq!(empty.process_command(None), Err(CliError::NoJwt));
}

#[test]
fn auth_commands() {
    let c = cli(None, Commands::SignUp(auth_args(true)));
    let req = c.process_command(None).unwrap();
    assert_eq!(req.url, "https://divine-ocean-2029.cosmonic.app/sign_up");
    assert_eq!(req.body, Some("{\"password\":\"p\\\"w\",\"username\":\"alice\"}".to_string()));
    assert_eq!(req.bearer, None);
    assert_eq!(req.expect, Expect::Auth { print_jwt: true });
    let c = cli(Some("ignored"), Commands::SignIn(auth_args(false)));
    let req = c.process_command(Some("ignored".to_string())).unwrap();
    assert_eq!(req.url, "https://divine-ocean-2029.cosmonic.app/sign_in");
    assert_eq!(req.bearer, None);
    assert_eq!(req.expect, Expect::Auth { print_jwt: false });
    let parsed: serde_json::Value = serde_json::from_str(&req.body.unwrap()).unwrap();
    assert_eq!(parsed["username"].as_str(), Some("alice"));
    assert_eq!(parsed["password"].as_str(), Some("p\"w"));
}

#[test]
fn reports_command() {
    let c = cli(None, reports());
    assert_eq!(c.process_command(None), Err(CliError::NoJwt));
    let req = c.process_command(Some("t".to_string())).unwrap();
    assert_eq!(req.url, "https://divine-ocean-2029.cosmonic.app/reports");
    assert_eq!(
        req.body,
        Some("{\"jwt\":\"t\",\"target\":[],\"start_timestamp\":null,\"end_timestamp\":null}".to_string())
    );
    assert_eq!(req.bearer, Some("t".to_string()));
    assert_eq!(req.expect, Expect::Reports);
}

#[test]
fn reports_filters_prefer_seconds() {
    let c = cli(
        None,
        Commands::Reports {
            target: vec!["a.com".to_string(), "b.com".to_string()],
            start_time: Some("2023-05-01T12:00:00Z".to_string()),
            end_time: Some("2023-05-02".to_string()),
            start_timestamp: Some(-5),
            end_timestamp: None,
        },
    );
    let req = c.process_command(Some("tok".to_string())).unwrap();
    let body = req.body.unwrap();
    assert_eq!(
        body,
        "{\"jwt\":\"tok\",\"target\":[\"a.com\",\"b.com\"],\"start_timestamp\":{\"sec\":-5,\"nsec\":0},\"end_timestamp\":{\"sec\":1682985600,\"nsec\":0}}"
    );
    let parsed: serde_json::Value = serde_json::from_str(&body).unwrap();
    assert_eq!(parsed["end_timestamp"]["sec"].as_i64(), Some(1682985600));
    assert_eq!(req.bearer, Some("tok".to_string()));

    let iso_only = cli(
        None,
        Commands::Reports {
            target: vec![],
            start_time: Some("2023-05-01T12:00:00.25+02:00".to_string()),
            end_time: None,
            start_timestamp: None,
            end_timestamp: Some(i64::MIN),
        },
    );
    let body = iso_only.process_command(Some("t".to_string())).unwrap().body.unwrap();
    let parsed: serde_json::Value = serde_json::from_str(&body).unwrap();
    assert_eq!(parsed["start_timestamp"]["sec"].as_i64(), Some(1682935200));
    assert_eq!(parsed["start_timestamp"]["nsec"].as_u64(), Some(250_000_000));
    assert_eq!(parsed["end_timestamp"]["sec"].as_i64(), Some(i64::MIN));
}

#[test]
fn reports_with_a_bad_time() {
    let c = cli(
        None,
        Commands::Reports {
            target: vec![],
            start_time: Some("yesterday".to_string()),
            end_time: None,
            start_timestamp: None,
            end_timestamp: None,
        },
    );
    assert_eq!(
        c.process_command(Some("t".to_string())),
        Err(CliError::InvalidTime("yesterday".to_string()))
    );
    assert_eq!(
        CliError::InvalidTime("yesterday".to_string()).message(),
        "Invalid ISO 8601 time: yesterday"
    );
    assert_eq!(reports_outcome(true, "200 OK".to_string(), "[]".to_string()), Ok("[]".to_string()));
    assert_eq!(
        reports_outcome(false, "404 Not Found".to_string(), String::new()),
        Err(CliError::ReportsFailed("404 Not Found".to_string()))
    );
    assert_eq!(
        CliError::ReportsFailed("404 Not Found".to_string()).message(),
        "Failed to fetch reports: 404 Not Found"
    );
    assert_eq!(time_bound(&None, None), Ok(None));
}

#[test]
fn error_messages() {
    assert_eq!(CliError::NoJwt.message(), "No JWT provided, please sign in or sign up");
    assert_eq!(
        CliError::NoTargets.message(),
        "No targets provided, please provide at least one target"
    );
    assert_eq!(
        CliError::ScanFailed("500 Internal Server Error".to_string()).message(),
        "Scan failed to start: 500 Internal Server Error"
    );
    assert_eq!(
        CliError::AuthenticationFailed("nope".to_string()).message(),
        "Authentication failed: nope"
    );
    assert_eq!(CliError::NoJwtInResponse.message(), "No JWT found in response");
}

#[test]
fn scan_outcomes() {
    assert_eq!(scan_outcome(true, "200 OK".to_string()), Ok(()));
    assert_eq!(
        scan_outcome(false, "401 Unauthorized".to_string()),
        Err(CliError::ScanFailed("401 Unauthorized".to_string()))
    );
}

#[test]
fn cookies_are_found_by_name() {
    let cs = cookies(&[("a", "1"), ("jwt", "first"), ("jwt", "second")]);
    assert_eq!(find_cookie(&cs, "jwt"), Some("first".to_string()));
    assert_eq!(find_cookie(&cs, "JWT"), None);
    assert_eq!(find_cookie(&vec![], "jwt"), None);
}

#[test]
fn auth_answers() {
    let cs = cookies(&[("jwt", "tok")]);
    assert_eq!(
        handle_auth_response(true, String::new(), &cs, true),
        Ok(AuthOutcome::Print("tok".to_string()))
    );
    assert_eq!(
        handle_auth_response(true, String::new(), &cs, false),
        Ok(AuthOutcome::Store("tok".to_string()))
    );
    assert_eq!(
        handle_auth_response(true, String::new(), &vec![], false),
        Err(CliError::NoJwtInResponse)
    );
    assert_eq!(
        handle_auth_response(false, "bad password".to_string(), &cs, true),
        Err(CliError::AuthenticationFailed("bad password".to_string()))
    );
}
