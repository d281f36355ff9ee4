use dtbh::model::{Finding, Port, ScanEndpointParams, ScanEndpointResult, Subdomain, Timestamp};
use dtbh::scanner::{
    DotEnvActor, ScannerModule, SqliDetectionActor, TemplateActor,
    analyse_response, dotenv_finding, dotenv_request, dotenv_url, finish_scan, get_request,
    pub_message, report_for_result, result_message, scan_failure_result, scan_urls, sqli_finding,
    sqli_payloads, sqli_request, DOTENV_SCANNER_NAME, SQLI_SCANNER_NAME,
};

fn port(n: u16, open: bool) -> Port {
    Port { port: n, is_open: open, findings: vec![] }
}

fn finding(kind: &str, url: &str) -> Finding {
    Finding { finding_type: kind.to_string(), url: url.to_string() }
}

fn params(ports: Vec<Port>) -> ScanEndpointParams {
    ScanEndpointParams {
        subdomain: Subdomain { subdomain: "api.t.com".to_string(), open_ports: ports },
        user_agent_tag: None,
        jwt: "tok".to_string(),
        timestamp: Timestamp { sec: 10, nsec: 0 },
        target: "t.com".to_string(),
    }
}

#[test]
fn scan_urls_cover_open_ports() {
    let p = params(vec![port(80, true), port(22, false), port(8443, true)]);
    assert_eq!(scan_urls(&p), vec!["http://api.t.com:80", "http://api.t.com:8443"]);
    assert!(scan_urls(&params(vec![])).is_empty());
}

#[test]
fn finished_scan_keeps_ports_with_findings() {
    let p = params(vec![port(80, true), port(22, false), port(8443, true), port(9000, true)]);
    let fs = vec![None, Some(finding("dotenv-disclosure", "http://api.t.com:8443/.env"))];
    let r = finish_scan(p, fs);
    assert!(r.success);
    assert_eq!(r.reason, None);
    assert_eq!(r.target, "t.com");
    assert_eq!(r.jwt, "tok");
    assert_eq!(r.timestamp, Timestamp { sec: 10, nsec: 0 });
    let s = r.subdomain.unwrap();
    assert_eq!(s.subdomain, "api.t.com");
    assert_eq!(
        s.open_ports,
        vec![Port {
            port: 8443,
            is_open: true,
            findings: vec![finding("dotenv-disclosure", "http://api.t.com:8443/.env")]
        }]
    );
}

#[test]
fn earlier_findings_are_kept() {
    let mut p80 = port(80, true);
    p80.findings.push(finding("sqli-detection", "x"));
    let r = finish_scan(params(vec![p80.clone()]), vec![]);
    assert_eq!(r.subdomain.unwrap().open_ports, vec![p80]);
}

#[test]
fn failure_and_reports() {
    let ts = Timestamp { sec: 3, nsec: 4 };
    let f = scan_failure_result("dotenv-disclosure", "timeout", "t.com".to_string(), ts, "j".to_string());
    assert!(!f.success);
    assert_eq!(f.reason, Some("dotenv-disclosure failed: timeout".to_string()));
    assert_eq!(f.subdomain, None);
    assert_eq!(report_for_result(f), None);

    let sub = Subdomain { subdomain: "a.t.com".to_string(), open_ports: vec![] };
    let ok = ScanEndpointResult {
        subdomain: Some(sub.clone()),
        reason: None,
        success: true,
        target: "t.com".to_string(),
        timestamp: ts,
        jwt: "j".to_string(),
    };
    let report = report_for_result(ok).unwrap();
    assert_eq!(report.subdomains, vec![sub]);
    assert_eq!(report.target, "t.com");
    assert_eq!(report.user_id, "j");
    assert_eq!(report.timestamp, ts);
}

#[test]
fn messages() {
    let m = result_message(b"{}".to_vec());
    assert_eq!(m.subject, "dtbh.reports.in");
    assert_eq!(m.reply_to, None);
    assert_eq!(m.body, b"{}".to_vec());
    let m = pub_message("x.y", vec![1, 2]);
    assert_eq!(m.subject, "x.y");
    assert_eq!(m.body, vec![1, 2]);
}

#[test]
fn dotenv_probe() {
    assert_eq!(dotenv_url("http://a.com:80"), "http://a.com:80/.env");
    let req = dotenv_request("http://a.com:80/.env", &Some("bughunter".to_string()));
    assert_eq!(req.method, "GET");
    assert_eq!(req.url, "http://a.com:80/.env");
    assert_eq!(req.headers.get("User-Agent"), Some(&vec!["bughunter".to_string()]));
    assert!(req.body.is_empty());
    let req = dotenv_request("u", &None);
    assert!(req.headers.entries().is_empty());
    let g = get_request("http://x");
    assert_eq!((g.method.as_str(), g.url.as_str()), ("GET", "http://x"));
}

#[test]
fn dotenv_findings_on_success_status() {
    assert_eq!(
        dotenv_finding("u".to_string(), 200),
        Some(finding(DOTENV_SCANNER_NAME, "u"))
    );
    assert!(dotenv_finding("u".to_string(), 299).is_some());
    assert!(dotenv_finding("u".to_string(), 199).is_none());
    assert!(dotenv_finding("u".to_string(), 300).is_none());
    assert!(dotenv_finding("u".to_string(), 404).is_none());
}

#[test]
fn sqli_payloads_are_url_encoded() {
    let payloads = sqli_payloads("id\npage\n", "' OR 1=1--\n\"");
    assert_eq!(
        payloads,
        vec![
            "%3Fid%3D%27%20OR%201%3D1--",
            "%3Fid%3D%22",
            "%3Fpage%3D%27%20OR%201%3D1--",
            "%3Fpage%3D%22",
        ]
    );
    let expected: Vec<String> = "a_b\nc.d~"
        .lines()
        .flat_map(|p| {
            "é".lines().map(move |s| urlencoding::encode(&format!("?{p}={s}")).into_owned())
        })
        .collect();
    assert_eq!(sqli_payloads("a_b\nc.d~", "é"), expected);
    assert_eq!(sqli_payloads("a_b", "é"), vec!["%3Fa_b%3D%C3%A9"]);
    assert!(sqli_payloads("", "x").is_empty());
}

#[test]
fn sqli_probe_request() {
    let r = sqli_request("http://a.com:80", "%3Fid%3D1");
    assert_eq!(r.method, "GET");
    assert_eq!(r.url, "http://a.com:80/%3Fid%3D1");
    assert!(r.headers.entries().is_empty());
}

#[test]
fn responses_that_suggest_injection() {
    assert!(analyse_response(b"\"You have an error in your SQL syntax\""));
    assert!(analyse_response(b"\"unexpected token at LINE 3\""));
    assert!(analyse_response(b"\"Syntax\""));
    assert!(!analyse_response(b"\"all good\""));
    // Only a JSON string body counts.
    assert!(!analyse_response(b"SQL syntax error"));
    assert!(!analyse_response(b"{\"msg\":\"sql\"}"));
    assert!(!analyse_response(b""));
    // Escapes are decoded before the search.
    assert!(analyse_response(b"\"\\u0053QL\""));
}

#[test]
fn sqli_finding_joins_flagged_urls() {
    let urls = vec!["u1".to_string(), "u2".to_string(), "u3".to_string()];
    assert_eq!(
        sqli_finding(&urls, &vec![true, false, true]),
        Some(finding(SQLI_SCANNER_NAME, "u1u3"))
    );
    assert_eq!(sqli_finding(&urls, &vec![false, false, false]), None);
    assert_eq!(sqli_finding(&urls, &vec![]), None);
}

#[test]
fn scanner_module_names_and_topics() {
    assert_eq!(DotEnvActor::name(), "dotenv-disclosure");
    assert_eq!(SqliDetectionActor::name(), "sqli-detection");
    assert_eq!(TemplateActor::name(), "template");
    assert_eq!(DotEnvActor::pub_topic(), "dtbh.reports.in");
    assert_eq!(SqliDetectionActor::sub_topic(), "dtbh.tasks");
}
