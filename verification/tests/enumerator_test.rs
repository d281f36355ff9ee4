use dtbh::enumerator::{
    after_names, after_resolving, after_scanning, EnumerationStep, concurrency_from_link, crt_sh_url, enumeration_failed, enumeration_succeeded, lookup_address,
    open_ports, parse_crt_sh_response, port_status, resolved_subdomains, scanned_subdomains,
    subdomains_from_names, with_original_subdomain, CrtShEntry,
};
use dtbh::model::{Port, RunScansRequest, Subdomain, Timestamp};

fn sub(name: &str) -> Subdomain {
    Subdomain { subdomain: name.to_string(), open_ports: vec![] }
}

fn entries_from_json(raw: &str) -> Vec<CrtShEntry> {
    let value: serde_json::Value = serde_json::from_str(raw).unwrap();
    value
        .as_array()
        .unwrap()
        .iter()
        .map(|e| CrtShEntry { name_value: e["name_value"].as_str().unwrap().to_string() })
        .collect()
}

#[test]
fn test_parse_crt_sh_response() {
    let raw_response = r#"
        [
          {
            "issuer_ca_id": 1397,
            "issuer_name": "C=US, O=DigiCert Inc, OU=www.digicert.com, CN=DigiCert SHA2 High Assurance Server CA",
            "common_name": "*.github.com",
            "name_value": "*.github.com\ngithub.com",
            "id": 7264603,
            "entry_timestamp": "2015-04-22T16:20:13.18",
            "not_before": "2015-03-23T00:00:00",
            "not_after": "2017-03-27T12:00:00",
            "serial_number": "086cb1fa40c81e2512eacf2ea9444e53"
          },
          {
            "issuer_ca_id": 1397,
            "issuer_name": "C=US, O=DigiCert Inc, OU=www.digicert.com, CN=DigiCert SHA2 High Assurance Server CA",
            "common_name": "www.github.com",
            "name_value": "*.github.com\ngithub.com\nwww.github.com",
            "id": 12168459,
            "entry_timestamp": "2016-01-22T12:10:42.119",
            "not_before": "2016-01-20T00:00:00",
            "not_after": "2017-04-06T12:00:00",
            "serial_number": "077a5dc3362301f989fe54f7f86f3e64"
          },
          {
            "issuer_ca_id": 1397,
            "issuer_name": "C=US, O=DigiCert Inc, OU=www.digicert.com, CN=DigiCert SHA2 High Assurance Server CA",
            "common_name": "support.enterprise.github.com",
            "name_value": "support.enterprise.github.com",
            "id": 12061525,
            "entry_timestamp": "2016-01-17T11:20:30.986",
            "not_before": "2016-01-14T00:00:00",
            "not_after": "2018-01-18T12:00:00",
            "serial_number": "067d421fee3ee376cfcae377f6864731"
          }
        ]
        "#;

    let crt_sh_response = entries_from_json(raw_response);

    let subdomains = parse_crt_sh_response(crt_sh_response);

    assert_eq!(subdomains.len(), 3);
    assert!(subdomains.contains(&"github.com".to_string()));
    assert!(subdomains.contains(&"www.github.com".to_string()));
    assert!(subdomains.contains(&"support.enterprise.github.com".to_string()));
}

#[test]
fn crt_sh_names_are_trimmed_and_listed_once() {
    let entries = vec![
        CrtShEntry { name_value: " b.example.com \r\n*.example.com\na.example.com".to_string() },
        CrtShEntry { name_value: "a.example.com\nb.example.com\n\tc.example.com".to_string() },
    ];
    let mut names = parse_crt_sh_response(entries);
    names.sort();
    assert_eq!(names, vec!["a.example.com", "b.example.com", "c.example.com"]);
}

#[test]
fn crt_sh_empty_answer_gives_no_names() {
    assert!(parse_crt_sh_response(vec![]).is_empty());
    let only_wildcards = vec![CrtShEntry { name_value: "*.a.com\n*b.com".to_string() }];
    assert!(parse_crt_sh_response(only_wildcards).is_empty());
}

#[test]
fn names_become_bare_subdomains() {
    let subs = subdomains_from_names(vec!["x.com".to_string(), "y.com".to_string()]);
    assert_eq!(subs, vec![sub("x.com"), sub("y.com")]);
}

#[test]
fn original_target_is_added_once() {
    let added = with_original_subdomain(vec![sub("a.com")], "b.com");
    assert_eq!(added, vec![sub("a.com"), sub("b.com")]);
    let kept = with_original_subdomain(vec![sub("b.com"), sub("a.com")], "b.com");
    assert_eq!(kept, vec![sub("b.com"), sub("a.com")]);
}

#[test]
fn unresolvable_subdomains_are_dropped() {
    let subs = vec![sub("a"), sub("b"), sub("c")];
    assert_eq!(resolved_subdomains(&subs, &vec![true, false, true]), vec![sub("a"), sub("c")]);
    // A subdomain with no answer counts as unresolved.
    assert_eq!(resolved_subdomains(&subs, &vec![false, true]), vec![sub("b")]);
}

#[test]
fn failed_port_scans_are_dropped() {
    let results = vec![Some(sub("a")), None, Some(sub("c"))];
    assert_eq!(scanned_subdomains(&results), vec![sub("a"), sub("c")]);
}

#[test]
fn only_open_ports_are_kept() {
    let ports = vec![port_status(80, true), port_status(22, false), port_status(443, true)];
    let open: Vec<u16> = open_ports(&ports).iter().map(|p| p.port).collect();
    assert_eq!(open, vec![80, 443]);
    let p = port_status(8080, false);
    assert_eq!(p, Port { port: 8080, is_open: false, findings: vec![] });
}

#[test]
fn addresses_and_urls() {
    assert_eq!(lookup_address(&sub("github.com")), "github.com:1024");
    assert_eq!(crt_sh_url("github.com"), "https://crt.sh/?q=%25.github.com&output=json");
}

#[test]
fn link_concurrency_defaults_to_one() {
    assert_eq!(concurrency_from_link(Some("16")), 16);
    assert_eq!(concurrency_from_link(Some("sixteen")), 1);
    assert_eq!(concurrency_from_link(Some("")), 1);
    assert_eq!(concurrency_from_link(None), 1);
    let n = 4096usize;
    assert_eq!(concurrency_from_link(Some(&n.to_string())), n);
}

#[test]
fn enumeration_responses_carry_the_request() {
    let req = RunScansRequest { target: "t.com".to_string(), jwt: "tok".to_string() };
    let ts = Timestamp { sec: 5, nsec: 6 };
    let failed = enumeration_failed("boom".to_string(), ts, &req);
    assert!(!failed.success);
    assert_eq!(failed.reason, Some("boom".to_string()));
    assert_eq!(failed.subdomains, None);
    assert_eq!(failed.target, "t.com");
    assert_eq!(failed.jwt, "tok");
    assert_eq!(failed.timestamp, ts);
}

#[test]
fn successful_enumeration_lists_the_subdomains() {
    let req = RunScansRequest { target: "t.com".to_string(), jwt: "tok".to_string() };
    let ts = Timestamp { sec: 1, nsec: 2 };
    let ok = enumeration_succeeded(vec![sub("a.t.com")], ts, &req);
    assert!(ok.success);
    assert_eq!(ok.reason, None);
    assert_eq!(ok.subdomains, Some(vec![sub("a.t.com")]));
    assert_eq!(ok.target, "t.com");
    assert_eq!(ok.jwt, "tok");
    assert_eq!(ok.timestamp, ts);
}

#[test]
fn enumeration_steps_in_order() {
    let req = RunScansRequest { target: "t.com".to_string(), jwt: "tok".to_string() };
    let ts = Timestamp { sec: 9, nsec: 0 };
    match after_names(&req, ts, Err("crt.sh down".to_string())) {
        EnumerationStep::Report(r) => {
            assert!(!r.success);
            assert_eq!(r.reason, Some("crt.sh down".to_string()));
        }
        _ => panic!(),
    }
    let subs = match after_names(&req, ts, Ok(vec![sub("a.t.com")])) {
        EnumerationStep::Resolve(s) => s,
        _ => panic!(),
    };
    assert_eq!(subs, vec![sub("a.t.com"), sub("t.com")]);
    match after_resolving(&req, ts, &subs, Err("no resolver".to_string())) {
        EnumerationStep::Report(r) => assert_eq!(r.reason, Some("no resolver".to_string())),
        _ => panic!(),
    }
    let resolved = match after_resolving(&req, ts, &subs, Ok(vec![false, true])) {
        EnumerationStep::ScanPorts(s) => s,
        _ => panic!(),
    };
    assert_eq!(resolved, vec![sub("t.com")]);
    let report = after_scanning(&req, ts, &vec![Some(sub("t.com")), None]);
    assert!(report.success);
    assert_eq!(report.subdomains, Some(vec![sub("t.com")]));
    assert_eq!(report.timestamp, ts);
}
