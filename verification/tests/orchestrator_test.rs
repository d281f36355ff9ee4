use dtbh::model::{EnumerateEndpointsResponse, Port, Subdomain, Timestamp, WriteReportResult};
use dtbh::orchestrator::{
    continue_after_report, report_out_message, report_request, scan_tasks, task_message,
    write_report_result, ReportWriteOutcome,
};

fn sub(name: &str) -> Subdomain {
    Subdomain {
        subdomain: name.to_string(),
        open_ports: vec![Port { port: 443, is_open: true, findings: vec![] }],
    }
}

fn response(subdomains: Option<Vec<Subdomain>>) -> EnumerateEndpointsResponse {
    EnumerateEndpointsResponse {
        reason: None,
        success: subdomains.is_some(),
        subdomains,
        timestamp: Timestamp { sec: 100, nsec: 7 },
        target: "t.com".to_string(),
        jwt: "tok".to_string(),
    }
}

#[test]
fn report_is_requested_for_found_subdomains() {
    let r = report_request(&response(Some(vec![sub("a.t.com")]))).unwrap();
    assert_eq!(r.jwt, "tok");
    assert_eq!(r.report.subdomains, vec![sub("a.t.com")]);
    assert_eq!(r.report.target, "t.com");
    assert_eq!(r.report.timestamp, Timestamp { sec: 100, nsec: 7 });
    assert_eq!(r.report.user_id, "");
    assert!(report_request(&response(None)).is_none());
}

#[test]
fn timeouts_do_not_stop_the_scans() {
    let answered = WriteReportResult { message: None, success: false };
    assert!(continue_after_report(&ReportWriteOutcome::Answered(answered)));
    assert!(continue_after_report(&ReportWriteOutcome::TimedOut));
    assert!(continue_after_report(&ReportWriteOutcome::DeadlineExceeded));
    assert!(!continue_after_report(&ReportWriteOutcome::Failed("refused".to_string())));
}

#[test]
fn one_task_per_subdomain() {
    let tasks = scan_tasks(&response(Some(vec![sub("a.t.com"), sub("b.t.com")])));
    assert_eq!(tasks.len(), 2);
    assert_eq!(tasks[0].subdomain, sub("a.t.com"));
    assert_eq!(tasks[1].subdomain, sub("b.t.com"));
    for t in &tasks {
        assert_eq!(t.user_agent_tag, None);
        assert_eq!(t.jwt, "tok");
        assert_eq!(t.target, "t.com");
        assert_eq!(t.timestamp, Timestamp { sec: 100, nsec: 7 });
    }
    assert!(scan_tasks(&response(None)).is_empty());
}

#[test]
fn orchestrator_messages() {
    let m = task_message(b"{}".to_vec());
    assert_eq!(m.subject, "dtbh.tasks");
    assert_eq!(m.reply_to, None);
    assert_eq!(m.body, b"{}".to_vec());
    let m = report_out_message("{\n  \"target\": \"t\"\n}");
    assert_eq!(m.subject, "dtbh.reports.out");
    assert_eq!(String::from_utf8(m.body).unwrap(), "\"{\\n  \\\"target\\\": \\\"t\\\"\\n}\"");
}

#[test]
fn report_writer_answers() {
    let ok = WriteReportResult { message: None, success: true };
    assert_eq!(write_report_result(Ok(ok.clone())), ok);
    assert_eq!(
        write_report_result(Err("db".to_string())),
        WriteReportResult { message: Some("Error creating new report: db".to_string()), success: false }
    );
}
