//! The orchestrator and the report writer: what happens between the
//! enumeration of a target's endpoints and the scanner modules' reports.
use crate::http::{json_quote, json_quoted, utf8_bytes};
use crate::model::{
    copy_subdomains, subdomains_view, EnumerateEndpointsResponse, PubMessage, Report, ReportView,
    ScanEndpointParams, WriteReportRequest, WriteReportResult, REPORTS_OUT_TOPIC,
    TASKS_TOPIC,
};
use crate::scanner::pub_message;
use vstd::prelude::*;
use vstd::utf8::encode_utf8;

verus! {

/// The request that creates the report for an enumeration: present exactly
/// when the enumeration found subdomains; the report holds them, the target
/// and the time, under the requester's token and an empty user id.
pub fn report_request(resp: &EnumerateEndpointsResponse) -> (res: Option<WriteReportRequest>)
    ensures
        res is Some <==> resp.subdomains is Some,
        res matches Some(r) ==> r.jwt == resp.jwt && r.report@ == (ReportView {
            subdomains: subdomains_view(resp.subdomains->0@),
            target: resp.target@,
            timestamp: resp.timestamp,
            user_id: Seq::empty(),
        }),
{
    match &resp.subdomains {
        Some(subdomains) => Some(
            WriteReportRequest {
                jwt: resp.jwt.clone(),
                report: Report {
                    subdomains: copy_subdomains(subdomains),
                    target: resp.target.clone(),
                    timestamp: resp.timestamp,
                    user_id: String::new(),
                },
            },
        ),
        None => None,
    }
}

/// How a request to the report writer ended.
pub enum ReportWriteOutcome {
    /// The report writer answered.
    Answered(WriteReportResult),
    /// The call timed out.
    TimedOut,
    /// The call's deadline passed.
    DeadlineExceeded,
    /// The call failed otherwise; the error text.
    Failed(String),
}

/// Whether the scans go ahead after the report request: they do unless the
/// call failed for a reason other than time.
pub fn continue_after_report(outcome: &ReportWriteOutcome) -> (res: bool)
    ensures
        res <==> !(outcome is Failed),
{
    match outcome {
        ReportWriteOutcome::Failed(_) => false,
        _ => true,
    }
}

/// The scan tasks of an enumeration: one per subdomain found, in order, each
/// with the target, time and token of the enumeration and no user agent.
pub fn scan_tasks(resp: &EnumerateEndpointsResponse) -> (res: Vec<ScanEndpointParams>)
    ensures
        res@.len() == match resp.subdomains {
            Some(s) => s@.len(),
            None => 0,
        },
        forall|i: int|
            0 <= i < res@.len() ==> (#[trigger] res@[i]).subdomain@ == resp.subdomains->0@[i]@
                && res@[i].user_agent_tag is None && res@[i].jwt == resp.jwt && res@[i].timestamp
                == resp.timestamp && res@[i].target == resp.target,
{
    let mut res: Vec<ScanEndpointParams> = Vec::new();
    match &resp.subdomains {
        Some(subdomains) => {
            let mut i: usize = 0;
            while i < subdomains.len()
                invariant
                    resp.subdomains == Some(*subdomains),
                    i <= subdomains@.len(),
                    res@.len() == i,
                    forall|j: int|
                        0 <= j < i ==> (#[trigger] res@[j]).subdomain@ == subdomains@[j]@
                            && res@[j].user_agent_tag is None && res@[j].jwt == resp.jwt
                            && res@[j].timestamp == resp.timestamp && res@[j].target
                            == resp.target,
                decreases subdomains@.len() - i,
            {
                res.push(
                    ScanEndpointParams {
                        subdomain: subdomains[i].duplicate(),
                        user_agent_tag: None,
                        jwt: resp.jwt.clone(),
                        timestamp: resp.timestamp,
                        target: resp.target.clone(),
                    },
                );
                i = i + 1;
            }
        },
        None => {},
    }
    res
}

/// The message that hands a serialised scan task to the scanner modules.
pub fn task_message(body: Vec<u8>) -> (res: PubMessage)
    ensures
        res.subject@ == TASKS_TOPIC@,
        res.reply_to is None,
        res.body@ == body@,
{
    pub_message(TASKS_TOPIC, body)
}

/// The report writer's answer to a write request, given how creating the
/// report went (`Err` with the error text where it failed).
pub fn write_report_result(outcome: Result<WriteReportResult, String>) -> (res: WriteReportResult)
    ensures
        match outcome {
            Ok(r) => res == r,
            Err(e) => !res.success && (res.message matches Some(m) && m@
                == "Error creating new report: "@ + e@),
        },
{
    match outcome {
        Ok(r) => r,
        Err(e) => WriteReportResult {
            message: Some(String::from_str("Error creating new report: ").concat(e.as_str())),
            success: false,
        },
    }
}

/// The message that republishes a report: its pretty-printed JSON, itself
/// encoded as a JSON string, on the outgoing reports topic.
pub fn report_out_message(report_json: &str) -> (res: PubMessage)
    ensures
        res.subject@ == REPORTS_OUT_TOPIC@,
        res.reply_to is None,
        res.body@ == encode_utf8(json_quoted(report_json@)),
{
    let quoted = json_quote(report_json);
    pub_message(REPORTS_OUT_TOPIC, utf8_bytes(quoted.as_str()))
}

} // verus!
