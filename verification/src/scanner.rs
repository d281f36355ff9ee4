//! The scanner modules: which URLs a scan probes, what counts as a finding,
//! and what a module reports once its scan is over.
use crate::enumerator::{flagged, open_flags};
use crate::http::{values_view, HeaderMap};
use crate::model::{
    copy_findings, ports_view, Finding, Port, PortView, PubMessage, Report,
    ReportView, ScanEndpointParams, ScanEndpointResult, Subdomain, SubdomainView, Timestamp,
    PUB_RESULTS_TOPIC, TASKS_TOPIC,
};
use crate::text::{
    ascii_lower, chars_of, contains, decimal, has_substring, lines, push_decimal, spec_lines,
    to_ascii_lowercase,
};
use vstd::prelude::*;
use vstd::utf8::encode_utf8;

verus! {

/// Name of the scanner module that looks for exposed `.env` files.
pub const DOTENV_SCANNER_NAME: &'static str = "dotenv-disclosure";

/// Name of the scanner module that looks for SQL injection.
pub const SQLI_SCANNER_NAME: &'static str = "sqli-detection";

/// Name of the template scanner module.
pub const TEMPLATE_SCANNER_NAME: &'static str = "template";

/// A scanner module: its name, and the topics it takes tasks from and
/// publishes results to (the shared topics unless a module says otherwise).
pub trait ScannerModule {
    /// The name of the scanner module.
    fn name() -> &'static str;

    /// The topic for publishing results.
    fn pub_topic() -> (res: &'static str)
        default_ensures
            res@ == PUB_RESULTS_TOPIC@,
    {
        PUB_RESULTS_TOPIC
    }

    /// The topic that scan tasks arrive on.
    fn sub_topic() -> (res: &'static str)
        default_ensures
            res@ == TASKS_TOPIC@,
    {
        TASKS_TOPIC
    }
}

/// The scanner module that looks for exposed `.env` files.
pub struct DotEnvActor;

impl ScannerModule for DotEnvActor {
    fn name() -> (res: &'static str)
        ensures
            res@ == DOTENV_SCANNER_NAME@,
    {
        DOTENV_SCANNER_NAME
    }
}

/// The scanner module that looks for SQL injection.
pub struct SqliDetectionActor;

impl ScannerModule for SqliDetectionActor {
    fn name() -> (res: &'static str)
        ensures
            res@ == SQLI_SCANNER_NAME@,
    {
        SQLI_SCANNER_NAME
    }
}

/// The template for new scanner modules.
pub struct TemplateActor;

impl ScannerModule for TemplateActor {
    fn name() -> (res: &'static str)
        ensures
            res@ == TEMPLATE_SCANNER_NAME@,
    {
        TEMPLATE_SCANNER_NAME
    }
}

/// An outgoing HTTP request of a scanner module.
pub struct HttpClientRequest {
    pub method: String,
    pub url: String,
    pub headers: HeaderMap,
    pub body: Vec<u8>,
}

/// A message on topic `subject` with body `body` and no reply address.
pub fn pub_message(subject: &str, body: Vec<u8>) -> (res: PubMessage)
    ensures
        res.subject@ == subject@,
        res.reply_to is None,
        res.body@ == body@,
{
    PubMessage { subject: String::from_str(subject), reply_to: None, body }
}

/// The result a module reports when its scan of a task failed with `error`.
pub fn scan_failure_result(
    name: &str,
    error: &str,
    target: String,
    timestamp: Timestamp,
    jwt: String,
) -> (res: ScanEndpointResult)
    ensures
        res.subdomain is None,
        res.reason matches Some(r) && r@ == name@ + " failed: "@ + error@,
        !res.success,
        res.target == target,
        res.timestamp == timestamp,
        res.jwt == jwt,
{
    let reason = String::from_str(name).concat(" failed: ").concat(error);
    ScanEndpointResult { subdomain: None, reason: Some(reason), success: false, target, timestamp, jwt }
}

/// The report a module publishes for a result: only a successful result is
/// reported, with its subdomain (if any), target, time, and user token.
pub fn report_for_result(result: ScanEndpointResult) -> (res: Option<Report>)
    ensures
        result.success <==> res is Some,
        res matches Some(r) ==> r@ == (ReportView {
            subdomains: match result.subdomain {
                Some(s) => seq![s@],
                None => Seq::empty(),
            },
            target: result.target@,
            timestamp: result.timestamp,
            user_id: result.jwt@,
        }),
{
    if !result.success {
        return None;
    }
    let mut subdomains: Vec<Subdomain> = Vec::new();
    let ghost sub = result.subdomain;
    match result.subdomain {
        Some(s) => subdomains.push(s),
        None => {},
    }
    let r = Report { subdomains, target: result.target, timestamp: result.timestamp, user_id: result.jwt };
    proof {
        match sub {
            Some(s) => assert(crate::model::subdomains_view(r.subdomains@) =~= seq![s@]),
            None => assert(crate::model::subdomains_view(r.subdomains@) =~= Seq::<SubdomainView>::empty()),
        }
    }
    Some(r)
}

/// The message that publishes a serialised report on the results topic.
pub fn result_message(body: Vec<u8>) -> (res: PubMessage)
    ensures
        res.subject@ == PUB_RESULTS_TOPIC@,
        res.reply_to is None,
        res.body@ == body@,
{
    pub_message(PUB_RESULTS_TOPIC, body)
}

/// The URL a module probes for an open port: `http://<subdomain>:<port>`.
pub open spec fn port_url(subdomain: Seq<char>, port: u16) -> Seq<char> {
    "http://"@ + subdomain + seq![':'] + decimal(port as nat)
}

/// The open ports of a subdomain, in order.
pub open spec fn open_ports_of(s: Subdomain) -> Seq<Port> {
    flagged(s.open_ports@, open_flags(s.open_ports@))
}

proof fn lemma_flagged_step<T>(s: Seq<T>, flags: Seq<bool>, i: int)
    requires
        0 <= i < s.len(),
    ensures
        flagged(s.take(i + 1), flags) == if i < flags.len() && flags[i] {
            flagged(s.take(i), flags).push(s[i])
        } else {
            flagged(s.take(i), flags)
        },
{
    assert(s.take(i + 1).drop_last() == s.take(i));
}

/// The URLs a module probes for a task: one per open port, in order.
pub fn scan_urls(params: &ScanEndpointParams) -> (res: Vec<String>)
    ensures
        res@.len() == open_ports_of(params.subdomain).len(),
        forall|k: int|
            0 <= k < res@.len() ==> (#[trigger] res@[k])@ == port_url(
                params.subdomain.subdomain@,
                open_ports_of(params.subdomain)[k].port,
            ),
{
    let ports = &params.subdomain.open_ports;
    let ghost flags = open_flags(ports@);
    let mut res: Vec<String> = Vec::new();
    let mut i: usize = 0;
    while i < ports.len()
        invariant
            i <= ports@.len(),
            flags == open_flags(ports@),
            ports == &params.subdomain.open_ports,
            res@.len() == flagged(ports@.take(i as int), flags).len(),
            forall|k: int|
                0 <= k < res@.len() ==> (#[trigger] res@[k])@ == port_url(
                    params.subdomain.subdomain@,
                    flagged(ports@.take(i as int), flags)[k].port,
                ),
        decreases ports@.len() - i,
    {
        proof {
            lemma_flagged_step(ports@, flags, i as int);
        }
        if ports[i].is_open {
            let mut url = String::from_str("http://").concat(params.subdomain.subdomain.as_str());
            crate::text::push_char(&mut url, ':');
            push_decimal(&mut url, ports[i].port as u64);
            res.push(url);
        }
        i = i + 1;
    }
    proof {
        assert(ports@.take(ports@.len() as int) == ports@);
    }
    res
}

/// A port with one more finding, if there is one.
pub open spec fn with_finding(p: PortView, f: Option<Finding>) -> PortView {
    match f {
        Some(x) => PortView { port: p.port, is_open: p.is_open, findings: p.findings.push(x) },
        None => p,
    }
}

/// The ports among `ps` that have findings, in order.
pub open spec fn ports_with_findings(ps: Seq<PortView>) -> Seq<PortView>
    decreases ps.len(),
{
    if ps.len() == 0 {
        Seq::empty()
    } else if ps.last().findings.len() > 0 {
        ports_with_findings(ps.drop_last()).push(ps.last())
    } else {
        ports_with_findings(ps.drop_last())
    }
}

/// The k-th finding of a scan, where the scan of the k-th open port found one.
pub open spec fn finding_at(findings: Seq<Option<Finding>>, k: int) -> Option<Finding> {
    if 0 <= k < findings.len() {
        findings[k]
    } else {
        None
    }
}

/// The open ports of a task's subdomain after its scan: each with the finding
/// of its scan added, keeping only those that have findings.
pub open spec fn scanned_ports(s: Subdomain, findings: Seq<Option<Finding>>) -> Seq<PortView> {
    let open = ports_view(open_ports_of(s));
    ports_with_findings(Seq::new(open.len(), |k: int| with_finding(open[k], finding_at(findings, k))))
}

/// The result of a task whose k-th open port's scan found `findings[k]`
/// (`None` where it found nothing or failed, and for ports past the end).
pub fn finish_scan(params: ScanEndpointParams, findings: Vec<Option<Finding>>) -> (res:
    ScanEndpointResult)
    ensures
        res.subdomain matches Some(s) && s@ == (SubdomainView {
            subdomain: params.subdomain.subdomain@,
            open_ports: scanned_ports(params.subdomain, findings@),
        }),
        res.reason is None,
        res.success,
        res.target == params.target,
        res.timestamp == params.timestamp,
        res.jwt == params.jwt,
{
    let ghost sub = params.subdomain;
    let ghost open = ports_view(open_ports_of(sub));
    let ghost updated = Seq::new(
        open.len(),
        |k: int| with_finding(open[k], finding_at(findings@, k)),
    );
    let ports = &params.subdomain.open_ports;
    let ghost flags = open_flags(ports@);
    let mut kept: Vec<Port> = Vec::new();
    let mut k: usize = 0;
    let mut i: usize = 0;
    while i < ports.len()
        invariant
            i <= ports@.len(),
            ports == &params.subdomain.open_ports,
            sub == params.subdomain,
            flags == open_flags(ports@),
            open == ports_view(open_ports_of(sub)),
            updated == Seq::new(
                open.len(),
                |k: int| with_finding(open[k], finding_at(findings@, k)),
            ),
            k == flagged(ports@.take(i as int), flags).len(),
            k <= open.len(),
            forall|j: int|
                0 <= j < k ==> #[trigger] flagged(ports@.take(i as int), flags)[j]
                    == open_ports_of(sub)[j],
            ports_view(kept@) == ports_with_findings(updated.take(k as int)),
        decreases ports@.len() - i,
    {
        proof {
            lemma_flagged_step(ports@, flags, i as int);
            lemma_flagged_prefix(ports@, flags, i as int);
        }
        if ports[i].is_open {
            let p = &ports[i];
            let mut fs = copy_findings(&p.findings);
            if k < findings.len() {
                match &findings[k] {
                    Some(f) => fs.push(f.duplicate()),
                    None => {},
                }
            }
            let ghost prev = kept@;
            proof {
                lemma_flagged_prefix(ports@, flags, i + 1);
                lemma_flagged_len(ports@.take(i + 1), flags);
                assert(flagged(ports@.take(i + 1), flags)[k as int] == ports@[i as int]);
                assert(open_ports_of(sub)[k as int] == ports@[i as int]);
                assert(updated.take(k + 1).drop_last() == updated.take(k as int));
                assert(updated[k as int] == with_finding(
                    ports@[i as int]@,
                    finding_at(findings@, k as int),
                ));
            }
            if fs.len() > 0 {
                let q = Port { port: p.port, is_open: p.is_open, findings: fs };
                kept.push(q);
                proof {
                    crate::model::lemma_ports_view_push(prev, q);
                    assert(q@ == updated[k as int]);
                }
            }
            k = k + 1;
        }
        i = i + 1;
    }
    proof {
        assert(ports@.take(ports@.len() as int) == ports@);
        assert(updated.take(k as int) == updated);
    }
    ScanEndpointResult {
        reason: None,
        subdomain: Some(Subdomain { subdomain: params.subdomain.subdomain, open_ports: kept }),
        success: true,
        target: params.target,
        timestamp: params.timestamp,
        jwt: params.jwt,
    }
}

proof fn lemma_flagged_len<T>(s: Seq<T>, flags: Seq<bool>)
    ensures
        flagged(s, flags).len() <= s.len(),
    decreases s.len(),
{
    if s.len() > 0 {
        lemma_flagged_len(s.drop_last(), flags);
    }
}

proof fn lemma_flagged_prefix<T>(s: Seq<T>, flags: Seq<bool>, i: int)
    requires
        0 <= i <= s.len(),
    ensures
        flagged(s.take(i), flags).len() <= flagged(s, flags).len(),
        forall|j: int|
            0 <= j < flagged(s.take(i), flags).len() ==> #[trigger] flagged(s.take(i), flags)[j]
                == flagged(s, flags)[j],
    decreases s.len() - i,
{
    if i < s.len() {
        lemma_flagged_prefix(s.drop_last(), flags, i);
        assert(s.drop_last().take(i) == s.take(i));
    } else {
        assert(s.take(i) == s);
    }
}


proof fn lemma_flagged_from<T>(s: Seq<T>, flags: Seq<bool>)
    ensures
        forall|j: int|
            0 <= j < flagged(s, flags).len() ==> exists|i: int|
                0 <= i < s.len() && i < flags.len() && flags[i] && s[i] == #[trigger] flagged(
                    s,
                    flags,
                )[j],
    decreases s.len(),
{
    if s.len() > 0 {
        let d = s.drop_last();
        lemma_flagged_from(d, flags);
        let rest = flagged(d, flags);
        assert forall|j: int| 0 <= j < flagged(s, flags).len() implies exists|i: int|
            0 <= i < s.len() && i < flags.len() && flags[i] && s[i] == #[trigger] flagged(
                s,
                flags,
            )[j] by {
            if j < rest.len() {
                let i = choose|i: int| 0 <= i < d.len() && i < flags.len() && flags[i] && d[i] == rest[j];
                assert(s[i] == d[i]);
            } else {
                assert(s[s.len() - 1] == flagged(s, flags)[j]);
            }
        }
    }
}

proof fn lemma_ports_with_findings_from(ps: Seq<PortView>)
    ensures
        forall|j: int|
            0 <= j < ports_with_findings(ps).len() ==> (#[trigger] ports_with_findings(ps)[j]).findings.len()
                > 0 && exists|i: int| 0 <= i < ps.len() && ps[i] == ports_with_findings(ps)[j],
    decreases ps.len(),
{
    if ps.len() > 0 {
        let d = ps.drop_last();
        lemma_ports_with_findings_from(d);
        assert forall|j: int| 0 <= j < ports_with_findings(ps).len() implies (
        #[trigger] ports_with_findings(ps)[j]).findings.len() > 0 && exists|i: int|
            0 <= i < ps.len() && ps[i] == ports_with_findings(ps)[j] by {
            if j < ports_with_findings(d).len() {
                let i = choose|i: int| 0 <= i < d.len() && d[i] == ports_with_findings(d)[j];
                assert(ps[i] == d[i]);
            } else {
                assert(ps[ps.len() - 1] == ports_with_findings(ps)[j]);
            }
        }
    }
}

proof fn lemma_ports_with_findings_filter(ps: Seq<PortView>)
    ensures
        ports_with_findings(ps) == ps.filter(|p: PortView| p.findings.len() > 0),
    decreases ps.len(),
{
    reveal(Seq::filter);
    if ps.len() > 0 {
        lemma_ports_with_findings_filter(ps.drop_last());
    }
}

proof fn lemma_open_flagged_filter(ps: Seq<Port>, flags: Seq<bool>)
    requires
        ps.len() <= flags.len(),
        forall|i: int| 0 <= i < ps.len() ==> flags[i] == (#[trigger] ps[i]).is_open,
    ensures
        flagged(ps, flags) == ps.filter(|p: Port| p.is_open),
    decreases ps.len(),
{
    reveal(Seq::filter);
    if ps.len() > 0 {
        let d = ps.drop_last();
        assert forall|i: int| 0 <= i < d.len() implies flags[i] == (#[trigger] d[i]).is_open by {
            assert(d[i] == ps[i]);
        }
        lemma_open_flagged_filter(d, flags);
        assert(flags[ps.len() - 1] == ps[ps.len() - 1].is_open);
    }
}

/// The open ports of a subdomain are its ports that are open, in order.
pub proof fn lemma_open_ports_of(s: Subdomain)
    ensures
        open_ports_of(s) == s.open_ports@.filter(|p: Port| p.is_open),
{
    lemma_open_flagged_filter(s.open_ports@, open_flags(s.open_ports@));
}

/// The k-th open port of `s` after its scan found `f`: its findings, with
/// `f` added when it is a finding.
pub open spec fn port_after_scan(p: Port, f: Option<Finding>) -> PortView {
    PortView {
        port: p.port,
        is_open: p.is_open,
        findings: match f {
            Some(x) => p.findings@.push(x),
            None => p.findings@,
        },
    }
}

/// A finished scan reports every open port of the task's subdomain that has
/// findings once its own scan's finding is added, in the order of the open
/// ports, and no other port: its ports are exactly those, each once.
pub proof fn lemma_scanned_ports_complete(s: Subdomain, findings: Seq<Option<Finding>>)
    ensures
        ({
            let open = open_ports_of(s);
            let after = Seq::new(
                open.len(),
                |k: int| port_after_scan(open[k], if k < findings.len() { findings[k] } else { None }),
            );
            &&& scanned_ports(s, findings) == after.filter(|p: PortView| p.findings.len() > 0)
            &&& forall|k: int|
                0 <= k < open.len() && (#[trigger] after[k]).findings.len() > 0 ==> scanned_ports(
                    s,
                    findings,
                ).contains(after[k])
        }),
{
    let open = open_ports_of(s);
    let view = ports_view(open);
    let after = Seq::new(
        open.len(),
        |k: int| port_after_scan(open[k], if k < findings.len() { findings[k] } else { None }),
    );
    let updated = Seq::new(view.len(), |k: int| with_finding(view[k], finding_at(findings, k)));
    assert(updated =~= after) by {
        assert forall|k: int| 0 <= k < after.len() implies updated[k] == after[k] by {
            assert(view[k] == open[k]@);
        }
    }
    lemma_ports_with_findings_filter(updated);
    let pred = |p: PortView| p.findings.len() > 0;
    assert forall|k: int|
        0 <= k < open.len() && (#[trigger] after[k]).findings.len() > 0 implies scanned_ports(
        s,
        findings,
    ).contains(after[k]) by {
        after.lemma_filter_contains(pred, k);
    }
}

/// Every port that a finished scan reports is an open port of the task's
/// subdomain, and has at least one finding.
pub proof fn lemma_scanned_ports_open_with_findings(s: Subdomain, findings: Seq<Option<Finding>>)
    ensures
        forall|j: int|
            0 <= j < scanned_ports(s, findings).len() ==> (#[trigger] scanned_ports(s, findings)[j]).is_open
                && scanned_ports(s, findings)[j].findings.len() > 0 && exists|i: int|
                0 <= i < s.open_ports@.len() && s.open_ports@[i].port == scanned_ports(s, findings)[j].port,
{
    let ports = s.open_ports@;
    let flags = open_flags(ports);
    let open = ports_view(open_ports_of(s));
    let updated = Seq::new(open.len(), |k: int| with_finding(open[k], finding_at(findings, k)));
    lemma_flagged_from(ports, flags);
    lemma_ports_with_findings_from(updated);
    assert forall|j: int| 0 <= j < scanned_ports(s, findings).len() implies (#[trigger] scanned_ports(
        s,
        findings,
    )[j]).is_open && scanned_ports(s, findings)[j].findings.len() > 0 && exists|i: int|
        0 <= i < ports.len() && ports[i].port == scanned_ports(s, findings)[j].port by {
        let q = scanned_ports(s, findings)[j];
        let k = choose|k: int| 0 <= k < updated.len() && updated[k] == q;
        assert(updated[k] == with_finding(open[k], finding_at(findings, k)));
        assert(open[k] == open_ports_of(s)[k]@);
        let i = choose|i: int|
            0 <= i < ports.len() && i < flags.len() && flags[i] && ports[i] == flagged(ports, flags)[k];
        assert(flags[i] == ports[i].is_open);
    }
}

} // verus!

verus! {

/// A GET request for `url` with no headers and no body (`HttpRequest::get`).
pub fn get_request(url: &str) -> (res: HttpClientRequest)
    ensures
        res.method@ == "GET"@,
        res.url@ == url@,
        res.headers@ == Map::<Seq<char>, Seq<Seq<char>>>::empty(),
        res.body@.len() == 0,
{
    HttpClientRequest {
        method: String::from_str("GET"),
        url: String::from_str(url),
        headers: HeaderMap::new(),
        body: Vec::new(),
    }
}

/// The URL of the `.env` file under an endpoint.
pub fn dotenv_url(target_endpoint: &str) -> (res: String)
    ensures
        res@ == target_endpoint@ + "/.env"@,
{
    String::from_str(target_endpoint).concat("/.env")
}

/// The request for a `.env` file, sent with the given user agent if one is given.
pub fn dotenv_request(url: &str, user_agent_tag: &Option<String>) -> (res: HttpClientRequest)
    ensures
        res.method@ == "GET"@,
        res.url@ == url@,
        res.headers@ == match user_agent_tag {
            Some(tag) => Map::<Seq<char>, Seq<Seq<char>>>::empty().insert(
                "User-Agent"@,
                seq![tag@],
            ),
            None => Map::<Seq<char>, Seq<Seq<char>>>::empty(),
        },
        res.body@.len() == 0,
{
    let mut req = get_request(url);
    match user_agent_tag {
        Some(tag) => {
            let mut values: Vec<String> = Vec::new();
            values.push(tag.clone());
            req.headers.insert(String::from_str("User-Agent"), values);
            assert(values_view(values@) =~= seq![tag@]);
        },
        None => {},
    }
    req
}

/// A `.env` file that is served with a 2xx status is a finding.
pub fn dotenv_finding(url: String, status_code: u16) -> (res: Option<Finding>)
    ensures
        res is Some <==> 200 <= status_code <= 299,
        res matches Some(f) ==> f.finding_type@ == DOTENV_SCANNER_NAME@ && f.url == url,
{
    if status_code >= 200 && status_code <= 299 {
        Some(Finding { finding_type: String::from_str(DOTENV_SCANNER_NAME), url })
    } else {
        None
    }
}

/// A byte that URL encoding keeps as it is: ASCII letters, digits, `-`, `.`, `_`, `~`.
pub open spec fn url_unreserved(b: u8) -> bool {
    ||| (48 <= b && b <= 57)
    ||| (65 <= b && b <= 90)
    ||| (97 <= b && b <= 122)
    ||| b == 45
    ||| b == 46
    ||| b == 95
    ||| b == 126
}

/// The upper-case hexadecimal digit for `d < 16`.
pub open spec fn hex_upper(d: u8) -> char {
    if d < 10 {
        ((48 + d) as u32) as char
    } else {
        ((55 + d) as u32) as char
    }
}

/// Percent-encoding of a byte string: every byte that is not unreserved
/// becomes `%` and its two upper-case hexadecimal digits.
pub open spec fn percent_encoded(bs: Seq<u8>) -> Seq<char>
    decreases bs.len(),
{
    if bs.len() == 0 {
        Seq::empty()
    } else {
        percent_encoded(bs.drop_last()) + if url_unreserved(bs.last()) {
            seq![(bs.last() as u32) as char]
        } else {
            seq!['%', hex_upper(bs.last() / 16), hex_upper(bs.last() % 16)]
        }
    }
}

/// Calls `urlencoding::encode`: every UTF-8 byte of `s` other than an ASCII
/// letter, digit, `-`, `.`, `_` or `~` becomes `%` and two upper-case
/// hexadecimal digits; the others are kept.
#[verifier::external_body]
fn url_encode(s: &str) -> (res: String)
    ensures
        res@ == percent_encoded(encode_utf8(s@)),
{
    urlencoding::encode(s).into_owned()
}

/// The query string that probes parameter `param` with injection `sqli`.
pub open spec fn sqli_query(param: Seq<char>, sqli: Seq<char>) -> Seq<char> {
    "?"@ + param + "="@ + sqli
}

/// Every probe of a word list pair: for each parameter line, for each
/// injection line, the URL encoding of `?<parameter>=<injection>`.
pub open spec fn sqli_payload_list(params: Seq<Seq<char>>, sqlis: Seq<Seq<char>>) -> Seq<
    Seq<char>,
>
    decreases params.len(),
{
    if params.len() == 0 {
        Seq::empty()
    } else {
        sqli_payload_list(params.drop_last(), sqlis) + sqlis.map_values(
            |s: Seq<char>| percent_encoded(encode_utf8(sqli_query(params.last(), s))),
        )
    }
}

/// One probe for each pair of a parameter and an injection string.
pub proof fn lemma_sqli_payload_count(params: Seq<Seq<char>>, sqlis: Seq<Seq<char>>)
    ensures
        sqli_payload_list(params, sqlis).len() == params.len() * sqlis.len(),
    decreases params.len(),
{
    if params.len() > 0 {
        lemma_sqli_payload_count(params.drop_last(), sqlis);
        let n = params.len() - 1;
        let m = sqlis.len() as int;
        assert(n * m + m == (n + 1) * m) by (nonlinear_arith);
    }
}

/// The probe for the i-th parameter line and the j-th injection line is the
/// percent-encoding of `?`, that parameter line, `=` and that injection line,
/// as they are; it stands at index `i * (number of injection lines) + j`.
pub proof fn lemma_sqli_payload_at(params: Seq<Seq<char>>, sqlis: Seq<Seq<char>>, i: int, j: int)
    requires
        0 <= i < params.len(),
        0 <= j < sqlis.len(),
    ensures
        0 <= i * sqlis.len() + j < sqli_payload_list(params, sqlis).len(),
        sqli_payload_list(params, sqlis)[i * sqlis.len() + j] == percent_encoded(
            encode_utf8("?"@ + params[i] + "="@ + sqlis[j]),
        ),
    decreases params.len(),
{
    let n = params.len() - 1;
    let m = sqlis.len() as int;
    let d = params.drop_last();
    lemma_sqli_payload_count(params, sqlis);
    lemma_sqli_payload_count(d, sqlis);
    assert(0 <= i * m + j < (n + 1) * m) by (nonlinear_arith)
        requires
            0 <= i <= n,
            0 <= j < m,
    ;
    if i < n {
        assert(i * m + j < n * m) by (nonlinear_arith)
            requires
                0 <= i < n,
                0 <= j < m,
        ;
        lemma_sqli_payload_at(d, sqlis, i, j);
        assert(d[i] == params[i]);
    } else {
        assert(i * m + j - n * m == j) by (nonlinear_arith)
            requires
                i == n,
        ;
    }
}

/// Percent-encoding works byte by byte: the encoding of two byte strings
/// one after the other is their encodings one after the other.
pub proof fn lemma_percent_encoded_append(a: Seq<u8>, b: Seq<u8>)
    ensures
        percent_encoded(a + b) == percent_encoded(a) + percent_encoded(b),
    decreases b.len(),
{
    if b.len() == 0 {
        assert(a + b == a);
    } else {
        lemma_percent_encoded_append(a, b.drop_last());
        assert((a + b).drop_last() == a + b.drop_last());
        assert((a + b).last() == b.last());
    }
}

/// A single byte is kept when it is an ASCII letter, digit, `-`, `.`, `_` or
/// `~`, and otherwise becomes `%` and its value in two upper-case
/// hexadecimal digits.
pub proof fn lemma_percent_encoded_byte(x: u8)
    ensures
        percent_encoded(seq![x]) == if (48 <= x <= 57) || (65 <= x <= 90) || (97 <= x <= 122) || x
            == 45 || x == 46 || x == 95 || x == 126 {
            seq![(x as u32) as char]
        } else {
            seq!['%', "0123456789ABCDEF"@[x as int / 16], "0123456789ABCDEF"@[x as int % 16]]
        },
{
    assert(seq![x].drop_last() == Seq::<u8>::empty());
    assert(percent_encoded(Seq::<u8>::empty()) == Seq::<char>::empty());
    assert(seq![x].last() == x);
    lemma_hex_digit(x / 16);
    lemma_hex_digit(x % 16);
    assert(Seq::<char>::empty() + seq![(x as u32) as char] == seq![(x as u32) as char]);
    assert(Seq::<char>::empty() + seq!['%', hex_upper(x / 16), hex_upper(x % 16)] == seq![
        '%',
        hex_upper(x / 16),
        hex_upper(x % 16),
    ]);
}

proof fn lemma_hex_digit(d: u8)
    requires
        d < 16,
    ensures
        hex_upper(d) == "0123456789ABCDEF"@[d as int],
{
    reveal_strlit("0123456789ABCDEF");
    let h = "0123456789ABCDEF"@;
    assert(h[0] == '0' && h[1] == '1' && h[2] == '2' && h[3] == '3' && h[4] == '4' && h[5] == '5');
    assert(h[6] == '6' && h[7] == '7' && h[8] == '8' && h[9] == '9' && h[10] == 'A');
    assert(h[11] == 'B' && h[12] == 'C' && h[13] == 'D' && h[14] == 'E' && h[15] == 'F');
}

/// The probes that the SQL injection scanner sends, built from its word
/// lists of query parameters and of injection strings.
pub fn sqli_payloads(params_text: &str, sqli_text: &str) -> (res: Vec<String>)
    ensures
        crate::enumerator::strings_view(res@) == sqli_payload_list(
            spec_lines(params_text@),
            spec_lines(sqli_text@),
        ),
{
    let params = lines(params_text);
    let sqlis = lines(sqli_text);
    let ghost ps = spec_lines(params_text@);
    let ghost ss = spec_lines(sqli_text@);
    assert(crate::enumerator::strings_view(params@) =~= ps);
    assert(crate::enumerator::strings_view(sqlis@) =~= ss);
    let mut res: Vec<String> = Vec::new();
    let mut i: usize = 0;
    while i < params.len()
        invariant
            i <= params@.len(),
            crate::enumerator::strings_view(params@) == ps,
            crate::enumerator::strings_view(sqlis@) == ss,
            crate::enumerator::strings_view(res@) == sqli_payload_list(ps.take(i as int), ss),
        decreases params@.len() - i,
    {
        let ghost before = crate::enumerator::strings_view(res@);
        let ghost p = ps[i as int];
        assert(params@[i as int]@ == p);
        let mut j: usize = 0;
        while j < sqlis.len()
            invariant
                j <= sqlis@.len(),
                crate::enumerator::strings_view(sqlis@) == ss,
                params@[i as int]@ == p,
                i < params@.len(),
                crate::enumerator::strings_view(res@) == before + ss.take(j as int).map_values(
                    |s: Seq<char>| percent_encoded(encode_utf8(sqli_query(p, s))),
                ),
            decreases sqlis@.len() - j,
        {
            let query = String::from_str("?").concat(params[i].as_str()).concat("=").concat(
                sqlis[j].as_str(),
            );
            let enc = url_encode(query.as_str());
            let ghost prev = crate::enumerator::strings_view(res@);
            res.push(enc);
            proof {
                assert(sqlis@[j as int]@ == ss[j as int]);
                assert(crate::enumerator::strings_view(res@) =~= prev.push(enc@));
                assert(ss.take(j + 1).map_values(
                    |s: Seq<char>| percent_encoded(encode_utf8(sqli_query(p, s))),
                ) =~= ss.take(j as int).map_values(
                    |s: Seq<char>| percent_encoded(encode_utf8(sqli_query(p, s))),
                ).push(enc@));
            }
            j = j + 1;
        }
        proof {
            assert(ss.take(ss.len() as int) == ss);
            assert(ps.take(i + 1).drop_last() == ps.take(i as int));
            assert(ps.take(i + 1).last() == p);
        }
        i = i + 1;
    }
    proof {
        assert(ps.take(ps.len() as int) == ps);
    }
    res
}

/// The request that probes `target_endpoint` with `payload`.
pub fn sqli_request(target_endpoint: &str, payload: &str) -> (res: HttpClientRequest)
    ensures
        res.method@ == "GET"@,
        res.url@ == target_endpoint@ + "/"@ + payload@,
        res.headers@ == Map::<Seq<char>, Seq<Seq<char>>>::empty(),
        res.body@.len() == 0,
{
    let url = String::from_str(target_endpoint).concat("/").concat(payload);
    get_request(url.as_str())
}

/// What `serde_json::from_slice::<String>` returns for a body; `None` stands
/// for a parse error.
pub uninterp spec fn parsed_json_string(body: Seq<u8>) -> Option<Seq<char>>;

/// Calls `serde_json::from_slice::<String>(body)`, with the error dropped.
/// Its result is named by `parsed_json_string`; what JSON it accepts is not
/// stated here.
#[verifier::external_body]
fn json_string_value(body: &[u8]) -> (res: Option<String>)
    ensures
        match res {
            Some(s) => parsed_json_string(body@) == Some(s@),
            None => parsed_json_string(body@) is None,
        },
{
    match serde_json::from_slice::<String>(body) {
        Ok(s) => Some(s),
        Err(_) => None,
    }
}

/// A response suggests SQL injection when its body is a JSON string that,
/// lower-cased, mentions `sql`, `syntax` or `line`.
pub open spec fn suggests_sqli(body: Seq<u8>) -> bool {
    match parsed_json_string(body) {
        Some(s) => {
            let l = s.map_values(|c: char| ascii_lower(c));
            has_substring(l, "sql"@) || has_substring(l, "syntax"@) || has_substring(l, "line"@)
        },
        None => false,
    }
}

/// Whether a response body suggests SQL injection.
pub fn analyse_response(body: &[u8]) -> (res: bool)
    ensures
        res == suggests_sqli(body@),
{
    match json_string_value(body) {
        Some(s) => {
            let cs = chars_of(s.as_str());
            let l = to_ascii_lowercase(cs.as_slice());
            let sql = chars_of("sql");
            let syntax = chars_of("syntax");
            let line = chars_of("line");
            contains(l.as_slice(), sql.as_slice()) || contains(l.as_slice(), syntax.as_slice())
                || contains(l.as_slice(), line.as_slice())
        },
        None => false,
    }
}

/// The URLs of `urls` whose flag is set, run together into one string.
pub open spec fn joined_flagged(urls: Seq<Seq<char>>, flags: Seq<bool>) -> Seq<char>
    decreases urls.len(),
{
    if urls.len() == 0 {
        Seq::empty()
    } else {
        let i = urls.len() - 1;
        joined_flagged(urls.drop_last(), flags) + if i < flags.len() && flags[i] {
            urls.last()
        } else {
            Seq::empty()
        }
    }
}

/// The finding of the SQL injection scanner: the probed URLs whose responses
/// suggested injection, run together; none when that is empty.
pub fn sqli_finding(urls: &Vec<String>, suggested: &Vec<bool>) -> (res: Option<Finding>)
    ensures
        res is Some <==> joined_flagged(crate::enumerator::strings_view(urls@), suggested@).len()
            > 0,
        res matches Some(f) ==> f.finding_type@ == SQLI_SCANNER_NAME@ && f.url@ == joined_flagged(
            crate::enumerator::strings_view(urls@),
            suggested@,
        ),
{
    let ghost us = crate::enumerator::strings_view(urls@);
    let mut url = String::new();
    let mut i: usize = 0;
    while i < urls.len()
        invariant
            i <= urls@.len(),
            us == crate::enumerator::strings_view(urls@),
            url@ == joined_flagged(us.take(i as int), suggested@),
        decreases urls@.len() - i,
    {
        proof {
            assert(us.take(i + 1).drop_last() == us.take(i as int));
            assert(us.take(i + 1).last() == urls@[i as int]@);
        }
        if i < suggested.len() && suggested[i] {
            url = url.concat(urls[i].as_str());
        } else {
            assert(url@ == url@ + Seq::<char>::empty());
        }
        i = i + 1;
    }
    proof {
        assert(us.take(us.len() as int) == us);
    }
    if url.unicode_len() > 0 {
        Some(Finding { finding_type: String::from_str(SQLI_SCANNER_NAME), url })
    } else {
        None
    }
}

} // verus!
