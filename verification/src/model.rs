//! The messages that the actors and providers of the scanner exchange.
use vstd::prelude::*;

verus! {

/// Topic on which scan tasks are published to the scanner modules.
pub const TASKS_TOPIC: &'static str = "dtbh.tasks";

/// Topic on which scanner modules publish their results.
pub const PUB_RESULTS_TOPIC: &'static str = "dtbh.reports.in";

/// Topic on which the report writer republishes reports.
pub const REPORTS_OUT_TOPIC: &'static str = "dtbh.reports.out";

/// A point in time: seconds and nanoseconds since the Unix epoch.
#[derive(Clone, Copy, Debug, PartialEq, Eq)]
pub struct Timestamp {
    pub sec: i64,
    pub nsec: u32,
}

/// A potential vulnerability found at a URL.
#[derive(Clone, Debug, PartialEq, Eq)]
pub struct Finding {
    pub finding_type: String,
    pub url: String,
}

/// A port of a host, whether it is open, and what was found behind it.
#[derive(Clone, Debug, PartialEq, Eq)]
pub struct Port {
    pub port: u16,
    pub is_open: bool,
    pub findings: Vec<Finding>,
}

/// A host name together with its open ports.
#[derive(Clone, Debug, PartialEq, Eq)]
pub struct Subdomain {
    pub subdomain: String,
    pub open_ports: Vec<Port>,
}

/// The scan report for one target of one user.
#[derive(Clone, Debug, PartialEq, Eq)]
pub struct Report {
    pub subdomains: Vec<Subdomain>,
    pub target: String,
    pub timestamp: Timestamp,
    pub user_id: String,
}

/// A request to enumerate and scan one target.
#[derive(Clone, Debug, PartialEq, Eq)]
pub struct RunScansRequest {
    pub target: String,
    pub jwt: String,
}

/// What the endpoint enumerator reports back about one target.
#[derive(Clone, Debug, PartialEq, Eq)]
pub struct EnumerateEndpointsResponse {
    pub reason: Option<String>,
    pub subdomains: Option<Vec<Subdomain>>,
    pub success: bool,
    pub timestamp: Timestamp,
    pub target: String,
    pub jwt: String,
}

/// The task a scanner module receives: one subdomain of a target.
#[derive(Clone, Debug, PartialEq, Eq)]
pub struct ScanEndpointParams {
    pub subdomain: Subdomain,
    pub user_agent_tag: Option<String>,
    pub jwt: String,
    pub timestamp: Timestamp,
    pub target: String,
}

/// What a scanner module found for one task.
#[derive(Clone, Debug, PartialEq, Eq)]
pub struct ScanEndpointResult {
    pub subdomain: Option<Subdomain>,
    pub reason: Option<String>,
    pub success: bool,
    pub target: String,
    pub timestamp: Timestamp,
    pub jwt: String,
}

/// A request to store a report.
#[derive(Clone, Debug, PartialEq, Eq)]
pub struct WriteReportRequest {
    pub jwt: String,
    pub report: Report,
}

/// The answer to a request to store a report.
#[derive(Clone, Debug, PartialEq, Eq)]
pub struct WriteReportResult {
    pub message: Option<String>,
    pub success: bool,
}

/// A request for the stored reports of a user.
#[derive(Clone, Debug, PartialEq, Eq)]
pub struct GetReportsRequest {
    pub jwt: String,
    pub target: Vec<String>,
    pub start_timestamp: Option<Timestamp>,
    pub end_timestamp: Option<Timestamp>,
}

/// The answer to a request for reports.
#[derive(Clone, Debug, PartialEq, Eq)]
pub struct GetReportsResult {
    pub success: bool,
    pub reason: Option<String>,
    pub reports: Option<Vec<Report>>,
}

/// A request, sent to the API gateway, to scan some targets.
#[derive(Clone, Debug, PartialEq, Eq)]
pub struct ScanRequest {
    pub targets: Vec<String>,
    pub jwt: String,
    pub user_agent_tag: Option<String>,
}

/// A message to publish on a topic.
#[derive(Clone, Debug, PartialEq, Eq)]
pub struct PubMessage {
    pub subject: String,
    pub reply_to: Option<String>,
    pub body: Vec<u8>,
}

impl Finding {
    /// A copy of this value.
    pub fn duplicate(&self) -> (res: Finding)
        ensures
            res == *self,
    {
        Finding { finding_type: self.finding_type.clone(), url: self.url.clone() }
    }
}

/// Copies a list of findings.
pub fn copy_findings(v: &Vec<Finding>) -> (res: Vec<Finding>)
    ensures
        res@ == v@,
{
    let mut res: Vec<Finding> = Vec::new();
    let mut i: usize = 0;
    while i < v.len()
        invariant
            i <= v@.len(),
            res@ == v@.take(i as int),
        decreases v@.len() - i,
    {
        res.push(v[i].duplicate());
        i = i + 1;
        assert(res@ == v@.take(i as int));
    }
    assert(v@.take(v@.len() as int) == v@);
    res
}

/// The abstract value of a port.
pub struct PortView {
    pub port: u16,
    pub is_open: bool,
    pub findings: Seq<Finding>,
}

impl View for Port {
    type V = PortView;

    open spec fn view(&self) -> PortView {
        PortView { port: self.port, is_open: self.is_open, findings: self.findings@ }
    }
}

/// The abstract values of a list of ports.
pub open spec fn ports_view(ps: Seq<Port>) -> Seq<PortView> {
    ps.map_values(|p: Port| p@)
}

/// The abstract value of a subdomain.
pub struct SubdomainView {
    pub subdomain: Seq<char>,
    pub open_ports: Seq<PortView>,
}

impl View for Subdomain {
    type V = SubdomainView;

    open spec fn view(&self) -> SubdomainView {
        SubdomainView { subdomain: self.subdomain@, open_ports: ports_view(self.open_ports@) }
    }
}

/// The abstract values of a list of subdomains.
pub open spec fn subdomains_view(ss: Seq<Subdomain>) -> Seq<SubdomainView> {
    ss.map_values(|s: Subdomain| s@)
}

/// The abstract value of a report.
pub struct ReportView {
    pub subdomains: Seq<SubdomainView>,
    pub target: Seq<char>,
    pub timestamp: Timestamp,
    pub user_id: Seq<char>,
}

impl View for Report {
    type V = ReportView;

    open spec fn view(&self) -> ReportView {
        ReportView {
            subdomains: subdomains_view(self.subdomains@),
            target: self.target@,
            timestamp: self.timestamp,
            user_id: self.user_id@,
        }
    }
}

/// The abstract values of a list of reports.
pub open spec fn reports_view(rs: Seq<Report>) -> Seq<ReportView> {
    rs.map_values(|r: Report| r@)
}

impl Port {
    /// A copy of this value.
    pub fn duplicate(&self) -> (res: Port)
        ensures
            res@ == self@,
    {
        Port { port: self.port, is_open: self.is_open, findings: copy_findings(&self.findings) }
    }
}

/// Copies a list of ports.
pub fn copy_ports(v: &Vec<Port>) -> (res: Vec<Port>)
    ensures
        ports_view(res@) == ports_view(v@),
{
    let mut res: Vec<Port> = Vec::new();
    let mut i: usize = 0;
    while i < v.len()
        invariant
            i <= v@.len(),
            ports_view(res@) == ports_view(v@.take(i as int)),
            res@.len() == i,
        decreases v@.len() - i,
    {
        let ghost prev = res@;
        res.push(v[i].duplicate());
        proof {
            assert forall|j: int| 0 <= j < i + 1 implies #[trigger] ports_view(res@)[j] == ports_view(
                v@.take(i + 1),
            )[j] by {
                if j < i {
                    assert(ports_view(prev)[j] == ports_view(v@.take(i as int))[j]);
                }
            }
            assert(ports_view(res@) =~= ports_view(v@.take(i + 1)));
        }
        i = i + 1;
    }
    assert(v@.take(v@.len() as int) == v@);
    res
}

impl Subdomain {
    /// A copy of this value.
    pub fn duplicate(&self) -> (res: Subdomain)
        ensures
            res@ == self@,
    {
        Subdomain { subdomain: self.subdomain.clone(), open_ports: copy_ports(&self.open_ports) }
    }
}

/// Copies a list of subdomains.
pub fn copy_subdomains(v: &Vec<Subdomain>) -> (res: Vec<Subdomain>)
    ensures
        subdomains_view(res@) == subdomains_view(v@),
{
    let mut res: Vec<Subdomain> = Vec::new();
    let mut i: usize = 0;
    while i < v.len()
        invariant
            i <= v@.len(),
            subdomains_view(res@) == subdomains_view(v@.take(i as int)),
            res@.len() == i,
        decreases v@.len() - i,
    {
        let ghost prev = res@;
        res.push(v[i].duplicate());
        proof {
            assert forall|j: int| 0 <= j < i + 1 implies #[trigger] subdomains_view(res@)[j] == subdomains_view(
                v@.take(i + 1),
            )[j] by {
                if j < i {
                    assert(subdomains_view(prev)[j] == subdomains_view(v@.take(i as int))[j]);
                }
            }
            assert(subdomains_view(res@) =~= subdomains_view(v@.take(i + 1)));
        }
        i = i + 1;
    }
    assert(v@.take(v@.len() as int) == v@);
    res
}

impl Report {
    /// A copy of this value.
    pub fn duplicate(&self) -> (res: Report)
        ensures
            res@ == self@,
    {
        Report {
            subdomains: copy_subdomains(&self.subdomains),
            target: self.target.clone(),
            timestamp: self.timestamp,
            user_id: self.user_id.clone(),
        }
    }
}

/// Copies a list of reports.
pub fn copy_reports(v: &Vec<Report>) -> (res: Vec<Report>)
    ensures
        reports_view(res@) == reports_view(v@),
{
    let mut res: Vec<Report> = Vec::new();
    let mut i: usize = 0;
    while i < v.len()
        invariant
            i <= v@.len(),
            reports_view(res@) == reports_view(v@.take(i as int)),
            res@.len() == i,
        decreases v@.len() - i,
    {
        let ghost prev = res@;
        res.push(v[i].duplicate());
        proof {
            assert forall|j: int| 0 <= j < i + 1 implies #[trigger] reports_view(res@)[j] == reports_view(
                v@.take(i + 1),
            )[j] by {
                if j < i {
                    assert(reports_view(prev)[j] == reports_view(v@.take(i as int))[j]);
                }
            }
            assert(reports_view(res@) =~= reports_view(v@.take(i + 1)));
        }
        i = i + 1;
    }
    assert(v@.take(v@.len() as int) == v@);
    res
}

} // verus!

verus! {

/// The views of a list with one more port.
pub proof fn lemma_ports_view_push(s: Seq<Port>, x: Port)
    ensures
        ports_view(s.push(x)) == ports_view(s).push(x@),
{
    assert(ports_view(s.push(x)) =~= ports_view(s).push(x@));
}

/// The views of a list with one more subdomain.
pub proof fn lemma_subdomains_view_push(s: Seq<Subdomain>, x: Subdomain)
    ensures
        subdomains_view(s.push(x)) == subdomains_view(s).push(x@),
{
    assert(subdomains_view(s.push(x)) =~= subdomains_view(s).push(x@));
}

/// An element of `s.push(x)` is an element of `s` or `x`.
pub proof fn lemma_push_contains<T>(s: Seq<T>, x: T, n: T)
    ensures
        s.push(x).contains(n) <==> (s.contains(n) || n == x),
{
    if s.contains(n) {
        let w = choose|w: int| 0 <= w < s.len() && s[w] == n;
        assert(s.push(x)[w] == n);
    }
    if n == x {
        assert(s.push(x)[s.len() as int] == n);
    }
    if s.push(x).contains(n) {
        let w = choose|w: int| 0 <= w < s.push(x).len() && s.push(x)[w] == n;
        if w < s.len() {
            assert(s[w] == n);
        }
    }
}

} // verus!
