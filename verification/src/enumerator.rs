//! The endpoint enumerator: which subdomains of a target it finds in
//! certificate transparency logs, which it keeps, and what it reports back.
use crate::model::{
    lemma_ports_view_push, lemma_push_contains, lemma_subdomains_view_push, ports_view, subdomains_view, EnumerateEndpointsResponse, Port, PortView,
    RunScansRequest, Subdomain, SubdomainView, Timestamp,
};
use crate::text::{
    chars_of, decimal, parse_usize, spec_parse_usize, spec_trim, split_chars, split_on,
    string_of, trim_chars, TrimSet,
};
use vstd::prelude::*;

verus! {

/// One entry of a crt.sh answer: the names a certificate was issued for,
/// separated by line feeds.
#[derive(Clone, Debug, PartialEq, Eq)]
pub struct CrtShEntry {
    pub name_value: String,
}

/// The names one entry lists, each without surrounding white space.
pub open spec fn entry_names(name_value: Seq<char>) -> Seq<Seq<char>> {
    split_on(name_value, '\n').map_values(|p: Seq<char>| spec_trim(p))
}

/// The names that a list of entries lists, in order.
pub open spec fn crt_names(entries: Seq<CrtShEntry>) -> Seq<Seq<char>>
    decreases entries.len(),
{
    if entries.len() == 0 {
        Seq::empty()
    } else {
        crt_names(entries.drop_last()) + entry_names(entries.last().name_value@)
    }
}

/// A wildcard name holds a `*`.
pub open spec fn is_wildcard(name: Seq<char>) -> bool {
    name.contains('*')
}

/// The character views of a list of strings.
pub open spec fn strings_view(ss: Seq<String>) -> Seq<Seq<char>> {
    ss.map_values(|s: String| s@)
}

/// No two elements are equal.
pub open spec fn no_duplicates<T>(s: Seq<T>) -> bool {
    forall|i: int, j: int| 0 <= i < j < s.len() ==> s[i] != s[j]
}

fn has_wildcard(cs: &[char]) -> (res: bool)
    ensures
        res == cs@.contains('*'),
{
    let mut i: usize = 0;
    while i < cs.len()
        invariant
            i <= cs@.len(),
            forall|j: int| 0 <= j < i ==> cs@[j] != '*',
        decreases cs@.len() - i,
    {
        if cs[i] == '*' {
            assert(cs@[i as int] == '*');
            return true;
        }
        i = i + 1;
    }
    false
}

fn index_of(names: &Vec<String>, name: &String) -> (res: Option<usize>)
    ensures
        match res {
            Some(i) => i < names@.len() && names@[i as int]@ == name@,
            None => !strings_view(names@).contains(name@),
        },
{
    let mut i: usize = 0;
    while i < names.len()
        invariant
            i <= names@.len(),
            forall|j: int| 0 <= j < i ==> names@[j]@ != name@,
        decreases names@.len() - i,
    {
        if names[i] == *name {
            return Some(i);
        }
        i = i + 1;
    }
    proof {
        if strings_view(names@).contains(name@) {
            let j = choose|j: int| 0 <= j < strings_view(names@).len() && strings_view(names@)[j] == name@;
            assert(names@[j]@ == name@);
        }
    }
    None
}

/// Adds `t` to the distinct names `res` unless it is a wildcard or already there.
fn add_name(res: &mut Vec<String>, t: &[char])
    requires
        no_duplicates(strings_view(old(res)@)),
    ensures
        no_duplicates(strings_view(final(res)@)),
        forall|n: Seq<char>|
            #[trigger] strings_view(final(res)@).contains(n) <==> (strings_view(old(res)@).contains(
                n,
            ) || (n == t@ && !is_wildcard(t@))),
{
    if has_wildcard(t) {
        return ;
    }
    let name = string_of(t);
    match index_of(res, &name) {
        Some(i) => {
            proof {
                assert(strings_view(res@)[i as int] == t@);
            }
        },
        None => {
            let ghost prev = strings_view(res@);
            res.push(name);
            proof {
                assert(strings_view(res@) =~= prev.push(t@));
                assert forall|n: Seq<char>|
                    #[trigger] strings_view(res@).contains(n) <==> (prev.contains(n) || n
                        == t@) by {
                    lemma_push_contains(prev, t@, n);
                }
            }
        },
    }
}

/// The names that a crt.sh answer lists, without wildcard names and without
/// repetitions: each name that some entry lists once, in no promised order.
pub fn parse_crt_sh_response(crt_sh_response: Vec<CrtShEntry>) -> (res: Vec<String>)
    ensures
        no_duplicates(strings_view(res@)),
        forall|n: Seq<char>|
            #[trigger] strings_view(res@).contains(n) <==> (crt_names(crt_sh_response@).contains(n)
                && !is_wildcard(n)),
{
    let entries = &crt_sh_response;
    let mut res: Vec<String> = Vec::new();
    let mut i: usize = 0;
    while i < entries.len()
        invariant
            i <= entries@.len(),
            no_duplicates(strings_view(res@)),
            forall|n: Seq<char>|
                #[trigger] strings_view(res@).contains(n) <==> (crt_names(
                    entries@.take(i as int),
                ).contains(n) && !is_wildcard(n)),
        decreases entries@.len() - i,
    {
        let cs = chars_of(entries[i].name_value.as_str());
        let pieces = split_chars(cs.as_slice(), '\n');
        let ghost done = crt_names(entries@.take(i as int));
        let ghost names = entry_names(entries@[i as int].name_value@);
        let mut k: usize = 0;
        while k < pieces.len()
            invariant
                k <= pieces@.len(),
                pieces@.len() == split_on(cs@, '\n').len(),
                forall|j: int| 0 <= j < pieces@.len() ==> #[trigger] pieces@[j]@ == split_on(
                    cs@,
                    '\n',
                )[j],
                cs@ == entries@[i as int].name_value@,
                names == entry_names(entries@[i as int].name_value@),
                no_duplicates(strings_view(res@)),
                forall|n: Seq<char>|
                    #[trigger] strings_view(res@).contains(n) <==> ((done + names.take(
                        k as int,
                    )).contains(n) && !is_wildcard(n)),
            decreases pieces@.len() - k,
        {
            let t = trim_chars(pieces[k].as_slice(), TrimSet::Whitespace);
            let ghost before = done + names.take(k as int);
            let ghost after = done + names.take(k + 1);
            proof {
                assert(names[k as int] == spec_trim(pieces@[k as int]@));
                assert(after == before.push(t@));
            }
            add_name(&mut res, t.as_slice());
            proof {
                assert forall|n: Seq<char>|
                    #[trigger] strings_view(res@).contains(n) <==> (after.contains(n)
                        && !is_wildcard(n)) by {
                    lemma_push_contains(before, t@, n);
                }
            }
            k = k + 1;
        }
        proof {
            assert(names.take(names.len() as int) == names);
            assert(entries@.take(i + 1).drop_last() == entries@.take(i as int));
            assert(crt_names(entries@.take(i + 1)) == done + names);
        }
        i = i + 1;
    }
    proof {
        assert(entries@.take(entries@.len() as int) == entries@);
    }
    res
}

/// The subdomains that a list of names denotes, each with no open ports.
pub fn subdomains_from_names(names: Vec<String>) -> (res: Vec<Subdomain>)
    ensures
        res@.len() == names@.len(),
        forall|i: int|
            0 <= i < res@.len() ==> (#[trigger] res@[i]).subdomain == names@[i]
                && res@[i].open_ports@.len() == 0,
{
    let mut res: Vec<Subdomain> = Vec::new();
    let mut i: usize = 0;
    while i < names.len()
        invariant
            i <= names@.len(),
            res@.len() == i,
            forall|j: int|
                0 <= j < i ==> (#[trigger] res@[j]).subdomain == names@[j]
                    && res@[j].open_ports@.len() == 0,
        decreases names@.len() - i,
    {
        res.push(Subdomain { subdomain: names[i].clone(), open_ports: Vec::new() });
        i = i + 1;
    }
    res
}

/// The subdomain for `url` with no open ports.
pub open spec fn bare_subdomain(url: Seq<char>) -> SubdomainView {
    SubdomainView { subdomain: url, open_ports: Seq::empty() }
}

/// The enumerated subdomains with the target itself added at the end, unless
/// they already hold it (with no open ports).
pub fn with_original_subdomain(subdomains: Vec<Subdomain>, url: &str) -> (res: Vec<Subdomain>)
    ensures
        subdomains_view(res@) == if subdomains_view(subdomains@).contains(bare_subdomain(url@)) {
            subdomains_view(subdomains@)
        } else {
            subdomains_view(subdomains@).push(bare_subdomain(url@))
        },
        subdomains_view(res@).contains(bare_subdomain(url@)),
{
    let mut out = subdomains;
    let target = String::from_str(url);
    let mut i: usize = 0;
    while i < out.len()
        invariant
            out@ == subdomains@,
            i <= out@.len(),
            target@ == url@,
            forall|j: int| 0 <= j < i ==> #[trigger] out@[j]@ != bare_subdomain(url@),
        decreases out@.len() - i,
    {
        if out[i].subdomain == target && out[i].open_ports.len() == 0 {
            proof {
                let s = out@[i as int];
                assert(ports_view(s.open_ports@) =~= Seq::<PortView>::empty());
                assert(subdomains_view(out@)[i as int] == bare_subdomain(url@));
            }
            return out;
        }
        proof {
            let s = out@[i as int];
            assert(ports_view(s.open_ports@).len() == s.open_ports@.len());
        }
        i = i + 1;
    }
    let ghost before = out@;
    proof {
        if subdomains_view(before).contains(bare_subdomain(url@)) {
            let w = choose|w: int|
                0 <= w < subdomains_view(before).len() && subdomains_view(before)[w]
                    == bare_subdomain(url@);
            assert(before[w]@ == bare_subdomain(url@));
        }
    }
    let original = Subdomain { subdomain: target, open_ports: Vec::new() };
    assert(ports_view(original.open_ports@) =~= Seq::<PortView>::empty());
    out.push(original);
    assert(subdomains_view(out@) =~= subdomains_view(before).push(bare_subdomain(url@)));
    assert(subdomains_view(out@)[out@.len() - 1] == bare_subdomain(url@));
    out
}

/// The elements of `s` whose flag is set (a missing flag counts as unset).
pub open spec fn flagged<T>(s: Seq<T>, flags: Seq<bool>) -> Seq<T>
    decreases s.len(),
{
    if s.len() == 0 {
        Seq::empty()
    } else {
        let rest = flagged(s.drop_last(), flags);
        let i = s.len() - 1;
        if i < flags.len() && flags[i] {
            rest.push(s.last())
        } else {
            rest
        }
    }
}

/// The subdomains whose names resolved (`resolves[i]` tells whether the i-th did).
pub fn resolved_subdomains(subdomains: &Vec<Subdomain>, resolves: &Vec<bool>) -> (res: Vec<
    Subdomain,
>)
    ensures
        subdomains_view(res@) == subdomains_view(flagged(subdomains@, resolves@)),
{
    let ghost all = subdomains@;
    let n = subdomains.len();
    let mut res: Vec<Subdomain> = Vec::new();
    let mut i: usize = 0;
    while i < n
        invariant
            n == all.len(),
            all == subdomains@,
            i <= n,
            subdomains_view(res@) == subdomains_view(flagged(all.take(i as int), resolves@)),
        decreases n - i,
    {
        proof {
            assert(all.take(i + 1).drop_last() == all.take(i as int));
        }
        let ghost prev = res@;
        if i < resolves.len() && resolves[i] {
            let d = subdomains[i].duplicate();
            res.push(d);
            proof {
                lemma_subdomains_view_push(prev, d);
                lemma_subdomains_view_push(flagged(all.take(i as int), resolves@), all[i as int]);
            }
        }
        i = i + 1;
    }
    proof {
        assert(all.take(n as int) == all);
    }
    res
}

/// The values of a list of optional subdomains.
pub open spec fn option_values(rs: Seq<Option<Subdomain>>) -> Seq<Subdomain> {
    rs.map_values(|r: Option<Subdomain>| r->0)
}

/// Which of a list of optional subdomains are present.
pub open spec fn option_flags(rs: Seq<Option<Subdomain>>) -> Seq<bool> {
    rs.map_values(|r: Option<Subdomain>| r is Some)
}

/// The subdomains whose ports could be scanned, in order.
pub fn scanned_subdomains(results: &Vec<Option<Subdomain>>) -> (res: Vec<Subdomain>)
    ensures
        subdomains_view(res@) == subdomains_view(
            flagged(option_values(results@), option_flags(results@)),
        ),
{
    let ghost vals = option_values(results@);
    let ghost flags = option_flags(results@);
    let n = results.len();
    let mut res: Vec<Subdomain> = Vec::new();
    let mut i: usize = 0;
    while i < n
        invariant
            n == results@.len(),
            i <= n,
            vals == option_values(results@),
            flags == option_flags(results@),
            subdomains_view(res@) == subdomains_view(flagged(vals.take(i as int), flags)),
        decreases n - i,
    {
        proof {
            assert(vals.take(i + 1).drop_last() == vals.take(i as int));
        }
        let ghost prev = res@;
        match &results[i] {
            Some(s) => {
                let d = s.duplicate();
                res.push(d);
                proof {
                    assert(vals[i as int] == *s);
                    lemma_subdomains_view_push(prev, d);
                    lemma_subdomains_view_push(flagged(vals.take(i as int), flags), vals[i as int]);
                }
            },
            None => {},
        }
        i = i + 1;
    }
    proof {
        assert(vals.take(n as int) == vals);
    }
    res
}

/// Which of a list of ports are open.
pub open spec fn open_flags(ps: Seq<Port>) -> Seq<bool> {
    ps.map_values(|p: Port| p.is_open)
}

/// The ports that a scan found open, in order.
pub fn open_ports(ports: &Vec<Port>) -> (res: Vec<Port>)
    ensures
        ports_view(res@) == ports_view(flagged(ports@, open_flags(ports@))),
{
    let ghost all = ports@;
    let ghost flags = open_flags(ports@);
    let n = ports.len();
    let mut res: Vec<Port> = Vec::new();
    let mut i: usize = 0;
    while i < n
        invariant
            n == all.len(),
            all == ports@,
            i <= n,
            flags == open_flags(ports@),
            ports_view(res@) == ports_view(flagged(all.take(i as int), flags)),
        decreases n - i,
    {
        proof {
            assert(all.take(i + 1).drop_last() == all.take(i as int));
        }
        let ghost prev = res@;
        if ports[i].is_open {
            let d = ports[i].duplicate();
            res.push(d);
            proof {
                lemma_ports_view_push(prev, d);
                lemma_ports_view_push(flagged(all.take(i as int), flags), all[i as int]);
            }
        }
        i = i + 1;
    }
    proof {
        assert(all.take(n as int) == all);
    }
    res
}

/// The result of probing one port: open exactly when a connection was made.
pub fn port_status(port: u16, connected: bool) -> (res: Port)
    ensures
        res.port == port,
        res.is_open == connected,
        res.findings@.len() == 0,
{
    Port { port, is_open: connected, findings: Vec::new() }
}

/// The address whose lookup finds a subdomain's socket addresses: `name:1024`.
pub fn lookup_address(subdomain: &Subdomain) -> (res: String)
    ensures
        res@ == subdomain.subdomain@ + ":1024"@,
{
    subdomain.subdomain.clone().concat(":1024")
}

/// The crt.sh query that lists the certificates of a domain and its subdomains.
pub fn crt_sh_url(domain: &str) -> (res: String)
    ensures
        res@ == "https://crt.sh/?q=%25."@ + domain@ + "&output=json"@,
{
    String::from_str("https://crt.sh/?q=%25.").concat(domain).concat("&output=json")
}

/// The number of jobs a link may run at once: its `concurrency` value when
/// that parses as a number, else 1.
pub fn concurrency_from_link(value: Option<&str>) -> (res: usize)
    ensures
        res == match value {
            Some(v) => match spec_parse_usize(v@) {
                Some(n) => n,
                None => 1,
            },
            None => 1,
        },
{
    match value {
        Some(v) => match parse_usize(v) {
            Some(n) => n,
            None => 1,
        },
        None => 1,
    }
}

/// A concurrency value written as a decimal number is read back as that number.
pub proof fn lemma_concurrency_roundtrip(n: usize)
    ensures
        match spec_parse_usize(decimal(n as nat)) {
            Some(m) => m == n,
            None => false,
        },
{
    crate::text::lemma_parse_decimal(n);
}

/// Keeping the flagged elements of a list keeps each element whose flag is
/// set (a missing flag counting as unset), and only those, in order.
pub proof fn lemma_flagged_keeps_flagged<T>(s: Seq<T>, flags: Seq<bool>)
    ensures
        forall|i: int|
            0 <= i < s.len() && i < flags.len() && flags[i] ==> #[trigger] flagged(s, flags).contains(
                s[i],
            ),
        forall|j: int|
            0 <= j < flagged(s, flags).len() ==> exists|i: int|
                0 <= i < s.len() && i < flags.len() && flags[i] && s[i] == #[trigger] flagged(
                    s,
                    flags,
                )[j],
        flagged(s, flags).len() <= s.len(),
    decreases s.len(),
{
    if s.len() > 0 {
        let d = s.drop_last();
        let rest = flagged(d, flags);
        lemma_flagged_keeps_flagged(d, flags);
        let f = flagged(s, flags);
        assert forall|i: int|
            0 <= i < s.len() && i < flags.len() && flags[i] implies #[trigger] f.contains(s[i]) by {
            if i < s.len() - 1 {
                assert(d[i] == s[i]);
                assert(rest.contains(d[i]));
                let w = choose|w: int| 0 <= w < rest.len() && rest[w] == d[i];
                if s.len() - 1 < flags.len() && flags[s.len() - 1] {
                    assert(f == rest.push(s.last()));
                    assert(f[w] == rest[w]);
                } else {
                    assert(f == rest);
                }
            } else {
                assert(f[f.len() - 1] == s[i]);
            }
        }
        assert forall|j: int| 0 <= j < f.len() implies exists|i: int|
            0 <= i < s.len() && i < flags.len() && flags[i] && s[i] == #[trigger] f[j] by {
            if j < rest.len() {
                let i = choose|i: int|
                    0 <= i < d.len() && i < flags.len() && flags[i] && d[i] == rest[j];
                assert(s[i] == d[i]);
                assert(f[j] == rest[j]);
            } else {
                assert(s[s.len() - 1] == f[j]);
            }
        }
    }
}

/// The report of an enumeration that failed for `reason`.
pub fn enumeration_failed(reason: String, timestamp: Timestamp, req: &RunScansRequest) -> (res:
    EnumerateEndpointsResponse)
    ensures
        res.reason == Some(reason),
        res.subdomains is None,
        !res.success,
        res.timestamp == timestamp,
        res.target == req.target,
        res.jwt == req.jwt,
{
    EnumerateEndpointsResponse {
        reason: Some(reason),
        subdomains: None,
        success: false,
        timestamp,
        target: req.target.clone(),
        jwt: req.jwt.clone(),
    }
}

/// The report of an enumeration that found `subdomains`.
pub fn enumeration_succeeded(
    subdomains: Vec<Subdomain>,
    timestamp: Timestamp,
    req: &RunScansRequest,
) -> (res: EnumerateEndpointsResponse)
    ensures
        res.reason is None,
        res.subdomains == Some(subdomains),
        res.success,
        res.timestamp == timestamp,
        res.target == req.target,
        res.jwt == req.jwt,
{
    EnumerateEndpointsResponse {
        reason: None,
        subdomains: Some(subdomains),
        success: true,
        timestamp,
        target: req.target.clone(),
        jwt: req.jwt.clone(),
    }
}

} // verus!

verus! {

/// What the endpoint enumerator does next for a request.
pub enum EnumerationStep {
    /// Look up whether each of these subdomains resolves.
    Resolve(Vec<Subdomain>),
    /// Probe the ports of each of these subdomains.
    ScanPorts(Vec<Subdomain>),
    /// Send this report back to the orchestrator.
    Report(EnumerateEndpointsResponse),
}

/// The step after the certificate transparency query: report its failure, or
/// resolve the names it found together with the target itself.
pub fn after_names(req: &RunScansRequest, timestamp: Timestamp, found: Result<Vec<Subdomain>, String>) -> (res: EnumerationStep)
    ensures
        match found {
            Err(e) => res matches EnumerationStep::Report(r) && r.reason == Some(e) && r.subdomains
                is None && !r.success && r.timestamp == timestamp && r.target == req.target
                && r.jwt == req.jwt,
            Ok(subs) => res matches EnumerationStep::Resolve(s) && subdomains_view(s@) == if subdomains_view(
                subs@,
            ).contains(bare_subdomain(req.target@)) {
                subdomains_view(subs@)
            } else {
                subdomains_view(subs@).push(bare_subdomain(req.target@))
            },
        },
{
    match found {
        Err(e) => EnumerationStep::Report(enumeration_failed(e, timestamp, req)),
        Ok(subs) => EnumerationStep::Resolve(with_original_subdomain(subs, req.target.as_str())),
    }
}

/// The step after the lookups (`resolves[i]` tells whether the i-th
/// subdomain resolves; `Err` where no lookup could be made): report the
/// failure, or probe the ports of the subdomains that resolve.
pub fn after_resolving(
    req: &RunScansRequest,
    timestamp: Timestamp,
    subdomains: &Vec<Subdomain>,
    resolves: Result<Vec<bool>, String>,
) -> (res: EnumerationStep)
    ensures
        match resolves {
            Err(e) => res matches EnumerationStep::Report(r) && r.reason == Some(e) && r.subdomains
                is None && !r.success && r.timestamp == timestamp && r.target == req.target
                && r.jwt == req.jwt,
            Ok(flags) => res matches EnumerationStep::ScanPorts(s) && subdomains_view(s@)
                == subdomains_view(flagged(subdomains@, flags@)),
        },
{
    match resolves {
        Err(e) => EnumerationStep::Report(enumeration_failed(e, timestamp, req)),
        Ok(flags) => EnumerationStep::ScanPorts(resolved_subdomains(subdomains, &flags)),
    }
}

/// The report after the port scans (`None` where a subdomain's scan failed):
/// the subdomains whose scans succeeded.
pub fn after_scanning(req: &RunScansRequest, timestamp: Timestamp, results: &Vec<Option<Subdomain>>) -> (res: EnumerateEndpointsResponse)
    ensures
        res.reason is None,
        res.success,
        res.subdomains matches Some(s) && subdomains_view(s@) == subdomains_view(
            flagged(option_values(results@), option_flags(results@)),
        ),
        res.timestamp == timestamp,
        res.target == req.target,
        res.jwt == req.jwt,
{
    enumeration_succeeded(scanned_subdomains(results), timestamp, req)
}

} // verus!
