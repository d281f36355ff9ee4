//! HTTP header maps and responses, with the response constructors that the
//! API gateway answers with.
use crate::text::{ascii_lower, decimal, str_eq};
use vstd::prelude::*;
use vstd::utf8::encode_utf8;

verus! {

/// The character views of a list of header values.
pub open spec fn values_view(vs: Seq<String>) -> Seq<Seq<char>> {
    vs.map_values(|s: String| s@)
}

/// The map that a list of (name, values) entries denotes; a later entry for a
/// name replaces an earlier one.
pub open spec fn entries_map(es: Seq<(String, Vec<String>)>) -> Map<Seq<char>, Seq<Seq<char>>>
    decreases es.len(),
{
    if es.len() == 0 {
        Map::empty()
    } else {
        entries_map(es.drop_last()).insert(es.last().0@, values_view(es.last().1@))
    }
}

/// No header name occurs twice.
pub open spec fn distinct_names(es: Seq<(String, Vec<String>)>) -> bool {
    forall|i: int, j: int| 0 <= i < j < es.len() ==> es[i].0@ != es[j].0@
}

proof fn lemma_entries_map_index(es: Seq<(String, Vec<String>)>, i: int)
    requires
        distinct_names(es),
        0 <= i < es.len(),
    ensures
        entries_map(es).contains_key(es[i].0@),
        entries_map(es)[es[i].0@] == values_view(es[i].1@),
    decreases es.len(),
{
    if i < es.len() - 1 {
        let d = es.drop_last();
        assert(d[i] == es[i]);
        lemma_entries_map_index(d, i);
        assert(es[i].0@ != es.last().0@);
    }
}

proof fn lemma_entries_map_absent(es: Seq<(String, Vec<String>)>, k: Seq<char>)
    requires
        forall|i: int| 0 <= i < es.len() ==> (#[trigger] es[i]).0@ != k,
    ensures
        !entries_map(es).contains_key(k),
    decreases es.len(),
{
    if es.len() > 0 {
        let d = es.drop_last();
        assert forall|i: int| 0 <= i < d.len() implies (#[trigger] d[i]).0@ != k by {
            assert(d[i] == es[i]);
        }
        lemma_entries_map_absent(d, k);
    }
}

proof fn lemma_entries_map_update(
    es: Seq<(String, Vec<String>)>,
    i: int,
    e: (String, Vec<String>),
)
    requires
        distinct_names(es),
        0 <= i < es.len(),
        es[i].0@ == e.0@,
    ensures
        entries_map(es.update(i, e)) == entries_map(es).insert(e.0@, values_view(e.1@)),
    decreases es.len(),
{
    let u = es.update(i, e);
    if i == es.len() - 1 {
        assert(u.drop_last() == es.drop_last());
        assert(entries_map(u) =~= entries_map(es).insert(e.0@, values_view(e.1@)));
    } else {
        let d = es.drop_last();
        assert(u.drop_last() == d.update(i, e));
        assert(d[i] == es[i]);
        lemma_entries_map_update(d, i, e);
        assert(es.last().0@ != e.0@);
        assert(entries_map(u) =~= entries_map(es).insert(e.0@, values_view(e.1@)));
    }
}

/// HTTP headers: each name maps to its list of values.
pub struct HeaderMap {
    entries: Vec<(String, Vec<String>)>,
}

impl View for HeaderMap {
    type V = Map<Seq<char>, Seq<Seq<char>>>;

    closed spec fn view(&self) -> Map<Seq<char>, Seq<Seq<char>>> {
        entries_map(self.entries@)
    }
}

impl HeaderMap {
    #[verifier::type_invariant]
    spec fn names_distinct(self) -> bool {
        distinct_names(self.entries@)
    }

    /// The empty header map.
    pub fn new() -> (res: HeaderMap)
        ensures
            res@ == Map::<Seq<char>, Seq<Seq<char>>>::empty(),
    {
        HeaderMap { entries: Vec::new() }
    }

    /// A header map holding one header.
    pub fn single(name: String, values: Vec<String>) -> (res: HeaderMap)
        ensures
            res@ == Map::<Seq<char>, Seq<Seq<char>>>::empty().insert(name@, values_view(values@)),
            res.entry_seq() == seq![(name, values)],
    {
        let mut entries: Vec<(String, Vec<String>)> = Vec::new();
        entries.push((name, values));
        let m = HeaderMap { entries };
        assert(m.entries@.drop_last() == Seq::<(String, Vec<String>)>::empty());
        assert(entries_map(m.entries@.drop_last()) == Map::<Seq<char>, Seq<Seq<char>>>::empty());
        m
    }

    /// The values stored under `name`, if any.
    pub fn get(&self, name: &str) -> (res: Option<&Vec<String>>)
        ensures
            res is None <==> !self@.contains_key(name@),
            res matches Some(v) ==> self@[name@] == values_view(v@),
    {
        proof {
            use_type_invariant(self);
        }
        let n = self.entries.len();
        let mut i: usize = 0;
        while i < n
            invariant
                n == self.entries@.len(),
                i <= n,
                distinct_names(self.entries@),
                forall|j: int| 0 <= j < i ==> (#[trigger] self.entries@[j]).0@ != name@,
            decreases n - i,
        {
            let entry = &self.entries[i];
            if str_eq(entry.0.as_str(), name) {
                proof {
                    lemma_entries_map_index(self.entries@, i as int);
                }
                return Some(&entry.1);
            }
            i = i + 1;
        }
        proof {
            lemma_entries_map_absent(self.entries@, name@);
        }
        None
    }

    /// Whether a header named `name` is present.
    pub fn contains_key(&self, name: &str) -> (res: bool)
        ensures
            res == self@.contains_key(name@),
    {
        self.get(name).is_some()
    }

    /// Stores `values` under `name`, replacing what was stored there.
    pub fn insert(&mut self, name: String, values: Vec<String>)
        ensures
            final(self)@ == old(self)@.insert(name@, values_view(values@)),
    {
        proof {
            use_type_invariant(&*self);
        }
        let ghost orig = self.entries@;
        let ghost new_entry = (name, values);
        let n = self.entries.len();
        let mut i: usize = 0;
        while i < n
            invariant
                n == self.entries@.len(),
                i <= n,
                self.entries@ == orig,
                orig == old(self).entries@,
                new_entry == (name, values),
                distinct_names(self.entries@),
                forall|j: int| 0 <= j < i ==> (#[trigger] self.entries@[j]).0@ != name@,
            decreases n - i,
        {
            if str_eq(self.entries[i].0.as_str(), name.as_str()) {
                let ghost old_entries = self.entries@;
                let ghost e = (name, values);
                proof {
                    lemma_entries_map_update(old_entries, i as int, e);
                    let u = old_entries.update(i as int, e);
                    assert forall|a: int, b: int| 0 <= a < b < u.len() implies u[a].0@ != u[b].0@ by {
                        assert(old_entries[a].0@ != old_entries[b].0@);
                    }
                }
                let mut es: Vec<(String, Vec<String>)> = Vec::new();
                std::mem::swap(&mut es, &mut self.entries);
                es.set(i, (name, values));
                self.entries = es;
                assert(self.entries@ == orig.update(i as int, new_entry));
                return ;
            }
            i = i + 1;
        }
        let ghost old_entries = self.entries@;
        proof {
            let p = old_entries.push((name, values));
            assert(p.drop_last() == old_entries);
            assert forall|a: int, b: int| 0 <= a < b < p.len() implies p[a].0@ != p[b].0@ by {
                if b == p.len() - 1 {
                    assert(p[a] == old_entries[a]);
                } else {
                    assert(p[a] == old_entries[a] && p[b] == old_entries[b]);
                }
            }
        }
        let mut es: Vec<(String, Vec<String>)> = Vec::new();
        std::mem::swap(&mut es, &mut self.entries);
        es.push((name, values));
        self.entries = es;
        assert(self.entries@ == orig.push(new_entry));
        assert(self.entries@.drop_last() == orig);
    }

    /// The (name, values) pairs of the map, in the order they were first inserted.
    pub closed spec fn entry_seq(&self) -> Seq<(String, Vec<String>)> {
        self.entries@
    }

    /// The (name, values) pairs of the map.
    pub fn entries(&self) -> (res: &Vec<(String, Vec<String>)>)
        ensures
            res@ == self.entry_seq(),
            entries_map(res@) == self@,
            distinct_names(res@),
    {
        proof {
            use_type_invariant(self);
        }
        &self.entries
    }
}

/// After storing values under a name, looking the name up finds them, and
/// every other name finds what it found before.
pub proof fn lemma_insert_then_get(
    before: HeaderMap,
    name: Seq<char>,
    values: Seq<Seq<char>>,
    other: Seq<char>,
)
    ensures
        ({
            let after = before@.insert(name, values);
            &&& after.contains_key(name)
            &&& after[name] == values
            &&& other != name ==> (after.contains_key(other) == before@.contains_key(other))
            &&& other != name && before@.contains_key(other) ==> after[other] == before@[other]
        }),
{
}

/// A map built from one entry lowers to that entry under its lower-cased name.
pub proof fn lemma_single_entry_values(m: HeaderMap)
    requires
        m.entry_seq().len() == 1,
    ensures
        lowered_entries(m.entry_seq()) == Map::<Seq<char>, Seq<Seq<char>>>::empty().insert(
            unicode_lowercase(m.entry_seq()[0].0@),
            m@[m.entry_seq()[0].0@],
        ),
{
    let e = m.entry_seq();
    assert(e.drop_last() == Seq::<(String, Vec<String>)>::empty());
    assert(entries_map(e.drop_last()) == Map::<Seq<char>, Seq<Seq<char>>>::empty());
    assert(lowered_entries(e.drop_last()) == Map::<Seq<char>, Seq<Seq<char>>>::empty());
    assert(e.last() == e[0]);
    assert(m@ == entries_map(e));
    assert(m@[e[0].0@] == values_view(e[0].1@));
}

/// Wraps a UTF-8 string as an owned byte vector.
pub fn utf8_bytes(s: &str) -> (res: Vec<u8>)
    ensures
        res@ == encode_utf8(s@),
{
    s.as_bytes_vec()
}

/// An HTTP response: status code, headers and body.
pub struct HttpResponse {
    pub status_code: u16,
    pub header: HeaderMap,
    pub body: Vec<u8>,
}

/// The JSON text that serialises a byte vector: an array of decimal numbers.
pub open spec fn json_u8_items(bs: Seq<u8>) -> Seq<char>
    decreases bs.len(),
{
    if bs.len() == 0 {
        Seq::empty()
    } else if bs.len() == 1 {
        decimal(bs[0] as nat)
    } else {
        json_u8_items(bs.drop_last()) + seq![','] + decimal(bs.last() as nat)
    }
}

/// The JSON array of the decimal numbers of `bs`.
pub open spec fn json_u8_array(bs: Seq<u8>) -> Seq<char> {
    seq!['['] + json_u8_items(bs) + seq![']']
}

/// Serialises a byte slice with `serde_json::to_vec`. serde_json writes a
/// sequence of `u8` as a JSON array of the decimal numbers, separated by
/// commas, with no white space; it cannot fail on this input.
#[verifier::external_body]
fn json_u8_vec(bytes: &[u8]) -> (res: Vec<u8>)
    ensures
        res@ == encode_utf8(json_u8_array(bytes@)),
{
    match serde_json::to_vec(bytes) {
        Ok(v) => v,
        Err(_) => Vec::new(),
    }
}

/// A lower-case hexadecimal digit, for `d < 16`.
pub open spec fn hex_lower(d: u32) -> char {
    if d < 10 {
        (48 + d) as char
    } else {
        (87 + d) as char
    }
}

/// How a JSON string holds `c`: `"` and `\` behind a backslash; backspace,
/// tab, line feed, form feed and carriage return as `\b`, `\t`, `\n`, `\f`
/// and `\r`; the other characters below U+0020 as `\u00` and two lower-case
/// hexadecimal digits; every other character as it is.
pub open spec fn json_escape_char(c: char) -> Seq<char> {
    if c == '"' {
        seq!['\\', '"']
    } else if c == '\\' {
        seq!['\\', '\\']
    } else if c == '\u{8}' {
        seq!['\\', 'b']
    } else if c == '\t' {
        seq!['\\', 't']
    } else if c == '\n' {
        seq!['\\', 'n']
    } else if c == '\u{c}' {
        seq!['\\', 'f']
    } else if c == '\r' {
        seq!['\\', 'r']
    } else if (c as u32) < 0x20 {
        seq!['\\', 'u', '0', '0', hex_lower((c as u32) / 16), hex_lower((c as u32) % 16)]
    } else {
        seq![c]
    }
}

/// The characters of `s`, each as a JSON string holds it.
pub open spec fn json_escaped(s: Seq<char>) -> Seq<char>
    decreases s.len(),
{
    if s.len() == 0 {
        Seq::empty()
    } else {
        json_escaped(s.drop_last()) + json_escape_char(s.last())
    }
}

/// The JSON string literal for `s`, as serde_json writes it.
pub open spec fn json_quoted(s: Seq<char>) -> Seq<char> {
    seq!['"'] + json_escaped(s) + seq!['"']
}

/// A character that a JSON string holds as it is.
pub open spec fn json_plain_char(c: char) -> bool {
    c != '"' && c != '\\' && (c as u32) >= 0x20
}

/// A string that JSON holds as it is between quotes.
pub open spec fn json_plain_text(s: Seq<char>) -> bool {
    forall|i: int| 0 <= i < s.len() ==> json_plain_char(#[trigger] s[i])
}

/// A string without characters that JSON escapes is quoted as it is.
pub proof fn lemma_json_quoted_plain(s: Seq<char>)
    requires
        json_plain_text(s),
    ensures
        json_quoted(s) == seq!['"'] + s + seq!['"'],
    decreases s.len(),
{
    lemma_json_escaped_plain(s);
}

proof fn lemma_json_escaped_plain(s: Seq<char>)
    requires
        json_plain_text(s),
    ensures
        json_escaped(s) == s,
    decreases s.len(),
{
    if s.len() > 0 {
        let d = s.drop_last();
        assert forall|i: int| 0 <= i < d.len() implies json_plain_char(#[trigger] d[i]) by {
            assert(d[i] == s[i]);
        }
        lemma_json_escaped_plain(d);
        assert(json_plain_char(s[s.len() - 1]));
        assert(d.push(s.last()) == s);
    }
}

/// Calls `serde_json::to_string` on a string: the string between quotes,
/// each character written as `json_escape_char` says (serde_json's escape
/// table). It cannot fail on a string.
#[verifier::external_body]
pub(crate) fn json_quote(s: &str) -> (res: String)
    ensures
        res@ == json_quoted(s@),
{
    match serde_json::to_string(s) {
        Ok(q) => q,
        Err(_) => String::new(),
    }
}

/// Every character of `s` is ASCII.
pub open spec fn is_ascii_text(s: Seq<char>) -> bool {
    forall|i: int| 0 <= i < s.len() ==> (#[trigger] s[i] as u32) < 128
}

/// What `str::to_lowercase` returns for `s`.
pub uninterp spec fn unicode_lowercase(s: Seq<char>) -> Seq<char>;

/// Calls `str::to_lowercase`. Its result is named by `unicode_lowercase`; on
/// ASCII text it lowers `A`-`Z` and leaves every other character, as std
/// documents. What it does to other letters (Unicode case mapping) is not
/// stated.
#[verifier::external_body]
pub(crate) fn to_lowercase(s: &str) -> (res: String)
    ensures
        res@ == unicode_lowercase(s@),
        is_ascii_text(s@) ==> res@ == s@.map_values(|c: char| ascii_lower(c)),
{
    s.to_lowercase()
}

/// The header map that `HttpResponse::json_with_headers` builds from `es`
/// before adding its content type: every name lower-cased, a later entry
/// replacing an earlier one whose lower-cased name is the same.
pub open spec fn lowered_entries(es: Seq<(String, Vec<String>)>) -> Map<Seq<char>, Seq<Seq<char>>>
    decreases es.len(),
{
    if es.len() == 0 {
        Map::empty()
    } else {
        lowered_entries(es.drop_last()).insert(
            unicode_lowercase(es.last().0@),
            values_view(es.last().1@),
        )
    }
}

/// The name of the content type header, lower-cased.
pub open spec fn content_type_name() -> Seq<char> {
    "content-type"@
}

/// The values of a JSON content type header.
pub open spec fn json_content_type() -> Seq<Seq<char>> {
    seq!["application/json"@]
}

impl HttpResponse {
    /// `HttpResponse::ok`: status 200, no headers, the given body.
    pub fn ok(body: Vec<u8>) -> (res: HttpResponse)
        ensures
            res.status_code == 200,
            res.header@ == Map::<Seq<char>, Seq<Seq<char>>>::empty(),
            res.body@ == body@,
    {
        HttpResponse { status_code: 200, header: HeaderMap::new(), body }
    }

    /// `HttpResponse::not_found`: status 404, no headers, empty body.
    pub fn not_found() -> (res: HttpResponse)
        ensures
            res.status_code == 404,
            res.header@ == Map::<Seq<char>, Seq<Seq<char>>>::empty(),
            res.body@ == Seq::<u8>::empty(),
    {
        HttpResponse { status_code: 404, header: HeaderMap::new(), body: Vec::new() }
    }

    /// `HttpResponse::internal_server_error`: status 500, the message as body.
    pub fn internal_server_error(msg: &str) -> (res: HttpResponse)
        ensures
            res.status_code == 500,
            res.header@ == Map::<Seq<char>, Seq<Seq<char>>>::empty(),
            res.body@ == encode_utf8(msg@),
    {
        HttpResponse { status_code: 500, header: HeaderMap::new(), body: utf8_bytes(msg) }
    }

    /// `HttpResponse::json_with_headers` for a string payload: the payload as a
    /// JSON string, the given headers under lower-cased names, and a JSON
    /// content type unless the headers already name one.
    pub fn json_with_headers(payload: &str, status_code: u16, headers: &HeaderMap) -> (res:
        HttpResponse)
        ensures
            res.status_code == status_code,
            res.body@ == encode_utf8(json_quoted(payload@)),
            ({
                let fixed = lowered_entries(headers.entry_seq());
                res.header@ == if fixed.contains_key(content_type_name()) {
                    fixed
                } else {
                    fixed.insert(content_type_name(), json_content_type())
                }
            }),
            forall|i: int|
                0 <= i < headers.entry_seq().len() && is_ascii_text(
                    #[trigger] headers.entry_seq()[i].0@,
                ) ==> unicode_lowercase(headers.entry_seq()[i].0@) == headers.entry_seq()[i].0@.map_values(
                    |c: char| ascii_lower(c),
                ),
    {
        let es = headers.entries();
        let mut fixed = HeaderMap::new();
        let mut i: usize = 0;
        while i < es.len()
            invariant
                i <= es@.len(),
                es@ == headers.entry_seq(),
                fixed@ == lowered_entries(es@.take(i as int)),
                forall|j: int|
                    0 <= j < i && is_ascii_text(#[trigger] es@[j].0@) ==> unicode_lowercase(
                        es@[j].0@,
                    ) == es@[j].0@.map_values(|c: char| ascii_lower(c)),
            decreases es@.len() - i,
        {
            let name = to_lowercase(es[i].0.as_str());
            let values = es[i].1.clone();
            proof {
                assert(es@.take(i + 1).drop_last() == es@.take(i as int));
                assert(values@ == es@[i as int].1@);
            }
            fixed.insert(name, values);
            i = i + 1;
        }
        proof {
            assert(es@.take(es@.len() as int) == es@);
        }
        if !fixed.contains_key("content-type") {
            let mut v: Vec<String> = Vec::new();
            v.push(String::from_str("application/json"));
            fixed.insert(String::from_str("content-type"), v);
            proof {
                assert(values_view(v@) == json_content_type());
            }
        }
        let body_text = json_quote(payload);
        HttpResponse { status_code, header: fixed, body: utf8_bytes(body_text.as_str()) }
    }

    /// `HttpResponse::json` for a byte-vector payload: the bytes as a JSON array
    /// of numbers, with a JSON content type.
    pub fn json_bytes(payload: &[u8], status_code: u16) -> (res: HttpResponse)
        ensures
            res.status_code == status_code,
            res.body@ == encode_utf8(json_u8_array(payload@)),
            res.header@ == Map::<Seq<char>, Seq<Seq<char>>>::empty().insert(
                content_type_name(),
                json_content_type(),
            ),
    {
        let body = json_u8_vec(payload);
        let mut v: Vec<String> = Vec::new();
        v.push(String::from_str("application/json"));
        let header = HeaderMap::single(String::from_str("content-type"), v);
        proof {
            assert(values_view(v@) == json_content_type());
        }
        HttpResponse { status_code, header, body }
    }
}

} // verus!
