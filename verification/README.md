# dtbh

The verified core of "Dog, The Bug Hunter", a distributed vulnerability
scanner built from wasmCloud actors and capability providers: an API gateway,
an orchestrator, an endpoint enumerator, scanner modules, a report writer, a
SurrealDB provider and a command line client.

`src/` holds the decisions, parsers and message builders of those components,
each with a contract that Verus proves:

- `text`: string operations (trim, split, lines, prefix search, decimal
  rendering and parsing) specified over `Seq<char>`.
- `http`: header maps with a map view, and the responses the gateway sends.
- `model`: the messages the components exchange, with their views.
- `gateway`: token extraction from cookies and bearer headers, routing,
  request classification, and the answers to sign-in, scan and report requests.
- `enumerator`: subdomains from certificate transparency answers, filtering
  of unresolved hosts and closed ports, the order of the enumeration's steps,
  and the enumeration report.
- `orchestrator`: report creation and scan tasks for an enumeration.
- `scanner`: probe URLs, `.env` and SQL injection findings, and scan results.
- `surreal`: link configuration with defaults, the sign-in plan for a request
  scope, per-actor link configurations, and query responses.
- `time`: ISO 8601 times and their seconds since the Unix epoch.
- `cli`: token sources, the request each command sends (reports with their
  target and time filters), and how answers are read.

Maps keyed by strings (header maps, per-actor link configurations) and the
set of certificate names are kept as lists whose keys are distinct, so that
lookups and inserts carry exact contracts: vstd's specification of std's
`HashMap` and `HashSet` gives exact results only for key types whose hashing
and equality it models, which `String` is not.

`tests/` runs the library on concrete values. `app/` holds the I/O around it:
argument parsing, HTTP calls, DNS lookups, TCP probes, JSON (de)serialisation
and the wasmCloud interface types.
