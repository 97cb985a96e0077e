# arwah

A network traffic analysis library written in Verus: the functions in
`src/` carry contracts that Verus proves, and the laws that span several
functions are stated as proof functions next to the code they are about.

The calls into outside crates (`chrono`, `etherparse`, `dashmap`, `ipnet`)
and a few std functions go through small wrappers marked
`#[verifier::external_body]`, and outside types are declared with
`#[verifier::external_type_specification]`. Their contracts, and the
`uninterp` spec functions that name what such calls return, are assumed,
not proved: each is written down from the outside crate's source or
documentation, and the doc comment above it says what it claims.

Layout:

- `src/` — the verified library: frame decoding (`dissector`), flows
  (`flow`, `flow_tracker`), statistics (`stats`), alert rules (`alert`),
  Suricata-style rules (`rules`), blacklists (`blacklist`), display filters
  (`filter`), payload classification (`dpi`), TCP stream reassembly
  (`stream`), EVE records (`eve`), capture file rotation (`rotation`), the
  capture session's decisions (`session`), the command line, dashboard and
  printed lines (`cli`, `tui`, `report`, `rank`), and shared helpers
  (`text`, `net`, `clock`, `table`).
- `tests/` — tests run against the compiled library.
- `app/` — the `arwah` program around the library: argument parsing,
  packet capture through libpcap and raw sockets, files, JSON output,
  GeoIP lookups, the terminal dashboard, and bindings to C dissectors.
