# eml_analyzer

Static triage of `.eml` messages for incident responders: SPF/DKIM/DMARC and
Reply-To spoofing, indicators of compromise, credential-phishing links
(cloaked redirectors, the recipient's address in a fragment, requests for
credentials, a domain hidden before the `@`, impersonation of the recipient's
own domain), attachment checks (dangerous and double extensions, macros,
encrypted and hidden archive entries, PDFs linking to payloads) and a 0–100
risk score with its reasons.

The library is written in Verus. Its public functions carry contracts that
Verus proves, from their bodies and from the contracts of the helpers they
call. The calls into outside crates are the exception: each sits behind a small
trusted item (marked `#[verifier::external_body]` or declared as an outside
type) whose contract Verus believes without proof. `src/laws.rs` states what
holds of the analysis as a whole (the score is a percentage, more findings
never lower it, a quiet message scores nothing, every cloaked link's
destination is reported, a subdomain is the same organisation, and so on).

Layout:

- `src/text.rs`, `src/order.rs` — characters and strings as sequences, and the
  sorted, duplicate-free lists the indicators are kept in.
- `src/matching.rs`, `src/encoding.rs`, `src/digest.rs`, `src/mime.rs`,
  `src/archive.rs` — the calls into `regex`, `base64`, `hex`, `md-5`,
  `mailparse` and `zip`, each behind a small trusted item whose contract names
  what the crate returns.
- `src/links.rs`, `src/ioc.rs`, `src/headers.rs` — reading links, bodies and
  headers.
- `src/parser.rs` — the walk over a message's parts and the report.
- `src/scoring.rs` — the points, the reasons and the risk level.
- `src/names.rs`, `src/present.rs` — what the analyst is shown and offered.
- `app/` — the host side: reading the file, keeping the last scan, answering
  requests as JSON, writing a saved attachment to disk.
- `tests/` — the behaviour on concrete messages and values.
