# bonsai

The decision logic of a network telemetry and operations daemon, written in
Verus: every function of the library in `src/` carries a contract that Verus
proves, and the properties that span several calls are stated as proof
functions next to the code they speak of.

## Layout

- `src/` — the verified library. One module per concern: the device
  registry (`registry`, `address`, `order`), syslog shunning (`shun`, with regexes in `pattern`), output
  adapters (`output/*`), remediation trust and rollback (`remediation`),
  sidecar and receiver supervision (`sidecar`, `sidecar_process`,
  `receiver`), signal filtering, resource profiles and governance, the
  ServiceNow and change-management integrations (`aiops`, `change`), the MCP
  tool surface (`mcp`, `mcp_transport`), investigations (`investigation`,
  `investigation_trigger`), the parser chain, playbooks, retention, service discovery, startup
  settings, and the security components (`security/*`). `text` and `keyed`
  hold the string and table helpers the others share, `json` the parsed JSON
  documents.
- `app/` — the daemon around the library: reading `/proc` and cgroups, the
  timed loops of the governor and the memory profiler, child-process
  supervision, token signing, the threat feeds, the HTTP calls of the
  investigation trigger, the parser chain and the pushers, and the files on
  disk.
- `tests/` — tests that run the compiled library.

Calls into outside crates that compute (regular expressions, JSON parsing,
time parsing, base32, URL encoding, TOTP, random numbers) go through small trusted wrappers
in `src/`, each with a doc comment that says what its contract assumes.
