# waf_console

The operator console for a local CrowdSec engine (LAPI + AppSec), with its rules proved
by Verus.

- `src/` is the verified library: JSON values and their views, request routing and
  admission (rate limits, origin guard, media types), loopback URL checks, the policy
  store and its AppSec YAML, routes and tunnels with their Traefik sidecar, alert rows and
  dashboard counts, OWASP / ATT&CK correlation, the MISP, TheHive and STIX exports, the
  GA4 snapshot, and the rules view of the engine's files. Each public function states its
  result in `ensures`; cross-function properties are `law_*` proof functions.
- Calls into `regex`, `ipnet`, `url`, `uuid`, `chrono` and `sha1_smol` go through small
  trusted wrappers (`#[verifier::external_body]`) whose contracts name the crates' results.
- `app/` is the HTTP server (axum, tokio): files, processes, sockets, the clock, and the
  parts of the dashboard that are floating point.
- `tests/` runs the library on concrete values.
