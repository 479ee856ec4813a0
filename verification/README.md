# naveen_ai_host

The host side of the NAVEEN AI desktop application, as a verified library
with an application shell around it.

- `src/` is the library, verified with Verus: challenge/response
  authentication and sessions (`auth`), the framed and authenticated IPC
  protocol to the Core process (`ipc`) and the unambiguity of its canonical
  message material (`material`), the capability security gateway
  (`security`), device trust and the device fabric (`device_security`,
  `device_fabric`), node identities (`device_identity`), the network
  allowlist rules (`network_gateway`), the capability registry
  (`capabilities`), and the decisions of the Core supervisor
  (`core_supervisor`). `text`, `encoding` and `keyed` hold the text, byte
  and keyed-sequence facts these rest on.
- `app/` is the Tauri application: process launch, pipes and platform
  crypto on Windows, HTTP, audio, telemetry, and the JSON forms of the
  library's messages.
- `tests/` exercises the library from outside.
