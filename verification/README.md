# hit-auto-login-core

Verified core of an event-driven auto-login client for the HIT campus network (HIT-WLAN,
Srun portal at `wp.hit.edu.cn`). On a trigger (login, wake from sleep, screen resume, or a
manual check) one run checks the public network, joins HIT-WLAN if needed, logs in at the
portal and checks the network again.

## Layout

- `src/` — the library, written in Verus and verified:
  - `text` — character sequences, trimming, ASCII case, searching;
  - `xencode`, `crypto` — the Srun login parameters (XEncode, Srun Base64, HMAC-MD5
    password, SHA-1 checksum) and the login query;
  - `parsing` — portal page fields and JSON/JSONP replies;
  - `portal` — query encoding, reply interpretation, safe portal messages, and the login
    as a state machine driven reply by reply;
  - `workflow` — a run as a state machine (check, join Wi-Fi, authenticate, verify) with
    proved bounds;
  - `coordinator` — admission of runs: one at a time, automatic triggers deduplicated;
  - `config`, `status`, `connectivity`, `system` — settings, user-facing status, the
    network probe verdict, and helpers for NetworkManager, systemd and Windows WLAN.
- `tests/` — tests of the library.
- `app/` — the Linux program around the library: HTTP, processes, files, D-Bus, tray and
  GTK window. It performs the commands of the library's state machines and hands back
  the answers.

Calls into outside crates (`hmac`, `md-5`, `sha1`, `base64`, `serde_json`, `regex`,
`url`) stand behind small trusted wrappers whose contracts say what the library relies on.
