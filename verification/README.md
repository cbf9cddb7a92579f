# mcp_locator

A local registry and broker for MCP servers. Servers are described by JSON cards that
live in per-tier directories (user, machine, and the XDG data directories); the library
finds and validates those cards, merges them into one catalog with shadowing by tier,
binds user consent to a hash of each server's launch command, and decides how the broker
activates, shares, releases and reaps the servers it starts.

Layout:

- `src/` is the verified library. Every public function there carries a contract that Verus
  proves; the few calls it makes into std and into `sha2` sit behind small trusted
  wrappers, each with a doc comment that says what is assumed of it.
  - `json`, `canonical`, `hash`: the JSON model, RFC 8785 canonical text, and the
    launch hash over a card's `local.launch` and `endpoint`.
  - `card`, `env`, `expand`, `dirs`, `catalog`: card validation, `${VAR}` expansion,
    the tier directories and the merged catalog.
  - `consent`, `audit`, `prompt`, `consent_ui`, `signature`, `security`: the consent
    store and its laws, the audit log lines, the consent prompt, Authenticode trust
    decisions and pipe security descriptors.
  - `activation`, `server`, `rpc`: the broker's activation engine (as a state machine
    that returns effects to perform), request routing and the JSON-RPC replies.
  - `cli`, `install`: argument parsing and the install plan.
- `tests/` runs the library on concrete values.
- `app/` is the program around the library: file and pipe I/O, process spawning, the
  async runtime, and the Windows calls.
