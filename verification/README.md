# failover_proxy

An HTTP proxy that forwards each request to the first backend, in a configured order, that can
answer it. A backend authenticates with an OAuth token, which is loaded from a file and loaded again
when it has expired or was rejected, or with an API key. Fault rules let a backend fail at random
for a test.

- `src/` is the library, verified with Verus: what the proxy decides. It neither waits nor reads
  files. A request is a small state machine (`src/proxy.rs`): `begin` and `advance` say what is to be
  done next, and take what came of it. `src/laws.rs` holds what is true of every run of it.
- `app/` is the program around it: the server, the HTTP client, the files and the random numbers.
- `tests/` runs the library on concrete values.

## Configuration

The program reads `$CLAUDE_PROXY_CONFIG`, else `~/.config/failover-proxy/config.toml`:

```toml
[proxy]
listen = "127.0.0.1:8080"

[secrets]
source = "~/secrets.toml"

[[backends]]
name = "primary"
base_url = "https://api.example.com"
credentials_file = "~/.credentials.json"

[[backends]]
name = "second"
base_url = "https://other.example.com"
auth = "api_key"
key = "$REF:second.key"

[backends.model_map]
client-model = "upstream/model"

[failover]
order = ["primary", "second"]
```

A value that starts with `$REF:` names a string in the secrets file, wherever it stands but for
`[secrets]` itself. Where `$CLAUDE_PROXY_MGMT` is set, `/status`, `/metrics`, `/fault` and `/reload`
are served at that address. A post to `/fault` sets the rule of a backend with `"clear": false` and a
`status`, and clears it where `clear` is true or left out.
