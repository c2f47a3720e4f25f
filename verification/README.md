# iptv-proxy

A streaming proxy for IPTV / HLS. A player asks for
`http://<ip>:<port>/?url=<encoded address>`; the proxy fetches the resource
with the header fields that its origin expects, and rewrites playlists and
redirects so that everything behind them is fetched through the proxy too.

`src/` is the library with the proxy's decisions, verified with Verus:

- `handler`: what a request is answered, or what the origin is asked for
- `reply`: what the player gets of the origin's answer
- `playlist`: rewriting of m3u8 playlists
- `headers`, `target`, `percent`, `address`, `text`: header fields, URLs,
  percent-encoding, IP addresses and text
- `resolver`: which addresses of a host are used and remembered
- `config`, `system_proxy`: the setup from the command line, the environment
  and the Internet settings of Windows
- `laws`: what holds of these together

`app/` is the server around it (axum, reqwest, tokio), `tests/` the tests.

| Variable | Meaning | Default |
|----------|---------|---------|
| `LOCAL_IP`, or `-Li <ip>` | address of this machine in rewritten addresses | `192.168.1.1` |
| `PROXY_BASE` | the whole beginning of rewritten addresses | `http://<LOCAL_IP>:<port>/?url=` |
| `BIND_ADDR` | where to listen | `0.0.0.0:8080` |
| `WORKERS` | number of worker threads | CPU cores |
| `ALLOW_HOSTS` | hosts that may be asked for, with commas | all |
| `ALLOW_PRIVATE` | `1` or `true`: private addresses may be asked for | no |
| `DEFAULT_REFERER`, `DEFAULT_USER_AGENT` | where the player gives none | built in |
| `LOG_FILE` | where to log besides stderr | `iptv-proxy.log` in the temporary directory |
| `RUST_LOG` | log level | `info` |
