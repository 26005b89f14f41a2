# TROOZN proxy

A media proxy for a small board next to Kodi. Phones connect to it with WebTransport and offer
their files; Kodi reads these over FTP, HTTP or UPnP and is controlled over JSON-RPC. Links to
videos are turned into a continuous HLS stream or into a library of files that Kodi can play.

## Layout

- `src/` is the library: every decision of the proxy, verified with Verus. It does no I/O. Each
  function states what it returns and changes over the models of the types, and the laws that hold
  of several functions together stand at the end of the modules.
- `app/` is the program around it: sockets, files, processes and the clock.
- `tests/` runs the library on concrete values.

## What is trusted

Reading and writing JSON is left to `serde_json`, SHA-1 to `sha1`, and a few operations on
characters and texts to the standard library. Each such call stands behind a small function whose
contract says what is believed of it (`src/json.rs`, `src/ids.rs`, `src/encoding.rs`,
`src/text.rs`). Durations of segments are decimal fractions; they are summed up in `app/`, and the
library takes the outcome.

## Settings

| Variable | Default |
| --- | --- |
| `TROOZN_FTP_BIND` | `0.0.0.0:2120` |
| `TROOZN_HTTP_BIND` | `127.0.0.1:8787` |
| `TROOZN_UPNP_BIND` | `0.0.0.0:8788` |
| `TROOZN_UPNP_PUBLIC_HOST` | the address of the machine |
| `TROOZN_WEBTRANSPORT_BIND` | `0.0.0.0:4433` |
| `TROOZN_KODI_HOST`, `TROOZN_KODI_PORT` | `127.0.0.1`, `8080` |
| `TROOZN_KODI_USERNAME`, `TROOZN_KODI_PASSWORD` | none |
| `TROOZN_STATE_DIR` | `./troozn-state` |
| `TROOZN_HEAD_CACHE_DIR` | `head-cache` in the state directory |
| `TROOZN_HEAD_CACHE_BYTES`, `TROOZN_HEAD_CACHE_MAX_BYTES` | 32 MiB, 256 MiB |
| `TROOZN_WEBTRANSPORT_CERT_DIR` | `webtransport` in the state directory |
| `TROOZN_PROXY_STATUS_PATH` | `proxy-status.json` in the state directory |
| `TROOZN_YTDLP`, `TROOZN_YTDLP_USE_DENO` | `/usr/local/bin/yt-dlp`, off |

The program prints the hash of its WebTransport certificate; phones pin it.
