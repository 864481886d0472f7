# play

Play HLS/HTTP stream URLs in VLC with seeking, or download them. Referer,
Origin and User-Agent are derived from the URL host (or a stored
`.play.json`), disguised segments (`.txt` playlists, PNG/JPEG-wrapped
MPEG-TS) are unwrapped, and a local VOD playlist is served that VLC can
scrub.

## Layout

- `src/` — the library, verified with Verus. Every function carries a
  `requires`/`ensures` contract over mathematical models (`Seq`, `Map`,
  spec functions), and the laws the library keeps are public proof
  functions (`law_*`).
  - `text`, `num`, `media`, `paths`, `weburl`: characters, decimals,
    byte sniffing, path pieces and URL parsing (the last two through the
    `url` crate and `std::path`, behind trusted wrappers).
  - `urls`, `curl`: URL kinds, download names, "Copy as cURL" and the
    browser extension's capture formats.
  - `hls`, `variants`: master/media playlists, quality choice, the
    playlist rewrite that points segments at the proxy.
  - `assoc`, `prefs`, `fetch`: header maps, per-host settings, request
    headers and 403 hints.
  - `download`, `player`, `proxy`, `cli`: download plans and AES
    decryption (through `aes`/`cbc`), VLC options, proxy routing and the
    command line.
  - `capture`, `desk`: the loopback port the browser extension posts to,
    and what the desktop interface shows and keeps (qualities, hosts,
    download jobs).
- `app/` — the `play` binary: clap, terminal prompts, files, HTTP (curl or
  reqwest), the tiny_http proxy server, threads and processes.
- `tests/` — tests of the library, including one concrete case per law.
