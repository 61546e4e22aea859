# dropshare

Send and receive files between machines on one local network: a host
serves a file (or an upload page) over HTTP, announces itself over mDNS,
and a peer joins it, optionally with end-to-end AES-256-GCM encryption.

The library under `src/` is verified with Verus; `app/` is the command-line
program around it (argument parsing, the HTTP server and client, mDNS,
terminal output), which hands plain values to the library and acts on its
answers.

- `text` — character and digit helpers shared by the other modules.
- `utils` — byte counts in decimal units, link tokens, free file names.
- `crypto` — the STREAM construction over AES-256-GCM, keys and their text.
- `stream` — the encrypted transfer format, and a receiver that restores it
  from arbitrary network pieces.
- `server` — upload names, the token check, pages and download headers.
- `discovery` — mDNS instance and host names, and the announced record.
- `client` — what a joining peer lists, asks for and saves.
- `tls` — HTTPS material, fingerprints and certificate pinning.
- `cli` — the parsed command line.
