# qqmusic

A verified client library for the QQ Music service: what it asks the service,
what it makes of the answers, and how it walks through a login. The code is Rust,
and its contracts are proved by Verus.

- `src/` is the library. It holds no I/O: it builds requests as plain values and
  turns plain replies into results, or into the next request.
  - `text`, `json`, `encoding` – texts, JSON documents, hashes and encodings
  - `cookies`, `account` – cookie headers, the jar of a login, the account number
  - `request` – requests, replies, and the bodies of method calls
  - `songs`, `lyrics`, `playback` – searching, playlists, lyrics, where a song plays
  - `pages`, `login`, `qr` – the redirects of a login and the login by QR code
  - `session`, `vip`, `config`, `proxy` – sessions, memberships, settings, media proxy
  - `dto`, `constants` – the values that cross the library's border
- `tests/` runs the library on given values.
- `app/` sends the requests and keeps the settings: network, clock, keyring and
  database.

Public proof functions named `law_..` state what holds of the library as a whole.
