# guche

A OneBot V11 bot for group chats: when someone posts a five-digit room code
("车牌") in an enabled group, the bot writes it into the group name and
replies. Group admins switch the bot on and off per group and choose where
the code goes (front or back of the name) and how strictly messages are
matched. A small web API shows the configuration, rename statistics and
logs.

## Layout

- `src/` — the library, verified with Verus:
  - `text` — character-level helpers (trimming, searching, word splitting)
  - `matcher` — recognising a room code in a message
  - `rename` — the new group name, with the 60-character limit
  - `cooldown`, `permission` — per-group cooldown, who may manage
  - `config` — configuration, defaults, validation, comment stripping,
    edits from the web API, per-group settings
  - `engine` — the decision on each event and on each rename
  - `stats` — rename records and their queries
  - `onebot` — connection pool and WebSocket handshake check
  - `webui` — log-line parsing and filtering, statistics summary
  - `utils`, `paths`, `help` — local time texts, file locations, help text
- `app/` — the program: configuration file I/O, the WebSocket server, the
  HTTP API and the event loop, all calling into the library.
- `tests/` — tests of the library.
