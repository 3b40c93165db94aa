# Boulder Relay

A GTK4 IRC client for the Fedora, RHEL and Rocky Linux communities on
Libera.Chat. The client's logic is a verified library; the window and the
network connection around it are ordinary Rust.

## Layout

- `src/` — the library, verified with Verus:
  - `text.rs`: whitespace, trimming, splitting, joining and searching text.
  - `order.rs`: ordering names without regard to case (stable sort).
  - `channels.rs`: the default community channels and the rules that tell a
    channel name from a nickname (`/join`, the join box).
  - `config.rs`: the settings file format (escaping, `key=value` lines) and
    the settings read from and written to it.
  - `channel_map.rs`: per-channel data (history, users, mutes).
  - `session.rs`: the chat state and how each event changes it
    (`AppState::update`), with the effects the window carries out.
  - `panels.rs`: what the window shows of the state (grouped channel list,
    user rows, chat styles, time prefix).
  - `network.rs`: connecting, and what each server message turns into.
  - `laws.rs`: properties that span several events.
- `app/` — the relm4 window, the settings file on disk and the IRC thread.
- `tests/` — tests of the library.
