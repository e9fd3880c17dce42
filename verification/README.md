# Lesson Studio

A relay for piano and guitar lessons between two devices: the server pairs the
first two people who join, relays WebRTC signalling, chat and media frames
between them, and refuses a third person until a seat is free.

- `src/` is the verified library:
  - `protocol`, `views`: roles, instruments, people and the JSON-level messages, with their mathematical views;
  - `media`: the binary framing of video and audio packets, with round-trip proofs;
  - `studio`: the seating rules as a state machine from event to deliveries, with its invariant and the pairing, refusal, reclaim and leave properties;
  - `text`, `decimal`, `connect`: string handling, port numbers and the WebSocket address the client dials;
  - `screen`: how the lesson screen reacts to media-session events and buttons;
  - `net`, `cert`: the listening port, the announced addresses and the self-signed certificate.
- `tests/` exercises the library on concrete values.
- `app/` is the server program: HTTP routes, the WebSocket loop, JSON encoding and TLS.

Not included: the client program (the Dioxus user interface, the in-page media
session script it evaluates, its JSON bridge decoding and the 0.25–4 microphone
gain clamp). Its decisions — the server address, the join plan, the lesson
screen's reaction to events and buttons — are in `src/connect` and `src/screen`;
the interface shell needs Dioxus and asset files that are not part of this crate.
