# bandcomic_helper

A companion plugin for the "腕上漫画" watch app: it syncs comic-source
settings to the watch, browses and deletes the data stored there, and
uploads local comics as chunked messages.

The crate is a verified library (`src/`, checked with Verus) and a thin
plugin shell (`app/`) that talks to the host.

- `src/transfer.rs` — the sliding-window sender and the in-order receiver.
- `src/ui/upload.rs`, `src/ui/upload_plan.rs` — what an upload sends and
  the header/chunk/ACK protocol with its retry limits.
- `src/ui/handshake.rs` — per-device sessions and the timer-driven
  handshake (registration retries, ping polls).
- `src/ui/app_data.rs` — receiving comics, sources and covers in any
  order, with acknowledgements by stream position.
- `src/ui/event_handler.rs` — routing and applying UI events, dispatching
  messages from the watch; list editing on the upload page.
- `src/ui/flows.rs` — the sync page's decisions (checks, each step of
  sending a sync) and those of deletions.
- `src/lvgl.rs` — median-cut quantization and the watch's indexed-8 image
  format.
- `src/base64.rs`, `src/text.rs`, `src/network.rs`, `src/events.rs` —
  encoding, text helpers, the configuration URL and what its answer names,
  host event envelopes.
- `app/` — the host entry points, dialogs, HTTP, timers, image decoding and
  scaling, JSON text, and drawing the screens.

Every public function of the library states what it returns or changes;
the `law_*` proof functions state the properties that span several calls.
