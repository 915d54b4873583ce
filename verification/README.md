# opendeck

The infobar, overlay and action-instance logic of a Stream Deck controller,
written in Verus: each function of `src/` carries a contract that Verus proves.

## Layout

- `src/` — the verified library.
  - `model` — actions, instances, contexts, profiles and their views.
  - `overlay` — temporary images pushed on infobar slots: priorities,
    expiry, and which image a slot shows.
  - `slots` — what each infobar slot shows (image, title, component) and the
    ownership of its scroll animation.
  - `stack` — infobar stacks: visibility of children and what a stack shows.
  - `instances` — placing, moving, reordering and removing instances.
  - `states` — title, image and state requests from plugins.
  - `profiles` — what a profile switch redraws and announces.
  - `events` — the infobar plugin events.
  - `device` — device models, input events, image targets and sources.
  - `banner` — the profile-banner plugin action.
  - `codec` — base64 and image decoding through the `base64` and `image` crates.
  - `maps` — the `dashmap` maps the stores are kept in.
  - `text` — string helpers with exact specifications.
- `tests/` — tests of the library on concrete values.
- `app/` — the unverified side: Stream Deck I/O, plugin and front-end
  messages, font rendering, and the shared stores.
