# cs2_addons

Backend of a GameAP plugin that manages Metamod:Source and CounterStrikeSharp
on Counter-Strike 2 servers, written in Verus.

- `src/` is the verified library: the route table and dispatch, the request
  handlers (state, plugin toggling and registration, `plugins_meta.json`
  attributes, gameinfo.gi repair, Metamod aliases, logs, updates, catalog and
  platform installs, zip installs, snapshots, audit log, doctor), the Source 2
  file formats (gameinfo.gi wiring, Metamod `.vdf` aliases, the plugin
  manifest, zip layouts) and the CS2-tolerant RCON client. The panel's host
  services are reached through the `HostApi` trait, whose ghost transcript
  (`trace`) records every call and its answer. Every route handler states
  when it fails (before its server resolved, with the resolve's own answer,
  or afterwards with the errors it names); several state their whole
  outcome from the host's answers (gameinfo.gi repair, plugin toggle and
  registration, snapshot creation and restore, node downloads, catalog
  release lookups), and the handlers say which commands, uploads, moves and
  removals they hand to the node. The RCON client states that the packets
  it delivers are the successive frames of the bytes its `Wire` handed
  back. The doctor's check for Metamod aliases present both live and
  parked is stated less tightly than the rest. JSON goes through
  `serde_json` and archives through `zip`, each behind a small trusted
  wrapper.
- `tests/` runs the library against an in-memory host.
- `app/` is the wasm glue: the SDK's `Plugin` implementation, the host
  bindings and the hand-rolled exports of the RCON and scheduler services.
  The frontend bundle that `app/plugin.rs` embeds (`frontend/dist/plugin.js`)
  is built separately and is not part of this crate, so `app/` compiles only
  where that file has been put in place.
