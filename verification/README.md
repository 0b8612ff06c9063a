# frigate_popup

The decision logic of a tray app that opens borderless, always-on-top camera popups
when Frigate NVR reports a detection over MQTT, proved with Verus.

`src/` is the verified library:

- `cli` - the command line (`--preview`, `--simulate`, `--help`).
- `config` - the configuration schema, its defaults, normalisation, validation (every
  problem at once), and the lookups and URLs built on it.
- `events` - Frigate events and the trigger decision, with the cooldown and
  do-not-disturb state.
- `lifecycle` - popup deadlines (watchdog, linger, floor and ceiling) and the popup
  stack: opening with eviction, stacking slots, and the expiry sweep.
- `mqtt` - the events topic, the client loop's step and its reconnect backoff,
  per-event cadence tracking, one event's whole decision (trigger, opening step and
  lifecycle signal), and the simulated detection.
- `windows`, `picker`, `tray`, `launch` - popup placement, page choice and the scripts
  injected into popup pages, the picker's camera list, tray menu items, and what a
  preview run opens.
- `text`, `keyed`, `json` - string helpers stated over `Seq<char>`, small string-keyed
  tables, and JSON string literals written by `serde_json`.

Instants are nanoseconds on a monotonic clock and configured durations are seconds.

`app/` is the program around it: Tauri windows and tray, the MQTT client, reading the
TOML config file, logging and message boxes. `tests/` exercises the library.
