# nyx

The logic of Nyx, a desktop front end for the Mihomo proxy core, as a
verified library, and the I/O around it.

- `src/` is the library, proved with Verus: the JSON merge-patch used for the
  config files, the profile list and subscription metadata, the runtime
  config the core is started with, the core's start/stop/watchdog decisions,
  proxy groups and remembered selections, connection statistics, the log
  buffer, deep links, hotkeys, the tray menu, the system-proxy requests, the
  rule-override editor and the values the pages display. Documents are
  modelled as `Json`, whose view `JsonV` the contracts speak of.
- `tests/` runs the library on concrete inputs.
- `app/` holds what cannot be verified: files, HTTP calls to the core's
  controller, child processes, the log and connection streams, autostart,
  Linux capabilities and self-update. It hands the library plain values and
  acts on what it returns.

Calls into outside crates (base64, emojis, url, md-5, chrono, self_update)
stand in `src/` behind small trusted wrappers whose contracts are stated in
their doc comments.
