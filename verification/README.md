# ssh_panel

The decision logic of an editor side panel that lists SSH servers, written in
Verus and verified.

- `src/ssh_config.rs`: the hosts that an SSH config file declares, and the
  merged host lists of the user's and the system-wide config file.
- `src/entry.rs`: configured connections, their projects, the listed entries
  and the name each entry shows.
- `src/panel.rs`: the panel's state (connections, config hosts, selection,
  expanded entries) and its transitions.
- `src/rows.rs`: what each row shows (ids, labels, icons, tooltips).
- `src/edits.rs`: removing a server or a project from the configured connections.
- `src/dock.rs`: dock placement, the panel's settings and fixed properties.
- `src/text.rs`, `src/sorted.rs`: whitespace, trimming, splitting, decimal
  numbers, joining, and sorted string sets.

`app/` holds the editor integration (views, settings registration, the file
watch loop), which drives the library and performs the UI and I/O work.
