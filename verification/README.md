# zj_agent

A Zellij plugin that bridges a WebSocket controller and the terminal panes of
a session: the controller sends requests (type into a pane, press a key, take
a screenshot, read or write files, list directories), the plugin answers
them, and it sends events of its own (heartbeats, `# help` requests typed
into a pane).

Layout:

- `src/` is the library, verified with Verus. `plugin.rs` holds the plugin's
  state machine: `AgentPlugin::update` takes an event from the host and
  returns the new state and the actions the host is to perform, each with a
  specification (`*_step`). `protocol.rs` holds the message envelope and
  payloads, `commands.rs` the screen, path, file and listing logic,
  `screen_monitor.rs` the detection of `# help`, `keys.rs` the key names, and
  `text.rs` the string functions they are built on.
- `app/` is the plugin binary: it turns Zellij events into library events,
  performs the actions (WebSocket, panes, file system) and converts messages
  to and from JSON.
- `tests/` exercises the library on concrete values.
