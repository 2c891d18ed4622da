# Bridge

A two-sided audio mixer for PipeWire: two virtual sinks (Aux and Main) with
a crossfader between them, per-app routing rules, Quick Switch presets, a
virtual surround sink and global shortcuts.

The crate is split in two:

- `src/` is the library, verified with Verus: how nodes are classified from
  their PipeWire properties, which app streams feed the Aux sink, the
  routing rules and which stream goes where, the routing tile (which rule
  governs each live stream, the unruled groups, the badge and the line
  order), the loopback and surround confs, the device labels and display
  order, the test tone's clockwise channel sweep, the main thread's mirror
  of the graph, the GlobalShortcuts portal handshake, and the decisions
  behind the window and its dialogs (dropdown entries, which controls and
  banners show, the add-rule dialog's groups, rule and preview). Each
  public function states its result in its `ensures`; the properties that
  span several calls are proof functions next to the code they speak of.
- `app/` is the GTK application around it: the PipeWire thread and its
  proxies, GSettings, D-Bus, the window and its dialogs (setup, virtual
  surround, routing rules, Quick Switch, preferences), and the
  floating-point parts (crossfader curve, level meters, test tone
  samples).

`tests/` exercises the library on concrete values.
