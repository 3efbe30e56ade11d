# melody_bay

The logic of a small music engine, verified with Verus: importers for
Standard MIDI Files, ProTracker MOD and FastTracker XM modules, the rules of
its audio graph (connections, cycles through delays, scheduling order,
channel configuration, labels), the state of an offline render, sequencer
names and tempo lookup, and General MIDI voice choices.

Layout:

- `src/` — the verified library.
  - `bytes`, `text`: reading integers and texts out of byte buffers.
  - `midi`, `midi_song`: MIDI chunks and events, and how events play into
    notes, controller automation and tempo changes.
  - `tracker`, `mod_file`, `xm_file`, `tracker_play`, `tracker_import`:
    tracker cells and effects, module layouts, and how patterns play.
  - `graph`, `webaudio`, `handles`: the audio graph and the offline context.
  - `sequencer`, `params`, `gm`, `import`: names, parameter targets,
    General MIDI voices, import warnings and errors.
  - `lanes`: the tracks an imported song is laid out on.
- `tests/` — tests of the library on concrete inputs.
- `app/` — the parts that need floating point: turning imported songs into
  timed sequences in seconds, rate corrections and sample instruments.
