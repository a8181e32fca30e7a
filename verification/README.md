# resident_engine

The decisions and the frame profiling of a small windowed engine, written in
Verus and proved against their contracts.

- `src/` is the library:
  - `history` keeps the newest values of a per-frame history, and two such
    histories side by side, entry for entry;
  - `gpu` hands out timestamp query slots and turns read-back ticks into
    labeled segments and a frame total;
  - `sections` sums a frame's top-level profiler scopes per scope name, with
    the streams parsed and the names looked up by puffin, and checks first
    that puffin reads a stream without overflow;
  - `render` decides what each answer of the surface means for a frame, when a
    resize reaches the surface, and how the surface is first configured;
  - `frame_loop` is the window's event handling as a state machine;
  - `palette` and `args` hold the UI accents and the engine's arguments.
- `app/` is the program around it: the winit event loop, the shipyard world,
  the wgpu device, surface and queries, the w-gui panels, and everything
  measured in floating point.
- `tests/` runs the library on concrete values.
