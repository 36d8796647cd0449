# godot-bevy

Bevy ECS integration for the Godot engine, with its decision logic verified
by Verus.

- `src/` is the verified library: collision bookkeeping, the frame host that
  decides which Bevy schedules each engine callback runs, input actions,
  sound bookkeeping, logging lines, signal routing, transform sync plans,
  inspector outlines, asset-loader decisions, and the editor debugger
  protocol (requests, replies, value inspection, state transitions and
  entity summaries). Each public function states its result in its contract;
  the laws that relate several functions are public proof functions named
  `law_*`.
- `app/` is the engine glue: Bevy plugins and systems that read the engine
  and the world, hand the library plain values and apply what it decides.
- `tests/` runs the library on concrete values.
