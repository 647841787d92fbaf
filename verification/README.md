# bc250-dashboard

Drives a TURZX 3.5" (320×480) USB serial panel with a boot scene, a live
GPU/CPU/FPS dashboard, hardware alerts and Steam launch / achievement cards.

- `src/` — the verified library (Verus): frames and dirty regions, the panel's
  wire protocol and link state, the `{{ variable }}` context, colour specs, SVG
  path-data tokens, alert rules, the dashboard's sensor text, `nvidia-smi` and
  sysfs number parsing, MangoHud configuration management, and the Steam cache
  readers and state machine. Each public function states its result in its
  contract; the `lemma_*` proof functions state the laws that span calls.
- `tests/` — tests of the library on concrete values.
- `app/` — the program around it: command line, scene files, drawing with
  `tiny-skia`, the serial / PNG / window backends, sensor I/O and the main loop.
