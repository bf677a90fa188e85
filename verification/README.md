# led_platform

The logic of an LED pixel platform, verified with Verus: hardware profiles and their
validation, partitioning a show over nodes and ports, compiling layouts to universes and
channels, rig planning with overlap detection, the triple-buffer handoff between render and
send (three buffers that only change hands; the host guards the shared slot with a mutex),
keep-alive, a virtual device, cluster failover, chaos decisions, stream pacing, metrics,
spans, alerts and the Prometheus exposition, network time samples, and the Wi-Fi guard's
policy.

## Layout

- `src/` — the verified library. Every public function carries a contract over a
  mathematical model of its data; the laws that relate several calls stand as public
  `proof fn`s named `lemma_*`, next to the functions they speak of.
- `tests/` — tests of the library on concrete values.
- `app/` — the host side, outside Verus: sockets, threads, process and `/sys` probes,
  floating-point effects and correction tables, the GPU executor (wgpu), and the loops
  that drive outputs. Each decision these make is a call into the library.

Floating-point values that the library carries (power, calibration, logical coordinates)
are held as `f32` bit patterns, as is the drop-rate alert threshold; computing with them is
the host's business, and the alert engine takes the drop-rate verdicts from it.
