# Dispersion Equalizer

A group-delay equalizer plugin: instead of gain per frequency band it shapes
the arrival time per band with a pure delay and a cascade of all-pass
sections.

- `src/` is the library, verified with Verus: node model, scale note tables,
  candidate filing and section unrolling of the curve fit, crossfade control,
  the editor's node cache over the sixteen host slots, and the argument
  handling of the AUv2 bundling command.
- `app/` holds the host glue (NIH-plug, egui) and the floating-point signal
  processing and curve fitting, which call into the library.
- `tests/` exercises the library.
