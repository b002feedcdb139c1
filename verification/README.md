# survey_pipeline

Simulates what an imaging survey sees of transients: which exposures cover them, what magnitudes are
measured or excluded, which transients count as detected, and how many detections a rate stands for.

The library under `src/` is verified with Verus. It carries double-precision numbers as their bit
patterns: comparing, sorting, thresholds and rounding down are decided by the encoding and proved
against it. Arithmetic on them (fluxes, noise, rates) is done by functions that the caller passes in;
contracts say which arguments they are called with and what becomes of their answers.

- `double`, `order`, `text`: numbers as encodings, stable ordering, text of reports
- `survey`, `binning`, `stacking`, `windows`: exposures, and stacking them at one or more time windows
- `noise`, `photometry`: measurements with noise from a seeded generator, and upper limits
- `matching`, `measurement`, `pipeline`, `simulation`: from generated populations to the result of a
  run
- `dispatch`, `sources`, `results`, `too`: what objects stand for, and results as a user sees them
- `stacking_laws`, `window_laws`, `photometry_laws`, `simulation_laws`: what holds of all this as a
  whole
- `stacking_repeats`, `run_repeats`, `run_laws`: what holds of the same work done twice, and of runs
  that differ in one setting

The crate under `app/` is ordinary Rust around the library: Python classes, threads, and the
floating-point formulas. The survey engine stands behind the traits in `app/toolkit.rs`.
