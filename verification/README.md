# nih_plug (verified core)

The sizing rules of resizable plugin editors, the data a plugin hands to the
CLAP preset discovery, and the decisions of the preset metadata provider,
written in Verus with their contracts proved.

- `src/editor.rs`: `ResizeHints`, `aspect_ratio` and `adjust_size`, the
  greatest common divisor they rest on, and its lemmas.
- `src/resize_laws.rs`: laws of the sizing rules: reduced and smallest
  ratios, the minimum always met, the request fitted unless the minimum
  forces more, a current size kept, and, for grid snapping and free clamping
  only, exact ratio keeping and idempotence. Direct rescaling (for sizes whose
  reduced ratio is too coarse for a grid) rounds each side to the nearest
  pixel and keeps the proportion to within half a pixel per side, but may
  drift when repeated.

Direct rescaling is computed on exact fractions with integer arithmetic and
rounds halves up; there is no floating point in the library. A scale that
lands exactly (or within floating-point error) on half a pixel can therefore
round differently from a computation in `f64`.
- `src/plugin/clap.rs`: the preset discovery trait and entry data.
- `src/wrapper/clap/preset_discovery.rs`: which metadata calls the provider
  makes for each preset, and with which text.
- `src/wrapper/standalone/backend.rs`: backend run outcomes.
- `app/`: the raw window handle and the CLAP C callbacks, which use raw
  pointers and stay outside the verified library.

## What is not here

Some plugin-facing definitions cannot be written in this crate. Their
signatures name the framework's plugin, GUI context, parameter and audio buffer
types, which are defined elsewhere in the framework:

- the `Editor` trait: it needs the GUI context and takes `f32` scale factors;
- `ClapPlugin` and `PresetLoadContext`: they need the plugin, CLAP feature,
  remote control and parameter pointer types;
- the preset discovery factory (`PresetDiscoveryFactory`, `factory_count`,
  `factory_get_descriptor`, `factory_create`): it is generic over `ClapPlugin`.
  Its decisions (`provider_count`, `descriptor_texts`, `creates_provider`)
  are in `src/wrapper/clap/preset_discovery.rs`;
- the standalone `Backend` trait: it needs the plugin, buffer, transport and
  note event types.
