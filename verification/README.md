# capdag

Caps, media types and machines, and the bookkeeping of a host that runs them,
with every rule stated as a contract and proved by Verus.

- `src/urn.rs`: media and cap URNs: reading, canonical text, matching,
  specificity.
- `src/fabric/`: aliases, and the registry of definitions with its caches, its
  snapshot and its queue.
- `src/machine/`: resolved machines, their notation (written and read back),
  and how a strand becomes a list of steps.
- `src/media/`: media definitions, the schemas of profiles, and which of their
  references and patterns are safe to follow.
- `src/bifaci/`: frames, counters, credit, request state, live feeds, signed
  binaries, local sockets.
- `src/capture/`: microphones and webcams as state machines.
- `src/cartridge_discovery.rs`, `src/dev.rs`: installed cartridges, and those
  under development.
- `src/cli/`, `src/path.rs`: the command line.
- `src/text.rs`, `src/text_map.rs`, `src/digest.rs`, `src/version.rs`,
  `src/build_env.rs`: the vocabulary that the rest is written in.

The library does no input or output. `app/` is the program around it: files,
the network, threads and the console. What an engine does (planning, hosting
cartridges) is behind a trait there.

Functions named `law_...` state what holds of several functions at once.
