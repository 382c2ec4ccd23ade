# zeebx

Verified host-side pieces of a Zeebo emulator, written in Verus.

- `src/vfp/`: finds the ARM compiler's software floating-point routines in a game module by
  their signatures and replaces each with a branch to a VFP trampoline, then points every call
  to them straight at the trampolines (`acelera`). `modelo.rs` states the whole rewrite over
  sequences; `acelera.rs` is the code proved against it; `leis.rs` holds what is proved of the
  rewrite as a whole. The map from entries to trampolines is an `FxHashMap` of `rustc-hash`,
  reached through the trusted items of `mapa.rs`.
- `src/memoria_jit.rs`: the guest memory map, lookups, reads and writes with their errors, the
  pages a page table may point at, whether the map fits the fastmem arena and the protection
  each of a region's pages is born with there.
- `src/audio_mede.rs`: click counting, the report window (one report every 120 frames) and the
  session totals of the audio meter.
- `src/gerador.rs`: the OpenGL ES 2.0 fragment shader generated for each texture state.
- `app/`: the host side: memory mappings (`libc`), the meter's files and clock, the audio
  pacing by the wall clock (floating point) and linking shaders on a GL context (`glow`).
