//! Verified core of the Zeebo emulator's host-side helpers: the rewrite of the ARM
//! compiler's software floating point into VFP trampolines, the guest memory map
//! used by the recompiler, the audio metering counters and the ES 2.0 fragment
//! shader generator.

pub mod vfp;
pub mod memoria_jit;
pub mod audio_mede;
pub mod gerador;
pub mod combinacao;
