//! The map from replaced entries to their trampolines, an `FxHashMap` of `rustc-hash`.

use vstd::prelude::*;
use rustc_hash::{FxBuildHasher, FxHashMap};

verus! {

/// The hasher builder of `rustc-hash`, which `FxHashMap` is made with.
#[verifier::external_type_specification]
#[verifier::external_body]
pub struct ExFxBuildHasher(FxBuildHasher);

/// Where a replaced entry leads: its trampoline, its routine and its place in the report.
pub type Destino = (u32, usize, usize);

/// The map from replaced entries to where they lead.
pub type MapaTrocas = FxHashMap<u32, Destino>;

/// What an `FxHashMap` from entry addresses to (trampoline, routine, place in the report) holds.
pub uninterp spec fn conteudo_mapa(m: MapaTrocas) -> Map<u32, Destino>;

/// `FxHashMap::default`, that is std's `HashMap::default` with the `FxBuildHasher` of
/// `rustc-hash`: an empty map.
#[verifier::external_body]
pub fn mapa_vazio() -> (mapa: MapaTrocas)
    ensures
        conteudo_mapa(mapa).dom().is_empty(),
{
    FxHashMap::default()
}

/// `HashMap::insert` on an `FxHashMap`: afterwards the key maps to the value, and every other
/// key to what it mapped to before.
#[verifier::external_body]
pub fn mapa_insere(m: &mut MapaTrocas, k: u32, v: Destino)
    ensures
        conteudo_mapa(*final(m)) == conteudo_mapa(*old(m)).insert(k, v),
{
    m.insert(k, v);
}

/// `HashMap::get` on an `FxHashMap`, copied out: the value the key maps to, if any.
#[verifier::external_body]
pub fn mapa_busca(m: &MapaTrocas, k: u32) -> (r: Option<Destino>)
    ensures
        r == (if conteudo_mapa(*m).contains_key(k) {
            Some(conteudo_mapa(*m)[k])
        } else {
            None
        }),
{
    m.get(&k).copied()
}

} // verus!
