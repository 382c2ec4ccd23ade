//! Finding a routine in a module by its signature.

use vstd::prelude::*;
use crate::vfp::arm::{mascara, mascara_spec, palavra, palavra_spec};

verus! {

/// The signature `sig` matches the module `s` at byte `i`: `i` is word-aligned, the whole
/// signature fits in the module from there, and every word of the module, with the offset of
/// a branch masked, equals the signature's.
pub open spec fn casa(s: Seq<u8>, sig: Seq<u32>, i: int) -> bool {
    &&& 0 <= i
    &&& i % 4 == 0
    &&& i + 4 * sig.len() <= s.len()
    &&& forall|k: int| 0 <= k < sig.len() ==> mascara_spec(#[trigger] palavra_spec(s, i + 4 * k)) == sig[k]
}

/// The offsets below `k` where `sig` matches `s`, in increasing order.
pub open spec fn achados_ate(s: Seq<u8>, sig: Seq<u32>, k: int) -> Seq<usize>
    decreases k,
{
    if k <= 0 {
        Seq::empty()
    } else if casa(s, sig, k - 1) {
        achados_ate(s, sig, k - 1).push((k - 1) as usize)
    } else {
        achados_ate(s, sig, k - 1)
    }
}

/// Every offset where `sig` matches `s`, in increasing order.
pub open spec fn procura_spec(s: Seq<u8>, sig: Seq<u32>) -> Seq<usize> {
    achados_ate(s, sig, s.len() as int)
}

/// Whether `sig` matches at the word-aligned byte `i`, which leaves room for it.
fn casa_em(bytes: &[u8], assinatura: &[u32], i: usize) -> (r: bool)
    requires
        i % 4 == 0,
        i + 4 * assinatura@.len() <= bytes.len(),
    ensures
        r == casa(bytes@, assinatura@, i as int),
{
    let mut k: usize = 0;
    while k < assinatura.len()
        invariant
            i % 4 == 0,
            i + 4 * assinatura@.len() <= bytes.len(),
            k <= assinatura@.len(),
            forall|j: int| 0 <= j < k ==> mascara_spec(#[trigger] palavra_spec(bytes@, i + 4 * j)) == assinatura@[j],
        decreases assinatura@.len() - k,
    {
        if mascara(palavra(bytes, i + 4 * k)) != assinatura[k] {
            assert(!casa(bytes@, assinatura@, i as int)) by {
                assert(mascara_spec(palavra_spec(bytes@, i + 4 * (k as int))) != assinatura@[k as int]);
            }
            return false;
        }
        k = k + 1;
    }
    true
}

/// Where the signature appears, as word-aligned byte offsets in increasing order.
pub fn procura(bytes: &[u8], assinatura: &[u32]) -> (r: Vec<usize>)
    requires
        0 < assinatura@.len(),
        4 * assinatura@.len() <= usize::MAX,
    ensures
        r@ == procura_spec(bytes@, assinatura@),
{
    let ghost s = bytes@;
    let ghost sig = assinatura@;
    let n: usize = assinatura.len() * 4;
    let tamanho = bytes.len();
    let mut achados: Vec<usize> = Vec::new();
    let mut i: usize = 0;
    while i <= tamanho && n <= tamanho - i
        invariant
            s == bytes@,
            sig == assinatura@,
            n == 4 * sig.len(),
            tamanho == s.len(),
            0 < sig.len(),
            i % 4 == 0,
            i <= tamanho,
            achados@ == achados_ate(s, sig, i as int),
        decreases tamanho - i,
    {
        if casa_em(bytes, assinatura, i) {
            achados.push(i);
        }
        proof {
            assert(!casa(s, sig, i + 1));
            assert(!casa(s, sig, i + 2));
            assert(!casa(s, sig, i + 3));
            assert(achados_ate(s, sig, i + 1) == achados_ate(s, sig, i + 2));
            assert(achados_ate(s, sig, i + 2) == achados_ate(s, sig, i + 3));
            assert(achados_ate(s, sig, i + 3) == achados_ate(s, sig, i + 4));
        }
        i = i + 4;
    }
    proof {
        lemma_achados_fim(s, sig, i as int, s.len() as int);
    }
    achados
}

/// Past the last offset where the signature fits, no match is added.
proof fn lemma_achados_fim(s: Seq<u8>, sig: Seq<u32>, i: int, k: int)
    requires
        i <= k,
        i + 4 * sig.len() > s.len(),
    ensures
        achados_ate(s, sig, k) == achados_ate(s, sig, i),
    decreases k - i,
{
    if k > i {
        lemma_achados_fim(s, sig, i, k - 1);
    }
}

/// Every offset that `procura_spec` gives is a match, and they are strictly increasing.
pub proof fn lemma_achados_casam(s: Seq<u8>, sig: Seq<u32>, k: int)
    requires
        s.len() <= usize::MAX,
    ensures
        forall|j: int| 0 <= j < achados_ate(s, sig, k).len() ==> casa(s, sig, #[trigger] achados_ate(s, sig, k)[j] as int) && achados_ate(s, sig, k)[j] < k,
        forall|a: int, b: int| 0 <= a < b < achados_ate(s, sig, k).len() ==> achados_ate(s, sig, k)[a] < achados_ate(s, sig, k)[b],
    decreases k,
{
    if k > 0 {
        lemma_achados_casam(s, sig, k - 1);
        let a = achados_ate(s, sig, k - 1);
        if casa(s, sig, k - 1) {
            let b = a.push((k - 1) as usize);
            assert(achados_ate(s, sig, k) == b);
            assert(b[a.len() as int] == k - 1);
            assert forall|j: int| 0 <= j < b.len() implies casa(s, sig, #[trigger] b[j] as int) && b[j] < k by {
                if j < a.len() {
                    assert(b[j] == a[j]);
                }
            }
        }
    }
}

} // verus!
