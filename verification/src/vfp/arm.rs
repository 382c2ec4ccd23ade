//! ARM instruction words: reading them from a module, encoding and decoding branches.

use vstd::prelude::*;

verus! {

/// Reach of an ARM `b`/`bl`: a signed 24-bit word offset, in bytes.
pub const ALCANCE: i64 = 0x0200_0000;

/// The little-endian word that starts at byte `i` of `s`.
pub open spec fn palavra_spec(s: Seq<u8>, i: int) -> u32 {
    (s[i] as u32) | ((s[i + 1] as u32) << 8u32) | ((s[i + 2] as u32) << 16u32) | ((s[i + 3]
        as u32) << 24u32)
}

/// Reads the little-endian word at byte `i`.
pub fn palavra(bytes: &[u8], i: usize) -> (r: u32)
    requires
        i + 4 <= bytes@.len(),
    ensures
        r == palavra_spec(bytes@, i as int),
{
    (bytes[i] as u32) | ((bytes[i + 1] as u32) << 8u32) | ((bytes[i + 2] as u32) << 16u32) | ((
    bytes[i + 3] as u32) << 24u32)
}

/// A conditional B/BL has its 24-bit offset field cleared; every other word is kept.
pub open spec fn mascara_spec(w: u32) -> u32 {
    if w & 0x0e00_0000 == 0x0a00_0000 && w >> 28u32 != 0xf {
        w & 0xff00_0000
    } else {
        w
    }
}

/// Masks the offset field of a B/BL, so that a signature does not depend on where the
/// code was linked.
pub fn mascara(w: u32) -> (r: u32)
    ensures
        r == mascara_spec(w),
{
    if w & 0x0e00_0000 == 0x0a00_0000 && w >> 28u32 != 0xf {
        w & 0xff00_0000
    } else {
        w
    }
}


/// `a + b` in 32-bit arithmetic that wraps around.
pub open spec fn soma32(a: int, b: int) -> u32 {
    ((a + b) % 0x1_0000_0000) as u32
}

/// Adding two offsets one after the other is adding their sum: the wrap at 32 bits does not
/// get in the way.
pub proof fn lemma_soma32_junta(a: int, x: int, y: int)
    ensures
        soma32(soma32(a, x) as int, y) == soma32(a, x + y),
{
    vstd::arithmetic::div_mod::lemma_add_mod_noop(a + x, y, 0x1_0000_0000);
    vstd::arithmetic::div_mod::lemma_mod_twice(a + x, 0x1_0000_0000);
    vstd::arithmetic::div_mod::lemma_mod_bound(a + x, 0x1_0000_0000);
    vstd::arithmetic::div_mod::lemma_mod_bound(a + x + y, 0x1_0000_0000);
    vstd::arithmetic::div_mod::lemma_add_mod_noop((a + x) % 0x1_0000_0000, y, 0x1_0000_0000);
    vstd::arithmetic::div_mod::lemma_mod_twice(y, 0x1_0000_0000);
}

/// A branch from `pc` to `alvo` with the condition and opcode bits `cond_e_tipo`: its word,
/// when the distance is word-aligned and within the reach of a 24-bit offset.
pub open spec fn desvio_spec(pc: u32, alvo: u32, cond_e_tipo: u32) -> Option<u32> {
    let delta = alvo - (pc + 8);
    if delta % 4 == 0 && -ALCANCE <= delta < ALCANCE {
        Some(cond_e_tipo | (((delta / 4) % 0x100_0000) as u32))
    } else {
        None
    }
}

/// Encodes a `b`/`bl` from `pc` to `alvo`, if it is in reach.
pub fn desvio(pc: u32, alvo: u32, cond_e_tipo: u32) -> (r: Option<u32>)
    ensures
        r == desvio_spec(pc, alvo, cond_e_tipo),
{
    // `x` is the distance shifted by 2^33, so that it stays unsigned.
    let x: u64 = (alvo as u64 + 0x2_0000_0000) - (pc as u64 + 8);
    let ghost delta: int = alvo - (pc + 8);
    assert(x & 3 == 0 <==> x % 4 == 0) by (bit_vector);
    assert((x >> 2u64) & 0xff_ffff == (x / 4) % 0x100_0000) by (bit_vector);
    if x & 3 == 0 && 0x2_0000_0000 - 0x0200_0000 <= x && x < 0x2_0000_0000 + 0x0200_0000 {
        proof {
            assert(delta % 4 == 0);
            assert((delta / 4) % 0x100_0000 == (x / 4) % 0x100_0000) by {
                assert(x / 4 == delta / 4 + 0x8000_0000);
            }
        }
        let campo: u32 = ((x >> 2u64) & 0xff_ffff) as u32;
        Some(cond_e_tipo | campo)
    } else {
        proof {
            if delta % 4 == 0 && -ALCANCE <= delta < ALCANCE {
                assert(x % 4 == 0);
            }
        }
        None
    }
}

/// The byte offset that the 24-bit field of a B/BL encodes: sign-extended and times four,
/// in 32-bit arithmetic.
pub open spec fn desloc_spec(w: u32) -> u32 {
    let imm = w & 0x00ff_ffff;
    if imm & 0x0080_0000 != 0 {
        (imm << 2u32) | 0xfc00_0000
    } else {
        imm << 2u32
    }
}

/// The target of the ARM B/BL `w` placed at `pc`.
pub open spec fn alvo_arm(pc: u32, w: u32) -> u32 {
    soma32(pc + 8, desloc_spec(w) as int)
}

/// Decodes the offset of a B/BL.
pub fn desloc(w: u32) -> (r: u32)
    ensures
        r == desloc_spec(w),
{
    let imm = w & 0x00ff_ffff;
    if imm & 0x0080_0000 != 0 {
        (imm << 2u32) | 0xfc00_0000
    } else {
        imm << 2u32
    }
}

/// The target of the ARM B/BL `w` placed at `pc`.
pub fn alvo_de(pc: u32, w: u32) -> (r: u32)
    ensures
        r == alvo_arm(pc, w),
{
    pc.wrapping_add(8).wrapping_add(desloc(w))
}

/// A word that is an ARM B or BL (with any condition but the unconditional extension space).
pub open spec fn e_desvio_arm(w: u32) -> bool {
    w & 0x0e00_0000 == 0x0a00_0000 && w >> 28u32 != 0xf
}

/// What a branch encoded by `desvio` decodes to: the target it was asked for, with the
/// condition and opcode bits it was given.
pub proof fn lemma_desvio_decodifica(pc: u32, alvo: u32, cond_e_tipo: u32)
    requires
        cond_e_tipo & 0x00ff_ffff == 0,
        desvio_spec(pc, alvo, cond_e_tipo) is Some,
    ensures
        alvo_arm(pc, desvio_spec(pc, alvo, cond_e_tipo)->0) == alvo,
        desvio_spec(pc, alvo, cond_e_tipo)->0 & 0xff00_0000 == cond_e_tipo,
{
    let delta: int = alvo - (pc + 8);
    let f: u32 = ((delta / 4) % 0x100_0000) as u32;
    let w: u32 = cond_e_tipo | f;
    assert(f < 0x100_0000);
    assert((cond_e_tipo | f) & 0x00ff_ffff == f && (cond_e_tipo | f) & 0xff00_0000 == cond_e_tipo)
        by (bit_vector)
        requires
            cond_e_tipo & 0x00ff_ffff == 0,
            f < 0x100_0000,
    ;
    if delta >= 0 {
        assert(f == delta / 4);
        assert(f < 0x80_0000);
        assert(f & 0x0080_0000 == 0 && f << 2u32 == f * 4) by (bit_vector)
            requires
                f < 0x80_0000,
        ;
        assert(desloc_spec(w) == delta);
    } else {
        assert(f == delta / 4 + 0x100_0000);
        assert(0x80_0000 <= f < 0x100_0000);
        assert(f & 0x0080_0000 != 0 && (f << 2u32) | 0xfc00_0000 == f * 4 + 0xfc00_0000)
            by (bit_vector)
            requires
                0x80_0000 <= f < 0x100_0000,
        ;
        assert(desloc_spec(w) == delta + 0x1_0000_0000);
    }
}


/// Writes `w` little-endian at byte `i` of `s`.
pub open spec fn escreve_spec(s: Seq<u8>, i: int, w: u32) -> Seq<u8> {
    s.update(i, (w & 0xff) as u8).update(i + 1, ((w >> 8u32) & 0xff) as u8).update(
        i + 2,
        ((w >> 16u32) & 0xff) as u8,
    ).update(i + 3, ((w >> 24u32) & 0xff) as u8)
}

/// Writes the word `w` little-endian at byte `i`.
pub fn escreve(bytes: &mut Vec<u8>, i: usize, w: u32)
    requires
        i + 4 <= old(bytes).len(),
    ensures
        final(bytes)@ == escreve_spec(old(bytes)@, i as int, w),
{
    bytes.set(i, (w & 0xff) as u8);
    bytes.set(i + 1, ((w >> 8u32) & 0xff) as u8);
    bytes.set(i + 2, ((w >> 16u32) & 0xff) as u8);
    bytes.set(i + 3, ((w >> 24u32) & 0xff) as u8);
}

/// A word written and read back at the same place is the same word, and the bytes
/// outside it are untouched.
pub proof fn lemma_escreve_le(s: Seq<u8>, i: int, w: u32)
    requires
        0 <= i,
        i + 4 <= s.len(),
    ensures
        palavra_spec(escreve_spec(s, i, w), i) == w,
        escreve_spec(s, i, w).len() == s.len(),
        forall|j: int| 0 <= j < s.len() && (j < i || j >= i + 4) ==> #[trigger] escreve_spec(s, i, w)[j] == s[j],
{
    let t = escreve_spec(s, i, w);
    assert(t[i] == (w & 0xff) as u8);
    assert(t[i + 1] == ((w >> 8u32) & 0xff) as u8);
    assert(t[i + 2] == ((w >> 16u32) & 0xff) as u8);
    assert(t[i + 3] == ((w >> 24u32) & 0xff) as u8);
    assert(((((w & 0xff) as u8) as u32) | (((((w >> 8u32) & 0xff) as u8) as u32) << 8u32) | (
    ((((w >> 16u32) & 0xff) as u8) as u32) << 16u32) | (((((w >> 24u32) & 0xff) as u8) as u32)
        << 24u32)) == w) by (bit_vector);
}

/// The little-endian halfword that starts at byte `i` of `s`.
pub open spec fn meia_spec(s: Seq<u8>, i: int) -> u16 {
    (s[i] as u16) | ((s[i + 1] as u16) << 8u16)
}

/// Where an ARM target can come from: a word-aligned position with a whole word after it.
pub proof fn lemma_destino_arm_posicao(s: Seq<u8>, base: u32, i: int)
    ensures
        destino_arm(s, base, i) is Some ==> 0 <= i && i % 4 == 0 && i + 4 <= s.len(),
{
    reveal(destino_arm);
}

/// Where a Thumb target can come from: a halfword-aligned position with two halfwords after it.
pub proof fn lemma_destino_thumb_posicao(s: Seq<u8>, base: u32, i: int)
    ensures
        destino_thumb(s, base, i) is Some ==> 0 <= i && i % 2 == 0 && i + 4 <= s.len(),
{
    reveal(destino_thumb);
}

/// The guest address of byte `i` of a module mapped at `base`, with the offset taken as a
/// 32-bit value.
pub open spec fn endereco(base: u32, i: int) -> u32 {
    soma32(base as int, (i as u32) as int)
}

/// The target of the ARM B/BL/BLX at byte `i` of a module mapped at `base`, if the word
/// there is one (`i` word-aligned, inside the module).
#[verifier::opaque]
pub open spec fn destino_arm(s: Seq<u8>, base: u32, i: int) -> Option<u32> {
    if 0 <= i && i % 4 == 0 && i + 4 <= s.len() && palavra_spec(s, i) & 0x0e00_0000
        == 0x0a00_0000 {
        let w = palavra_spec(s, i);
        // BLX with an immediate: bit H adds half a word.
        let extra: u32 = if w >> 28u32 == 0xf {
            (w >> 23u32) & 2
        } else {
            0
        };
        Some(soma32(alvo_arm(endereco(base, i), w) as int, extra as int))
    } else {
        None
    }
}

/// The upper half of a Thumb BL/BLX offset: 11 bits, sign-extended, times 4096.
pub open spec fn alto_thumb(a: u16) -> u32 {
    let x = (a & 0x7ff) as u32;
    if x & 0x400 != 0 {
        (x << 12u32) | 0xff80_0000
    } else {
        x << 12u32
    }
}

/// The target of the Thumb BL (second half `11111`) or BLX (`11101`, word-aligned target)
/// whose halves `a`, `b` start at address `endereco`.
pub open spec fn alvo_thumb(endereco: u32, a: u16, b: u16) -> u32 {
    let baixo: u32 = ((b & 0x7ff) as u32) << 1u32;
    let pc = soma32(endereco as int, 4);
    let alvo = soma32(soma32(pc as int, alto_thumb(a) as int) as int, baixo as int);
    if b & 0xf800 == 0xe800 {
        alvo & !3u32
    } else {
        alvo
    }
}

/// The target of the Thumb BL/BLX pair whose first half is at byte `i` (`i` halfword-aligned,
/// both halves inside the module), if there is one.
#[verifier::opaque]
pub open spec fn destino_thumb(s: Seq<u8>, base: u32, i: int) -> Option<u32> {
    if 0 <= i && i % 2 == 0 && i + 4 <= s.len() {
        let a = meia_spec(s, i);
        let b = meia_spec(s, i + 2);
        if a & 0xf800 == 0xf000 && (b & 0xf800 == 0xf800 || b & 0xf800 == 0xe800) {
            Some(alvo_thumb(endereco(base, i), a, b))
        } else {
            None
        }
    } else {
        None
    }
}

/// The targets of the ARM branches that start before byte `k`.
pub open spec fn destinos_arm_ate(s: Seq<u8>, base: u32, k: int) -> Set<u32>
    decreases k,
{
    if k <= 0 {
        Set::empty()
    } else {
        let antes = destinos_arm_ate(s, base, k - 1);
        match destino_arm(s, base, k - 1) {
            Some(t) => antes.insert(t),
            None => antes,
        }
    }
}

/// The targets of the Thumb branch pairs that start before byte `k`.
pub open spec fn destinos_thumb_ate(s: Seq<u8>, base: u32, k: int) -> Set<u32>
    decreases k,
{
    if k <= 0 {
        Set::empty()
    } else {
        let antes = destinos_thumb_ate(s, base, k - 1);
        match destino_thumb(s, base, k - 1) {
            Some(t) => antes.insert(t),
            None => antes,
        }
    }
}

/// Every branch target that can be computed from the module: ARM B/BL/BLX and Thumb BL/BLX.
pub open spec fn destinos_spec(s: Seq<u8>, base: u32) -> Set<u32> {
    destinos_arm_ate(s, base, s.len() as int) + destinos_thumb_ate(s, base, s.len() as int)
}

/// A target is in `destinos_spec` exactly when some ARM or Thumb branch of the module has it.
pub proof fn lemma_destinos_membro(s: Seq<u8>, base: u32, t: u32)
    ensures
        destinos_spec(s, base).contains(t) <==> (exists|i: int| destino_arm(s, base, i) == Some(t))
            || (exists|i: int| destino_thumb(s, base, i) == Some(t)),
{
    lemma_arm_ate(s, base, s.len() as int, t);
    lemma_thumb_ate(s, base, s.len() as int, t);
    if exists|i: int| destino_arm(s, base, i) == Some(t) {
        let i = choose|i: int| destino_arm(s, base, i) == Some(t);
        lemma_destino_arm_posicao(s, base, i);
    }
    if exists|i: int| destino_thumb(s, base, i) == Some(t) {
        let i = choose|i: int| destino_thumb(s, base, i) == Some(t);
        lemma_destino_thumb_posicao(s, base, i);
    }
}

proof fn lemma_arm_ate(s: Seq<u8>, base: u32, k: int, t: u32)
    ensures
        destinos_arm_ate(s, base, k).contains(t) <==> exists|i: int| 0 <= i < k && destino_arm(s, base, i) == Some(t),
    decreases k,
{
    if k > 0 {
        lemma_arm_ate(s, base, k - 1, t);
        if destino_arm(s, base, k - 1) == Some(t) {
            assert(0 <= k - 1 < k && destino_arm(s, base, k - 1) == Some(t));
        }
    }
}

proof fn lemma_thumb_ate(s: Seq<u8>, base: u32, k: int, t: u32)
    ensures
        destinos_thumb_ate(s, base, k).contains(t) <==> exists|i: int| 0 <= i < k && destino_thumb(s, base, i) == Some(t),
    decreases k,
{
    if k > 0 {
        lemma_thumb_ate(s, base, k - 1, t);
        if destino_thumb(s, base, k - 1) == Some(t) {
            assert(0 <= k - 1 < k && destino_thumb(s, base, k - 1) == Some(t));
        }
    }
}

/// The guest address of byte `i` of a module mapped at `base`.
pub fn endereco_de(base: u32, i: usize) -> (r: u32)
    ensures
        r == endereco(base, i as int),
{
    base.wrapping_add(i as u32)
}

/// The target of the ARM branch at byte `i`, if the word there is one.
fn destino_arm_em(bytes: &[u8], base: u32, i: usize) -> (r: Option<u32>)
    requires
        i % 4 == 0,
        i + 4 <= bytes.len(),
    ensures
        r == destino_arm(bytes@, base, i as int),
{
    reveal(destino_arm);
    let w = palavra(bytes, i);
    if w & 0x0e00_0000 == 0x0a00_0000 {
        let extra: u32 = if w >> 28u32 == 0xf {
            (w >> 23u32) & 2
        } else {
            0
        };
        let pc = endereco_de(base, i);
        let t = alvo_de(pc, w);
        Some(t.wrapping_add(extra))
    } else {
        None
    }
}

/// Reads the little-endian halfword at byte `i`.
fn meia(bytes: &[u8], i: usize) -> (r: u16)
    requires
        i + 2 <= bytes@.len(),
    ensures
        r == meia_spec(bytes@, i as int),
{
    (bytes[i] as u16) | ((bytes[i + 1] as u16) << 8u16)
}

/// Decodes the upper half of a Thumb BL/BLX offset.
fn alto_de(a: u16) -> (r: u32)
    ensures
        r == alto_thumb(a),
{
    let x: u32 = (a & 0x7ff) as u32;
    if x & 0x400 != 0 {
        (x << 12u32) | 0xff80_0000
    } else {
        x << 12u32
    }
}

/// `a + b`, wrapping at 32 bits.
pub(crate) fn soma_u32(a: u32, b: u32) -> (r: u32)
    ensures
        r == soma32(a as int, b as int),
{
    let r = a.wrapping_add(b);
    proof {
        if a + b > u32::MAX {
            vstd::arithmetic::div_mod::lemma_mod_sub_multiples_vanish((a + b) as int, 0x1_0000_0000);
            vstd::arithmetic::div_mod::lemma_small_mod((a + b - 0x1_0000_0000) as nat, 0x1_0000_0000);
        } else {
            vstd::arithmetic::div_mod::lemma_small_mod((a + b) as nat, 0x1_0000_0000);
        }
    }
    r
}

/// The target of a Thumb BL/BLX pair at address `endereco`.
fn alvo_thumb_de(endereco: u32, a: u16, b: u16) -> (r: u32)
    ensures
        r == alvo_thumb(endereco, a, b),
{
    let alto: u32 = alto_de(a);
    let baixo: u32 = ((b & 0x7ff) as u32) << 1u32;
    let pc = soma_u32(endereco, 4);
    let alvo = soma_u32(soma_u32(pc, alto), baixo);
    if b & 0xf800 == 0xe800 {
        alvo & !3u32
    } else {
        alvo
    }
}

/// The target of the Thumb branch pair at byte `i`, if the halfwords there are one.
fn destino_thumb_em(bytes: &[u8], base: u32, i: usize) -> (r: Option<u32>)
    requires
        i % 2 == 0,
        i + 4 <= bytes.len(),
    ensures
        r == destino_thumb(bytes@, base, i as int),
{
    let a: u16 = meia(bytes, i);
    let b: u16 = meia(bytes, i + 2);
    if a & 0xf800 == 0xf000 && (b & 0xf800 == 0xf800 || b & 0xf800 == 0xe800) {
        let pc = endereco_de(base, i);
        let r = alvo_thumb_de(pc, a, b);
        proof {
            reveal(destino_thumb);
        }
        Some(r)
    } else {
        proof {
            reveal(destino_thumb);
        }
        None
    }
}

/// All the branch targets that can be computed: ARM B/BL/BLX and Thumb BL/BLX.
pub fn destinos(bytes: &[u8], base: u32) -> (r: std::collections::HashSet<u32>)
    ensures
        r@ == destinos_spec(bytes@, base),
{
    broadcast use vstd::std_specs::hash::group_hash_axioms;

    let ghost s = bytes@;
    let n = bytes.len();
    let limite: usize = if n >= 3 {
        n - 3
    } else {
        0
    };
    let mut alvos: std::collections::HashSet<u32> = std::collections::HashSet::new();
    let mut i: usize = 0;
    while i < limite
        invariant
            s == bytes@,
            n == s.len(),
            limite == (if n >= 3 { n - 3 } else { 0 }),
            i % 4 == 0,
            i <= limite + 3,
            alvos@ == destinos_arm_ate(s, base, i as int),
        decreases limite + 4 - i,
    {
        match destino_arm_em(bytes, base, i) {
            Some(t) => {
                alvos.insert(t);
            },
            None => {},
        }
        proof {
            lemma_destino_arm_posicao(s, base, i + 1);
            lemma_destino_arm_posicao(s, base, i + 2);
            lemma_destino_arm_posicao(s, base, i + 3);
            assert(destino_arm(s, base, i + 1) is None);
            assert(destino_arm(s, base, i + 2) is None);
            assert(destino_arm(s, base, i + 3) is None);
            assert(destinos_arm_ate(s, base, i + 1) == destinos_arm_ate(s, base, i + 2));
            assert(destinos_arm_ate(s, base, i + 2) == destinos_arm_ate(s, base, i + 3));
            assert(destinos_arm_ate(s, base, i + 3) == destinos_arm_ate(s, base, i + 4));
        }
        i = i + 4;
    }
    proof {
        lemma_arm_ate_fim(s, base, i as int, n as int);
    }
    let ghost arm = alvos@;
    let mut thumb: std::collections::HashSet<u32> = std::collections::HashSet::new();
    let mut i: usize = 0;
    while i < limite
        invariant
            s == bytes@,
            n == s.len(),
            limite == (if n >= 3 { n - 3 } else { 0 }),
            i % 2 == 0,
            i <= limite + 1,
            alvos@ == arm + destinos_thumb_ate(s, base, i as int),
        decreases limite + 4 - i,
    {
        match destino_thumb_em(bytes, base, i) {
            Some(t) => {
                alvos.insert(t);
            },
            None => {},
        }
        proof {
            lemma_destino_thumb_posicao(s, base, i + 1);
            assert(destino_thumb(s, base, i + 1) is None);
            assert(destinos_thumb_ate(s, base, i + 1) == destinos_thumb_ate(s, base, i + 2));
        }
        assert(alvos@ =~= arm + destinos_thumb_ate(s, base, i + 2));
        i = i + 2;
    }
    proof {
        lemma_thumb_ate_fim(s, base, i as int, n as int);
    }
    alvos
}

/// Past the last position where a word fits, no further ARM target appears.
proof fn lemma_arm_ate_fim(s: Seq<u8>, base: u32, i: int, k: int)
    requires
        i <= k,
        i + 4 > s.len(),
    ensures
        destinos_arm_ate(s, base, k) == destinos_arm_ate(s, base, i),
    decreases k - i,
{
    if k > i {
        lemma_arm_ate_fim(s, base, i, k - 1);
        lemma_destino_arm_posicao(s, base, k - 1);
    }
}

/// Past the last position where a pair fits, no further Thumb target appears.
proof fn lemma_thumb_ate_fim(s: Seq<u8>, base: u32, i: int, k: int)
    requires
        i <= k,
        i + 4 > s.len(),
    ensures
        destinos_thumb_ate(s, base, k) == destinos_thumb_ate(s, base, i),
    decreases k - i,
{
    if k > i {
        lemma_thumb_ate_fim(s, base, i, k - 1);
        lemma_destino_thumb_posicao(s, base, k - 1);
    }
}


/// The 4-bit register field at `bit` of `w` names the PC (r15).
pub open spec fn pc_em(w: u32, bit: u32) -> bool {
    (w >> bit) & 0xf == 0xf
}

/// An ARM instruction that does the same at any address: it neither reads nor writes the PC,
/// does not branch, and uses no coprocessor nor system call. A register field of 15 refuses
/// the instruction even where, in that encoding, the field is part of an immediate.
pub open spec fn copiavel_spec(w: u32) -> bool {
    let classe = (w >> 25u32) & 7;
    if w >> 28u32 == 0xf {
        false
    } else if classe == 0 || classe == 1 {
        // Data processing, multiplies, halfword/doubleword transfers and the "misc" group
        // (MRS/MSR/BX/BLX/CLZ...), which is left out whole.
        let misc = w & 0x0190_0000 == 0x0100_0000 && (w >> 25u32) & 1 == 0 && w & 0x90 != 0x90;
        let msr_imediato = w & 0x0fb0_0000 == 0x0320_0000;
        !misc && !msr_imediato && !pc_em(w, 16) && !pc_em(w, 12) && !pc_em(w, 0) && !(w
            & 0x0200_0010 == 0x10 && pc_em(w, 8))
    } else if classe == 3 && w & 0x0f80_03f0 == 0x0680_0070 {
        // ARMv6 extensions (uxth, sxtb, ...): Rn = 15 means "no addition", not the PC.
        !pc_em(w, 12) && !pc_em(w, 0)
    } else if classe == 2 || classe == 3 {
        // LDR/STR/LDRB/STRB and, with bit 4, the other ARMv6 media instructions.
        !pc_em(w, 16) && !pc_em(w, 12) && !((w >> 25u32) & 1 == 1 && pc_em(w, 0))
    } else if classe == 4 {
        // LDM/STM with the PC neither in the list nor as the base.
        !pc_em(w, 16) && w & 0x8000 == 0
    } else {
        false
    }
}

/// Whether the ARM instruction `w` can be copied to another address and still do the same.
pub fn copiavel(w: u32) -> (r: bool)
    ensures
        r == copiavel_spec(w),
{
    let cond = w >> 28u32;
    if cond == 0xf {
        return false;
    }
    let classe = (w >> 25u32) & 7;
    if classe == 0 || classe == 1 {
        let misc = w & 0x0190_0000 == 0x0100_0000 && (w >> 25u32) & 1 == 0 && w & 0x90 != 0x90;
        let msr_imediato = w & 0x0fb0_0000 == 0x0320_0000;
        !misc && !msr_imediato && !((w >> 16u32) & 0xf == 0xf) && !((w >> 12u32) & 0xf == 0xf)
            && !((w >> 0u32) & 0xf == 0xf) && !(w & 0x0200_0010 == 0x10 && (w >> 8u32) & 0xf
            == 0xf)
    } else if classe == 3 && w & 0x0f80_03f0 == 0x0680_0070 {
        !((w >> 12u32) & 0xf == 0xf) && !((w >> 0u32) & 0xf == 0xf)
    } else if classe == 2 || classe == 3 {
        !((w >> 16u32) & 0xf == 0xf) && !((w >> 12u32) & 0xf == 0xf) && !((w >> 25u32) & 1 == 1
            && (w >> 0u32) & 0xf == 0xf)
    } else if classe == 4 {
        !((w >> 16u32) & 0xf == 0xf) && w & 0x8000 == 0
    } else {
        false
    }
}

/// A copiable instruction never writes the PC through its destination field (bits 12-15),
/// is not a branch, a coprocessor instruction nor a system call, and is not from the
/// unconditional space.
pub proof fn lemma_copiavel_nao_toca_o_pc(w: u32)
    requires
        copiavel_spec(w),
    ensures
        (w >> 12u32) & 0xf != 0xf,
        (w >> 25u32) & 7 <= 4,
        w >> 28u32 != 0xf,
{
    let classe = (w >> 25u32) & 7;
    if classe == 4 {
        assert(w & 0x8000 == 0 ==> (w >> 12u32) & 0xf != 0xf) by (bit_vector);
    }
}

} // verus!
