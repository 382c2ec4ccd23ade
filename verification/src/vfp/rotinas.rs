//! The software floating-point routines that are recognised, their signatures and the VFP
//! bodies that replace them.

use vstd::prelude::*;

verus! {

/// `bx lr`.
pub const BX_LR: u32 = 0xe12f_ff1e;

/// `ldr pc, [pc, #-4]`: jumps to the next word, whatever the distance.
pub const LDR_PC: u32 = 0xe51f_f004;

/// How many routines are replaced when they appear once: the first entries of the table.
pub const NUM_ROTINAS: usize = 9;

/// The float comparisons, which may appear twice, come right after the routines.
pub const PRIMEIRA_COMPARACAO: usize = 9;

/// How many entries have a signature: the routines and the two comparisons.
pub const NUM_ASSINATURAS: usize = 11;

/// How many of the routines existed in the old trampoline layout.
pub const ROTINAS_ANTIGAS: usize = 6;

/// The signed-integer-to-float conversion, after which the unsigned one lives.
pub const FFLT: usize = 4;

/// The unsigned-integer-to-float conversion: found through `FFLT`, it has no signature.
pub const FFLTU: usize = 11;

/// The unsigned conversion starts 13 words after the entry of the signed one.
pub const FFLTU_DESLOCAMENTO: usize = 52;

/// `mov r2, #0x40000000`: the first word of the unsigned conversion.
pub const FFLTU_MOV: u32 = 0xe3a0_2101;

/// How many entries the table has: the routines, the comparisons and the unsigned conversion.
pub const NUM_CORPOS: usize = 12;

/// The name of entry `k`, as the report gives it.
pub open spec fn nome_spec(k: int) -> &'static str {
    if k == 0 {
        "fadd"
    } else if k == 1 {
        "fsub"
    } else if k == 2 {
        "fmul"
    } else if k == 3 {
        "fdiv"
    } else if k == 4 {
        "fflt"
    } else if k == 5 {
        "ffix"
    } else if k == 6 {
        "ffixu"
    } else if k == 7 {
        "frsb"
    } else if k == 8 {
        "fsqrt"
    } else if k == 9 {
        "fcmp"
    } else if k == 10 {
        "fcmpr"
    } else {
        "ffltu"
    }
}

/// The name of entry `k`.
pub fn nome(k: usize) -> (r: &'static str)
    requires
        k < NUM_CORPOS,
    ensures
        r == nome_spec(k as int),
{
    if k == 0 {
        "fadd"
    } else if k == 1 {
        "fsub"
    } else if k == 2 {
        "fmul"
    } else if k == 3 {
        "fdiv"
    } else if k == 4 {
        "fflt"
    } else if k == 5 {
        "ffix"
    } else if k == 6 {
        "ffixu"
    } else if k == 7 {
        "frsb"
    } else if k == 8 {
        "fsqrt"
    } else if k == 9 {
        "fcmp"
    } else if k == 10 {
        "fcmpr"
    } else {
        "ffltu"
    }
}

/// The first instructions of entry `k`, with the offsets of its branches masked (entries 0 to 10).
pub open spec fn assinatura_spec(k: int) -> Seq<u32> {
    if k == 0 {
        seq![0xe1300001, 0x42211102, 0x4a000000, 0xe0502001, 0x30400002, 0x30811002, 0xe1a02ba0, 0xe3a0c4ff, 0xe11c0081, 0x113c0c02, 0xe0423ba1, 0x0a000000]
    } else if k == 1 {
        seq![0xe1300001, 0x42211102, 0x4a000000, 0xe0502001, 0x32222102, 0x30400002, 0x30811002, 0xe1a02ba0, 0xe3a0c4ff, 0xe11c0081, 0x113c0c02, 0xe0423ba1]
    } else if k == 2 {
        seq![0xe3a0c8ff, 0xe01c23a0, 0x101c33a1, 0x1132000c, 0x1133000c, 0x0a000000, 0xe1300001, 0xe3a0c102, 0x43822c01, 0xe18c0400, 0xe18c1401, 0xe0822003, 0xe083c190, 0xe2422502, 0xe35c0000, 0x13833001]
    } else if k == 3 {
        seq![0xe3a0c8ff, 0xe01c23a0, 0x101c33a1, 0x1132000c, 0x1133000c, 0x0a000000, 0xe1300001, 0xe380c502, 0xe3810502, 0x43822c01, 0xe3cc14ff, 0xe3c004ff, 0xe92d4000, 0xe28fcf4d, 0xe75ce8a0, 0xe1510000]
    } else if k == 4 {
        seq![0xe2102102, 0x12600000, 0xe3822101, 0xe16f1f10, 0xe1b00110, 0xe0422b81, 0xe282253e, 0x012fff1e, 0xe1b01c80, 0xe0a20440, 0x13b0c301, 0x23c00001]
    } else if k == 5 {
        seq![0xe1b02bc0, 0xe1a03400, 0x13833102, 0x4a000000, 0xe272209e, 0x9a000000, 0xe1a00233, 0xe1a0f00e, 0xe35004cf, 0x8a000000, 0xe3a00000, 0xe21220ff]
    } else if k == 6 {
        seq![0xe1b02bc0, 0xe1a03400, 0x13833102, 0x4a000000, 0xe272209e, 0x3a000000, 0xe1a00233, 0xe1a0f00e, 0xe1a01080, 0xe351047f, 0x2a000000, 0xe3a00000]
    } else if k == 7 {
        seq![0xe2200102, 0xe1300001, 0x5a000000, 0xe2211102, 0xea000000]
    } else if k == 8 {
        seq![0xe1a01ba0, 0xe21120ff, 0x135200ff, 0x0a000000, 0xe3100102, 0x1a000000, 0xe1a01ba0, 0xe1a00400, 0xe3800102, 0xe281107d, 0xe3a02101, 0xe1b010a1]
    } else if k == 9 {
        seq![0xe190c001, 0x4a000000, 0xe37c0502, 0x535c0502, 0x4a000000, 0xe1500001, 0xe1a0f00e, 0x7a000000, 0xe3700502, 0x53710502, 0x4a000000, 0xe1500001, 0xe1a0f00e, 0xe1510001, 0xe1a0f00e, 0xe37c0502, 0x5a000000, 0xe35c0502, 0x5a000000, 0xe1510000, 0xe1a0f00e]
    } else {
        seq![0xe191c000, 0x4a000000, 0xe37c0502, 0x535c0502, 0x4a000000, 0xe1510000, 0xe1a0f00e, 0x7a000000, 0xe3710502, 0x53700502, 0x4a000000, 0xe1510000, 0xe1a0f00e, 0xe1510001, 0xe1a0f00e, 0xe37c0502, 0x5a000000, 0xe35c0502, 0x5a000000, 0xe1500001, 0xe1a0f00e]
    }
}

/// The signature of entry `k`.
pub fn assinatura(k: usize) -> (r: Vec<u32>)
    requires
        k < NUM_ASSINATURAS,
    ensures
        r@ == assinatura_spec(k as int),
{
    if k == 0 {
        vec![0xe1300001, 0x42211102, 0x4a000000, 0xe0502001, 0x30400002, 0x30811002, 0xe1a02ba0, 0xe3a0c4ff, 0xe11c0081, 0x113c0c02, 0xe0423ba1, 0x0a000000]
    } else if k == 1 {
        vec![0xe1300001, 0x42211102, 0x4a000000, 0xe0502001, 0x32222102, 0x30400002, 0x30811002, 0xe1a02ba0, 0xe3a0c4ff, 0xe11c0081, 0x113c0c02, 0xe0423ba1]
    } else if k == 2 {
        vec![0xe3a0c8ff, 0xe01c23a0, 0x101c33a1, 0x1132000c, 0x1133000c, 0x0a000000, 0xe1300001, 0xe3a0c102, 0x43822c01, 0xe18c0400, 0xe18c1401, 0xe0822003, 0xe083c190, 0xe2422502, 0xe35c0000, 0x13833001]
    } else if k == 3 {
        vec![0xe3a0c8ff, 0xe01c23a0, 0x101c33a1, 0x1132000c, 0x1133000c, 0x0a000000, 0xe1300001, 0xe380c502, 0xe3810502, 0x43822c01, 0xe3cc14ff, 0xe3c004ff, 0xe92d4000, 0xe28fcf4d, 0xe75ce8a0, 0xe1510000]
    } else if k == 4 {
        vec![0xe2102102, 0x12600000, 0xe3822101, 0xe16f1f10, 0xe1b00110, 0xe0422b81, 0xe282253e, 0x012fff1e, 0xe1b01c80, 0xe0a20440, 0x13b0c301, 0x23c00001]
    } else if k == 5 {
        vec![0xe1b02bc0, 0xe1a03400, 0x13833102, 0x4a000000, 0xe272209e, 0x9a000000, 0xe1a00233, 0xe1a0f00e, 0xe35004cf, 0x8a000000, 0xe3a00000, 0xe21220ff]
    } else if k == 6 {
        vec![0xe1b02bc0, 0xe1a03400, 0x13833102, 0x4a000000, 0xe272209e, 0x3a000000, 0xe1a00233, 0xe1a0f00e, 0xe1a01080, 0xe351047f, 0x2a000000, 0xe3a00000]
    } else if k == 7 {
        vec![0xe2200102, 0xe1300001, 0x5a000000, 0xe2211102, 0xea000000]
    } else if k == 8 {
        vec![0xe1a01ba0, 0xe21120ff, 0x135200ff, 0x0a000000, 0xe3100102, 0x1a000000, 0xe1a01ba0, 0xe1a00400, 0xe3800102, 0xe281107d, 0xe3a02101, 0xe1b010a1]
    } else if k == 9 {
        vec![0xe190c001, 0x4a000000, 0xe37c0502, 0x535c0502, 0x4a000000, 0xe1500001, 0xe1a0f00e, 0x7a000000, 0xe3700502, 0x53710502, 0x4a000000, 0xe1500001, 0xe1a0f00e, 0xe1510001, 0xe1a0f00e, 0xe37c0502, 0x5a000000, 0xe35c0502, 0x5a000000, 0xe1510000, 0xe1a0f00e]
    } else {
        vec![0xe191c000, 0x4a000000, 0xe37c0502, 0x535c0502, 0x4a000000, 0xe1510000, 0xe1a0f00e, 0x7a000000, 0xe3710502, 0x53700502, 0x4a000000, 0xe1510000, 0xe1a0f00e, 0xe1510001, 0xe1a0f00e, 0xe37c0502, 0x5a000000, 0xe35c0502, 0x5a000000, 0xe1500001, 0xe1a0f00e]
    }
}

/// The VFP body that replaces entry `k`; every body ends in `bx lr`.
pub open spec fn corpo_spec(k: int) -> Seq<u32> {
    if k == 0 {
        seq![0xee000a10, 0xee001a90, 0xee300a20, 0xee100a10, 0xe12fff1e]
    } else if k == 1 {
        seq![0xee000a10, 0xee001a90, 0xee300a60, 0xee100a10, 0xe12fff1e]
    } else if k == 2 {
        seq![0xee000a10, 0xee001a90, 0xee200a20, 0xee100a10, 0xe12fff1e]
    } else if k == 3 {
        seq![0xee000a10, 0xee001a90, 0xee800a20, 0xee100a10, 0xe12fff1e]
    } else if k == 4 {
        seq![0xee000a10, 0xeeb80ac0, 0xee100a10, 0xe12fff1e]
    } else if k == 5 {
        seq![0xee000a10, 0xeebd0ac0, 0xee100a10, 0xe12fff1e]
    } else if k == 6 {
        seq![0xee000a10, 0xeebc0ac0, 0xee100a10, 0xe12fff1e]
    } else if k == 7 {
        seq![0xee000a10, 0xee001a90, 0xee300ac0, 0xee100a10, 0xe12fff1e]
    } else if k == 8 {
        seq![0xee000a10, 0xeeb10ac0, 0xee100a10, 0xe12fff1e]
    } else if k == 9 {
        seq![0xee000a10, 0xee001a90, 0xeeb40a60, 0xeef1fa10, 0xe12fff1e]
    } else if k == 10 {
        seq![0xee000a10, 0xee001a90, 0xeef40a40, 0xeef1fa10, 0xe12fff1e]
    } else {
        seq![0xee000a10, 0xeeb80a40, 0xee100a10, 0xe12fff1e]
    }
}

/// The VFP body of entry `k`.
pub fn corpo(k: usize) -> (r: Vec<u32>)
    requires
        k < NUM_CORPOS,
    ensures
        r@ == corpo_spec(k as int),
{
    if k == 0 {
        vec![0xee000a10, 0xee001a90, 0xee300a20, 0xee100a10, 0xe12fff1e]
    } else if k == 1 {
        vec![0xee000a10, 0xee001a90, 0xee300a60, 0xee100a10, 0xe12fff1e]
    } else if k == 2 {
        vec![0xee000a10, 0xee001a90, 0xee200a20, 0xee100a10, 0xe12fff1e]
    } else if k == 3 {
        vec![0xee000a10, 0xee001a90, 0xee800a20, 0xee100a10, 0xe12fff1e]
    } else if k == 4 {
        vec![0xee000a10, 0xeeb80ac0, 0xee100a10, 0xe12fff1e]
    } else if k == 5 {
        vec![0xee000a10, 0xeebd0ac0, 0xee100a10, 0xe12fff1e]
    } else if k == 6 {
        vec![0xee000a10, 0xeebc0ac0, 0xee100a10, 0xe12fff1e]
    } else if k == 7 {
        vec![0xee000a10, 0xee001a90, 0xee300ac0, 0xee100a10, 0xe12fff1e]
    } else if k == 8 {
        vec![0xee000a10, 0xeeb10ac0, 0xee100a10, 0xe12fff1e]
    } else if k == 9 {
        vec![0xee000a10, 0xee001a90, 0xeeb40a60, 0xeef1fa10, 0xe12fff1e]
    } else if k == 10 {
        vec![0xee000a10, 0xee001a90, 0xeef40a40, 0xeef1fa10, 0xe12fff1e]
    } else {
        vec![0xee000a10, 0xeeb80a40, 0xee100a10, 0xe12fff1e]
    }
}

} // verus!

verus! {

/// Every signature has at least five words; every body has four or five and returns with
/// `bx lr`.
pub proof fn lemma_tamanhos_da_tabela()
    ensures
        forall|k: int| 0 <= k < NUM_ASSINATURAS ==> #[trigger] assinatura_spec(k).len() >= 5,
        forall|k: int| 0 <= k < NUM_CORPOS ==> 4 <= #[trigger] corpo_spec(k).len() <= 5,
        forall|k: int| 0 <= k < NUM_CORPOS ==> #[trigger] corpo_spec(k).last() == BX_LR,
{
    assert forall|k: int| 0 <= k < NUM_CORPOS implies #[trigger] corpo_spec(k).last() == BX_LR
        && 4 <= corpo_spec(k).len() <= 5 by {
        if k == 0 { } else if k == 1 { } else if k == 2 { } else if k == 3 { } else if k == 4 {
        } else if k == 5 { } else if k == 6 { } else if k == 7 { } else if k == 8 { } else if k
            == 9 { } else if k == 10 { } else { }
    }
}

} // verus!

verus! {

/// The signatures, in table order (the routines, then the comparisons), for the tests of
/// other modules.
pub fn assinaturas_para_teste() -> (r: Vec<Vec<u32>>)
    ensures
        r@.len() == NUM_ASSINATURAS,
        forall|k: int| 0 <= k < NUM_ASSINATURAS ==> (#[trigger] r@[k])@ == assinatura_spec(k),
{
    let mut r: Vec<Vec<u32>> = Vec::new();
    let mut k: usize = 0;
    while k < NUM_ASSINATURAS
        invariant
            k <= NUM_ASSINATURAS,
            r@.len() == k,
            forall|j: int| 0 <= j < k ==> (#[trigger] r@[j])@ == assinatura_spec(j),
        decreases NUM_ASSINATURAS - k,
    {
        r.push(assinatura(k));
        k = k + 1;
    }
    r
}

} // verus!
