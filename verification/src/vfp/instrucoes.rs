//! What the VFP bodies do, instruction by instruction: the ARM encoding of the few VFP
//! instructions the bodies use, and what each body is made of.

use vstd::prelude::*;
use crate::vfp::rotinas::{corpo_spec, nome_spec};

verus! {

/// A single-precision VFP arithmetic operation.
pub enum OpVfp {
    /// `vadd.f32`
    Soma,
    /// `vsub.f32`
    Subtrai,
    /// `vmul.f32`
    Multiplica,
    /// `vdiv.f32`
    Divide,
}

/// An instruction of a VFP body; `s`, `d`, `n`, `m` are single-precision registers (0 to 31),
/// `r` a core register (0 to 14).
pub enum Instrucao {
    /// `vmov Ss, Rr`: the bits of the core register into the VFP one.
    ParaVfp { s: u32, r: u32 },
    /// `vmov Rr, Ss`: the bits of the VFP register into the core one.
    ParaCore { r: u32, s: u32 },
    /// `Sd = Sn op Sm`.
    Conta { op: OpVfp, d: u32, n: u32, m: u32 },
    /// `vcvt.f32.s32` or `vcvt.f32.u32 Sd, Sm`: the integer in `Sm` to a float.
    ParaFloat { com_sinal: bool, d: u32, m: u32 },
    /// `vcvt.s32.f32` or `vcvt.u32.f32 Sd, Sm`: the float in `Sm` to an integer, rounding
    /// toward zero.
    ParaInteiro { com_sinal: bool, d: u32, m: u32 },
    /// `vsqrt.f32 Sd, Sm`.
    Raiz { d: u32, m: u32 },
    /// `vcmp.f32 Sd, Sm`: compares `Sd` with `Sm` into the FPSCR flags.
    Compara { d: u32, m: u32 },
    /// `vmrs APSR_nzcv, fpscr`: the comparison's flags into the core flags.
    FlagsDaComparacao,
    /// `bx lr`.
    Retorna,
}

/// The fields of a single-precision register `x` in the places of the destination (`Vd` at
/// bits 12 to 15, `D` at bit 22).
pub open spec fn campo_d(x: u32) -> int {
    (x / 2) * 0x1000 + (x % 2) * 0x40_0000
}

/// The fields of a single-precision register `x` as the first operand (`Vn` at bits 16 to 19,
/// `N` at bit 7).
pub open spec fn campo_n(x: u32) -> int {
    (x / 2) * 0x1_0000 + (x % 2) * 0x80
}

/// The fields of a single-precision register `x` as the second operand (`Vm` at bits 0 to 3,
/// `M` at bit 5).
pub open spec fn campo_m(x: u32) -> int {
    (x / 2) + (x % 2) * 0x20
}

/// The ARM encoding (condition "always") of an instruction, as the ARM Architecture Reference
/// Manual gives it.
pub open spec fn codifica(i: Instrucao) -> u32 {
    match i {
        Instrucao::ParaVfp { s, r } => (0xee00_0a10 + campo_n(s) + r * 0x1000) as u32,
        Instrucao::ParaCore { r, s } => (0xee10_0a10 + campo_n(s) + r * 0x1000) as u32,
        Instrucao::Conta { op, d, n, m } => {
            let opcode: int = match op {
                OpVfp::Soma => 0xee30_0a00,
                OpVfp::Subtrai => 0xee30_0a40,
                OpVfp::Multiplica => 0xee20_0a00,
                OpVfp::Divide => 0xee80_0a00,
            };
            (opcode + campo_d(d) + campo_n(n) + campo_m(m)) as u32
        },
        Instrucao::ParaFloat { com_sinal, d, m } => (0xeeb8_0a40 + (if com_sinal { 0x80int } else { 0 })
            + campo_d(d) + campo_m(m)) as u32,
        Instrucao::ParaInteiro { com_sinal, d, m } => (0xeebc_0ac0 + (if com_sinal { 0x1_0000int } else { 0 })
            + campo_d(d) + campo_m(m)) as u32,
        Instrucao::Raiz { d, m } => (0xeeb1_0ac0 + campo_d(d) + campo_m(m)) as u32,
        Instrucao::Compara { d, m } => (0xeeb4_0a40 + campo_d(d) + campo_m(m)) as u32,
        Instrucao::FlagsDaComparacao => 0xeef1_fa10,
        Instrucao::Retorna => 0xe12f_ff1e,
    }
}

/// The words of a sequence of instructions.
pub open spec fn monta(p: Seq<Instrucao>) -> Seq<u32> {
    p.map_values(|i: Instrucao| codifica(i))
}

/// `r0 = r0 op r1`, following the AAPCS soft-float convention (arguments in `r0` and `r1`,
/// result in `r0`), and return.
pub open spec fn binaria(op: OpVfp, n: u32, m: u32) -> Seq<Instrucao> {
    seq![
        Instrucao::ParaVfp { s: 0, r: 0 },
        Instrucao::ParaVfp { s: 1, r: 1 },
        Instrucao::Conta { op, d: 0, n, m },
        Instrucao::ParaCore { r: 0, s: 0 },
        Instrucao::Retorna,
    ]
}

/// `r0 = f(r0)` for a one-operand instruction `f` on `s0`, and return.
pub open spec fn unaria(f: Instrucao) -> Seq<Instrucao> {
    seq![Instrucao::ParaVfp { s: 0, r: 0 }, f, Instrucao::ParaCore { r: 0, s: 0 }, Instrucao::Retorna]
}

/// Compares `Sd` with `Sm` (after `s0 = r0`, `s1 = r1`) into the core flags, and return.
pub open spec fn comparacao(d: u32, m: u32) -> Seq<Instrucao> {
    seq![
        Instrucao::ParaVfp { s: 0, r: 0 },
        Instrucao::ParaVfp { s: 1, r: 1 },
        Instrucao::Compara { d, m },
        Instrucao::FlagsDaComparacao,
        Instrucao::Retorna,
    ]
}

/// Each body does the operation of the routine it replaces, with the operands in the order of
/// the routine's arguments:
/// `fadd`, `fsub`, `fmul`, `fdiv` give `r0 op r1`; `frsb` gives `r1 - r0`; `fflt` and `ffltu`
/// convert the signed or unsigned integer in `r0` to a float; `ffix` and `ffixu` convert the
/// float in `r0` to a signed or unsigned integer, truncating; `fsqrt` gives the square root of
/// `r0`; `fcmp` sets the flags of comparing `r0` with `r1`, and `fcmpr` of `r1` with `r0`.
pub proof fn lemma_corpos_fazem_as_contas()
    ensures
        nome_spec(0) == "fadd" && corpo_spec(0) == monta(binaria(OpVfp::Soma, 0, 1)),
        nome_spec(1) == "fsub" && corpo_spec(1) == monta(binaria(OpVfp::Subtrai, 0, 1)),
        nome_spec(2) == "fmul" && corpo_spec(2) == monta(binaria(OpVfp::Multiplica, 0, 1)),
        nome_spec(3) == "fdiv" && corpo_spec(3) == monta(binaria(OpVfp::Divide, 0, 1)),
        nome_spec(4) == "fflt" && corpo_spec(4) == monta(unaria(Instrucao::ParaFloat { com_sinal: true, d: 0, m: 0 })),
        nome_spec(5) == "ffix" && corpo_spec(5) == monta(unaria(Instrucao::ParaInteiro { com_sinal: true, d: 0, m: 0 })),
        nome_spec(6) == "ffixu" && corpo_spec(6) == monta(unaria(Instrucao::ParaInteiro { com_sinal: false, d: 0, m: 0 })),
        nome_spec(7) == "frsb" && corpo_spec(7) == monta(binaria(OpVfp::Subtrai, 1, 0)),
        nome_spec(8) == "fsqrt" && corpo_spec(8) == monta(unaria(Instrucao::Raiz { d: 0, m: 0 })),
        nome_spec(9) == "fcmp" && corpo_spec(9) == monta(comparacao(0, 1)),
        nome_spec(10) == "fcmpr" && corpo_spec(10) == monta(comparacao(1, 0)),
        nome_spec(11) == "ffltu" && corpo_spec(11) == monta(unaria(Instrucao::ParaFloat { com_sinal: false, d: 0, m: 0 })),
{
    assert(corpo_spec(0) =~= monta(binaria(OpVfp::Soma, 0, 1)));
    assert(corpo_spec(1) =~= monta(binaria(OpVfp::Subtrai, 0, 1)));
    assert(corpo_spec(2) =~= monta(binaria(OpVfp::Multiplica, 0, 1)));
    assert(corpo_spec(3) =~= monta(binaria(OpVfp::Divide, 0, 1)));
    assert(corpo_spec(4) =~= monta(unaria(Instrucao::ParaFloat { com_sinal: true, d: 0, m: 0 })));
    assert(corpo_spec(5) =~= monta(unaria(Instrucao::ParaInteiro { com_sinal: true, d: 0, m: 0 })));
    assert(corpo_spec(6) =~= monta(unaria(Instrucao::ParaInteiro { com_sinal: false, d: 0, m: 0 })));
    assert(corpo_spec(7) =~= monta(binaria(OpVfp::Subtrai, 1, 0)));
    assert(corpo_spec(8) =~= monta(unaria(Instrucao::Raiz { d: 0, m: 0 })));
    assert(corpo_spec(9) =~= monta(comparacao(0, 1)));
    assert(corpo_spec(10) =~= monta(comparacao(1, 0)));
    assert(corpo_spec(11) =~= monta(unaria(Instrucao::ParaFloat { com_sinal: false, d: 0, m: 0 })));
}

} // verus!
