//! What the combine functions of the generated shaders compute, as OpenGL ES 1.1 defines them.

use vstd::prelude::*;
use crate::gerador::{digito, funcao_alfa, funcao_rgb, teste_alfa_spec};

verus! {

/// An expression of the combine arguments, as the OpenGL ES 1.1 `GL_COMBINE` functions are
/// defined.
pub enum Termo {
    /// Argument 0, 1 or 2.
    Arg(u8),
    /// The constant 0.5.
    Meio,
    /// The constant 1.0.
    Um,
    Soma(Box<Termo>, Box<Termo>),
    Diferenca(Box<Termo>, Box<Termo>),
    Produto(Box<Termo>, Box<Termo>),
    /// `4 * ((a - 0.5) . (b - 0.5))` with the halves already taken: `4 * dot(a, b)`, in every
    /// channel.
    Dot4(Box<Termo>, Box<Termo>),
}

/// A sum or a difference: what needs parentheses as an operand of `-` (on the right) or `*`.
pub open spec fn e_soma_ou_diferenca(t: Termo) -> bool {
    t is Soma || t is Diferenca
}

/// The GLSL text of an expression over the colour (`p == 'r'`) or alpha (`p == 'a'`)
/// arguments: `+`, `-` and `*` written infix with spaces, a sum or difference in parentheses
/// where precedence needs them.
pub open spec fn escreve_termo(t: Termo, p: char) -> Seq<char>
    decreases t,
{
    match t {
        Termo::Arg(i) => seq![p] + digito(i as int),
        Termo::Meio => "0.5"@,
        Termo::Um => "1.0"@,
        Termo::Soma(a, b) => escreve_termo(*a, p) + " + "@ + escreve_termo(*b, p),
        Termo::Diferenca(a, b) => escreve_termo(*a, p) + " - "@ + (if e_soma_ou_diferenca(*b) {
            "("@ + escreve_termo(*b, p) + ")"@
        } else {
            escreve_termo(*b, p)
        }),
        Termo::Produto(a, b) => (if e_soma_ou_diferenca(*a) {
            "("@ + escreve_termo(*a, p) + ")"@
        } else {
            escreve_termo(*a, p)
        }) + " * "@ + (if e_soma_ou_diferenca(*b) {
            "("@ + escreve_termo(*b, p) + ")"@
        } else {
            escreve_termo(*b, p)
        }),
        Termo::Dot4(a, b) => "vec3(4.0 * dot("@ + escreve_termo(*a, p) + ", "@ + escreve_termo(*b, p) + "))"@,
    }
}

/// Argument `i` of a combine.
pub open spec fn arg(i: u8) -> Box<Termo> {
    Box::new(Termo::Arg(i))
}

/// What the combine function with code `f` computes, as OpenGL ES 1.1 defines it (codes in the
/// order of its table): `GL_REPLACE` (0) Arg0, `GL_MODULATE` (1) Arg0 * Arg1, `GL_ADD` (2)
/// Arg0 + Arg1, `GL_ADD_SIGNED` (3) Arg0 + Arg1 - 0.5, `GL_INTERPOLATE` (4)
/// Arg0 * Arg2 + Arg1 * (1 - Arg2), `GL_SUBTRACT` (5) Arg0 - Arg1, `GL_DOT3_RGB` (6) and
/// `GL_DOT3_RGBA` (7) 4 * ((Arg0 - 0.5) . (Arg1 - 0.5)). Any other code is taken as
/// `GL_MODULATE`.
pub open spec fn funcao_gl(f: i32) -> Termo {
    if f == 0 {
        Termo::Arg(0)
    } else if f == 2 {
        Termo::Soma(arg(0), arg(1))
    } else if f == 3 {
        Termo::Diferenca(Box::new(Termo::Soma(arg(0), arg(1))), Box::new(Termo::Meio))
    } else if f == 4 {
        Termo::Soma(
            Box::new(Termo::Produto(arg(0), arg(2))),
            Box::new(Termo::Produto(arg(1), Box::new(Termo::Diferenca(Box::new(Termo::Um), arg(2))))),
        )
    } else if f == 5 {
        Termo::Diferenca(arg(0), arg(1))
    } else if f == 6 || f == 7 {
        Termo::Dot4(
            Box::new(Termo::Diferenca(arg(0), Box::new(Termo::Meio))),
            Box::new(Termo::Diferenca(arg(1), Box::new(Termo::Meio))),
        )
    } else {
        Termo::Produto(arg(0), arg(1))
    }
}

/// The alpha combine function: the dot products are colour-only, so their codes are taken as
/// `GL_MODULATE` there too.
pub open spec fn funcao_alfa_gl(f: i32) -> Termo {
    if f == 6 || f == 7 {
        Termo::Produto(arg(0), arg(1))
    } else {
        funcao_gl(f)
    }
}

/// The colour and alpha combine lines compute, for every function code, what OpenGL ES 1.1
/// defines for that function, with the arguments in their order (`GL_SUBTRACT` is
/// Arg0 - Arg1, `GL_INTERPOLATE` weighs Arg0 by Arg2).
pub proof fn lemma_funcoes_de_combinacao(f: i32)
    ensures
        funcao_rgb(f) == escreve_termo(funcao_gl(f), 'r'),
        funcao_alfa(f) == escreve_termo(funcao_alfa_gl(f), 'a'),
{
    reveal_strlit("0");
    reveal_strlit("1");
    reveal_strlit("2");
    reveal_strlit("0.5");
    reveal_strlit("1.0");
    reveal_strlit(" + ");
    reveal_strlit(" - ");
    reveal_strlit(" * ");
    reveal_strlit("(");
    reveal_strlit(")");
    reveal_strlit(", ");
    reveal_strlit("))");
    reveal_strlit("vec3(4.0 * dot(");
    reveal_strlit("r0");
    reveal_strlit("r0 + r1");
    reveal_strlit("r0 + r1 - 0.5");
    reveal_strlit("r0 * r2 + r1 * (1.0 - r2)");
    reveal_strlit("r0 - r1");
    reveal_strlit("vec3(4.0 * dot(r0 - 0.5, r1 - 0.5))");
    reveal_strlit("r0 * r1");
    reveal_strlit("a0");
    reveal_strlit("a0 + a1");
    reveal_strlit("a0 + a1 - 0.5");
    reveal_strlit("a0 * a2 + a1 * (1.0 - a2)");
    reveal_strlit("a0 - a1");
    reveal_strlit("a0 * a1");
    reveal_with_fuel(escreve_termo, 5);
    if f == 0 {
        assert(funcao_rgb(f) =~= escreve_termo(funcao_gl(f), 'r'));
        assert(funcao_alfa(f) =~= escreve_termo(funcao_alfa_gl(f), 'a'));
    } else if f == 2 {
        assert(funcao_rgb(f) =~= escreve_termo(funcao_gl(f), 'r'));
        assert(funcao_alfa(f) =~= escreve_termo(funcao_alfa_gl(f), 'a'));
    } else if f == 3 {
        assert(funcao_rgb(f) =~= escreve_termo(funcao_gl(f), 'r'));
        assert(funcao_alfa(f) =~= escreve_termo(funcao_alfa_gl(f), 'a'));
    } else if f == 4 {
        assert(funcao_rgb(f) =~= escreve_termo(funcao_gl(f), 'r'));
        assert(funcao_alfa(f) =~= escreve_termo(funcao_alfa_gl(f), 'a'));
    } else if f == 5 {
        assert(funcao_rgb(f) =~= escreve_termo(funcao_gl(f), 'r'));
        assert(funcao_alfa(f) =~= escreve_termo(funcao_alfa_gl(f), 'a'));
    } else if f == 6 || f == 7 {
        assert(funcao_rgb(f) =~= escreve_termo(funcao_gl(f), 'r'));
        assert(funcao_alfa(f) =~= escreve_termo(funcao_alfa_gl(f), 'a'));
    } else {
        assert(funcao_rgb(f) =~= escreve_termo(funcao_gl(f), 'r'));
        assert(funcao_alfa(f) =~= escreve_termo(funcao_alfa_gl(f), 'a'));
    }
}

/// The GLSL relation a fragment's alpha must have with the reference for the alpha test with
/// code `c` to pass, as OpenGL ES 1.1 orders the functions: `GL_LESS` (1), `GL_EQUAL` (2),
/// `GL_LEQUAL` (3), `GL_GREATER` (4), `GL_NOTEQUAL` (5), `GL_GEQUAL` (6).
pub open spec fn relacao_gl(c: i32) -> Seq<char> {
    if c == 1 {
        "<"@
    } else if c == 2 {
        "=="@
    } else if c == 3 {
        "<="@
    } else if c == 4 {
        ">"@
    } else if c == 5 {
        "!="@
    } else {
        ">="@
    }
}

/// The alpha test discards a fragment exactly when the test's function fails: always for
/// `GL_NEVER` (0), never for `GL_ALWAYS` (7) and any other code (no test written), and
/// otherwise when the alpha does not have the function's relation with the reference.
pub proof fn lemma_teste_alfa(c: i32)
    ensures
        c == 0 ==> teste_alfa_spec(c) == "    if (true) { discard; }\n"@,
        1 <= c <= 6 ==> teste_alfa_spec(c) == "    if (!(cor.a "@ + relacao_gl(c) + " ref_alfa)) { discard; }\n"@,
        !(0 <= c <= 6) ==> teste_alfa_spec(c).len() == 0,
{
    reveal_strlit("    if (");
    reveal_strlit(") { discard; }\n");
    reveal_strlit("    if (true) { discard; }\n");
    reveal_strlit("    if (!(cor.a ");
    reveal_strlit(" ref_alfa)) { discard; }\n");
    reveal_strlit("true");
    reveal_strlit("<");
    reveal_strlit("==");
    reveal_strlit("<=");
    reveal_strlit(">");
    reveal_strlit("!=");
    reveal_strlit(">=");
    reveal_strlit("!(cor.a < ref_alfa)");
    reveal_strlit("!(cor.a == ref_alfa)");
    reveal_strlit("!(cor.a <= ref_alfa)");
    reveal_strlit("!(cor.a > ref_alfa)");
    reveal_strlit("!(cor.a != ref_alfa)");
    reveal_strlit("!(cor.a >= ref_alfa)");
    if c == 0 {
        assert(teste_alfa_spec(c) =~= "    if (true) { discard; }\n"@);
    } else if 1 <= c <= 6 {
        assert(teste_alfa_spec(c) =~= "    if (!(cor.a "@ + relacao_gl(c) + " ref_alfa)) { discard; }\n"@);
    }
}

} // verus!
