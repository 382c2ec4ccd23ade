//! The OpenGL ES 2.0 fragment shader generated for each combination of texture state: the
//! combination is fixed in the code, so the compiler drops the dead branches.

use vstd::prelude::*;

verus! {

/// A unit's texture environment reduced to what changes the shader's code: the mode and, in
/// `GL_COMBINE` (mode 4), function, sources and operands. Colours and scales stay uniforms.
#[derive(Clone, Copy, PartialEq, Eq, Hash, Debug)]
pub struct ChaveEnv {
    pub modo: i32,
    pub cmb: [i32; 2],
    pub src: [[i32; 3]; 2],
    pub op: [[i32; 3]; 2],
}

/// The combine mode, the only one whose function, sources and operands matter.
pub const MODO_COMBINE: i32 = 4;

/// The alpha test code for a disabled test: only then is there no `discard`.
pub const ALFA_DESLIGADO: i32 = 7;

impl ChaveEnv {
    /// Functions, sources and operands all zero: the key keeps only the mode.
    pub open spec fn so_modo(&self) -> bool {
        &&& forall|i: int| 0 <= i < 2 ==> #[trigger] self.cmb[i] == 0
        &&& forall|k: int, i: int| 0 <= k < 2 && 0 <= i < 3 ==> #[trigger] self.src[k][i] == 0
        &&& forall|k: int, i: int| 0 <= k < 2 && 0 <= i < 3 ==> #[trigger] self.op[k][i] == 0
    }

    /// The key of an environment whose mode, combine functions, sources and operands have
    /// already been coded: outside `GL_COMBINE` only the mode is kept.
    pub fn de(modo: i32, combina: [i32; 2], fontes: [[i32; 3]; 2], operandos: [[i32; 3]; 2]) -> (r: ChaveEnv)
        ensures
            r.modo == modo,
            modo == MODO_COMBINE ==> r.cmb == combina && r.src == fontes && r.op == operandos,
            modo != MODO_COMBINE ==> r.so_modo(),
    {
        if modo != MODO_COMBINE {
            return ChaveEnv { modo, cmb: [0, 0], src: [[0, 0, 0], [0, 0, 0]], op: [[0, 0, 0], [0, 0, 0]] };
        }
        ChaveEnv { modo, cmb: combina, src: fontes, op: operandos }
    }
}

/// Two environments outside `GL_COMBINE` with the same mode give the same key, whatever their
/// combine state: they share a shader.
pub proof fn lemma_chave_ignora_combina_fora_do_combine(modo: i32, ka: ChaveEnv, kb: ChaveEnv)
    requires
        modo != MODO_COMBINE,
        ka.modo == modo && ka.so_modo(),
        kb.modo == modo && kb.so_modo(),
    ensures
        ka == kb,
{
    broadcast use vstd::array::group_array_axioms;
    assert(ka.cmb =~= kb.cmb);
    assert(ka.src[0] =~= kb.src[0]);
    assert(ka.src[1] =~= kb.src[1]);
    assert(ka.op[0] =~= kb.op[0]);
    assert(ka.op[1] =~= kb.op[1]);
    assert(ka.src =~= kb.src);
    assert(ka.op =~= kb.op);
}

/// A combination of state with a shader of its own in ES 2.0.
#[derive(Clone, Copy, PartialEq, Eq, Hash, Debug)]
pub struct Variante {
    pub t0: Option<ChaveEnv>,
    pub t1: Option<ChaveEnv>,
    pub neblina: bool,
    /// The alpha test code; `ALFA_DESLIGADO` is the test disabled.
    pub alfa: i32,
}

/// The declarations and the start of `main`.
pub open spec fn cabecalho() -> Seq<char> {
    "precision mediump float;\nvarying vec4 vcor;\nvarying vec2 vuv;\nvarying float vfog;\nvarying vec2 vuv1;\nuniform sampler2D amostra;\nuniform sampler2D amostra1;\nuniform vec4 cor_env;\nuniform vec4 cor_env1;\nuniform float escala_rgb;\nuniform float escala_alfa;\nuniform float escala_rgb1;\nuniform float escala_alfa1;\nuniform vec3 cor_neblina;\nuniform float ref_alfa;\nvoid main() {\n    vec4 primaria = vcor;\n    vec4 cor = primaria;\n"@
}

/// The suffix of the uniforms of a unit: none for unit 0, `1` for unit 1.
pub open spec fn sufixo(unidade: int) -> Seq<char> {
    if unidade == 0 { Seq::empty() } else { "1"@ }
}

/// A combine source of a unit: the texel, the environment colour, the primary colour or the
/// previous result.
pub open spec fn fonte_spec(q: i32, unidade: int) -> Seq<char> {
    if q == 0 {
        "t"@
    } else if q == 1 {
        "cor_env"@ + sufixo(unidade)
    } else if q == 2 {
        "primaria"@
    } else {
        "ant"@
    }
}

/// A colour operand of a source `x`.
pub open spec fn op_rgb_spec(op: i32, x: Seq<char>) -> Seq<char> {
    if op == 0 {
        x + ".rgb"@
    } else if op == 1 {
        "(vec3(1.0) - "@ + x + ".rgb)"@
    } else if op == 2 {
        "vec3("@ + x + ".a)"@
    } else {
        "vec3(1.0 - "@ + x + ".a)"@
    }
}

/// An alpha operand of a source `x`.
pub open spec fn op_alfa_spec(op: i32, x: Seq<char>) -> Seq<char> {
    if op == 1 || op == 3 {
        "(1.0 - "@ + x + ".a)"@
    } else {
        x + ".a"@
    }
}

/// The digit of argument `i` (0 to 2).
pub open spec fn digito(i: int) -> Seq<char> {
    if i == 0 { "0"@ } else if i == 1 { "1"@ } else { "2"@ }
}

/// The lines that compute the colour and alpha of argument `i` of a combine.
pub open spec fn argumento_spec(c: ChaveEnv, unidade: int, i: int) -> Seq<char> {
    "    vec3 r"@ + digito(i) + " = "@ + op_rgb_spec(c.op[0][i], fonte_spec(c.src[0][i], unidade))
        + ";\n    float a"@ + digito(i) + " = "@ + op_alfa_spec(c.op[1][i], fonte_spec(c.src[1][i], unidade)) + ";\n"@
}

/// The lines of the first `k` arguments.
pub open spec fn argumentos_spec(c: ChaveEnv, unidade: int, k: int) -> Seq<char>
    decreases k,
{
    if k <= 0 {
        Seq::empty()
    } else {
        argumentos_spec(c, unidade, k - 1) + argumento_spec(c, unidade, k - 1)
    }
}

/// The colour combine function.
pub open spec fn funcao_rgb(f: i32) -> Seq<char> {
    if f == 0 {
        "r0"@
    } else if f == 2 {
        "r0 + r1"@
    } else if f == 3 {
        "r0 + r1 - 0.5"@
    } else if f == 4 {
        "r0 * r2 + r1 * (1.0 - r2)"@
    } else if f == 5 {
        "r0 - r1"@
    } else if f == 6 || f == 7 {
        "vec3(4.0 * dot(r0 - 0.5, r1 - 0.5))"@
    } else {
        "r0 * r1"@
    }
}

/// The alpha combine function.
pub open spec fn funcao_alfa(f: i32) -> Seq<char> {
    if f == 0 {
        "a0"@
    } else if f == 2 {
        "a0 + a1"@
    } else if f == 3 {
        "a0 + a1 - 0.5"@
    } else if f == 4 {
        "a0 * a2 + a1 * (1.0 - a2)"@
    } else if f == 5 {
        "a0 - a1"@
    } else {
        "a0 * a1"@
    }
}

/// The `GL_COMBINE` block of a unit.
pub open spec fn combina_spec(c: ChaveEnv, unidade: int) -> Seq<char> {
    "    vec4 ant = cor;\n"@ + argumentos_spec(c, unidade, 3) + "    vec3 rgb = clamp(("@ + funcao_rgb(c.cmb[0])
        + ") * escala_rgb"@ + sufixo(unidade) + ", 0.0, 1.0);\n    float alfa = clamp(("@ + funcao_alfa(c.cmb[1])
        + ") * escala_alfa"@ + sufixo(unidade) + ", 0.0, 1.0);\n"@ + (if c.cmb[0] == 7 {
        "    alfa = rgb.r;\n"@
    } else {
        Seq::empty()
    }) + "    cor = vec4(rgb, alfa);\n"@
}

/// What the mode of a unit does to the colour.
pub open spec fn modo_spec(c: ChaveEnv, unidade: int) -> Seq<char> {
    if c.modo == 0 {
        "    cor = t;\n"@
    } else if c.modo == 1 {
        "    cor = vec4(cor.rgb * (1.0 - t.a) + t.rgb * t.a, cor.a);\n"@
    } else if c.modo == 2 {
        "    cor = vec4(min(cor.rgb + t.rgb, vec3(1.0)), cor.a * t.a);\n"@
    } else if c.modo == MODO_COMBINE {
        combina_spec(c, unidade)
    } else {
        "    cor = cor * t;\n"@
    }
}

/// The block of a texture unit: sample, then apply the mode.
pub open spec fn unidade_spec(c: ChaveEnv, unidade: int) -> Seq<char> {
    (if unidade == 0 {
        "    {\n    vec4 t = texture2D(amostra, vuv);\n"@
    } else {
        "    {\n    vec4 t = texture2D(amostra1, vuv1);\n"@
    }) + modo_spec(c, unidade) + "    }\n"@
}

/// A unit without texture adds nothing.
pub open spec fn unidade_opcional(o: Option<ChaveEnv>, unidade: int) -> Seq<char> {
    match o {
        Some(c) => unidade_spec(c, unidade),
        None => Seq::empty(),
    }
}

/// The fog line.
pub open spec fn neblina_spec(neblina: bool) -> Seq<char> {
    if neblina {
        "    cor = vec4(mix(cor_neblina, cor.rgb, clamp(vfog, 0.0, 1.0)), cor.a);\n"@
    } else {
        Seq::empty()
    }
}

/// The condition under which the alpha test fails, for codes 0 to 6.
pub open spec fn falha_spec(alfa: i32) -> Seq<char> {
    if alfa == 0 {
        "true"@
    } else if alfa == 1 {
        "!(cor.a < ref_alfa)"@
    } else if alfa == 2 {
        "!(cor.a == ref_alfa)"@
    } else if alfa == 3 {
        "!(cor.a <= ref_alfa)"@
    } else if alfa == 4 {
        "!(cor.a > ref_alfa)"@
    } else if alfa == 5 {
        "!(cor.a != ref_alfa)"@
    } else {
        "!(cor.a >= ref_alfa)"@
    }
}

/// The alpha test: a `discard` for codes 0 to 6, nothing otherwise.
pub open spec fn teste_alfa_spec(alfa: i32) -> Seq<char> {
    if 0 <= alfa <= 6 {
        "    if ("@ + falha_spec(alfa) + ") { discard; }\n"@
    } else {
        Seq::empty()
    }
}

/// The whole fragment shader of a combination, in a straight line.
pub open spec fn fragmento_spec(v: Variante) -> Seq<char> {
    cabecalho() + unidade_opcional(v.t0, 0) + unidade_opcional(v.t1, 1) + neblina_spec(v.neblina)
        + teste_alfa_spec(v.alfa) + "    gl_FragColor = cor;\n}\n"@
}

/// The shader has an alpha test, and its `discard`, exactly when the test is enabled (codes 0
/// to 6); every shader ends by writing the colour.
pub proof fn lemma_discard_so_com_teste(v: Variante)
    ensures
        (teste_alfa_spec(v.alfa).len() == 0) <==> !(0 <= v.alfa <= 6),
        fragmento_spec(v) == cabecalho() + unidade_opcional(v.t0, 0) + unidade_opcional(v.t1, 1)
            + neblina_spec(v.neblina) + teste_alfa_spec(v.alfa) + "    gl_FragColor = cor;\n}\n"@,
{
    reveal_strlit("    if (");
}


/// Appends the uniform suffix of a unit.
fn anexa_sufixo(f: &mut String, unidade: usize)
    ensures
        final(f)@ == old(f)@ + sufixo(unidade as int),
{
    if unidade != 0 {
        f.append("1");
    } else {
        assert(old(f)@ + sufixo(0) =~= old(f)@);
    }
}

/// Appends a combine source.
fn anexa_fonte(f: &mut String, q: i32, unidade: usize)
    ensures
        final(f)@ == old(f)@ + fonte_spec(q, unidade as int),
{
    if q == 0 {
        f.append("t");
    } else if q == 1 {
        f.append("cor_env");
        anexa_sufixo(f, unidade);
        assert(f@ =~= old(f)@ + fonte_spec(q, unidade as int));
    } else if q == 2 {
        f.append("primaria");
    } else {
        f.append("ant");
    }
}

/// Appends a colour operand.
fn anexa_op_rgb(f: &mut String, op: i32, q: i32, unidade: usize)
    ensures
        final(f)@ == old(f)@ + op_rgb_spec(op, fonte_spec(q, unidade as int)),
{
    if op == 0 {
        anexa_fonte(f, q, unidade);
        f.append(".rgb");
    } else if op == 1 {
        f.append("(vec3(1.0) - ");
        anexa_fonte(f, q, unidade);
        f.append(".rgb)");
    } else if op == 2 {
        f.append("vec3(");
        anexa_fonte(f, q, unidade);
        f.append(".a)");
    } else {
        f.append("vec3(1.0 - ");
        anexa_fonte(f, q, unidade);
        f.append(".a)");
    }
    assert(f@ =~= old(f)@ + op_rgb_spec(op, fonte_spec(q, unidade as int)));
}

/// Appends an alpha operand.
fn anexa_op_alfa(f: &mut String, op: i32, q: i32, unidade: usize)
    ensures
        final(f)@ == old(f)@ + op_alfa_spec(op, fonte_spec(q, unidade as int)),
{
    if op == 1 || op == 3 {
        f.append("(1.0 - ");
        anexa_fonte(f, q, unidade);
        f.append(".a)");
    } else {
        anexa_fonte(f, q, unidade);
        f.append(".a");
    }
    assert(f@ =~= old(f)@ + op_alfa_spec(op, fonte_spec(q, unidade as int)));
}

/// The digit of an argument.
fn digito_de(i: usize) -> (r: &'static str)
    requires
        i < 3,
    ensures
        r@ == digito(i as int),
{
    if i == 0 {
        "0"
    } else if i == 1 {
        "1"
    } else {
        "2"
    }
}

/// Appends the lines of argument `i` of a combine.
fn anexa_argumento(f: &mut String, c: &ChaveEnv, unidade: usize, i: usize)
    requires
        i < 3,
    ensures
        final(f)@ == old(f)@ + argumento_spec(*c, unidade as int, i as int),
{
    f.append("    vec3 r");
    f.append(digito_de(i));
    f.append(" = ");
    anexa_op_rgb(f, c.op[0][i], c.src[0][i], unidade);
    f.append(";\n    float a");
    f.append(digito_de(i));
    f.append(" = ");
    anexa_op_alfa(f, c.op[1][i], c.src[1][i], unidade);
    f.append(";\n");
    assert(f@ =~= old(f)@ + argumento_spec(*c, unidade as int, i as int));
}

/// The colour combine function.
fn funcao_rgb_de(x: i32) -> (r: &'static str)
    ensures
        r@ == funcao_rgb(x),
{
    if x == 0 {
        "r0"
    } else if x == 2 {
        "r0 + r1"
    } else if x == 3 {
        "r0 + r1 - 0.5"
    } else if x == 4 {
        "r0 * r2 + r1 * (1.0 - r2)"
    } else if x == 5 {
        "r0 - r1"
    } else if x == 6 || x == 7 {
        "vec3(4.0 * dot(r0 - 0.5, r1 - 0.5))"
    } else {
        "r0 * r1"
    }
}

/// The alpha combine function.
fn funcao_alfa_de(x: i32) -> (r: &'static str)
    ensures
        r@ == funcao_alfa(x),
{
    if x == 0 {
        "a0"
    } else if x == 2 {
        "a0 + a1"
    } else if x == 3 {
        "a0 + a1 - 0.5"
    } else if x == 4 {
        "a0 * a2 + a1 * (1.0 - a2)"
    } else if x == 5 {
        "a0 - a1"
    } else {
        "a0 * a1"
    }
}

/// Appends the `GL_COMBINE` block of a unit.
fn anexa_combina(f: &mut String, c: &ChaveEnv, unidade: usize)
    ensures
        final(f)@ == old(f)@ + combina_spec(*c, unidade as int),
{
    f.append("    vec4 ant = cor;\n");
    let ghost inicio = f@;
    let mut i: usize = 0;
    while i < 3
        invariant
            i <= 3,
            f@ == inicio + argumentos_spec(*c, unidade as int, i as int),
        decreases 3 - i,
    {
        anexa_argumento(f, c, unidade, i);
        assert(f@ =~= inicio + argumentos_spec(*c, unidade as int, i + 1));
        i = i + 1;
    }
    f.append("    vec3 rgb = clamp((");
    f.append(funcao_rgb_de(c.cmb[0]));
    f.append(") * escala_rgb");
    anexa_sufixo(f, unidade);
    f.append(", 0.0, 1.0);\n    float alfa = clamp((");
    f.append(funcao_alfa_de(c.cmb[1]));
    f.append(") * escala_alfa");
    anexa_sufixo(f, unidade);
    f.append(", 0.0, 1.0);\n");
    let ghost antes = f@;
    if c.cmb[0] == 7 {
        f.append("    alfa = rgb.r;\n");
    } else {
        assert(f@ =~= antes + Seq::<char>::empty());
    }
    f.append("    cor = vec4(rgb, alfa);\n");
    assert(f@ =~= old(f)@ + combina_spec(*c, unidade as int));
}

/// Appends the block of a texture unit.
fn anexa_unidade(f: &mut String, c: &ChaveEnv, unidade: usize)
    ensures
        final(f)@ == old(f)@ + unidade_spec(*c, unidade as int),
{
    if unidade == 0 {
        f.append("    {\n    vec4 t = texture2D(amostra, vuv);\n");
    } else {
        f.append("    {\n    vec4 t = texture2D(amostra1, vuv1);\n");
    }
    let ghost depois_da_amostra = f@;
    if c.modo == 0 {
        f.append("    cor = t;\n");
    } else if c.modo == 1 {
        f.append("    cor = vec4(cor.rgb * (1.0 - t.a) + t.rgb * t.a, cor.a);\n");
    } else if c.modo == 2 {
        f.append("    cor = vec4(min(cor.rgb + t.rgb, vec3(1.0)), cor.a * t.a);\n");
    } else if c.modo == MODO_COMBINE {
        anexa_combina(f, c, unidade);
    } else {
        f.append("    cor = cor * t;\n");
    }
    assert(f@ =~= depois_da_amostra + modo_spec(*c, unidade as int));
    f.append("    }\n");
    assert(f@ =~= old(f)@ + unidade_spec(*c, unidade as int));
}

/// The condition under which the alpha test fails, for codes 0 to 6.
fn falha_de(alfa: i32) -> (r: &'static str)
    ensures
        r@ == falha_spec(alfa),
{
    if alfa == 0 {
        "true"
    } else if alfa == 1 {
        "!(cor.a < ref_alfa)"
    } else if alfa == 2 {
        "!(cor.a == ref_alfa)"
    } else if alfa == 3 {
        "!(cor.a <= ref_alfa)"
    } else if alfa == 4 {
        "!(cor.a > ref_alfa)"
    } else if alfa == 5 {
        "!(cor.a != ref_alfa)"
    } else {
        "!(cor.a >= ref_alfa)"
    }
}

/// The fragment shader in GLSL ES 1.00 for a combination, in a straight line: the texture
/// units in order, the fog, the alpha test and the colour written.
pub fn fragmento_es2(v: &Variante) -> (r: String)
    ensures
        r@ == fragmento_spec(*v),
{
    let mut f = String::from_str(
        "precision mediump float;\nvarying vec4 vcor;\nvarying vec2 vuv;\nvarying float vfog;\nvarying vec2 vuv1;\nuniform sampler2D amostra;\nuniform sampler2D amostra1;\nuniform vec4 cor_env;\nuniform vec4 cor_env1;\nuniform float escala_rgb;\nuniform float escala_alfa;\nuniform float escala_rgb1;\nuniform float escala_alfa1;\nuniform vec3 cor_neblina;\nuniform float ref_alfa;\nvoid main() {\n    vec4 primaria = vcor;\n    vec4 cor = primaria;\n",
    );
    let ghost p0 = f@;
    match v.t0 {
        Some(c) => anexa_unidade(&mut f, &c, 0),
        None => {},
    }
    assert(f@ =~= p0 + unidade_opcional(v.t0, 0));
    let ghost p1 = f@;
    match v.t1 {
        Some(c) => anexa_unidade(&mut f, &c, 1),
        None => {},
    }
    assert(f@ =~= p1 + unidade_opcional(v.t1, 1));
    let ghost p2 = f@;
    if v.neblina {
        f.append("    cor = vec4(mix(cor_neblina, cor.rgb, clamp(vfog, 0.0, 1.0)), cor.a);\n");
    }
    assert(f@ =~= p2 + neblina_spec(v.neblina));
    let ghost p3 = f@;
    if 0 <= v.alfa && v.alfa <= 6 {
        f.append("    if (");
        f.append(falha_de(v.alfa));
        f.append(") { discard; }\n");
    }
    assert(f@ =~= p3 + teste_alfa_spec(v.alfa));
    f.append("    gl_FragColor = cor;\n}\n");
    assert(f@ =~= fragmento_spec(*v));
    f
}

} // verus!
