use zeebx::gerador::{fragmento_es2, ChaveEnv, Variante};

const CABECALHO: &str = "precision mediump float;\n\
     varying vec4 vcor;\nvarying vec2 vuv;\nvarying float vfog;\nvarying vec2 vuv1;\n\
     uniform sampler2D amostra;\nuniform sampler2D amostra1;\n\
     uniform vec4 cor_env;\nuniform vec4 cor_env1;\n\
     uniform float escala_rgb;\nuniform float escala_alfa;\n\
     uniform float escala_rgb1;\nuniform float escala_alfa1;\n\
     uniform vec3 cor_neblina;\nuniform float ref_alfa;\n\
     void main() {\n    vec4 primaria = vcor;\n    vec4 cor = primaria;\n";

/// The shader text written out with `format!`, as an independent rendering to compare with.
fn referencia(v: &Variante) -> String {
    let mut f = String::from(CABECALHO);
    for (unidade, chave) in [(0, v.t0), (1, v.t1)] {
        let Some(c) = chave else { continue };
        let (amostra, uv, suf) = match unidade {
            0 => ("amostra", "vuv", ""),
            _ => ("amostra1", "vuv1", "1"),
        };
        f.push_str(&format!("    {{\n    vec4 t = texture2D({amostra}, {uv});\n"));
        match c.modo {
            0 => f.push_str("    cor = t;\n"),
            1 => f.push_str("    cor = vec4(cor.rgb * (1.0 - t.a) + t.rgb * t.a, cor.a);\n"),
            2 => f.push_str("    cor = vec4(min(cor.rgb + t.rgb, vec3(1.0)), cor.a * t.a);\n"),
            4 => {
                let fonte = |q: i32| match q {
                    0 => "t".to_string(),
                    1 => format!("cor_env{suf}"),
                    2 => "primaria".to_string(),
                    _ => "ant".to_string(),
                };
                let op_rgb = |op: i32, x: String| match op {
                    0 => format!("{x}.rgb"),
                    1 => format!("(vec3(1.0) - {x}.rgb)"),
                    2 => format!("vec3({x}.a)"),
                    _ => format!("vec3(1.0 - {x}.a)"),
                };
                let op_alfa = |op: i32, x: String| match op {
                    1 | 3 => format!("(1.0 - {x}.a)"),
                    _ => format!("{x}.a"),
                };
                f.push_str("    vec4 ant = cor;\n");
                for i in 0..3 {
                    f.push_str(&format!(
                        "    vec3 r{i} = {};\n    float a{i} = {};\n",
                        op_rgb(c.op[0][i], fonte(c.src[0][i])),
                        op_alfa(c.op[1][i], fonte(c.src[1][i])),
                    ));
                }
                let rgb = match c.cmb[0] {
                    0 => "r0",
                    2 => "r0 + r1",
                    3 => "r0 + r1 - 0.5",
                    4 => "r0 * r2 + r1 * (1.0 - r2)",
                    5 => "r0 - r1",
                    6 | 7 => "vec3(4.0 * dot(r0 - 0.5, r1 - 0.5))",
                    _ => "r0 * r1",
                };
                let alfa = match c.cmb[1] {
                    0 => "a0",
                    2 => "a0 + a1",
                    3 => "a0 + a1 - 0.5",
                    4 => "a0 * a2 + a1 * (1.0 - a2)",
                    5 => "a0 - a1",
                    _ => "a0 * a1",
                };
                f.push_str(&format!(
                    "    vec3 rgb = clamp(({rgb}) * escala_rgb{suf}, 0.0, 1.0);\n    float alfa = clamp(({alfa}) * escala_alfa{suf}, 0.0, 1.0);\n"
                ));
                if c.cmb[0] == 7 {
                    f.push_str("    alfa = rgb.r;\n");
                }
                f.push_str("    cor = vec4(rgb, alfa);\n");
            }
            _ => f.push_str("    cor = cor * t;\n"),
        }
        f.push_str("    }\n");
    }
    if v.neblina {
        f.push_str("    cor = vec4(mix(cor_neblina, cor.rgb, clamp(vfog, 0.0, 1.0)), cor.a);\n");
    }
    let falha = match v.alfa {
        0 => Some("true"),
        1 => Some("!(cor.a < ref_alfa)"),
        2 => Some("!(cor.a == ref_alfa)"),
        3 => Some("!(cor.a <= ref_alfa)"),
        4 => Some("!(cor.a > ref_alfa)"),
        5 => Some("!(cor.a != ref_alfa)"),
        6 => Some("!(cor.a >= ref_alfa)"),
        _ => None,
    };
    if let Some(cond) = falha {
        f.push_str(&format!("    if ({cond}) {{ discard; }}\n"));
    }
    f.push_str("    gl_FragColor = cor;\n}\n");
    f
}

#[test]
fn sem_textura_nem_teste_so_escreve_a_cor() {
    let v = Variante { t0: None, t1: None, neblina: false, alfa: 7 };
    assert_eq!(fragmento_es2(&v), format!("{CABECALHO}    gl_FragColor = cor;\n}}\n"));
}

#[test]
fn teste_de_alfa_ligado_descarta() {
    let v = Variante { t0: None, t1: None, neblina: true, alfa: 1 };
    let f = fragmento_es2(&v);
    assert!(f.contains("    if (!(cor.a < ref_alfa)) { discard; }\n"));
    assert!(f.contains("clamp(vfog, 0.0, 1.0)"));
    for alfa in [7, 8, -1, 100] {
        let v = Variante { t0: None, t1: None, neblina: false, alfa };
        assert!(!fragmento_es2(&v).contains("discard"), "alfa {alfa}");
    }
}

#[test]
fn modulacao_na_unidade_zero() {
    let c = ChaveEnv::de(3, [0, 0], [[0; 3]; 2], [[0; 3]; 2]);
    let v = Variante { t0: Some(c), t1: None, neblina: false, alfa: 7 };
    let esperado = format!(
        "{CABECALHO}    {{\n    vec4 t = texture2D(amostra, vuv);\n    cor = cor * t;\n    }}\n    gl_FragColor = cor;\n}}\n"
    );
    assert_eq!(fragmento_es2(&v), esperado);
}

#[test]
fn combine_na_unidade_um_usa_os_uniformes_dela() {
    let c = ChaveEnv::de(4, [7, 4], [[0, 1, 2], [3, 1, 0]], [[1, 2, 3], [3, 0, 1]]);
    let v = Variante { t0: None, t1: Some(c), neblina: false, alfa: 0 };
    let f = fragmento_es2(&v);
    assert!(f.contains("    vec3 r0 = (vec3(1.0) - t.rgb);\n    float a0 = (1.0 - ant.a);\n"));
    assert!(f.contains("    vec3 r1 = vec3(cor_env1.a);\n"));
    assert!(f.contains("escala_rgb1, 0.0, 1.0);\n"));
    assert!(f.contains("    alfa = rgb.r;\n"));
    assert!(f.contains("    if (true) { discard; }\n"));
    assert_eq!(f, referencia(&v));
}

#[test]
fn gera_o_mesmo_texto_que_a_versao_com_format() {
    let mut n = 0;
    for modo in [0, 1, 2, 3, 4, 5] {
        for cmb in [[0, 0], [2, 3], [4, 5], [6, 1], [7, 4], [1, 2]] {
            for (src, op) in [
                ([[0, 1, 2], [3, 2, 1]], [[0, 1, 2], [3, 0, 1]]),
                ([[1, 1, 1], [0, 0, 0]], [[3, 3, 3], [2, 2, 2]]),
            ] {
                let c = ChaveEnv::de(modo, cmb, src, op);
                for (t0, t1) in [(Some(c), None), (None, Some(c)), (Some(c), Some(c))] {
                    for alfa in [0, 3, 6, 7] {
                        let v = Variante { t0, t1, neblina: alfa == 3, alfa };
                        assert_eq!(fragmento_es2(&v), referencia(&v));
                        n += 1;
                    }
                }
            }
        }
    }
    assert_eq!(n, 6 * 6 * 2 * 3 * 4);
}

#[test]
fn chave_fora_do_combine_guarda_so_o_modo() {
    let a = ChaveEnv::de(1, [2, 3], [[1, 2, 3], [3, 2, 1]], [[1, 1, 1], [2, 2, 2]]);
    let b = ChaveEnv::de(1, [5, 0], [[0, 0, 0], [1, 1, 1]], [[3, 3, 3], [0, 0, 0]]);
    assert_eq!(a, b);
    assert_eq!(a, ChaveEnv { modo: 1, cmb: [0; 2], src: [[0; 3]; 2], op: [[0; 3]; 2] });
    let c = ChaveEnv::de(4, [2, 3], [[1, 2, 3], [3, 2, 1]], [[1, 1, 1], [2, 2, 2]]);
    assert_eq!(c.cmb, [2, 3]);
    assert_eq!(c.src, [[1, 2, 3], [3, 2, 1]]);
}
