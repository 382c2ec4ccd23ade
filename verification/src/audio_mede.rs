//! Metering of the audio the core hands to the frontend: clicks (large jumps between
//! neighbouring samples, counting the seam with the previous batch) and the per-window and
//! session counters. Reading the clock, the environment and the files is the caller's part.

use vstd::prelude::*;

verus! {

/// Jump between neighbouring samples above which a click is counted: a quarter of full scale
/// (`i16::MAX / 4`).
pub const SALTO_ESTALO: i32 = 8191;

/// How many frames make a report window.
pub const QUADROS_POR_JANELA: u32 = 120;

/// The buffer occupancy the frontend has not reported yet.
pub const SEM_OCUPACAO: u32 = 0xffff_ffff;

/// The distance between two samples.
pub open spec fn salto(a: i16, b: i16) -> int {
    if a >= b {
        a - b
    } else {
        b - a
    }
}

/// The clicks in the first `n` stereo frames of `amostras`, with `ultima` the frame before
/// them; and the last frame seen.
pub open spec fn estalos_spec(ultima: (i16, i16), amostras: Seq<i16>, n: int) -> (int, (i16, i16))
    decreases n,
{
    if n <= 0 {
        (0, ultima)
    } else {
        let (antes, ant) = estalos_spec(ultima, amostras, n - 1);
        let q = (amostras[2 * (n - 1)], amostras[2 * (n - 1) + 1]);
        let e0: int = if salto(q.0, ant.0) > SALTO_ESTALO { 1 } else { 0 };
        let e1: int = if salto(q.1, ant.1) > SALTO_ESTALO { 1 } else { 0 };
        (antes + e0 + e1, q)
    }
}

/// The samples the frontend accepted out of the batch: `aceitos` stereo frames, at most the
/// whole batch.
pub open spec fn aceitas_spec(lote: Seq<i16>, aceitos: int) -> Seq<i16> {
    lote.subrange(0, if 2 * aceitos <= lote.len() { 2 * aceitos } else { lote.len() as int })
}

/// Counts the clicks among the accepted frames of a batch: a jump greater than `SALTO_ESTALO`
/// between a sample and the one before it on the same channel, the first frame compared with
/// `ultima`, the last frame of the previous batch. Gives the count and the last frame, for the
/// next batch (an unpaired sample at the end is left out).
pub fn conta_estalos(ultima: [i16; 2], lote: &[i16], aceitos: usize) -> (r: (u64, [i16; 2]))
    requires
        aceitos <= usize::MAX / 2,
    ensures
        ({
            let aceitas = aceitas_spec(lote@, aceitos as int);
            let (n, ant) = estalos_spec((ultima@[0], ultima@[1]), aceitas, (aceitas.len() / 2) as int);
            &&& r.0 == n
            &&& r.1@[0] == ant.0
            &&& r.1@[1] == ant.1
        }),
{
    let fim: usize = if aceitos * 2 <= lote.len() {
        aceitos * 2
    } else {
        lote.len()
    };
    let ghost aceitas = aceitas_spec(lote@, aceitos as int);
    let mut estalos: u64 = 0;
    let mut ant0: i16 = ultima[0];
    let mut ant1: i16 = ultima[1];
    let mut k: usize = 0;
    while fim >= 2 && k <= fim - 2
        invariant
            fim <= lote@.len(),
            aceitas == lote@.subrange(0, fim as int),
            k % 2 == 0,
            k <= fim,
            estalos <= k,
            estalos_spec((ultima@[0], ultima@[1]), aceitas, (k / 2) as int) == (estalos as int, (ant0, ant1)),
        decreases fim - k,
    {
        let a: i16 = lote[k];
        let b: i16 = lote[k + 1];
        let d0: i32 = if a >= ant0 { a as i32 - ant0 as i32 } else { ant0 as i32 - a as i32 };
        let d1: i32 = if b >= ant1 { b as i32 - ant1 as i32 } else { ant1 as i32 - b as i32 };
        if d0 > SALTO_ESTALO {
            estalos = estalos + 1;
        }
        if d1 > SALTO_ESTALO {
            estalos = estalos + 1;
        }
        proof {
            assert((k + 2) / 2 - 1 == k / 2);
            assert(aceitas[2 * ((k + 2) / 2 - 1)] == a);
            assert(aceitas[2 * ((k + 2) / 2 - 1) + 1] == b);
        }
        ant0 = a;
        ant1 = b;
        k = k + 2;
    }
    proof {
        assert(k / 2 == aceitas.len() / 2);
    }
    (estalos, [ant0, ant1])
}

/// Counting the clicks of two batches one after the other, the second starting from the last
/// frame of the first, is counting them over the two batches joined: the seam between batches
/// is counted once, as any other pair of neighbours.
pub proof fn lemma_estalos_costura(ultima: (i16, i16), a: Seq<i16>, b: Seq<i16>, n: int)
    requires
        a.len() % 2 == 0,
        0 <= n <= b.len() / 2,
    ensures
        ({
            let (na, ua) = estalos_spec(ultima, a, (a.len() / 2) as int);
            let (nb, ub) = estalos_spec(ua, b, n);
            estalos_spec(ultima, a + b, a.len() / 2 + n) == (na + nb, ub)
        }),
    decreases n,
{
    if n == 0 {
        lemma_estalos_prefixo(ultima, a, b, (a.len() / 2) as int);
    } else {
        lemma_estalos_costura(ultima, a, b, n - 1);
        let m = a.len() / 2 + n;
        assert((a + b)[2 * (m - 1)] == b[2 * (n - 1)]);
        assert((a + b)[2 * (m - 1) + 1] == b[2 * (n - 1) + 1]);
    }
}

/// The count over the first frames of `a + b` that lie in `a` is the count over `a`.
proof fn lemma_estalos_prefixo(ultima: (i16, i16), a: Seq<i16>, b: Seq<i16>, n: int)
    requires
        0 <= n <= a.len() / 2,
    ensures
        estalos_spec(ultima, a + b, n) == estalos_spec(ultima, a, n),
    decreases n,
{
    if n > 0 {
        lemma_estalos_prefixo(ultima, a, b, n - 1);
        assert((a + b)[2 * (n - 1)] == a[2 * (n - 1)]);
        assert((a + b)[2 * (n - 1) + 1] == a[2 * (n - 1) + 1]);
    }
}


/// The counters of a report window (the wall clock where it started is the caller's).
#[derive(Debug, Clone, Copy, PartialEq, Eq)]
pub struct Janela {
    pub quadros: u32,
    pub virtual_ms: u64,
    pub devidas: u64,
    pub oferecidas: u64,
    pub aceitas: u64,
    pub descartadas: u64,
    pub estalos: u64,
    pub secando: u32,
    /// Lowest buffer occupancy reported in the window, `SEM_OCUPACAO` while none was.
    pub ocupacao_min: u32,
    pub ocupacao_soma: u64,
    pub ocupacao_n: u32,
}

/// What one `retro_run` adds to the window.
#[derive(Debug, Clone, Copy, PartialEq, Eq)]
pub struct Quadro {
    /// Virtual time that passed.
    pub virtual_ms: u64,
    /// Stereo frames the virtual clock asked for.
    pub devidas: u64,
    /// Stereo frames offered to the frontend.
    pub oferecidas: u64,
    /// Stereo frames it accepted.
    pub aceitas: u64,
    pub descartadas: u64,
    pub estalos: u64,
    /// The frontend's last notice said its buffer was about to run dry.
    pub secando: bool,
    /// The buffer occupancy in percent of its last notice, `SEM_OCUPACAO` without one.
    pub ocupacao: u32,
}

impl Janela {
    /// The empty window: nothing counted, no occupancy reported.
    pub open spec fn vazia() -> Janela {
        Janela {
            quadros: 0,
            virtual_ms: 0,
            devidas: 0,
            oferecidas: 0,
            aceitas: 0,
            descartadas: 0,
            estalos: 0,
            secando: 0,
            ocupacao_min: SEM_OCUPACAO,
            ocupacao_soma: 0,
            ocupacao_n: 0,
        }
    }

    /// An empty window.
    pub fn nova() -> (r: Janela)
        ensures
            r == Janela::vazia(),
    {
        Janela {
            quadros: 0,
            virtual_ms: 0,
            devidas: 0,
            oferecidas: 0,
            aceitas: 0,
            descartadas: 0,
            estalos: 0,
            secando: 0,
            ocupacao_min: SEM_OCUPACAO,
            ocupacao_soma: 0,
            ocupacao_n: 0,
        }
    }

    /// The window after one more frame: every counter summed, the occupancy counted only when
    /// the frontend reported one.
    pub open spec fn com(self, q: Quadro) -> Janela {
        let conta = q.ocupacao != SEM_OCUPACAO;
        Janela {
            quadros: (self.quadros + 1) as u32,
            virtual_ms: (self.virtual_ms + q.virtual_ms) as u64,
            devidas: (self.devidas + q.devidas) as u64,
            oferecidas: (self.oferecidas + q.oferecidas) as u64,
            aceitas: (self.aceitas + q.aceitas) as u64,
            descartadas: (self.descartadas + q.descartadas) as u64,
            estalos: (self.estalos + q.estalos) as u64,
            secando: (self.secando + if q.secando { 1int } else { 0int }) as u32,
            ocupacao_min: if conta && q.ocupacao < self.ocupacao_min {
                q.ocupacao
            } else {
                self.ocupacao_min
            },
            ocupacao_soma: if conta {
                (self.ocupacao_soma + q.ocupacao) as u64
            } else {
                self.ocupacao_soma
            },
            ocupacao_n: if conta {
                (self.ocupacao_n + 1) as u32
            } else {
                self.ocupacao_n
            },
        }
    }

    /// No counter overflows when the frame is added.
    pub open spec fn cabe(self, q: Quadro) -> bool {
        &&& self.quadros < u32::MAX
        &&& self.virtual_ms + q.virtual_ms <= u64::MAX
        &&& self.devidas + q.devidas <= u64::MAX
        &&& self.oferecidas + q.oferecidas <= u64::MAX
        &&& self.aceitas + q.aceitas <= u64::MAX
        &&& self.descartadas + q.descartadas <= u64::MAX
        &&& self.estalos + q.estalos <= u64::MAX
        &&& self.secando < u32::MAX
        &&& (q.ocupacao != SEM_OCUPACAO ==> self.ocupacao_soma + q.ocupacao <= u64::MAX && self.ocupacao_n < u32::MAX)
    }

    /// Whether the frame can be added without any counter overflowing.
    pub fn cabe_quadro(&self, q: &Quadro) -> (r: bool)
        ensures
            r == self.cabe(*q),
    {
        self.quadros < u32::MAX
            && self.virtual_ms <= u64::MAX - q.virtual_ms
            && self.devidas <= u64::MAX - q.devidas
            && self.oferecidas <= u64::MAX - q.oferecidas
            && self.aceitas <= u64::MAX - q.aceitas
            && self.descartadas <= u64::MAX - q.descartadas
            && self.estalos <= u64::MAX - q.estalos
            && self.secando < u32::MAX
            && (q.ocupacao == SEM_OCUPACAO || (self.ocupacao_soma <= u64::MAX - q.ocupacao as u64 && self.ocupacao_n < u32::MAX))
    }

    /// One frame through the window: the window with the frame added; when that completes it,
    /// a new window and the completed one, whose report is due.
    pub open spec fn depois(self, q: Quadro) -> (Janela, Option<Janela>) {
        let j = self.com(q);
        if j.quadros >= QUADROS_POR_JANELA {
            (Janela::vazia(), Some(j))
        } else {
            (j, None)
        }
    }

    /// Adds a frame; when the window is complete, gives it back for its report and starts a
    /// new one.
    pub fn registra(&mut self, q: Quadro) -> (r: Option<Janela>)
        requires
            old(self).cabe(q),
        ensures
            (*final(self), r) == old(self).depois(q),
    {
        if self.acumula(q) {
            let completa = *self;
            *self = Janela::nova();
            Some(completa)
        } else {
            None
        }
    }

    /// Adds a frame; says whether the window is complete and its report is due.
    pub fn acumula(&mut self, q: Quadro) -> (completa: bool)
        requires
            old(self).cabe(q),
        ensures
            *final(self) == old(self).com(q),
            completa == (final(self).quadros >= QUADROS_POR_JANELA),
    {
        self.quadros = self.quadros + 1;
        self.virtual_ms = self.virtual_ms + q.virtual_ms;
        self.devidas = self.devidas + q.devidas;
        self.oferecidas = self.oferecidas + q.oferecidas;
        self.aceitas = self.aceitas + q.aceitas;
        self.descartadas = self.descartadas + q.descartadas;
        self.estalos = self.estalos + q.estalos;
        if q.secando {
            self.secando = self.secando + 1;
        }
        if q.ocupacao != SEM_OCUPACAO {
            if q.ocupacao < self.ocupacao_min {
                self.ocupacao_min = q.ocupacao;
            }
            self.ocupacao_soma = self.ocupacao_soma + q.ocupacao as u64;
            self.ocupacao_n = self.ocupacao_n + 1;
        }
        self.quadros >= QUADROS_POR_JANELA
    }
}

/// The totals since the start, for the final report.
#[derive(Debug, Clone, Copy, PartialEq, Eq)]
pub struct Totais {
    pub aceitas: u64,
    pub devidas: u64,
    pub estalos: u64,
}

impl Totais {
    /// Nothing counted yet.
    pub fn novos() -> (r: Totais)
        ensures
            r == (Totais { aceitas: 0, devidas: 0, estalos: 0 }),
    {
        Totais { aceitas: 0, devidas: 0, estalos: 0 }
    }

    /// Adds a frame's accepted and owed stereo frames and its clicks.
    pub fn soma(&mut self, aceitas: u64, devidas: u64, estalos: u64)
        requires
            old(self).aceitas + aceitas <= u64::MAX,
            old(self).devidas + devidas <= u64::MAX,
            old(self).estalos + estalos <= u64::MAX,
        ensures
            final(self).aceitas == old(self).aceitas + aceitas,
            final(self).devidas == old(self).devidas + devidas,
            final(self).estalos == old(self).estalos + estalos,
    {
        self.aceitas = self.aceitas + aceitas;
        self.devidas = self.devidas + devidas;
        self.estalos = self.estalos + estalos;
    }
}

/// The window after the first `n` frames of `qs`, from a new one.
pub open spec fn janela_apos(qs: Seq<Quadro>, n: int) -> Janela
    decreases n,
{
    if n <= 0 {
        Janela::vazia()
    } else {
        janela_apos(qs, n - 1).depois(qs[n - 1]).0
    }
}

/// Whether the `n`-th frame of `qs` (counting from 1) completed a window.
pub open spec fn relatorio_no_quadro(qs: Seq<Quadro>, n: int) -> bool {
    janela_apos(qs, n - 1).depois(qs[n - 1]).1 is Some
}

/// One report every `QUADROS_POR_JANELA` frames: frame after frame through `Janela::registra`
/// from a new window, the `n`-th frame completes a window exactly when `n` is a multiple of
/// `QUADROS_POR_JANELA`, and the open window has counted the frames since the last report.
pub proof fn lemma_um_relatorio_a_cada_janela(qs: Seq<Quadro>, n: int)
    requires
        0 <= n <= qs.len(),
    ensures
        janela_apos(qs, n).quadros == n % (QUADROS_POR_JANELA as int),
        n >= 1 ==> (relatorio_no_quadro(qs, n) <==> n % (QUADROS_POR_JANELA as int) == 0),
    decreases n,
{
    if n > 0 {
        lemma_um_relatorio_a_cada_janela(qs, n - 1);
        let q = QUADROS_POR_JANELA as int;
        vstd::arithmetic::div_mod::lemma_fundamental_div_mod(n - 1, q);
        vstd::arithmetic::div_mod::lemma_fundamental_div_mod(n, q);
        let a = (n - 1) / q;
        let b = n / q;
        if (n - 1) % q == q - 1 {
            assert(n == (a + 1) * q);
            vstd::arithmetic::div_mod::lemma_mod_multiples_basic(a + 1, q);
        } else {
            assert(n == a * q + (n - 1) % q + 1);
            vstd::arithmetic::div_mod::lemma_mod_multiples_vanish(a, (n - 1) % q + 1, q);
            vstd::arithmetic::div_mod::lemma_small_mod(((n - 1) % q + 1) as nat, q as nat);
        }
    }
}

/// A window is complete after exactly `QUADROS_POR_JANELA` frames: counting from a new
/// window, the first 119 frames leave it open and the 120th closes it.
pub proof fn lemma_janela_fecha_no_quadro_120(j: Janela, q: Quadro)
    requires
        j.quadros < QUADROS_POR_JANELA,
    ensures
        (j.com(q).quadros >= QUADROS_POR_JANELA) <==> j.quadros == QUADROS_POR_JANELA - 1,
{
}

} // verus!

verus! {

/// The window after the frames `qs`, one after the other, from an empty one.
pub open spec fn acumulada(qs: Seq<Quadro>) -> Janela
    decreases qs.len(),
{
    if qs.len() == 0 {
        Janela::vazia()
    } else {
        acumulada(qs.drop_last()).com(qs.last())
    }
}

/// The sum of `f` over the frames `qs`.
pub open spec fn soma_de(qs: Seq<Quadro>, f: spec_fn(Quadro) -> int) -> int
    decreases qs.len(),
{
    if qs.len() == 0 {
        0
    } else {
        soma_de(qs.drop_last(), f) + f(qs.last())
    }
}

/// A window sums its frames: after the frames `qs` (none of which made a counter overflow),
/// it has counted them all; its time, owed, offered, accepted and dropped frames and clicks
/// are the sums over the frames; it counted the frames whose frontend buffer was running dry
/// and those with an occupancy report, and summed those occupancies; and its lowest occupancy
/// is the lowest reported one (at most every reported occupancy, and one of them), or
/// `SEM_OCUPACAO` when none was reported.
pub proof fn lemma_janela_soma_os_quadros(qs: Seq<Quadro>)
    requires
        forall|n: int| 0 <= n < qs.len() ==> #[trigger] acumulada(qs.take(n)).cabe(qs[n]),
    ensures
        ({
            let j = acumulada(qs);
            &&& j.quadros == qs.len()
            &&& j.virtual_ms == soma_de(qs, |q: Quadro| q.virtual_ms as int)
            &&& j.devidas == soma_de(qs, |q: Quadro| q.devidas as int)
            &&& j.oferecidas == soma_de(qs, |q: Quadro| q.oferecidas as int)
            &&& j.aceitas == soma_de(qs, |q: Quadro| q.aceitas as int)
            &&& j.descartadas == soma_de(qs, |q: Quadro| q.descartadas as int)
            &&& j.estalos == soma_de(qs, |q: Quadro| q.estalos as int)
            &&& j.secando == soma_de(qs, |q: Quadro| if q.secando { 1int } else { 0int })
            &&& j.ocupacao_n == soma_de(qs, |q: Quadro| if q.ocupacao != SEM_OCUPACAO { 1int } else { 0int })
            &&& j.ocupacao_soma == soma_de(qs, |q: Quadro| if q.ocupacao != SEM_OCUPACAO { q.ocupacao as int } else { 0int })
            &&& forall|k: int| 0 <= k < qs.len() && (#[trigger] qs[k]).ocupacao != SEM_OCUPACAO ==> j.ocupacao_min <= qs[k].ocupacao
            &&& (j.ocupacao_min == SEM_OCUPACAO || exists|k: int| 0 <= k < qs.len() && (#[trigger] qs[k]).ocupacao == j.ocupacao_min)
        }),
    decreases qs.len(),
{
    if qs.len() > 0 {
        let p = qs.drop_last();
        assert forall|n: int| 0 <= n < p.len() implies #[trigger] acumulada(p.take(n)).cabe(p[n]) by {
            assert(p.take(n) =~= qs.take(n));
            assert(acumulada(qs.take(n)).cabe(qs[n]));
        }
        lemma_janela_soma_os_quadros(p);
        let n = p.len() as int;
        assert(qs.take(n) =~= p);
        assert(acumulada(qs.take(n)).cabe(qs[n]));
        let a = acumulada(p);
        let q = qs.last();
        let j = acumulada(qs);
        assert(j == a.com(q));
        assert forall|k: int| 0 <= k < qs.len() && (#[trigger] qs[k]).ocupacao != SEM_OCUPACAO implies j.ocupacao_min <= qs[k].ocupacao by {
            if k < n {
                assert(qs[k] == p[k]);
            }
        }
        if j.ocupacao_min != SEM_OCUPACAO {
            if j.ocupacao_min == a.ocupacao_min {
                let k = choose|k: int| 0 <= k < p.len() && (#[trigger] p[k]).ocupacao == a.ocupacao_min;
                assert(qs[k] == p[k]);
            } else {
                assert(qs[n].ocupacao == j.ocupacao_min);
            }
        }
    }
}

} // verus!

verus! {

/// Sample `k` of channel `c` (0 left, 1 right) in the stream that continues the previous
/// batch: sample 0 is the previous batch's last frame, sample `k` the `k`-th frame of `amostras`.
pub open spec fn amostra_do_canal(ultima: (i16, i16), amostras: Seq<i16>, c: int, k: int) -> i16 {
    if k == 0 {
        if c == 0 { ultima.0 } else { ultima.1 }
    } else {
        amostras[2 * (k - 1) + c]
    }
}

/// The clicks on channel `c` among its first `n` frames: the neighbouring samples whose
/// distance exceeds a quarter of the full scale of a 16-bit sample.
pub open spec fn cliques_do_canal(ultima: (i16, i16), amostras: Seq<i16>, c: int, n: int) -> int
    decreases n,
{
    if n <= 0 {
        0
    } else {
        let a = amostra_do_canal(ultima, amostras, c, n) as int;
        let b = amostra_do_canal(ultima, amostras, c, n - 1) as int;
        cliques_do_canal(ultima, amostras, c, n - 1) + if a - b > 0x7fffint / 4 || b - a > 0x7fffint / 4 {
            1int
        } else {
            0int
        }
    }
}

/// The clicks counted over a batch are those of the left channel plus those of the right one,
/// each channel taken on its own as a stream of samples that continues the previous batch; the
/// frame kept for the next batch is the batch's last.
pub proof fn lemma_estalos_por_canal(ultima: (i16, i16), amostras: Seq<i16>, n: int)
    requires
        0 <= n,
        2 * n <= amostras.len(),
    ensures
        estalos_spec(ultima, amostras, n).0 == cliques_do_canal(ultima, amostras, 0, n) + cliques_do_canal(ultima, amostras, 1, n),
        estalos_spec(ultima, amostras, n).1 == (amostra_do_canal(ultima, amostras, 0, n), amostra_do_canal(ultima, amostras, 1, n)),
    decreases n,
{
    if n > 0 {
        lemma_estalos_por_canal(ultima, amostras, n - 1);
    }
}

} // verus!
