//! The guest memory as the recompiler sees it: the region map, lookups, reads and writes
//! with their errors, the writable pages a page table may point at, and whether the regions
//! can live in a 4 GiB arena with per-page protection (fastmem).

use vstd::prelude::*;

verus! {

/// The guest page, which must also be the host's for the protection to work per page.
pub const PAGINA: usize = 4096;

/// Valid bytes past the end of each region in the host copy: a four-byte read at the last
/// bytes of a page that ends a region crosses the edge through the page table.
pub const FOLGA: usize = 16;

/// A region of the guest map as the loader builds it.
pub struct RegiaoGuest {
    pub name: &'static str,
    pub base: u32,
    pub bytes: Vec<u8>,
    pub writable: bool,
    pub executavel: bool,
}

/// The guest map the loader builds.
pub struct GuestMemory {
    pub regions: Vec<RegiaoGuest>,
}

impl GuestMemory {
    /// The regions of the map.
    pub fn regions(&self) -> (r: &[RegiaoGuest])
        ensures
            r@ == self.regions@,
    {
        self.regions.as_slice()
    }
}

/// Why a guest access failed.
#[derive(Debug, Clone, Copy, PartialEq, Eq)]
pub enum MemError {
    /// No region holds the whole access.
    Unmapped { addr: u32, len: u32 },
    /// The region that holds the access cannot be written.
    ReadOnly { addr: u32, region: &'static str },
}

/// A region of the guest map and its attributes.
#[derive(Debug, Clone, Copy)]
pub struct Regiao {
    pub name: &'static str,
    pub base: u32,
    pub len: usize,
    pub writable: bool,
    pub executavel: bool,
}

impl Regiao {
    /// The region holds the `len` bytes that start at `addr`.
    pub open spec fn contem_spec(&self, addr: u32, len: u32) -> bool {
        addr >= self.base && addr + len <= self.base + self.len
    }

    /// Whether the region holds the `len` bytes that start at `addr`.
    pub fn contem(&self, addr: u32, len: u32) -> (r: bool)
        requires
            self.len <= isize::MAX,
        ensures
            r == self.contem_spec(addr, len),
    {
        let a = addr as u64;
        let b = self.base as u64;
        a >= b && a + len as u64 <= b + self.len as u64
    }
}

/// The guest address `b` lies in the region.
pub open spec fn byte_na_regiao(g: Regiao, b: int) -> bool {
    g.base <= b && b < g.base + g.len
}

/// A region holds an access of at least one byte exactly when it holds each of its bytes.
pub proof fn lemma_contem_cada_byte(g: Regiao, addr: u32, len: u32)
    requires
        len > 0,
    ensures
        g.contem_spec(addr, len) <==> forall|b: int| addr <= b < addr + len ==> #[trigger] byte_na_regiao(g, b),
{
    if forall|b: int| addr <= b < addr + len ==> #[trigger] byte_na_regiao(g, b) {
        assert(byte_na_regiao(g, addr as int));
        assert(byte_na_regiao(g, addr + len - 1));
    }
}

/// The first region of `rs` that holds the access, if any: `Some(i)` when `rs[i]` holds it
/// and no earlier region does.
pub open spec fn primeira_regiao(rs: Seq<Regiao>, addr: u32, len: u32, i: int) -> bool {
    &&& 0 <= i < rs.len()
    &&& rs[i].contem_spec(addr, len)
    &&& forall|j: int| 0 <= j < i ==> !(#[trigger] rs[j]).contem_spec(addr, len)
}

/// No region of `rs` holds the access.
pub open spec fn nenhuma_regiao(rs: Seq<Regiao>, addr: u32, len: u32) -> bool {
    forall|j: int| 0 <= j < rs.len() ==> !(#[trigger] rs[j]).contem_spec(addr, len)
}

/// The index of the first region that holds the access.
pub fn indice_da_regiao(rs: &[Regiao], addr: u32, len: u32) -> (r: Option<usize>)
    requires
        forall|j: int| 0 <= j < rs@.len() ==> (#[trigger] rs@[j]).len <= isize::MAX,
    ensures
        match r {
            Some(i) => primeira_regiao(rs@, addr, len, i as int),
            None => nenhuma_regiao(rs@, addr, len),
        },
{
    let mut i: usize = 0;
    while i < rs.len()
        invariant
            i <= rs@.len(),
            forall|j: int| 0 <= j < rs@.len() ==> (#[trigger] rs@[j]).len <= isize::MAX,
            forall|j: int| 0 <= j < i ==> !(#[trigger] rs@[j]).contem_spec(addr, len),
        decreases rs@.len() - i,
    {
        if rs[i].contem(addr, len) {
            return Some(i);
        }
        i = i + 1;
    }
    None
}

/// The index of the first region of `rs`, from the `i`-th on, that holds the access.
pub open spec fn indice_spec(rs: Seq<Regiao>, addr: u32, len: u32, i: int) -> Option<int>
    decreases rs.len() - i,
{
    if i < 0 || i >= rs.len() {
        None
    } else if rs[i].contem_spec(addr, len) {
        Some(i)
    } else {
        indice_spec(rs, addr, len, i + 1)
    }
}

/// `indice_spec` finds the first region that holds the access, or says there is none.
pub proof fn lemma_indice_spec(rs: Seq<Regiao>, addr: u32, len: u32, i: int)
    requires
        0 <= i <= rs.len(),
        forall|j: int| 0 <= j < i ==> !(#[trigger] rs[j]).contem_spec(addr, len),
    ensures
        match indice_spec(rs, addr, len, i) {
            Some(k) => primeira_regiao(rs, addr, len, k),
            None => nenhuma_regiao(rs, addr, len),
        },
    decreases rs.len() - i,
{
    if i < rs.len() && !rs[i].contem_spec(addr, len) {
        lemma_indice_spec(rs, addr, len, i + 1);
    }
}

/// Which region and where in it an access of `len` bytes at `addr` goes; a write also needs
/// the region writable.
pub open spec fn acesso_spec(rs: Seq<Regiao>, addr: u32, len: u32, escrita: bool) -> Result<(int, int), MemError> {
    match indice_spec(rs, addr, len, 0) {
        None => Err(MemError::Unmapped { addr, len }),
        Some(i) => if escrita && !rs[i].writable {
            Err(MemError::ReadOnly { addr, region: rs[i].name })
        } else {
            Ok((i, addr - rs[i].base))
        },
    }
}

/// An access that goes through lies whole inside its region, the first that holds it, at the
/// offset of `addr` from the region's base, and a write goes only to a writable region. It
/// fails as unmapped exactly when no region holds it, and as read-only exactly when it is a
/// write and the first region that holds it is not writable, which the error names.
pub proof fn lemma_acesso_cabe(rs: Seq<Regiao>, addr: u32, len: u32, escrita: bool)
    ensures
        match acesso_spec(rs, addr, len, escrita) {
            Ok((i, off)) => {
                &&& 0 <= i < rs.len() && 0 <= off && off + len <= rs[i].len
                &&& rs[i].base + off == addr
                &&& primeira_regiao(rs, addr, len, i)
                &&& escrita ==> rs[i].writable
            },
            Err(MemError::Unmapped { addr: a, len: l }) => a == addr && l == len && nenhuma_regiao(rs, addr, len),
            Err(MemError::ReadOnly { addr: a, region }) => a == addr && escrita && exists|i: int|
                primeira_regiao(rs, addr, len, i) && !rs[i].writable && rs[i].name == region,
        },
        nenhuma_regiao(rs, addr, len) ==> acesso_spec(rs, addr, len, escrita) == Err::<(int, int), MemError>(MemError::Unmapped { addr, len }),
{
    lemma_indice_spec(rs, addr, len, 0);
}

/// The first region that holds an access is the one `indice_spec` finds.
proof fn lemma_primeira_e_indice(rs: Seq<Regiao>, addr: u32, len: u32, i: int)
    requires
        primeira_regiao(rs, addr, len, i),
    ensures
        indice_spec(rs, addr, len, 0) == Some(i),
{
    lemma_indice_spec(rs, addr, len, 0);
    match indice_spec(rs, addr, len, 0) {
        Some(k) => {
            if k < i {
                assert(!rs[k].contem_spec(addr, len));
            } else if k > i {
                assert(!rs[i].contem_spec(addr, len));
            }
        },
        None => {
            assert(!rs[i].contem_spec(addr, len));
        },
    }
}

/// With no region holding the access, `indice_spec` finds none.
proof fn lemma_nenhuma_e_indice(rs: Seq<Regiao>, addr: u32, len: u32)
    requires
        nenhuma_regiao(rs, addr, len),
    ensures
        indice_spec(rs, addr, len, 0) is None,
{
    lemma_indice_spec(rs, addr, len, 0);
    if let Some(k) = indice_spec(rs, addr, len, 0) {
        assert(rs[k].contem_spec(addr, len));
    }
}

/// Decides an access: the region (its index) and the offset in it, or why it fails.
pub fn acesso(rs: &[Regiao], addr: u32, len: u32, escrita: bool) -> (r: Result<(usize, usize), MemError>)
    requires
        forall|j: int| 0 <= j < rs@.len() ==> (#[trigger] rs@[j]).len <= isize::MAX,
    ensures
        match r {
            Ok((i, off)) => acesso_spec(rs@, addr, len, escrita) == Ok::<(int, int), MemError>((i as int, off as int))
                && i < rs@.len() && off + len <= rs@[i as int].len,
            Err(e) => acesso_spec(rs@, addr, len, escrita) == Err::<(int, int), MemError>(e),
        },
{
    match indice_da_regiao(rs, addr, len) {
        None => {
            proof {
                lemma_nenhuma_e_indice(rs@, addr, len);
            }
            Err(MemError::Unmapped { addr, len })
        },
        Some(i) => {
            proof {
                lemma_primeira_e_indice(rs@, addr, len, i as int);
            }
            if escrita && !rs[i].writable {
                Err(MemError::ReadOnly { addr, region: rs[i].name })
            } else {
                Ok((i, (addr - rs[i].base) as usize))
            }
        },
    }
}


/// The guest memory on the heap: the region map and, for each region, its bytes followed by
/// `FOLGA` zero bytes.
pub struct MemoriaJit {
    regioes: Vec<Regiao>,
    vetores: Vec<Vec<u8>>,
}

impl Default for MemoriaJit {
    /// An empty memory, with no region.
    fn default() -> (r: MemoriaJit)
        ensures
            r.bem_formada(),
            r.mapa().len() == 0,
    {
        MemoriaJit { regioes: Vec::new(), vetores: Vec::new() }
    }
}

/// A host copy after `data` was written at `off`.
pub open spec fn escrito(d: Seq<u8>, off: int, data: Seq<u8>) -> Seq<u8> {
    d.subrange(0, off) + data + d.subrange(off + data.len(), d.len() as int)
}

/// The host copy of a region: its bytes, then the slack.
pub open spec fn copia_com_folga(bytes: Seq<u8>) -> Seq<u8> {
    bytes + Seq::new(FOLGA as nat, |k: int| 0u8)
}

impl MemoriaJit {
    /// Every region has its host copy, `FOLGA` bytes longer than it.
    pub closed spec fn bem_formada(&self) -> bool {
        &&& self.regioes@.len() == self.vetores@.len()
        &&& forall|i: int| 0 <= i < self.regioes@.len() ==> (#[trigger] self.regioes@[i]).len + FOLGA <= isize::MAX
        &&& forall|i: int| 0 <= i < self.regioes@.len() ==> (#[trigger] self.vetores@[i])@.len() == self.regioes@[i].len + FOLGA
    }

    /// The region map.
    pub closed spec fn mapa(&self) -> Seq<Regiao> {
        self.regioes@
    }

    /// The host copy of region `i`.
    pub closed spec fn dados(&self, i: int) -> Seq<u8> {
        self.vetores@[i]@
    }

    /// In a well-formed memory each region has its host copy, `FOLGA` bytes longer than the
    /// region.
    pub proof fn lemma_bem_formada(&self)
        requires
            self.bem_formada(),
        ensures
            forall|i: int| 0 <= i < self.mapa().len() ==> (#[trigger] self.dados(i)).len() == self.mapa()[i].len + FOLGA,
            forall|i: int| 0 <= i < self.mapa().len() ==> (#[trigger] self.mapa()[i]).len + FOLGA <= isize::MAX,
    {
    }

    /// Copies the map built by the loader, each region's bytes on the heap with the slack.
    pub fn em_vetores(mem: &GuestMemory) -> (r: MemoriaJit)
        requires
            forall|i: int| 0 <= i < mem.regions@.len() ==> (#[trigger] mem.regions@[i]).bytes@.len() + FOLGA <= isize::MAX,
        ensures
            r.bem_formada(),
            r.mapa().len() == mem.regions@.len(),
            forall|i: int| 0 <= i < mem.regions@.len() ==> {
                let g = #[trigger] mem.regions@[i];
                &&& r.mapa()[i] == Regiao { name: g.name, base: g.base, len: g.bytes@.len() as usize, writable: g.writable, executavel: g.executavel }
                &&& r.dados(i) == copia_com_folga(g.bytes@)
            },
    {
        let regions = mem.regions();
        let mut vetores: Vec<Vec<u8>> = Vec::new();
        let mut regioes: Vec<Regiao> = Vec::new();
        let mut k: usize = 0;
        while k < regions.len()
            invariant
                regions@ == mem.regions@,
                k <= regions@.len(),
                regioes@.len() == k,
                vetores@.len() == k,
                forall|i: int| 0 <= i < regions@.len() ==> (#[trigger] regions@[i]).bytes@.len() + FOLGA <= isize::MAX,
                forall|i: int| 0 <= i < k ==> {
                    let g = #[trigger] regions@[i];
                    &&& regioes@[i] == Regiao { name: g.name, base: g.base, len: g.bytes@.len() as usize, writable: g.writable, executavel: g.executavel }
                    &&& vetores@[i]@ == copia_com_folga(g.bytes@)
                },
            decreases regions@.len() - k,
        {
            let r = &regions[k];
            let mut v: Vec<u8> = Vec::new();
            let mut j: usize = 0;
            while j < r.bytes.len()
                invariant
                    j <= r.bytes@.len(),
                    v@ == r.bytes@.subrange(0, j as int),
                decreases r.bytes@.len() - j,
            {
                v.push(r.bytes[j]);
                proof {
                    assert(v@ =~= r.bytes@.subrange(0, j + 1));
                }
                j = j + 1;
            }
            let mut f: usize = 0;
            while f < FOLGA
                invariant
                    f <= FOLGA,
                    v@ == r.bytes@ + Seq::new(f as nat, |q: int| 0u8),
                decreases FOLGA - f,
            {
                v.push(0);
                proof {
                    assert(v@ =~= r.bytes@ + Seq::new((f + 1) as nat, |q: int| 0u8));
                }
                f = f + 1;
            }
            regioes.push(Regiao {
                name: r.name,
                base: r.base,
                len: r.bytes.len(),
                writable: r.writable,
                executavel: r.executavel,
            });
            vetores.push(v);
            k = k + 1;
        }
        proof {
            assert forall|i: int| 0 <= i < regioes@.len() implies (#[trigger] regioes@[i]).len + FOLGA <= isize::MAX
                && vetores@[i]@.len() == regioes@[i].len + FOLGA by {
                assert(regions@[i].bytes@.len() + FOLGA <= isize::MAX);
            }
        }
        MemoriaJit { regioes, vetores }
    }

    /// The host copy of region `i`, to be written in place (by the recompiled code, through
    /// the page table): its length cannot change.
    pub fn bytes_mut(&mut self, i: usize) -> (r: &mut [u8])
        requires
            old(self).bem_formada(),
            i < old(self).mapa().len(),
        ensures
            r@ == old(self).dados(i as int),
            final(self).mapa() == old(self).mapa(),
            final(self).dados(i as int) == final(r)@,
            forall|j: int| 0 <= j < old(self).mapa().len() && j != i ==> #[trigger] final(self).dados(j) == old(self).dados(j),
    {
        self.vetores[i].as_mut_slice()
    }

    /// The region map.
    pub fn regioes(&self) -> (r: &[Regiao])
        ensures
            r@ == self.mapa(),
    {
        self.regioes.as_slice()
    }

    /// The first region that holds the `len` bytes at `addr`.
    pub fn regiao(&self, addr: u32, len: u32) -> (r: Option<&Regiao>)
        requires
            self.bem_formada(),
        ensures
            match r {
                Some(g) => exists|i: int| primeira_regiao(self.mapa(), addr, len, i) && *g == self.mapa()[i],
                None => nenhuma_regiao(self.mapa(), addr, len),
            },
    {
        match indice_da_regiao(self.regioes.as_slice(), addr, len) {
            Some(i) => {
                assert(primeira_regiao(self.mapa(), addr, len, i as int) && self.regioes@[i as int] == self.mapa()[i as int]);
                Some(&self.regioes[i])
            },
            None => None,
        }
    }

    /// Whether the word at `addr` lies in an executable region (the first that holds it).
    pub fn executavel(&self, addr: u32) -> (r: bool)
        requires
            self.bem_formada(),
        ensures
            r == exists|i: int| primeira_regiao(self.mapa(), addr, 4, i) && self.mapa()[i].executavel,
    {
        match self.regiao(addr, 4) {
            Some(g) => g.executavel,
            None => false,
        }
    }

    /// The `len` bytes at `addr`, from the first region that holds them.
    pub fn read(&self, addr: u32, len: u32) -> (r: Result<&[u8], MemError>)
        requires
            self.bem_formada(),
        ensures
            match acesso_spec(self.mapa(), addr, len, false) {
                Ok((i, off)) => r matches Ok(b) && b@ == self.dados(i).subrange(off, off + len) && b@.len() == len,
                Err(e) => r == Err::<&[u8], MemError>(e),
            },
    {
        match acesso(self.regioes.as_slice(), addr, len, false) {
            Err(e) => Err(e),
            Ok((i, off)) => {
                let v = &self.vetores[i];
                Ok(vstd::slice::slice_subrange(v.as_slice(), off, off + len as usize))
            },
        }
    }

    /// Writes `data` at `addr`, in the first region that holds it, if that region is writable;
    /// nothing changes otherwise.
    pub fn write(&mut self, addr: u32, data: &[u8]) -> (r: Result<(), MemError>)
        requires
            old(self).bem_formada(),
            data@.len() <= u32::MAX,
        ensures
            final(self).bem_formada(),
            final(self).mapa() == old(self).mapa(),
            match acesso_spec(old(self).mapa(), addr, data@.len() as u32, true) {
                Ok((i, off)) => {
                    &&& r == Ok::<(), MemError>(())
                    &&& final(self).dados(i) == escrito(old(self).dados(i), off, data@)
                    &&& forall|j: int| 0 <= j < old(self).mapa().len() && j != i ==> #[trigger] final(self).dados(j) == old(self).dados(j)
                },
                Err(e) => r == Err::<(), MemError>(e) && forall|j: int| 0 <= j < old(self).mapa().len() ==> #[trigger] final(self).dados(j) == old(self).dados(j),
            },
    {
        let len = data.len() as u32;
        match acesso(self.regioes.as_slice(), addr, len, true) {
            Err(e) => Err(e),
            Ok((i, off)) => {
                let ghost antes = self.vetores@;
                copia_em(&mut self.vetores[i], off, data);
                proof {
                    assert forall|j: int| 0 <= j < antes.len() && j != i implies #[trigger] self.vetores@[j] == antes[j] by {}
                }
                Ok(())
            },
        }
    }
}

/// The first region of `rs`, from the `i`-th on, that is writable and holds the whole page
/// `pagina`, and where the page starts in it.
pub open spec fn pagina_spec(rs: Seq<Regiao>, pagina: u32, i: int) -> Option<(int, int)>
    decreases rs.len() - i,
{
    let inicio = pagina * PAGINA;
    let fim = inicio + PAGINA;
    if i < 0 || i >= rs.len() {
        None
    } else if rs[i].writable && inicio >= rs[i].base && fim <= rs[i].base + rs[i].len {
        Some((i, inicio - rs[i].base))
    } else {
        pagina_spec(rs, pagina, i + 1)
    }
}

/// The first writable region of `rs` that holds the whole `pagina`, and where the page starts
/// in it: what a page table may point at. `None` for any other page.
pub fn pagina_em(rs: &[Regiao], pagina: u32) -> (r: Option<(usize, usize)>)
    requires
        forall|j: int| 0 <= j < rs@.len() ==> (#[trigger] rs@[j]).len <= isize::MAX,
    ensures
        match pagina_spec(rs@, pagina, 0) {
            Some((i, off)) => r == Some((i as usize, off as usize)) && off + PAGINA <= rs@[i].len,
            None => r is None,
        },
{
    let inicio: u64 = pagina as u64 * 4096u64;
    assert(inicio <= 0xffff_ffffu64 * 4096u64);
    let fim: u64 = inicio + PAGINA as u64;
    let mut i: usize = 0;
    while i < rs.len()
        invariant
            forall|j: int| 0 <= j < rs@.len() ==> (#[trigger] rs@[j]).len <= isize::MAX,
            i <= rs@.len(),
            inicio == pagina * PAGINA,
            fim == inicio + PAGINA,
            pagina_spec(rs@, pagina, 0) == pagina_spec(rs@, pagina, i as int),
        decreases rs@.len() - i,
    {
        let r = &rs[i];
        if r.writable && inicio >= r.base as u64 && fim <= r.base as u64 + r.len as u64 {
            return Some((i, (inicio - r.base as u64) as usize));
        }
        i = i + 1;
    }
    None
}

/// A page table points only at guest memory that may be written: the page `pagina_spec`
/// gives lies whole in a writable region, at the offset where that page starts in it, and no
/// earlier region is writable and holds it; with no page given, no writable region holds the
/// whole page.
pub proof fn lemma_pagina_so_gravavel(rs: Seq<Regiao>, pagina: u32)
    ensures
        match pagina_spec(rs, pagina, 0) {
            Some((i, off)) => {
                &&& 0 <= i < rs.len()
                &&& rs[i].writable
                &&& rs[i].base + off == pagina * PAGINA
                &&& 0 <= off && off + PAGINA <= rs[i].len
                &&& forall|j: int| 0 <= j < i ==> !((#[trigger] rs[j]).writable && rs[j].base <= pagina * PAGINA
                    && pagina * PAGINA + PAGINA <= rs[j].base + rs[j].len)
            },
            None => forall|j: int| 0 <= j < rs.len() ==> !((#[trigger] rs[j]).writable && rs[j].base <= pagina * PAGINA
                && pagina * PAGINA + PAGINA <= rs[j].base + rs[j].len),
        },
{
    lemma_pagina_spec_de(rs, pagina, 0);
}

/// `pagina_spec` from the `i`-th region on, as `lemma_pagina_so_gravavel` states it.
proof fn lemma_pagina_spec_de(rs: Seq<Regiao>, pagina: u32, i: int)
    requires
        0 <= i,
    ensures
        match pagina_spec(rs, pagina, i) {
            Some((k, off)) => {
                &&& i <= k < rs.len()
                &&& rs[k].writable
                &&& rs[k].base + off == pagina * PAGINA
                &&& 0 <= off && off + PAGINA <= rs[k].len
                &&& forall|j: int| i <= j < k ==> !((#[trigger] rs[j]).writable && rs[j].base <= pagina * PAGINA
                    && pagina * PAGINA + PAGINA <= rs[j].base + rs[j].len)
            },
            None => forall|j: int| i <= j < rs.len() ==> !((#[trigger] rs[j]).writable && rs[j].base <= pagina * PAGINA
                && pagina * PAGINA + PAGINA <= rs[j].base + rs[j].len),
        },
    decreases rs.len() - i,
{
    if i < rs.len() {
        lemma_pagina_spec_de(rs, pagina, i + 1);
    }
}

impl MemoriaJit {
    /// The first writable region that holds the whole `pagina`, and where the page starts in
    /// its host copy: what a page table may point at. `None` for any other page.
    pub fn pagina_gravavel(&self, pagina: u32) -> (r: Option<(usize, usize)>)
        requires
            self.bem_formada(),
        ensures
            match pagina_spec(self.mapa(), pagina, 0) {
                Some((i, off)) => r == Some((i as usize, off as usize)) && off + PAGINA <= self.mapa()[i].len,
                None => r is None,
            },
    {
        pagina_em(self.regioes.as_slice(), pagina)
    }
}

/// The pages a region takes: from the one its base is in to the one its last byte is in.
pub open spec fn faixa(g: RegiaoGuest) -> (int, int) {
    ((g.base as int) / (PAGINA as int), (g.base + g.bytes@.len() + PAGINA - 1) / (PAGINA as int))
}

/// `a` comes before or with `b` when the ranges are sorted by first page, then by last.
pub open spec fn antes_de(a: (int, int), b: (int, int)) -> bool {
    a.0 < b.0 || (a.0 == b.0 && a.1 <= b.1)
}

/// The regions can live in the arena with per-page protection: every base is page-aligned,
/// and, with the page ranges sorted, each starts at or after the end of the one before it
/// (two regions in the same page could not have different protections).
pub open spec fn cabe_na_arena_spec(rs: Seq<RegiaoGuest>) -> bool {
    &&& forall|i: int| 0 <= i < rs.len() ==> (#[trigger] rs[i]).base % (PAGINA as u32) == 0
    &&& forall|i: int, j: int|
        0 <= i < rs.len() && 0 <= j < rs.len() && i != j && antes_de(faixa(#[trigger] rs[i]), faixa(#[trigger] rs[j]))
            ==> faixa(rs[j]).0 >= faixa(rs[i]).1
}

/// The regions fit the arena exactly when every base is page-aligned and no two regions have a
/// page in common: the page ranges of any two are one after the other (an empty range counts
/// as the point where it would start).
pub proof fn lemma_cabe_na_arena_sem_pagina_comum(rs: Seq<RegiaoGuest>)
    ensures
        cabe_na_arena_spec(rs) <==> {
            &&& forall|i: int| 0 <= i < rs.len() ==> (#[trigger] rs[i]).base % (PAGINA as u32) == 0
            &&& forall|i: int, j: int| 0 <= i < rs.len() && 0 <= j < rs.len() && i != j
                ==> faixa(#[trigger] rs[i]).1 <= faixa(#[trigger] rs[j]).0 || faixa(rs[j]).1 <= faixa(rs[i]).0
        },
{
    assert forall|i: int| 0 <= i < rs.len() implies #[trigger] faixa(rs[i]).0 <= faixa(rs[i]).1 by {
        let g = rs[i];
        vstd::arithmetic::div_mod::lemma_div_is_ordered(g.base as int, g.base + g.bytes@.len() + PAGINA - 1, PAGINA as int);
    }
    if cabe_na_arena_spec(rs) {
        assert forall|i: int, j: int| 0 <= i < rs.len() && 0 <= j < rs.len() && i != j
            implies faixa(#[trigger] rs[i]).1 <= faixa(#[trigger] rs[j]).0 || faixa(rs[j]).1 <= faixa(rs[i]).0 by {
            if !antes_de(faixa(rs[i]), faixa(rs[j])) {
                assert(antes_de(faixa(rs[j]), faixa(rs[i])));
            }
        }
    }
    if forall|i: int, j: int| 0 <= i < rs.len() && 0 <= j < rs.len() && i != j
        ==> faixa(#[trigger] rs[i]).1 <= faixa(#[trigger] rs[j]).0 || faixa(rs[j]).1 <= faixa(rs[i]).0 {
        assert forall|i: int, j: int|
            0 <= i < rs.len() && 0 <= j < rs.len() && i != j && antes_de(faixa(#[trigger] rs[i]), faixa(#[trigger] rs[j]))
                implies faixa(rs[j]).0 >= faixa(rs[i]).1 by {
            assert(faixa(rs[i]).0 <= faixa(rs[i]).1);
            assert(faixa(rs[j]).0 <= faixa(rs[j]).1);
        }
    }
}

/// The pages of a region, as `u64`.
fn faixa_de(g: &RegiaoGuest) -> (r: (u64, u64))
    requires
        g.bytes@.len() <= isize::MAX,
    ensures
        r.0 == faixa(*g).0,
        r.1 == faixa(*g).1,
{
    let de = g.base as u64 / PAGINA as u64;
    let ate = (g.base as u64 + g.bytes.len() as u64 + (PAGINA as u64 - 1)) / PAGINA as u64;
    (de, ate)
}

/// Whether the regions can live in the arena with per-page protection.
pub fn cabe_na_arena(mem: &GuestMemory) -> (r: bool)
    requires
        forall|i: int| 0 <= i < mem.regions@.len() ==> (#[trigger] mem.regions@[i]).bytes@.len() <= isize::MAX,
    ensures
        r == cabe_na_arena_spec(mem.regions@),
{
    let rs = mem.regions();
    let n = rs.len();
    let mut i: usize = 0;
    while i < n
        invariant
            rs@ == mem.regions@,
            n == rs@.len(),
            i <= n,
            forall|k: int| 0 <= k < i ==> (#[trigger] rs@[k]).base % (PAGINA as u32) == 0,
        decreases n - i,
    {
        if rs[i].base % PAGINA as u32 != 0 {
            return false;
        }
        i = i + 1;
    }
    let mut i: usize = 0;
    while i < n
        invariant
            rs@ == mem.regions@,
            n == rs@.len(),
            i <= n,
            forall|k: int| 0 <= k < n ==> (#[trigger] rs@[k]).base % (PAGINA as u32) == 0,
            forall|k: int| 0 <= k < n ==> (#[trigger] rs@[k]).bytes@.len() <= isize::MAX,
            forall|a: int, b: int|
                0 <= a < i && 0 <= b < n && a != b && antes_de(faixa(#[trigger] rs@[a]), faixa(#[trigger] rs@[b]))
                    ==> faixa(rs@[b]).0 >= faixa(rs@[a]).1,
        decreases n - i,
    {
        let fi = faixa_de(&rs[i]);
        let mut j: usize = 0;
        while j < n
            invariant
                rs@ == mem.regions@,
                n == rs@.len(),
                i < n,
                j <= n,
                fi.0 == faixa(rs@[i as int]).0,
                fi.1 == faixa(rs@[i as int]).1,
                forall|k: int| 0 <= k < n ==> (#[trigger] rs@[k]).bytes@.len() <= isize::MAX,
                forall|b: int| 0 <= b < j && b != i && antes_de(faixa(rs@[i as int]), faixa(#[trigger] rs@[b]))
                    ==> faixa(rs@[b]).0 >= faixa(rs@[i as int]).1,
            decreases n - j,
        {
            let fj = faixa_de(&rs[j]);
            if j != i && (fi.0 < fj.0 || (fi.0 == fj.0 && fi.1 <= fj.1)) && fj.0 < fi.1 {
                proof {
                    assert(!cabe_na_arena_spec(mem.regions@)) by {
                        assert(antes_de(faixa(rs@[i as int]), faixa(rs@[j as int])));
                    }
                }
                return false;
            }
            j = j + 1;
        }
        i = i + 1;
    }
    true
}

/// `n` rounded up to a whole number of pages.
pub fn arredonda_pagina(n: usize) -> (r: usize)
    requires
        n + PAGINA <= usize::MAX,
    ensures
        r % PAGINA == 0,
        n <= r < n + PAGINA,
{
    let r = (n + (PAGINA - 1)) / PAGINA * PAGINA;
    proof {
        let q = (n + (PAGINA - 1)) / (PAGINA as int);
        assert(q * PAGINA <= n + (PAGINA - 1) < q * PAGINA + PAGINA) by (nonlinear_arith)
            requires
                q == (n + (PAGINA - 1)) / (PAGINA as int),
        ;
        assert((q * PAGINA) % (PAGINA as int) == 0) by (nonlinear_arith);
    }
    r
}

/// What an access to a page of the arena may do.
#[derive(Debug, Clone, Copy, PartialEq, Eq)]
pub enum Protecao {
    /// Any access faults.
    Nenhuma,
    /// Reads go through, writes fault.
    Leitura,
    /// Reads and writes go through.
    LeituraEscrita,
}

/// The protection page `p` of a region of `len` bytes is born with in the arena: a page the
/// region does not fill is not the guest's, so any access to it faults; a whole page is
/// read-only unless the region is writable.
pub open spec fn protecao_inicial(len: int, writable: bool, p: int) -> Protecao {
    if (p + 1) * PAGINA > len {
        Protecao::Nenhuma
    } else if !writable {
        Protecao::Leitura
    } else {
        Protecao::LeituraEscrita
    }
}

/// How a region goes into the arena: `bytes` from its base (whole pages) are mapped read and
/// write; then, when `so_leitura`, all of them become read-only; then, when
/// `ultima_sem_acesso`, the last page loses every access.
#[derive(Debug, Clone, Copy, PartialEq, Eq)]
pub struct PlanoArena {
    pub bytes: usize,
    pub so_leitura: bool,
    pub ultima_sem_acesso: bool,
}

impl PlanoArena {
    /// The protection of page `p` once the plan is carried out.
    pub open spec fn protecao(self, p: int) -> Protecao {
        if self.ultima_sem_acesso && (p + 1) * PAGINA == self.bytes {
            Protecao::Nenhuma
        } else if self.so_leitura {
            Protecao::Leitura
        } else {
            Protecao::LeituraEscrita
        }
    }
}

/// The plan for a region of `len` bytes: its pages, rounded up, each left with the protection
/// `protecao_inicial` gives it.
pub fn plano_arena(len: usize, writable: bool) -> (r: PlanoArena)
    requires
        len + PAGINA <= usize::MAX,
    ensures
        r.bytes % PAGINA == 0,
        len <= r.bytes < len + PAGINA,
        forall|p: int| 0 <= p && (p + 1) * PAGINA <= r.bytes ==> #[trigger] r.protecao(p) == protecao_inicial(len as int, writable, p),
{
    let bytes = arredonda_pagina(len);
    let r = PlanoArena { bytes, so_leitura: bytes > 0 && !writable, ultima_sem_acesso: bytes > 0 && len % PAGINA != 0 };
    proof {
        assert forall|p: int| 0 <= p && (p + 1) * PAGINA <= r.bytes implies #[trigger] r.protecao(p) == protecao_inicial(len as int, writable, p) by {
            let q: int = (bytes as int) / (PAGINA as int);
            assert(bytes == q * PAGINA) by {
                vstd::arithmetic::div_mod::lemma_fundamental_div_mod(bytes as int, PAGINA as int);
            }
            assert((p + 1) * PAGINA <= q * PAGINA);
            assert(p + 1 <= q) by (nonlinear_arith)
                requires
                    (p + 1) * PAGINA <= q * PAGINA,
            ;
            if p + 1 < q {
                assert((p + 2) * PAGINA <= q * PAGINA) by (nonlinear_arith)
                    requires
                        p + 2 <= q,
                ;
                assert((p + 1) * PAGINA <= len);
            } else {
                assert(p + 1 == q);
                if len % PAGINA == 0 {
                    assert(len == ((len as int) / (PAGINA as int)) * PAGINA) by {
                        vstd::arithmetic::div_mod::lemma_fundamental_div_mod(len as int, PAGINA as int);
                    }
                    let l: int = (len as int) / (PAGINA as int);
                    assert(l * PAGINA == len);
                    assert(l <= q && q < l + 1) by (nonlinear_arith)
                        requires
                            l * PAGINA <= q * PAGINA,
                            q * PAGINA < l * PAGINA + PAGINA,
                    ;
                } else {
                    assert(len != q * PAGINA) by {
                        vstd::arithmetic::div_mod::lemma_mod_multiples_basic(q, PAGINA as int);
                    }
                }
            }
        }
    }
    r
}

/// A read gives back what a write wrote: when a write of `data` at `addr` succeeds, a read of
/// as many bytes at `addr` goes to the same region and place, and finds `data` there.
pub proof fn lemma_le_o_que_escreveu(m: MemoriaJit, addr: u32, data: Seq<u8>)
    requires
        m.bem_formada(),
        data.len() <= u32::MAX,
    ensures
        match acesso_spec(m.mapa(), addr, data.len() as u32, true) {
            Ok((i, off)) => {
                &&& acesso_spec(m.mapa(), addr, data.len() as u32, false) == Ok::<(int, int), MemError>((i, off))
                &&& escrito(m.dados(i), off, data).subrange(off, off + data.len()) == data
            },
            Err(_) => true,
        },
{
    let len = data.len() as u32;
    lemma_indice_spec(m.mapa(), addr, len, 0);
    match acesso_spec(m.mapa(), addr, len, true) {
        Ok((i, off)) => {
            let d = m.dados(i);
            assert(off + data.len() <= d.len());
            assert(escrito(d, off, data).subrange(off, off + data.len()) =~= data);
        },
        Err(_) => {},
    }
}

/// Copies `data` into `v` from byte `off`.
fn copia_em(v: &mut Vec<u8>, off: usize, data: &[u8])
    requires
        off + data@.len() <= old(v).len(),
    ensures
        final(v)@.len() == old(v)@.len(),
        final(v)@ == old(v)@.subrange(0, off as int) + data@ + old(v)@.subrange(off + data@.len(), old(v)@.len() as int),
{
    let ghost v0 = v@;
    let mut k: usize = 0;
    while k < data.len()
        invariant
            off + data@.len() <= v0.len(),
            off + data@.len() <= v.len(),
            k <= data@.len(),
            v@.len() == v0.len(),
            v@ == v0.subrange(0, off as int) + data@.subrange(0, k as int) + v0.subrange(off + k, v0.len() as int),
        decreases data@.len() - k,
    {
        v.set(off + k, data[k]);
        proof {
            assert(v@ =~= v0.subrange(0, off as int) + data@.subrange(0, k + 1) + v0.subrange(off + k + 1, v0.len() as int));
        }
        k = k + 1;
    }
    proof {
        assert(data@.subrange(0, data@.len() as int) =~= data@);
    }
}

} // verus!
