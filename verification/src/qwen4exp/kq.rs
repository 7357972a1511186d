//! Quantized planes: the launches of a product with one, and where an expert's planes are held.
use crate::text;
use crate::text::push_decimal;
use vstd::prelude::*;
use vstd::string::StringExecFns;

verus! {

/// A quantized plane, by its format.
#[derive(Debug, Clone, Copy, PartialEq, Eq, Structural)]
pub enum QuantW {
    /// one scale per block of 32
    Q8 { bytes: u64 },
    /// super-blocks: `needs_sums` formats carry a minimum that takes the activations' sums, `iq`
    /// formats are read through their window tables
    Kq { bytes: u64, needs_sums: bool, iq: bool },
}

impl QuantW {
    pub open spec fn size(self) -> u64 {
        match self {
            QuantW::Q8 { bytes } => bytes,
            QuantW::Kq { bytes, .. } => bytes,
        }
    }

    /// Device bytes of the plane.
    pub fn bytes(&self) -> (n: u64)
        ensures
            n == self.size(),
    {
        match *self {
            QuantW::Q8 { bytes } => bytes,
            QuantW::Kq { bytes, .. } => bytes,
        }
    }
}

/// Rows per launch of the tiled product.
pub const KQ_TILE_ROWS: usize = 512;

/// Bytes of a quantized tile of 128 activations.
pub const MMQ_TILE_BYTES: usize = 144;

/// What the staging buffers hold, in elements.
#[derive(Debug, Clone, Copy, PartialEq, Eq, Structural)]
pub struct KqStage {
    pub q: usize,
    pub xs: usize,
    pub ssums: usize,
    pub yq: usize,
    pub xsums: usize,
}

/// What the kernel pack offers, and what is set against it.
#[derive(Debug, Clone, Copy, PartialEq, Eq, Structural)]
pub struct KqPack {
    /// the tiled product
    pub tile: bool,
    /// its window-table form
    pub iq_tile: bool,
    /// the matrix-vector product on quantized activations
    pub gemv_w4a8: bool,
    /// keep off the tiled product
    pub no_tile: bool,
    /// keep a single row on exact activations
    pub exact_gemv: bool,
}

/// One launch of a product with a quantized plane.
#[derive(Debug, Clone, Copy, PartialEq, Eq, Structural)]
pub enum KqLaunch {
    Q8Gemv,
    Q8GemmTiled,
    Q8Gemm,
    /// quantize rows `off .. off + rows` into tiles
    QuantizeTiles { off: usize, rows: usize },
    /// sum the tiles' activations
    TileSums { rows: usize },
    /// multiply the tiles into rows `off .. off + rows` of the result
    Tile { off: usize, rows: usize, sums: bool },
    /// quantize one row, with its sums
    QuantizeRow,
    GemvW4A8 { sums: bool },
    GemvExact,
    /// quantize `n` activations
    Quantize { n: usize },
    Sums,
    GemmDp4a { sums: bool },
}

/// The launches of the tiled product from row `off` on.
pub open spec fn tiles(off: int, batch: int, sums: bool) -> Seq<KqLaunch>
    decreases batch - off,
{
    if off >= batch {
        seq![]
    } else {
        let rows = if batch - off <= KQ_TILE_ROWS {
            batch - off
        } else {
            KQ_TILE_ROWS as int
        };
        let head = if sums {
            seq![
                KqLaunch::QuantizeTiles { off: off as usize, rows: rows as usize },
                KqLaunch::TileSums { rows: rows as usize },
                KqLaunch::Tile { off: off as usize, rows: rows as usize, sums },
            ]
        } else {
            seq![
                KqLaunch::QuantizeTiles { off: off as usize, rows: rows as usize },
                KqLaunch::Tile { off: off as usize, rows: rows as usize, sums },
            ]
        };
        head + tiles(off + rows, batch, sums)
    }
}

/// Tiles of 128 activations in one chunk of rows.
pub open spec fn chunk_tiles(in_dim: int) -> int {
    (in_dim + 127) / 128 * KQ_TILE_ROWS
}

/// The staging buffers hold `batch` rows of `in_dim` activations.
pub open spec fn staged(s: KqStage, in_dim: int, batch: int) -> bool {
    let n = batch * in_dim;
    s.q >= n && s.xs >= n / 32 && s.ssums >= n / 16
}

/// The tiled product serves the batch.
pub open spec fn tiled(iq: bool, in_dim: int, batch: int, s: KqStage, p: KqPack) -> bool {
    &&& batch > 64
    &&& in_dim % 256 == 0
    &&& p.tile
    &&& !iq || p.iq_tile
    &&& s.yq >= chunk_tiles(in_dim) * MMQ_TILE_BYTES
    &&& s.xsums >= chunk_tiles(in_dim) * 4
    &&& !p.no_tile
}

/// The launches of `y = W x` over `batch` rows, once the staging buffers are known to hold them.
pub open spec fn kq_route(w: QuantW, in_dim: int, batch: int, s: KqStage, p: KqPack) -> Seq<KqLaunch> {
    match w {
        QuantW::Q8 { .. } => seq![
            if batch == 1 {
                KqLaunch::Q8Gemv
            } else if batch <= 12 {
                KqLaunch::Q8GemmTiled
            } else {
                KqLaunch::Q8Gemm
            },
        ],
        QuantW::Kq { needs_sums, iq, .. } => if tiled(iq, in_dim, batch, s, p) {
            tiles(0, batch, needs_sums && !iq)
        } else if batch == 1 {
            if p.gemv_w4a8 && !p.exact_gemv {
                seq![KqLaunch::QuantizeRow, KqLaunch::GemvW4A8 { sums: needs_sums }]
            } else {
                seq![KqLaunch::GemvExact]
            }
        } else if needs_sums {
            seq![
                KqLaunch::Quantize { n: (batch * in_dim) as usize },
                KqLaunch::Sums,
                KqLaunch::GemmDp4a { sums: true },
            ]
        } else {
            seq![
                KqLaunch::Quantize { n: (batch * in_dim) as usize },
                KqLaunch::GemmDp4a { sums: false },
            ]
        },
    }
}

/// What a product that the staging buffers cannot hold is answered.
pub open spec fn stage_text(s: KqStage, in_dim: int, batch: int) -> Seq<char> {
    "kq_matmul: stage scratch holds "@ + text::decimal(
        (s.q as int / if in_dim >= 1 {
            in_dim
        } else {
            1
        }) as nat,
    ) + " rows of "@ + text::decimal(in_dim as nat) + ", launch wants "@ + text::decimal(
        batch as nat,
    )
}

fn push_tiles(v: &mut Vec<KqLaunch>, batch: usize, sums: bool)
    ensures
        final(v)@ == old(v)@ + tiles(0, batch as int, sums),
{
    let ghost before = v@;
    let mut off: usize = 0;
    assert(v@ + tiles(0, batch as int, sums) =~= before + tiles(0, batch as int, sums));
    while off < batch
        invariant
            off <= batch,
            v@ + tiles(off as int, batch as int, sums) == before + tiles(0, batch as int, sums),
        decreases batch - off,
    {
        let ghost prior = v@;
        let left: usize = batch - off;
        let rows: usize = if left <= KQ_TILE_ROWS {
            left
        } else {
            KQ_TILE_ROWS
        };
        v.push(KqLaunch::QuantizeTiles { off, rows });
        if sums {
            v.push(KqLaunch::TileSums { rows });
        }
        v.push(KqLaunch::Tile { off, rows, sums });
        assert(v@ + tiles(off + rows, batch as int, sums) =~= prior + tiles(
            off as int,
            batch as int,
            sums,
        ));
        off = off + rows;
    }
    assert(v@ =~= v@ + tiles(off as int, batch as int, sums));
}

fn stage_error(s: &KqStage, in_dim: usize, batch: usize) -> (e: String)
    ensures
        e@ == stage_text(*s, in_dim as int, batch as int),
{
    let d: usize = if in_dim >= 1 {
        in_dim
    } else {
        1
    };
    let mut e: String = "kq_matmul: stage scratch holds ".to_owned();
    push_decimal(&mut e, (s.q / d) as u64);
    e.append(" rows of ");
    push_decimal(&mut e, in_dim as u64);
    e.append(", launch wants ");
    push_decimal(&mut e, batch as u64);
    e
}

/// The launches of `y = W x` over `batch` rows, or what stands in the way.
pub fn kq_matmul(w: &QuantW, in_dim: usize, batch: usize, s: &KqStage, p: &KqPack) -> (r: Result<
    Vec<KqLaunch>,
    String,
>)
    requires
        batch * in_dim <= usize::MAX,
        chunk_tiles(in_dim as int) * MMQ_TILE_BYTES <= usize::MAX,
        in_dim + 127 <= usize::MAX,
    ensures
        match r {
            Ok(v) => (w is Kq ==> staged(*s, in_dim as int, batch as int)) && v@ == kq_route(
                *w,
                in_dim as int,
                batch as int,
                *s,
                *p,
            ),
            Err(e) => w is Kq && !staged(*s, in_dim as int, batch as int) && e@ == stage_text(
                *s,
                in_dim as int,
                batch as int,
            ),
        },
{
    let mut v: Vec<KqLaunch> = Vec::new();
    match *w {
        QuantW::Q8 { .. } => {
            if batch == 1 {
                v.push(KqLaunch::Q8Gemv);
            } else if batch <= 12 {
                v.push(KqLaunch::Q8GemmTiled);
            } else {
                v.push(KqLaunch::Q8Gemm);
            }
        },
        QuantW::Kq { needs_sums, iq, .. } => {
            let n: usize = batch * in_dim;
            if s.q < n || s.xs < n / 32 || s.ssums < n / 16 {
                return Err(stage_error(s, in_dim, batch));
            }
            let chunk: usize = (in_dim + 127) / 128 * KQ_TILE_ROWS;
            if batch > 64 && in_dim % 256 == 0 && p.tile && (!iq || p.iq_tile) && s.yq >= chunk
                * MMQ_TILE_BYTES && s.xsums >= chunk * 4 && !p.no_tile {
                push_tiles(&mut v, batch, needs_sums && !iq);
                assert(v@ =~= tiles(0, batch as int, needs_sums && !iq));
                return Ok(v);
            }
            if batch == 1 {
                if p.gemv_w4a8 && !p.exact_gemv {
                    v.push(KqLaunch::QuantizeRow);
                    v.push(KqLaunch::GemvW4A8 { sums: needs_sums });
                } else {
                    v.push(KqLaunch::GemvExact);
                }
            } else {
                v.push(KqLaunch::Quantize { n });
                if needs_sums {
                    v.push(KqLaunch::Sums);
                }
                v.push(KqLaunch::GemmDp4a { sums: needs_sums });
            }
        },
    }
    assert(v@ =~= kq_route(*w, in_dim as int, batch as int, *s, *p));
    Ok(v)
}

/// The rows that a launch of the tiled product stores: from `start`, up to `end`.
pub open spec fn stores(l: KqLaunch, row: int) -> bool {
    l matches KqLaunch::Tile { off, rows, .. } && off <= row < off + rows
}

/// Every row of the result is stored by the tiled product, and by one launch only.
pub proof fn law_tiles_cover_every_row(off: int, batch: int, sums: bool, row: int)
    requires
        0 <= off <= row < batch <= usize::MAX,
    ensures
        exists|i: int|
            0 <= i < tiles(off, batch, sums).len() && stores(#[trigger] tiles(off, batch, sums)[i], row),
        forall|i: int, j: int|
            0 <= i < tiles(off, batch, sums).len() && 0 <= j < tiles(off, batch, sums).len()
                && stores(#[trigger] tiles(off, batch, sums)[i], row) && stores(
                #[trigger] tiles(off, batch, sums)[j],
                row,
            ) ==> i == j,
    decreases batch - off,
{
    let t = tiles(off, batch, sums);
    let rows = if batch - off <= KQ_TILE_ROWS {
        batch - off
    } else {
        KQ_TILE_ROWS as int
    };
    let h: int = if sums {
        3
    } else {
        2
    };
    let rest = tiles(off + rows, batch, sums);
    assert(forall|i: int| h <= i < t.len() ==> #[trigger] t[i] == rest[i - h]);
    if row < off + rows {
        assert(stores(t[h - 1], row));
        lemma_tiles_start(off + rows, batch, sums);
        assert forall|i: int| 0 <= i < t.len() && stores(#[trigger] t[i], row) implies i == h
            - 1 by {
            if i >= h {
                assert(t[i] == rest[i - h]);
            }
        }
    } else {
        law_tiles_cover_every_row(off + rows, batch, sums, row);
        let k = choose|i: int| 0 <= i < rest.len() && stores(#[trigger] rest[i], row);
        assert(t[k + h] == rest[k]);
        assert forall|i: int, j: int|
            0 <= i < t.len() && 0 <= j < t.len() && stores(#[trigger] t[i], row) && stores(
                #[trigger] t[j],
                row,
            ) implies i == j by {
            assert(i >= h && j >= h);
            assert(t[i] == rest[i - h] && t[j] == rest[j - h]);
        }
    }
}

proof fn lemma_tiles_start(off: int, batch: int, sums: bool)
    requires
        0 <= off <= batch <= usize::MAX,
    ensures
        forall|i: int|
            0 <= i < tiles(off, batch, sums).len() ==> ((#[trigger] tiles(
                off,
                batch,
                sums,
            )[i]) matches KqLaunch::Tile { off: o, .. } ==> o >= off),
    decreases batch - off,
{
    if off < batch {
        let rows = if batch - off <= KQ_TILE_ROWS {
            batch - off
        } else {
            KQ_TILE_ROWS as int
        };
        lemma_tiles_start(off + rows, batch, sums);
        let t = tiles(off, batch, sums);
        let h: int = if sums {
            3
        } else {
            2
        };
        assert(forall|i: int| h <= i < t.len() ==> #[trigger] t[i] == tiles(off + rows, batch, sums)[i - h]);
    }
}

/// A repacked quantized plane: bytes of its codes and of its scales, and whether its format carries
/// a minimum that takes the activations' sums.
#[derive(Debug, Clone, Copy, PartialEq, Eq, Structural)]
pub struct RepackedKq {
    pub data: usize,
    pub scales: usize,
    pub needs_sums: bool,
}

/// A repacked plane in device-mapped host memory: the plane as a launch sees it, and the host bytes
/// behind it.
#[derive(Debug, Clone, Copy, PartialEq, Eq, Structural)]
pub struct HostMappedKq {
    pub plane: RepackedKq,
    pub host_bytes: u64,
}

/// The token embedding table: as the checkpoint holds it, or quantized.
#[derive(Debug, Clone, Copy, PartialEq, Eq, Structural)]
pub enum Embed {
    Bf16 { rows: usize, dim: usize },
    Kq(RepackedKq),
}

/// One plane of the routed experts: on the device, or in host memory that it maps.
#[derive(Debug, Clone, Copy, PartialEq, Eq, Structural)]
pub enum KqSeat {
    Dev(RepackedKq),
    Host(HostMappedKq),
}

impl KqSeat {
    /// The plane as a launch sees it.
    pub fn kq(&self) -> (w: &RepackedKq)
        ensures
            *w == (match *self {
                KqSeat::Dev(w) => w,
                KqSeat::Host(h) => h.plane,
            }),
    {
        match self {
            KqSeat::Dev(w) => w,
            KqSeat::Host(h) => &h.plane,
        }
    }

    /// The host side, when there is one.
    pub fn host(&self) -> (h: Option<&HostMappedKq>)
        ensures
            match *self {
                KqSeat::Dev(_) => h is None,
                KqSeat::Host(x) => h == Some(&x),
            },
    {
        match self {
            KqSeat::Dev(_) => None,
            KqSeat::Host(h) => Some(h),
        }
    }

    /// Bytes on the device and on the host.
    pub open spec fn split(self) -> (int, int) {
        match self {
            KqSeat::Dev(w) => (w.data + w.scales, 0),
            KqSeat::Host(h) => (0, h.host_bytes as int),
        }
    }

    /// Bytes that the seat holds on the device and on the host.
    pub fn bytes(&self) -> (b: (u64, u64))
        requires
            self.split().0 <= usize::MAX,
        ensures
            b.0 == self.split().0,
            b.1 == self.split().1,
    {
        match self {
            KqSeat::Dev(w) => ((w.data + w.scales) as u64, 0),
            KqSeat::Host(h) => (0, h.host_bytes),
        }
    }
}

/// Device slots over experts that are held on the host.
#[derive(Debug, Clone, Copy, PartialEq, Eq, Structural)]
pub struct ExpertCache {
    pub slots: usize,
    /// routed rows that its tables hold
    pub max_rows: usize,
    /// passes over the experts that serve more rows than slots
    pub n_waves: usize,
    pub gate: RepackedKq,
    pub up: RepackedKq,
    pub down: RepackedKq,
}

/// The routed experts of one layer, by where they are held.
#[derive(Debug, Clone, Copy, PartialEq, Eq, Structural)]
pub enum ExpertSeats {
    /// the checkpoint's nibbles, unchanged
    Nvf4,
    /// quantized planes, with the device slots that cache host-held experts, when there are any
    Kq { gate: KqSeat, up: KqSeat, down: KqSeat, cache: Option<ExpertCache> },
}

/// Every tile multiplies rows that were quantized right before it, at most five hundred and twelve,
/// with their sums taken in between where the format asks for them.
pub proof fn law_tiles_are_quantized_first(off: int, batch: int, sums: bool, i: int)
    requires
        0 <= off,
        batch <= usize::MAX,
        0 <= i < tiles(off, batch, sums).len(),
    ensures
        tiles(off, batch, sums)[i] matches KqLaunch::Tile { off: o, rows, sums: s } ==> {
            let t = tiles(off, batch, sums);
            &&& s == sums
            &&& 1 <= rows <= 512
            &&& o + rows <= batch
            &&& o + rows < batch ==> rows == 512
            &&& !sums ==> i >= 1 && t[i - 1] == (KqLaunch::QuantizeTiles { off: o, rows })
            &&& sums ==> i >= 2 && t[i - 1] == (KqLaunch::TileSums { rows }) && t[i - 2] == (
            KqLaunch::QuantizeTiles { off: o, rows })
        },
        tiles(off, batch, sums)[i] is Tile || tiles(off, batch, sums)[i] is QuantizeTiles || sums
            && tiles(off, batch, sums)[i] is TileSums,
    decreases batch - off,
{
    if off < batch {
        let rows = if batch - off <= KQ_TILE_ROWS {
            batch - off
        } else {
            KQ_TILE_ROWS as int
        };
        let head: int = if sums {
            3
        } else {
            2
        };
        let t = tiles(off, batch, sums);
        let rest = tiles(off + rows, batch, sums);
        if i >= head {
            law_tiles_are_quantized_first(off + rows, batch, sums, i - head);
            assert(t[i] == rest[i - head]);
            if i - head >= 1 {
                assert(t[i - 1] == rest[i - head - 1]);
            }
            if i - head >= 2 {
                assert(t[i - 2] == rest[i - head - 2]);
            }
        }
    }
}

/// A product of more than sixty-four rows is tiled where the depth is whole super-blocks, the pack
/// has the tiles of its format, nothing is set against them and the staging holds them.
pub proof fn law_wide_products_are_tiled(iq: bool, in_dim: int, batch: int, s: KqStage, p: KqPack)
    requires
        in_dim >= 0,
    ensures
        tiled(iq, in_dim, batch, s, p) ==> batch >= 65 && in_dim % 256 == 0 && p.tile && !p.no_tile && (
        iq ==> p.iq_tile),
        batch <= 64 || in_dim % 256 != 0 || !p.tile || p.no_tile || iq && !p.iq_tile ==> !tiled(
            iq,
            in_dim,
            batch,
            s,
            p,
        ),
        batch > 64 && in_dim % 256 == 0 && p.tile && !p.no_tile && (iq ==> p.iq_tile) ==> (tiled(
            iq,
            in_dim,
            batch,
            s,
            p,
        ) <==> s.yq >= 4 * in_dim * 144 && s.xsums >= 4 * in_dim * 4),
        in_dim % 128 == 0 ==> chunk_tiles(in_dim) == 4 * in_dim,
        128 * chunk_tiles(in_dim) >= 512 * in_dim && 128 * chunk_tiles(in_dim) < 512 * (in_dim + 128),
{
}

/// What a quantized product launches: an 8-bit plane one kernel, by its rows; the others the exact
/// row, the quantized row, or the quantized rows and their product, with their sums exactly where
/// the format takes them.
pub proof fn law_quantized_products_take_sums_where_needed(
    bytes: u64,
    needs_sums: bool,
    iq: bool,
    in_dim: int,
    batch: int,
    s: KqStage,
    p: KqPack,
)
    requires
        1 <= batch,
        0 <= in_dim,
        batch * in_dim <= usize::MAX,
    ensures
        ({
            let r = kq_route(QuantW::Q8 { bytes }, in_dim, batch, s, p);
            &&& r.len() == 1
            &&& r[0] == KqLaunch::Q8Gemv <==> batch == 1
            &&& r[0] == KqLaunch::Q8GemmTiled <==> 2 <= batch <= 12
            &&& r[0] == KqLaunch::Q8Gemm <==> batch >= 13
        }),
        !tiled(iq, in_dim, batch, s, p) ==> {
            let r = kq_route(QuantW::Kq { bytes, needs_sums, iq }, in_dim, batch, s, p);
            &&& batch == 1 && (p.exact_gemv || !p.gemv_w4a8) ==> r.len() == 1 && r[0]
                == KqLaunch::GemvExact
            &&& batch == 1 && !p.exact_gemv && p.gemv_w4a8 ==> r.len() == 2 && r[0]
                == KqLaunch::QuantizeRow && r[1] == (KqLaunch::GemvW4A8 { sums: needs_sums })
            &&& batch > 1 ==> (r[0] matches KqLaunch::Quantize { n } && n == batch * in_dim)
                && r.last() == (KqLaunch::GemmDp4a { sums: needs_sums })
            &&& batch > 1 ==> (needs_sums <==> r.contains(KqLaunch::Sums))
        },
        tiled(iq, in_dim, batch, s, p) ==> kq_route(
            QuantW::Kq { bytes, needs_sums, iq },
            in_dim,
            batch,
            s,
            p,
        ) == tiles(0, batch, needs_sums && !iq),
{
    let r = kq_route(QuantW::Kq { bytes, needs_sums, iq }, in_dim, batch, s, p);
    if !tiled(iq, in_dim, batch, s, p) && batch > 1 && needs_sums {
        assert(r[1] == KqLaunch::Sums);
    }
}

/// The staging holds a product exactly when it holds a byte for every activation, a scale for every
/// thirty-two and a sum for every sixteen.
pub proof fn law_staging_holds_the_activations(s: KqStage, in_dim: int, batch: int)
    requires
        in_dim >= 0,
        batch >= 0,
        (batch * in_dim) % 32 == 0,
    ensures
        staged(s, in_dim, batch) <==> batch * in_dim <= s.q && batch * in_dim <= 32 * s.xs && batch
            * in_dim <= 16 * s.ssums,
{
    let n = batch * in_dim;
    assert(n % 16 == 0) by {
        vstd::arithmetic::div_mod::lemma_fundamental_div_mod(n, 32);
    }
}

/// A plane's bytes are on the device or on the host, never counted twice.
pub proof fn law_planes_are_held_once(s: KqSeat)
    ensures
        s matches KqSeat::Dev(w) ==> s.split().0 == w.data + w.scales && s.split().1 == 0,
        s matches KqSeat::Host(h) ==> s.split().0 == 0 && s.split().1 == h.host_bytes,
{
}

} // verus!
