//! Dense planes: the class each is held in, the bytes it takes, and the launches that serve a
//! product with it. A route is a list of launches to try in order; a launch may decline a shape it
//! was not built for, and the last one never does.
use crate::qwen4exp::kq::QuantW;
use crate::text::same;
use vstd::prelude::*;

verus! {

/// Which class the dense projections load in.
#[derive(Debug, Clone, Copy, PartialEq, Eq, Structural)]
pub enum DenseClass {
    /// the checkpoint's bf16 bytes, unchanged
    Bf16,
    /// the same numbers in f16
    F16,
    /// both, elected per call by batch
    Dual,
    /// one byte per weight with a scale per output row; lossy
    F8Row,
}

impl Default for DenseClass {
    fn default() -> (c: Self)
        ensures
            c == DenseClass::Bf16,
    {
        DenseClass::Bf16
    }
}

impl DenseClass {
    /// The class in words.
    pub fn label(self) -> (s: &'static str)
        ensures
            s@ == (match self {
                DenseClass::Bf16 => "bf16"@,
                DenseClass::F16 => "f16"@,
                DenseClass::Dual => "bf16+f16"@,
                DenseClass::F8Row => "f8row"@,
            }),
    {
        match self {
            DenseClass::Bf16 => "bf16",
            DenseClass::F16 => "f16",
            DenseClass::Dual => "bf16+f16",
            DenseClass::F8Row => "f8row",
        }
    }

    /// Bytes per weight element, for the residency ledger.
    pub fn elem_bytes(self) -> (n: u32)
        ensures
            n == (match self {
                DenseClass::Bf16 => 2,
                DenseClass::F16 => 2,
                DenseClass::Dual => 4,
                DenseClass::F8Row => 1u32,
            }),
    {
        match self {
            DenseClass::Bf16 => 2,
            DenseClass::F16 => 2,
            DenseClass::Dual => 4,
            DenseClass::F8Row => 1,
        }
    }
}

/// The class that a setting names: the parity class when it is unset or empty.
pub open spec fn class_named(t: Option<&str>) -> Option<DenseClass> {
    match t {
        None => Some(DenseClass::Bf16),
        Some(s) => if s@ == ""@ || s@ == "bf16"@ {
            Some(DenseClass::Bf16)
        } else if s@ == "dual"@ || s@ == "bf16+f16"@ {
            Some(DenseClass::Dual)
        } else if s@ == "f16"@ || s@ == "f16tc"@ {
            Some(DenseClass::F16)
        } else if s@ == "f8row"@ || s@ == "f8r"@ {
            Some(DenseClass::F8Row)
        } else {
            None
        },
    }
}

/// The class that a setting names, if it names one.
pub fn parse_dense_class(t: Option<&str>) -> (c: Option<DenseClass>)
    ensures
        c == class_named(t),
{
    match t {
        None => Some(DenseClass::Bf16),
        Some(s) => {
            if same(s, "") || same(s, "bf16") {
                Some(DenseClass::Bf16)
            } else if same(s, "dual") || same(s, "bf16+f16") {
                Some(DenseClass::Dual)
            } else if same(s, "f16") || same(s, "f16tc") {
                Some(DenseClass::F16)
            } else if same(s, "f8row") || same(s, "f8r") {
                Some(DenseClass::F8Row)
            } else {
                None
            }
        },
    }
}

/// The class of a setting that names one. An unknown name is never read as some other class.
pub fn dense_class_from_env(t: Option<&str>) -> (c: DenseClass)
    requires
        class_named(t) is Some,
    ensures
        Some(c) == class_named(t),
{
    match parse_dense_class(t) {
        Some(c) => c,
        None => DenseClass::Bf16,
    }
}

/// A dense plane: its class and its shape.
#[derive(Debug, Clone, Copy, PartialEq, Eq, Structural)]
pub enum DensePlane {
    Bf16 { in_dim: usize, out_dim: usize },
    Dual { in_dim: usize, out_dim: usize },
    F16 { in_dim: usize, out_dim: usize },
    F8Row { in_dim: usize, out_dim: usize },
    /// a quantized plane as its file holds it
    Kq { w: QuantW, in_dim: usize, out_dim: usize },
}

/// Where the launches of a dense product fork off.
#[derive(Debug, Clone, Copy, PartialEq, Eq, Structural)]
pub struct DenseKnobs {
    /// batched products go through the vendor library
    pub exp_lt: bool,
    /// deepest input, smallest output and widest batch of the narrow matrix-vector arm
    pub nk_max_in: usize,
    pub nk_min_out: usize,
    pub nk_max_batch: usize,
    /// the multi-row matrix-vector band
    pub mr_band: bool,
    /// the cluster arm for narrow batches
    pub lowm: bool,
    /// smallest batch of the f16 twin
    pub f16_min: usize,
    /// the f16 twin at narrow batches, on the shapes that win
    pub tc5b1: bool,
    /// the batched block-per-row arm and its widest output
    pub mrow: bool,
    pub mrow_max_out: usize,
    /// the scale and silu folded into a projection
    pub fuse_silu: bool,
}

/// What the walk at hand lets a dense product do.
#[derive(Debug, Clone, Copy, PartialEq, Eq, Structural)]
pub struct DenseStage {
    /// the f16 twin may run
    pub f16_ok: bool,
    /// the cluster arm may run
    pub lowm_ok: bool,
    /// widest batch of the twin
    pub f16_max: usize,
}

/// One launch of a dense product.
#[derive(Debug, Clone, Copy, PartialEq, Eq, Structural)]
pub enum Arm {
    VendorLt,
    GemvNk,
    GemvNkMr,
    GemmMr,
    GemmTile,
    LowmCluster,
    /// a cast of so many activations, then the f16 product
    F16 { cast: usize },
    F8Gemv,
    /// activations quantized by row, then the 8-bit product
    F8Gemm,
    /// the launches of a quantized plane
    Kq,
}

impl Arm {
    /// The launch may say that it does not serve the shape.
    pub open spec fn may_decline(self) -> bool {
        self is VendorLt || self is GemvNk || self is GemvNkMr || self is LowmCluster
    }
}

/// The launches of a bf16 product.
pub open spec fn bf16_route(k: DenseKnobs, in_dim: usize, out_dim: usize, batch: usize) -> Seq<Arm> {
    let vendor = if k.exp_lt && batch >= 2 {
        seq![Arm::VendorLt]
    } else {
        seq![]
    };
    let narrow = if in_dim <= k.nk_max_in && out_dim >= k.nk_min_out {
        if batch == 1 {
            seq![Arm::GemvNk]
        } else if batch <= k.nk_max_batch {
            seq![Arm::GemvNkMr]
        } else {
            seq![]
        }
    } else {
        seq![]
    };
    vendor + narrow + seq![
        if k.mr_band {
            Arm::GemmMr
        } else {
            Arm::GemmTile
        },
    ]
}

/// The shapes on which the cluster arm wins.
pub open spec fn lowm_shape(in_dim: usize, out_dim: usize) -> bool {
    in_dim == 640 || (in_dim == 2560 && out_dim <= 6144)
}

/// The f16 twin serves the batch: in its window, or at a narrow batch on a shape that wins.
pub open spec fn f16_serves(
    k: DenseKnobs,
    p: DenseStage,
    in_dim: usize,
    out_dim: usize,
    batch: usize,
) -> bool {
    p.f16_ok && ((k.f16_min <= batch <= p.f16_max) || (k.tc5b1 && batch <= 8 && !(in_dim == 2560
        && out_dim >= 10240)))
}

impl DensePlane {
    pub open spec fn in_dim(self) -> usize {
        match self {
            DensePlane::Bf16 { in_dim, .. } => in_dim,
            DensePlane::Dual { in_dim, .. } => in_dim,
            DensePlane::F16 { in_dim, .. } => in_dim,
            DensePlane::F8Row { in_dim, .. } => in_dim,
            DensePlane::Kq { in_dim, .. } => in_dim,
        }
    }

    pub open spec fn out_dim(self) -> usize {
        match self {
            DensePlane::Bf16 { out_dim, .. } => out_dim,
            DensePlane::Dual { out_dim, .. } => out_dim,
            DensePlane::F16 { out_dim, .. } => out_dim,
            DensePlane::F8Row { out_dim, .. } => out_dim,
            DensePlane::Kq { out_dim, .. } => out_dim,
        }
    }

    /// The launches of `y = W x` over `batch` rows.
    pub open spec fn route(self, k: DenseKnobs, p: DenseStage, batch: usize) -> Seq<Arm> {
        match self {
            DensePlane::Bf16 { in_dim, out_dim } => bf16_route(k, in_dim, out_dim, batch),
            DensePlane::Dual { in_dim, out_dim } => {
                let cluster = if 1 <= batch <= 8 && k.lowm && p.f16_ok && p.lowm_ok && lowm_shape(
                    in_dim,
                    out_dim,
                ) {
                    seq![Arm::LowmCluster]
                } else {
                    seq![]
                };
                cluster + if f16_serves(k, p, in_dim, out_dim, batch) {
                    seq![Arm::F16 { cast: (batch * in_dim) as usize }]
                } else {
                    bf16_route(k, in_dim, out_dim, batch)
                }
            },
            DensePlane::F16 { in_dim, .. } => seq![Arm::F16 { cast: (batch * in_dim) as usize }],
            DensePlane::F8Row { .. } => seq![
                if batch == 1 {
                    Arm::F8Gemv
                } else {
                    Arm::F8Gemm
                },
            ],
            DensePlane::Kq { .. } => seq![Arm::Kq],
        }
    }
}

fn push_bf16(v: &mut Vec<Arm>, k: &DenseKnobs, in_dim: usize, out_dim: usize, batch: usize)
    ensures
        final(v)@ == old(v)@ + bf16_route(*k, in_dim, out_dim, batch),
{
    let ghost before = v@;
    if k.exp_lt && batch >= 2 {
        v.push(Arm::VendorLt);
    }
    if in_dim <= k.nk_max_in && out_dim >= k.nk_min_out {
        if batch == 1 {
            v.push(Arm::GemvNk);
        } else if batch <= k.nk_max_batch {
            v.push(Arm::GemvNkMr);
        }
    }
    if k.mr_band {
        v.push(Arm::GemmMr);
    } else {
        v.push(Arm::GemmTile);
    }
    assert(v@ =~= before + bf16_route(*k, in_dim, out_dim, batch));
}

/// The launches of a bf16 product over `batch` rows.
pub fn bf16_matmul(k: &DenseKnobs, in_dim: usize, out_dim: usize, batch: usize) -> (v: Vec<Arm>)
    ensures
        v@ == bf16_route(*k, in_dim, out_dim, batch),
{
    let mut v: Vec<Arm> = Vec::new();
    push_bf16(&mut v, k, in_dim, out_dim, batch);
    assert(v@ =~= bf16_route(*k, in_dim, out_dim, batch));
    v
}

/// One launch of a product that stores two segments.
#[derive(Debug, Clone, Copy, PartialEq, Eq, Structural)]
pub enum SegArm {
    /// one block per output row; may decline
    Mrow,
    /// the tiled product; may decline
    TwoSeg,
}

/// How a segment of a plane's rows is multiplied.
#[derive(Debug, Clone, Copy, PartialEq, Eq, Structural)]
pub enum RowsArm {
    Bf16,
    /// a cast of so many activations, then the f16 product at the segment's first row
    F16 { cast: usize },
    /// the class holds no folded planes
    Unsupported,
}

impl DensePlane {
    /// The launches of `y = W x` over `batch` rows.
    pub fn matmul(&self, k: &DenseKnobs, p: &DenseStage, batch: usize) -> (v: Vec<Arm>)
        requires
            batch * self.in_dim() <= usize::MAX,
        ensures
            v@ == self.route(*k, *p, batch),
    {
        let mut v: Vec<Arm> = Vec::new();
        match *self {
            DensePlane::Bf16 { in_dim, out_dim } => {
                push_bf16(&mut v, k, in_dim, out_dim, batch);
            },
            DensePlane::Dual { in_dim, out_dim } => {
                let lowm_win: bool = in_dim == 640 || (in_dim == 2560 && out_dim <= 6144);
                if 1 <= batch && batch <= 8 && k.lowm && p.f16_ok && p.lowm_ok && lowm_win {
                    v.push(Arm::LowmCluster);
                }
                let band: bool = p.f16_ok && batch >= k.f16_min && batch <= p.f16_max;
                let select: bool = p.f16_ok && k.tc5b1 && batch <= 8 && !(in_dim == 2560
                    && out_dim >= 10240);
                if band || select {
                    v.push(Arm::F16 { cast: batch * in_dim });
                } else {
                    push_bf16(&mut v, k, in_dim, out_dim, batch);
                }
            },
            DensePlane::F16 { in_dim, .. } => {
                v.push(Arm::F16 { cast: batch * in_dim });
            },
            DensePlane::F8Row { .. } => {
                if batch == 1 {
                    v.push(Arm::F8Gemv);
                } else {
                    v.push(Arm::F8Gemm);
                }
            },
            DensePlane::Kq { .. } => {
                v.push(Arm::Kq);
            },
        }
        assert(v@ =~= self.route(*k, *p, batch));
        v
    }

    /// The plane holds the checkpoint's own bf16 bytes.
    pub open spec fn holds_bf16(self) -> bool {
        self is Bf16 || self is Dual
    }

    /// The plane's raw bytes are the checkpoint's own: false for a re-encoding, so that no oracle
    /// on bytes passes on one by accident.
    pub fn raw_bf16(&self) -> (b: bool)
        ensures
            b == self.holds_bf16(),
    {
        match *self {
            DensePlane::Bf16 { .. } => true,
            DensePlane::Dual { .. } => true,
            _ => false,
        }
    }

    /// The launches of one product that stores two projections: none when the class cannot, and
    /// the caller then makes two products.
    pub fn matmul_2seg(&self, k: &DenseKnobs, batch: usize) -> (v: Vec<SegArm>)
        ensures
            v@ == (if !self.holds_bf16() {
                seq![]
            } else if batch >= 2 && k.mrow && self.out_dim() <= k.mrow_max_out {
                seq![SegArm::Mrow, SegArm::TwoSeg]
            } else {
                seq![SegArm::TwoSeg]
            }),
    {
        let mut v: Vec<SegArm> = Vec::new();
        match *self {
            DensePlane::Bf16 { out_dim, .. } => {
                if batch >= 2 && k.mrow && out_dim <= k.mrow_max_out {
                    v.push(SegArm::Mrow);
                }
                v.push(SegArm::TwoSeg);
            },
            DensePlane::Dual { out_dim, .. } => {
                if batch >= 2 && k.mrow && out_dim <= k.mrow_max_out {
                    v.push(SegArm::Mrow);
                }
                v.push(SegArm::TwoSeg);
            },
            _ => {},
        }
        v
    }

    /// The scale and silu may be tried as part of the product: one row, and the checkpoint's own
    /// class.
    pub fn matmul_silu(&self, k: &DenseKnobs, batch: usize) -> (b: bool)
        ensures
            b == (batch == 1 && k.fuse_silu && self.holds_bf16()),
    {
        batch == 1 && k.fuse_silu && self.raw_bf16()
    }

    /// How a segment of the plane's rows is multiplied.
    pub fn matmul_rows(&self, batch: usize) -> (a: RowsArm)
        requires
            batch * self.in_dim() <= usize::MAX,
        ensures
            a == (match *self {
                DensePlane::Bf16 { .. } => RowsArm::Bf16,
                DensePlane::Dual { .. } => RowsArm::Bf16,
                DensePlane::F16 { in_dim, .. } => RowsArm::F16 { cast: (batch * in_dim) as usize },
                DensePlane::F8Row { .. } => RowsArm::Unsupported,
                DensePlane::Kq { .. } => RowsArm::Unsupported,
            }),
    {
        match *self {
            DensePlane::Bf16 { .. } => RowsArm::Bf16,
            DensePlane::Dual { .. } => RowsArm::Bf16,
            DensePlane::F16 { in_dim, .. } => RowsArm::F16 { cast: batch * in_dim },
            DensePlane::F8Row { .. } => RowsArm::Unsupported,
            DensePlane::Kq { .. } => RowsArm::Unsupported,
        }
    }

    /// Device bytes of the plane.
    pub open spec fn size(self) -> int {
        match self {
            DensePlane::Bf16 { in_dim, out_dim } => 2 * (in_dim * out_dim),
            DensePlane::Dual { in_dim, out_dim } => 4 * (in_dim * out_dim),
            DensePlane::F16 { in_dim, out_dim } => 2 * (in_dim * out_dim),
            DensePlane::F8Row { in_dim, out_dim } => in_dim * out_dim + 4 * out_dim,
            DensePlane::Kq { w, .. } => w.size() as int,
        }
    }

    /// Device bytes of the plane, for the residency ledger.
    pub fn bytes(&self) -> (n: usize)
        requires
            self.size() <= usize::MAX,
        ensures
            n == self.size(),
    {
        match *self {
            DensePlane::Bf16 { in_dim, out_dim } => {
                assert(0 <= in_dim * out_dim) by (nonlinear_arith);
                2 * (in_dim * out_dim)
            },
            DensePlane::Dual { in_dim, out_dim } => {
                assert(0 <= in_dim * out_dim) by (nonlinear_arith);
                4 * (in_dim * out_dim)
            },
            DensePlane::F16 { in_dim, out_dim } => {
                assert(0 <= in_dim * out_dim) by (nonlinear_arith);
                2 * (in_dim * out_dim)
            },
            DensePlane::F8Row { in_dim, out_dim } => {
                assert(0 <= in_dim * out_dim) by (nonlinear_arith);
                in_dim * out_dim + 4 * out_dim
            },
            DensePlane::Kq { w, .. } => w.bytes() as usize,
        }
    }

    /// What to print beside a result, so that the class is never implicit.
    pub fn class(&self) -> (s: &'static str)
        ensures
            s@ == (match *self {
                DensePlane::Bf16 { .. } => "bf16"@,
                DensePlane::Dual { .. } => "bf16+f16"@,
                DensePlane::F16 { .. } => "f16"@,
                DensePlane::F8Row { .. } => "f8row"@,
                DensePlane::Kq { .. } => "kq"@,
            }),
    {
        match *self {
            DensePlane::Bf16 { .. } => "bf16",
            DensePlane::Dual { .. } => "bf16+f16",
            DensePlane::F16 { .. } => "f16",
            DensePlane::F8Row { .. } => "f8row",
            DensePlane::Kq { .. } => "kq",
        }
    }
}

/// A list of launches that always serves: the last never declines, and only those before it may.
pub open spec fn serves(r: Seq<Arm>) -> bool {
    &&& r.len() > 0
    &&& !r.last().may_decline()
    &&& forall|i: int| 0 <= i < r.len() - 1 ==> (#[trigger] r[i]).may_decline()
}

proof fn lemma_bf16_serves(k: DenseKnobs, in_dim: usize, out_dim: usize, batch: usize)
    ensures
        serves(bf16_route(k, in_dim, out_dim, batch)),
{
}

/// Every product is served, whatever the launches before the last decline.
pub proof fn law_every_product_is_served(
    d: DensePlane,
    k: DenseKnobs,
    p: DenseStage,
    batch: usize,
)
    ensures
        serves(d.route(k, p, batch)),
{
    match d {
        DensePlane::Bf16 { in_dim, out_dim } => lemma_bf16_serves(k, in_dim, out_dim, batch),
        DensePlane::Dual { in_dim, out_dim } => {
            let tail = if f16_serves(k, p, in_dim, out_dim, batch) {
                seq![Arm::F16 { cast: (batch * in_dim) as usize }]
            } else {
                bf16_route(k, in_dim, out_dim, batch)
            };
            lemma_bf16_serves(k, in_dim, out_dim, batch);
            assert(serves(tail));
            let r = d.route(k, p, batch);
            if r.len() > tail.len() {
                assert(r =~= seq![Arm::LowmCluster] + tail);
            } else {
                assert(r =~= tail);
            }
        },
        _ => {},
    }
}

/// Where neither its twin nor the cluster arm serves, a dual plane takes exactly the route that the
/// bf16 plane of its shape takes.
pub proof fn law_dual_falls_back_to_bf16(
    k: DenseKnobs,
    p: DenseStage,
    in_dim: usize,
    out_dim: usize,
    batch: usize,
)
    requires
        !f16_serves(k, p, in_dim, out_dim, batch),
        !k.lowm || !p.lowm_ok,
    ensures
        (DensePlane::Dual { in_dim, out_dim }).route(k, p, batch) == (DensePlane::Bf16 {
            in_dim,
            out_dim,
        }).route(k, p, batch),
{
    let d = DensePlane::Dual { in_dim, out_dim };
    assert(d.route(k, p, batch) =~= bf16_route(k, in_dim, out_dim, batch));
}

/// In a walk that must not take the f16 twin, a dual plane never does.
pub proof fn law_twin_needs_leave(
    k: DenseKnobs,
    p: DenseStage,
    in_dim: usize,
    out_dim: usize,
    batch: usize,
    i: int,
)
    requires
        !p.f16_ok,
        0 <= i < (DensePlane::Dual { in_dim, out_dim }).route(k, p, batch).len(),
    ensures
        !((DensePlane::Dual { in_dim, out_dim }).route(k, p, batch)[i] is F16),
        !((DensePlane::Dual { in_dim, out_dim }).route(k, p, batch)[i] is LowmCluster),
{
}

/// A bf16 product tries the vendor's kernel on two rows and more where that is switched on, the
/// narrow one where its depth is small and its outputs many, on one row or a few, and ends in the
/// tiles.
pub proof fn law_bf16_routes_by_shape(k: DenseKnobs, in_dim: usize, out_dim: usize, batch: usize)
    requires
        batch >= 1,
    ensures
        ({
            let r = bf16_route(k, in_dim, out_dim, batch);
            let narrow = in_dim <= k.nk_max_in && out_dim >= k.nk_min_out;
            &&& r.contains(Arm::VendorLt) <==> k.exp_lt && batch >= 2
            &&& r.contains(Arm::GemvNk) <==> narrow && batch == 1
            &&& r.contains(Arm::GemvNkMr) <==> narrow && 2 <= batch <= k.nk_max_batch
            &&& r.last() == (if k.mr_band {
                Arm::GemmMr
            } else {
                Arm::GemmTile
            })
            &&& r.contains(Arm::VendorLt) ==> r[0] == Arm::VendorLt
            &&& 1 <= r.len() <= 3
        }),
{
    let r = bf16_route(k, in_dim, out_dim, batch);
    let narrow = in_dim <= k.nk_max_in && out_dim >= k.nk_min_out;
    let v: int = if k.exp_lt && batch >= 2 {
        1
    } else {
        0
    };
    if k.exp_lt && batch >= 2 {
        assert(r[0] == Arm::VendorLt);
    }
    if narrow && batch == 1 {
        assert(r[v] == Arm::GemvNk);
    }
    if narrow && 2 <= batch <= k.nk_max_batch {
        assert(r[v] == Arm::GemvNkMr);
    }
}

/// The twin serves where its kernels are there and the rows lie between its bounds, or up to eight
/// rows where these are let in, but for the widest products of the model's depth.
pub proof fn law_twin_serves_its_band(
    k: DenseKnobs,
    p: DenseStage,
    in_dim: usize,
    out_dim: usize,
    batch: usize,
)
    ensures
        !p.f16_ok ==> !f16_serves(k, p, in_dim, out_dim, batch),
        p.f16_ok && k.f16_min <= batch <= p.f16_max ==> f16_serves(k, p, in_dim, out_dim, batch),
        p.f16_ok && k.tc5b1 && batch <= 8 && (in_dim != 2560 || out_dim < 10240) ==> f16_serves(
            k,
            p,
            in_dim,
            out_dim,
            batch,
        ),
        f16_serves(k, p, in_dim, out_dim, batch) && (batch < k.f16_min || batch > p.f16_max)
            ==> k.tc5b1 && batch <= 8 && (in_dim != 2560 || out_dim < 10240),
        lowm_shape(in_dim, out_dim) <==> in_dim == 640 || in_dim == 2560 && out_dim < 6145,
{
}

/// A plane held twice starts on the cluster for one to eight rows of its shapes, where that is
/// allowed, and behind it goes to the twin or to bf16 as a whole; the other classes have one route.
pub proof fn law_planes_route_by_class(
    k: DenseKnobs,
    p: DenseStage,
    in_dim: usize,
    out_dim: usize,
    batch: usize,
)
    requires
        batch * in_dim <= usize::MAX,
    ensures
        ({
            let r = (DensePlane::Dual { in_dim, out_dim }).route(k, p, batch);
            &&& r.contains(Arm::LowmCluster) <==> 1 <= batch <= 8 && k.lowm && p.f16_ok && p.lowm_ok
                && lowm_shape(in_dim, out_dim)
            &&& r.contains(Arm::LowmCluster) ==> r[0] == Arm::LowmCluster
            &&& f16_serves(k, p, in_dim, out_dim, batch) ==> (r.last() matches Arm::F16 { cast }
                && cast == batch * in_dim)
            &&& !f16_serves(k, p, in_dim, out_dim, batch) ==> r.last() == bf16_route(
                k,
                in_dim,
                out_dim,
                batch,
            ).last()
        }),
        ({
            let r = (DensePlane::F16 { in_dim, out_dim }).route(k, p, batch);
            r.len() == 1 && (r[0] matches Arm::F16 { cast } && cast == batch * in_dim)
        }),
        ({
            let r = (DensePlane::F8Row { in_dim, out_dim }).route(k, p, batch);
            &&& r.len() == 1
            &&& r[0] == Arm::F8Gemv <==> batch == 1
            &&& r[0] == Arm::F8Gemm <==> batch != 1
        }),
{
    let d = DensePlane::Dual { in_dim, out_dim };
    let r = d.route(k, p, batch);
    if 1 <= batch <= 8 && k.lowm && p.f16_ok && p.lowm_ok && lowm_shape(in_dim, out_dim) {
        assert(r[0] == Arm::LowmCluster);
    }
}

/// A plane held twice takes what its two copies take, two bytes an element each; an 8-bit one takes
/// a byte an element and a scale a row.
pub proof fn law_planes_take_their_bytes(in_dim: usize, out_dim: usize)
    ensures
        (DensePlane::Dual { in_dim, out_dim }).size() == (DensePlane::Bf16 { in_dim, out_dim }).size()
            + (DensePlane::F16 { in_dim, out_dim }).size(),
        (DensePlane::Bf16 { in_dim, out_dim }).size() == (in_dim * out_dim) + (in_dim * out_dim),
        (DensePlane::F16 { in_dim, out_dim }).size() == (in_dim * out_dim) + (in_dim * out_dim),
        (DensePlane::F8Row { in_dim, out_dim }).size() == (in_dim + 4) * out_dim,
        (DensePlane::Bf16 { in_dim, out_dim }).in_dim() == in_dim,
        (DensePlane::Bf16 { in_dim, out_dim }).out_dim() == out_dim,
        (DensePlane::Dual { in_dim, out_dim }).in_dim() == in_dim,
        (DensePlane::Dual { in_dim, out_dim }).out_dim() == out_dim,
        (DensePlane::F16 { in_dim, out_dim }).in_dim() == in_dim,
        (DensePlane::F16 { in_dim, out_dim }).out_dim() == out_dim,
        (DensePlane::F8Row { in_dim, out_dim }).in_dim() == in_dim,
        (DensePlane::F8Row { in_dim, out_dim }).out_dim() == out_dim,
        (DensePlane::Bf16 { in_dim, out_dim }).holds_bf16() && (DensePlane::Dual {
            in_dim,
            out_dim,
        }).holds_bf16(),
        !(DensePlane::F16 { in_dim, out_dim }).holds_bf16() && !(DensePlane::F8Row {
            in_dim,
            out_dim,
        }).holds_bf16(),
{
    assert((in_dim + 4) * out_dim == in_dim * out_dim + 4 * out_dim) by (nonlinear_arith);
}

/// A class goes by its names and no other; without a name it is bf16.
pub proof fn law_classes_go_by_their_names(t: &str)
    ensures
        class_named(None) == Some(DenseClass::Bf16),
        t@.len() == 0 || t@ == "bf16"@ ==> class_named(Some(t)) == Some(DenseClass::Bf16),
        t@ == "dual"@ || t@ == "bf16+f16"@ ==> class_named(Some(t)) == Some(DenseClass::Dual),
        t@ == "f16"@ || t@ == "f16tc"@ ==> class_named(Some(t)) == Some(DenseClass::F16),
        t@ == "f8row"@ || t@ == "f8r"@ ==> class_named(Some(t)) == Some(DenseClass::F8Row),
        t@.len() > 8 || t@.len() == 1 || t@.len() == 2 ==> class_named(Some(t)) is None,
        t@.len() > 0 && t@[0] != 'b' && t@[0] != 'd' && t@[0] != 'f' ==> class_named(Some(t)) is None,
{
    reveal_strlit("");
    reveal_strlit("bf16");
    reveal_strlit("dual");
    reveal_strlit("bf16+f16");
    reveal_strlit("f16");
    reveal_strlit("f16tc");
    reveal_strlit("f8row");
    reveal_strlit("f8r");
    assert(t@.len() == 0 ==> t@ =~= ""@);
    assert("dual"@[0] == 'd' && "bf16"@[0] == 'b' && "f16"@[0] == 'f' && "f16tc"@[0] == 'f');
    assert("f8row"@[0] == 'f' && "f8r"@[0] == 'f' && "bf16+f16"@[0] == 'b');
    assert("f16"@[1] == '1' && "f16tc"@[1] == '1' && "f8row"@[1] == '8' && "f8r"@[1] == '8');
}

} // verus!
