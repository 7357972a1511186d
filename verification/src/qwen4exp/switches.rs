//! The model's switches, as an operator sets them.
use crate::knobs;
use crate::knobs::{read_count, read_u32};
use crate::text;
use crate::text::{parse_unsigned, same};
use vstd::prelude::*;

verus! {

/// On unless set to "0" or "off".
pub open spec fn on_unless_off(t: Option<&str>) -> bool {
    match t {
        Some(s) => s@ != "0"@ && s@ != "off"@,
        None => true,
    }
}

/// Off unless set to "1" or "on".
pub open spec fn off_unless_on(t: Option<&str>) -> bool {
    match t {
        Some(s) => s@ == "1"@ || s@ == "on"@,
        None => false,
    }
}

/// On unless set to "0".
pub open spec fn on_unless_zero(t: Option<&str>) -> bool {
    match t {
        Some(s) => s@ != "0"@,
        None => true,
    }
}

/// Off unless set to "1".
pub open spec fn off_unless_one(t: Option<&str>) -> bool {
    match t {
        Some(s) => s@ == "1"@,
        None => false,
    }
}

fn read_off(t: Option<&str>) -> (b: bool)
    ensures
        b == on_unless_off(t),
{
    match t {
        Some(s) => !same(s, "0") && !same(s, "off"),
        None => true,
    }
}

fn read_on(t: Option<&str>) -> (b: bool)
    ensures
        b == off_unless_on(t),
{
    match t {
        Some(s) => same(s, "1") || same(s, "on"),
        None => false,
    }
}

fn read_zero(t: Option<&str>) -> (b: bool)
    ensures
        b == on_unless_zero(t),
{
    match t {
        Some(s) => !same(s, "0"),
        None => true,
    }
}

fn read_one(t: Option<&str>) -> (b: bool)
    ensures
        b == off_unless_one(t),
{
    match t {
        Some(s) => same(s, "1"),
        None => false,
    }
}

/// Several prompts prefill in one wave.
pub fn prefill_wave_enabled(t: Option<&str>) -> (b: bool)
    ensures
        b == on_unless_off(t),
{
    read_off(t)
}

/// Decode attention scores its rows in parallel.
pub fn attn_ps_enabled(t: Option<&str>) -> (b: bool)
    ensures
        b == on_unless_off(t),
{
    read_off(t)
}

/// Decode attention runs as one fused kernel.
pub fn attn_fmha_enabled(t: Option<&str>) -> (b: bool)
    ensures
        b == on_unless_off(t),
{
    read_off(t)
}

/// The tensor-core arm for narrow batches.
pub fn mmaf_enabled(t: Option<&str>) -> (b: bool)
    ensures
        b == on_unless_off(t),
{
    read_off(t)
}

/// Decode walks fork a side stream.
pub fn gdn_fork_enabled(t: Option<&str>) -> (b: bool)
    ensures
        b == on_unless_off(t),
{
    read_off(t)
}

/// The scale and silu of a mix are folded into its projection.
pub fn fuse_silu_enabled(t: Option<&str>) -> (b: bool)
    ensures
        b == on_unless_off(t),
{
    read_off(t)
}

/// The attention projections are fused at load.
pub fn fuse_attn_qkv_on(t: Option<&str>) -> (b: bool)
    ensures
        b == off_unless_on(t),
{
    read_on(t)
}

/// The recurrent mixer's projections are fused at load.
pub fn fuse_gdn_zq_on(t: Option<&str>) -> (b: bool)
    ensures
        b == off_unless_on(t),
{
    read_on(t)
}

/// Narrow decode batches take the tensor-core twin on the shapes that win.
pub fn tc5b1_on(t: Option<&str>) -> (b: bool)
    ensures
        b == off_unless_on(t),
{
    read_on(t)
}

/// The cluster arm for narrow batches.
pub fn lowm_on(t: Option<&str>) -> (b: bool)
    ensures
        b == off_unless_on(t),
{
    read_on(t)
}

/// Batched projections go through the vendor library.
pub fn exp_lt_on(t: Option<&str>) -> (b: bool)
    ensures
        b == off_unless_on(t),
{
    read_on(t)
}

/// The recurrence normalizes its inputs itself.
pub fn dn_prenorm_on(t: Option<&str>) -> (b: bool)
    ensures
        b == off_unless_on(t),
{
    read_on(t)
}

/// The router is folded into the mix.
pub fn router_fold_on(t: Option<&str>) -> (b: bool)
    ensures
        b == off_unless_on(t),
{
    read_on(t)
}

/// The shared expert's projections are fused at load.
pub fn fuse_sh_on(t: Option<&str>) -> (b: bool)
    ensures
        b == off_unless_on(t),
{
    read_on(t)
}

/// Narrow batches take the multi-row matrix-vector arm.
pub fn mr_band_enabled(t: Option<&str>) -> (b: bool)
    ensures
        b == off_unless_on(t),
{
    read_on(t)
}

/// Each projection reports the arm it took.
pub fn dense_witness_on(t: Option<&str>) -> (b: bool)
    ensures
        b == off_unless_on(t),
{
    read_on(t)
}

/// Decode attention over 8-bit pools runs on the tensor cores.
pub fn attn_tc5_enabled(t: Option<&str>) -> (b: bool)
    ensures
        b == on_unless_zero(t),
{
    read_zero(t)
}

/// The mix is folded into the up projection.
pub fn fuse_upmix_on(t: Option<&str>) -> (b: bool)
    ensures
        b == on_unless_zero(t),
{
    read_zero(t)
}

/// A single row's router runs one block per output row.
pub fn router_gemv_on(t: Option<&str>) -> (b: bool)
    ensures
        b == on_unless_zero(t),
{
    read_zero(t)
}

/// The down projection of a mix takes the split arm for narrow batches.
pub fn hc_down_p42_on(t: Option<&str>) -> (b: bool)
    ensures
        b == on_unless_zero(t),
{
    read_zero(t)
}

/// The whole mix runs as two fused projections.
pub fn hc_island_on(t: Option<&str>) -> (b: bool)
    ensures
        b == off_unless_one(t),
{
    read_one(t)
}

/// Narrow outputs take the batched block-per-row arm.
pub fn mrow_on(t: Option<&str>) -> (b: bool)
    ensures
        b == off_unless_one(t),
{
    read_one(t)
}

/// Two rows' shared experts run as one launch.
pub fn sh2_on(t: Option<&str>) -> (b: bool)
    ensures
        b == off_unless_one(t),
{
    read_one(t)
}

/// Widest batch that takes the f16 twin in a walk that forks.
pub fn f16_fork_max_batch(t: Option<&str>) -> (n: usize)
    ensures
        n == knobs::number(t, 0, usize::MAX as nat, 16),
{
    read_count(t, 0, usize::MAX, 16)
}

/// Smallest batch that takes the f16 twin.
pub fn f16_min_batch(t: Option<&str>) -> (n: usize)
    ensures
        n == knobs::number(t, 0, usize::MAX as nat, 64),
{
    read_count(t, 0, usize::MAX, 64)
}

/// Widest output of the batched block-per-row arm.
pub fn mrow_max_out(t: Option<&str>) -> (n: usize)
    ensures
        n == knobs::number(t, 0, usize::MAX as nat, 1024),
{
    read_count(t, 0, usize::MAX, 1024)
}

/// Key splits of the fused decode attention; zero leaves them to the kernel.
pub fn attn_fmha_sp(t: Option<&str>) -> (n: usize)
    ensures
        n == knobs::number(t, 2, 16, 0),
{
    read_count(t, 2, 16, 0)
}

/// Widest batch of the narrow matrix-vector arm.
pub fn nk_gemv_max_batch(t: Option<&str>) -> (n: usize)
    ensures
        n == knobs::number(t, 0, usize::MAX as nat, 1),
{
    read_count(t, 0, usize::MAX, 1)
}

/// Smallest output of the narrow matrix-vector arm.
pub fn nk_gemv_min_out(t: Option<&str>) -> (n: usize)
    ensures
        n == knobs::number(t, 0, usize::MAX as nat, 1184),
{
    read_count(t, 0, usize::MAX, 1184)
}

/// Splits of the full-precision products of a single row: none unless set to a number.
pub fn sk_split(t: Option<&str>) -> (n: u32)
    ensures
        n == knobs::number(t, 0, u32::MAX as nat, 0),
{
    read_u32(t, 0)
}

/// The caches hold one byte per element.
pub fn kv8_on(t: Option<&str>) -> (b: bool)
    ensures
        b == off_unless_one(t),
{
    read_one(t)
}

/// The deepest input of the narrow matrix-vector arm: unbounded when unset, none when "off".
/// A text that is no number is an error.
pub open spec fn nk_max_in(t: Option<&str>) -> Option<nat> {
    match t {
        None => Some(usize::MAX as nat),
        Some(s) => if s@ == "off"@ {
            Some(0)
        } else {
            text::unsigned(s@, usize::MAX as nat)
        },
    }
}

/// The deepest input of the narrow matrix-vector arm. `None` says that the text is no bound.
pub fn nk_gemv_max_in(t: Option<&str>) -> (n: Option<usize>)
    ensures
        match n {
            Some(n) => nk_max_in(t) == Some(n as nat),
            None => nk_max_in(t) is None,
        },
{
    match t {
        None => Some(usize::MAX),
        Some(s) => {
            if same(s, "off") {
                Some(0)
            } else {
                match parse_unsigned(s, usize::MAX as u64) {
                    Some(n) => Some(n as usize),
                    None => None,
                }
            }
        },
    }
}

/// A switch that is on by default goes off at its word alone, and one that is off goes on at its
/// word alone.
pub proof fn law_switches_move_at_their_word(t: &str)
    ensures
        on_unless_off(None) && on_unless_zero(None) && !off_unless_on(None) && !off_unless_one(None),
        t@ == seq!['0'] ==> !on_unless_off(Some(t)) && !on_unless_zero(Some(t)) && !off_unless_on(
            Some(t),
        ) && !off_unless_one(Some(t)),
        t@ == seq!['1'] ==> on_unless_off(Some(t)) && on_unless_zero(Some(t)) && off_unless_on(Some(t))
            && off_unless_one(Some(t)),
        t@ == seq!['o', 'f', 'f'] ==> !on_unless_off(Some(t)) && on_unless_zero(Some(t))
            && !off_unless_on(Some(t)),
        t@ == seq!['o', 'n'] ==> on_unless_off(Some(t)) && off_unless_on(Some(t))
            && !off_unless_one(Some(t)),
        t@.len() > 3 ==> on_unless_off(Some(t)) && on_unless_zero(Some(t)) && !off_unless_on(Some(t))
            && !off_unless_one(Some(t)),
{
    reveal_strlit("0");
    reveal_strlit("1");
    reveal_strlit("on");
    reveal_strlit("off");
    assert("0"@ =~= seq!['0']);
    assert("1"@ =~= seq!['1']);
    assert("on"@ =~= seq!['o', 'n']);
    assert("off"@ =~= seq!['o', 'f', 'f']);
    assert("0"@[0] != "1"@[0]);
    assert("on"@.len() == 2 && "off"@.len() == 3);
}

/// The widest narrow product is unbounded when it is not set, none when it is off, and the number
/// that is written otherwise; what is no number is none of these.
pub proof fn law_narrow_products_are_bounded_by_a_number(t: &str, n: nat)
    ensures
        nk_max_in(None) == Some(usize::MAX as nat),
        t@ == seq!['o', 'f', 'f'] ==> nk_max_in(Some(t)) == Some(0nat),
        t@ == text::decimal(n) && n <= usize::MAX ==> nk_max_in(Some(t)) == Some(n),
        t@.len() == 0 ==> nk_max_in(Some(t)) is None,
{
    reveal_strlit("off");
    assert("off"@ =~= seq!['o', 'f', 'f']);
    if t@ == text::decimal(n) && n <= usize::MAX {
        text::law_numbers_read_back(n, usize::MAX as nat);
        if t@ == "off"@ {
            text::law_only_digits_are_numbers(t@, usize::MAX as nat, 0);
        }
    }
    if t@.len() == 0 {
        text::law_only_digits_are_numbers(t@, usize::MAX as nat, 0);
    }
}

} // verus!
