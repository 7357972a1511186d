//! What an operator sets: the text of a setting, read into the value that the engine runs with.
//! A text that is no number, or one out of bounds, counts as unset.
use crate::service::gates::AdmissionSettings;
use crate::service::pipe::default_quiet;
use crate::service::speculate::SpecSettings;
use crate::text;
use crate::text::{parse_unsigned, same};
use vstd::prelude::*;

verus! {

/// The number that a setting gives, if it lies between `low` and `high`.
pub open spec fn bounded(t: Option<&str>, low: nat, high: nat) -> Option<nat> {
    match t {
        Some(s) => match text::unsigned(s@, high) {
            Some(n) => if low <= n {
                Some(n)
            } else {
                None
            },
            None => None,
        },
        None => None,
    }
}

/// The number that a setting gives between `low` and `high`, or `default`.
pub open spec fn number(t: Option<&str>, low: nat, high: nat, default: nat) -> nat {
    match bounded(t, low, high) {
        Some(n) => n,
        None => default,
    }
}

/// A setting that anything but "0" turns on, and that stands at `default` when unset.
pub open spec fn unless_zero(t: Option<&str>, default: bool) -> bool {
    match t {
        Some(s) => s@ != "0"@,
        None => default,
    }
}

fn read_bounded(t: Option<&str>, low: u64, high: u64) -> (n: Option<u64>)
    ensures
        match n {
            Some(n) => bounded(t, low as nat, high as nat) == Some(n as nat),
            None => bounded(t, low as nat, high as nat) is None,
        },
{
    match t {
        None => None,
        Some(s) => match parse_unsigned(s, high) {
            None => None,
            Some(n) => {
                if n >= low {
                    Some(n)
                } else {
                    None
                }
            },
        },
    }
}

/// A count between `low` and `high`.
pub fn read_count(t: Option<&str>, low: usize, high: usize, default: usize) -> (n: usize)
    ensures
        n == number(t, low as nat, high as nat, default as nat),
{
    match read_bounded(t, low as u64, high as u64) {
        Some(n) => n as usize,
        None => default,
    }
}

/// A setting in 64 bits, of any size.
pub fn static_env_u64(t: Option<&str>, default: u64) -> (n: u64)
    ensures
        n == number(t, 0, u64::MAX as nat, default as nat),
{
    match read_bounded(t, 0, u64::MAX) {
        Some(n) => n,
        None => default,
    }
}

/// A setting in 32 bits, of any size.
pub fn read_u32(t: Option<&str>, default: u32) -> (n: u32)
    ensures
        n == number(t, 0, u32::MAX as nat, default as nat),
{
    match read_bounded(t, 0, u32::MAX as u64) {
        Some(n) => n as u32,
        None => default,
    }
}

fn read_flag(t: Option<&str>, default: bool) -> (b: bool)
    ensures
        b == unless_zero(t, default),
{
    match t {
        Some(s) => !same(s, "0"),
        None => default,
    }
}

/// Rows a verify pass may hold.
pub fn serve_spec_max_rows(t: Option<&str>) -> (n: usize)
    ensures
        n == number(t, 0, usize::MAX as nat, 32),
{
    read_count(t, 0, usize::MAX, 32)
}

/// Longest draft of one slot.
pub fn serve_spec_max_k(t: Option<&str>) -> (n: usize)
    ensures
        n == number(t, 0, usize::MAX as nat, 7),
{
    read_count(t, 0, usize::MAX, 7)
}

/// Shortest draft a miss may leave a slot with.
pub fn serve_spec_k_floor(t: Option<&str>) -> (n: usize)
    ensures
        n == number(t, 0, usize::MAX as nat, 1),
{
    read_count(t, 0, usize::MAX, 1)
}

/// Longest draft in a mixed tick: none of its own when unset.
pub fn serve_spec_mixed_k_cap(t: Option<&str>) -> (n: usize)
    ensures
        n == number(t, 0, usize::MAX as nat, usize::MAX as nat),
{
    read_count(t, 0, usize::MAX, usize::MAX)
}

/// Mixed rounds count in the draft-length controller's books: off when unset.
pub fn spec_book_mixed(t: Option<&str>) -> (b: bool)
    ensures
        b == unless_zero(t, false),
{
    read_flag(t, false)
}

/// The wider verify band for nine to sixteen sequences: on when unset.
pub fn spec_narrow64_on(t: Option<&str>) -> (b: bool)
    ensures
        b == unless_zero(t, true),
{
    read_flag(t, true)
}

/// Verify rows of that band: at least thirty-two.
pub fn spec_narrow_rows(t: Option<&str>) -> (n: usize)
    ensures
        n == number(t, 32, usize::MAX as nat, 64),
{
    read_count(t, 32, usize::MAX, 64)
}

/// Verify rows for at most eight sequences, when pinned to at least sixteen.
pub fn spec_low_rows_pin(t: Option<&str>) -> (n: Option<usize>)
    ensures
        match n {
            Some(n) => bounded(t, 16, usize::MAX as nat) == Some(n as nat),
            None => bounded(t, 16, usize::MAX as nat) is None,
        },
{
    match read_bounded(t, 16, usize::MAX as u64) {
        Some(n) => Some(n as usize),
        None => None,
    }
}

/// The speculation settings, from the text of each.
pub fn spec_settings(
    max_rows: Option<&str>,
    max_k: Option<&str>,
    k_floor: Option<&str>,
    mixed_k: Option<&str>,
    deep_live_max: Option<&str>,
    narrow64: Option<&str>,
    narrow_rows: Option<&str>,
    low_rows: Option<&str>,
) -> (s: SpecSettings)
    ensures
        s.max_rows == number(max_rows, 0, usize::MAX as nat, 32),
        s.max_k == number(max_k, 0, usize::MAX as nat, 7),
        s.k_floor == number(k_floor, 0, usize::MAX as nat, 1),
        s.mixed_k_cap == number(mixed_k, 0, usize::MAX as nat, usize::MAX as nat),
        s.deep_live_max == number(deep_live_max, 0, usize::MAX as nat, 0),
        s.narrow64 == unless_zero(narrow64, true),
        s.narrow_rows == number(narrow_rows, 32, usize::MAX as nat, 64),
        match s.low_rows {
            Some(n) => bounded(low_rows, 16, usize::MAX as nat) == Some(n as nat),
            None => bounded(low_rows, 16, usize::MAX as nat) is None,
        },
{
    SpecSettings {
        max_rows: serve_spec_max_rows(max_rows),
        max_k: serve_spec_max_k(max_k),
        k_floor: serve_spec_k_floor(k_floor),
        mixed_k_cap: serve_spec_mixed_k_cap(mixed_k),
        deep_live_max: read_count(deep_live_max, 0, usize::MAX, 0),
        narrow64: spec_narrow64_on(narrow64),
        narrow_rows: spec_narrow_rows(narrow_rows),
        low_rows: spec_low_rows_pin(low_rows),
    }
}

/// Prompt rows per mixed tick when unset.
pub const PREFILL_TICK_ROWS_DEFAULT: usize = 8192;

/// Prompt rows per mixed tick.
pub fn prefill_tick_rows(t: Option<&str>) -> (n: usize)
    ensures
        n == number(t, 32, 16384, PREFILL_TICK_ROWS_DEFAULT as nat),
{
    read_count(t, 32, 16384, PREFILL_TICK_ROWS_DEFAULT)
}

/// Prompts advancing through mixed ticks at once.
pub fn max_chunks_inflight(t: Option<&str>) -> (n: usize)
    ensures
        n == number(t, 1, 64, 32),
{
    read_count(t, 1, 64, 32)
}

/// Row cap of admissions that overlap the decode pipe: none when unset.
pub fn overlap_admit_max(t: Option<&str>) -> (n: usize)
    ensures
        n == number(t, 0, usize::MAX as nat, 0),
{
    read_count(t, 0, usize::MAX, 0)
}

/// Free slots that the one-shot resync of a cohort waits for: off when unset.
pub fn adm_resync(t: Option<&str>) -> (n: usize)
    ensures
        n == number(t, 0, usize::MAX as nat, 0),
{
    read_count(t, 0, usize::MAX, 0)
}

/// The admission settings, from the text of each.
pub fn admission_settings(
    predict_k: Option<&str>,
    predict_h: Option<&str>,
    min_free: Option<&str>,
    max_hold_ms: Option<&str>,
) -> (s: AdmissionSettings)
    ensures
        s.predict_k == number(predict_k, 0, usize::MAX as nat, 0),
        s.predict_h == number(predict_h, 0, usize::MAX as nat, 16),
        s.min_free == number(min_free, 0, usize::MAX as nat, 0),
        s.max_hold_ms == number(max_hold_ms, 0, u64::MAX as nat, 25),
{
    AdmissionSettings {
        predict_k: read_count(predict_k, 0, usize::MAX, 0),
        predict_h: read_count(predict_h, 0, usize::MAX, 16),
        min_free: read_count(min_free, 0, usize::MAX, 0),
        max_hold_ms: static_env_u64(max_hold_ms, 25),
    }
}

/// Most sequences that a fused prefill and decode tick serves.
pub fn unified_dec_max(t: Option<&str>) -> (n: usize)
    ensures
        n == number(t, 0, usize::MAX as nat, 12),
{
    read_count(t, 0, usize::MAX, 12)
}

/// Most sequences of a round that the host samples.
pub fn sampled_live_max(t: Option<&str>) -> (n: usize)
    ensures
        n == number(t, 0, usize::MAX as nat, 4),
{
    read_count(t, 0, usize::MAX, 4)
}

/// Most sequences that a drafting model engages for, where it is capped.
pub fn draft_live_max(t: Option<&str>) -> (n: usize)
    ensures
        n == number(t, 0, usize::MAX as nat, usize::MAX as nat),
{
    read_count(t, 0, usize::MAX, usize::MAX)
}

/// Pure decode ticks between two mixed ones.
pub fn decode_ticks_per_chunk(t: Option<&str>) -> (n: u32)
    ensures
        n == number(t, 0, u32::MAX as nat, 0),
{
    read_u32(t, 0)
}

/// Quiet ticks before a pipe segment: as set, or as speculation asks.
pub fn pipe_min_quiet(t: Option<&str>, spec_capable: bool, spec_off: bool) -> (n: u32)
    ensures
        n == number(
            t,
            0,
            u32::MAX as nat,
            if spec_capable && !spec_off {
                512
            } else {
                4
            },
        ),
{
    read_u32(t, default_quiet(spec_capable, spec_off))
}

/// How long arrivals are held together, all in milliseconds but for the count.
#[derive(Debug, Clone, Copy, PartialEq, Eq, Structural)]
pub struct HoldSettings {
    /// A lone or landing prompt is held this long for company; zero is off.
    pub coalesce_ms: u64,
    /// Prompts that end such a hold.
    pub hold_max: usize,
    /// Arrivals count as in motion this long; zero is off.
    pub window_ms: u64,
    /// A forming burst is lingered over at most this long.
    pub fuse_hard_ms: u64,
    /// A gap this long ends the linger.
    pub fuse_quiet_ms: u64,
}

/// How long arrivals are held together.
pub fn hold_settings(
    coalesce_ms: Option<&str>,
    hold_max: Option<&str>,
    window_ms: Option<&str>,
    fuse_hard_ms: Option<&str>,
    fuse_quiet_ms: Option<&str>,
) -> (s: HoldSettings)
    ensures
        s.coalesce_ms == number(coalesce_ms, 0, u64::MAX as nat, 0),
        s.hold_max == number(hold_max, 0, usize::MAX as nat, 8),
        s.window_ms == number(window_ms, 0, u64::MAX as nat, 0),
        s.fuse_hard_ms == number(fuse_hard_ms, 0, u64::MAX as nat, 8),
        s.fuse_quiet_ms == number(fuse_quiet_ms, 0, u64::MAX as nat, 2),
{
    HoldSettings {
        coalesce_ms: static_env_u64(coalesce_ms, 0),
        hold_max: read_count(hold_max, 0, usize::MAX, 8),
        window_ms: static_env_u64(window_ms, 0),
        fuse_hard_ms: static_env_u64(fuse_hard_ms, 8),
        fuse_quiet_ms: static_env_u64(fuse_quiet_ms, 2),
    }
}

/// Threads that a decode tick's host sampling may fan out to: at least one.
pub fn sample_threads(t: Option<&str>) -> (n: usize)
    ensures
        n == number(t, 1, usize::MAX as nat, 12),
{
    read_count(t, 1, usize::MAX, 12)
}

/// Sequences up to which device-sampled speculation is to engage.
pub fn spec_plans_live_max(t: Option<&str>) -> (n: usize)
    ensures
        n == number(t, 0, usize::MAX as nat, 8),
{
    read_count(t, 0, usize::MAX, 8)
}

/// Where the speculation policy comes from.
#[derive(Debug, Clone, Copy, PartialEq, Eq, Structural)]
pub enum PolicySource {
    /// A kill switch: no speculation, whatever else is set.
    Off,
    /// Nothing is set: the draft-length ladder.
    Ladder,
    /// What is set is no policy: the ladder, and a warning.
    LadderWithWarning,
    /// The policy that is set.
    Given,
}

/// Where the speculation policy comes from. The kill switches outrank every policy.
pub fn serve_spec_policy(no_spec: bool, no_serve_spec: bool, policy: Option<bool>) -> (s:
    PolicySource)
    ensures
        s == PolicySource::Off <==> no_spec || no_serve_spec,
        !(no_spec || no_serve_spec) ==> s == (match policy {
            None => PolicySource::Ladder,
            Some(false) => PolicySource::LadderWithWarning,
            Some(true) => PolicySource::Given,
        }),
{
    if no_spec || no_serve_spec {
        return PolicySource::Off;
    }
    match policy {
        None => PolicySource::Ladder,
        Some(true) => PolicySource::Given,
        Some(false) => PolicySource::LadderWithWarning,
    }
}

/// A setting is the number that its text writes, where that is one within its bounds, and its
/// default otherwise; so it is always within them if the default is.
pub proof fn law_settings_stay_in_bounds(t: &str, low: nat, high: nat, default: nat)
    ensures
        number(None, low, high, default) == default,
        text::unsigned(t@, high) is None ==> number(Some(t), low, high, default) == default,
        text::unsigned(t@, high) matches Some(n) ==> (n >= low ==> number(
            Some(t),
            low,
            high,
            default,
        ) == n) && (n < low ==> number(Some(t), low, high, default) == default),
        bounded(Some(t), low, high) matches Some(n) ==> low <= n <= high,
        bounded(None, low, high) is None,
{
}

/// A number that was written and lies within the bounds is the setting.
pub proof fn law_settings_read_back(t: &str, n: nat, low: nat, high: nat, default: nat)
    requires
        t@ == text::decimal(n),
        low <= n <= high,
    ensures
        number(Some(t), low, high, default) == n,
{
    text::law_numbers_read_back(n, high);
}

/// A switch is off at zero, on at anything else, and its default when it is not set.
pub proof fn law_switches_are_off_at_zero(t: &str, default: bool)
    ensures
        unless_zero(None, default) == default,
        t@ == seq!['0'] <==> !unless_zero(Some(t), default),
{
    reveal_strlit("0");
    assert("0"@ =~= seq!['0']);
}

} // verus!
