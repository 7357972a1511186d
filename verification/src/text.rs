//! The little text the engine writes and reads: decimal numbers, byte counts with two decimals,
//! joined lists, and the numbers an operator sets.
use vstd::prelude::*;
use vstd::string::{StrSliceExecFns, StringExecFns};

verus! {

/// Bytes in one MiB.
pub const MIB: u64 = 0x10_0000;

/// Bytes in one GiB.
pub const GIB: u64 = 0x4000_0000;

/// First integer an `f64` cannot count to in steps of one.
pub const F64_EXACT: u64 = 0x20_0000_0000_0000;

/// The character of a decimal digit.
pub open spec fn digit_char(d: nat) -> char {
    (d + 48) as char
}

/// `n` in decimal, without leading zeros.
pub open spec fn decimal(n: nat) -> Seq<char>
    decreases n,
{
    if n < 10 {
        seq![digit_char(n)]
    } else {
        decimal(n / 10).push(digit_char(n % 10))
    }
}

/// `n / d` rounded to the nearest integer, an exact half going to the even neighbour.
pub open spec fn round_half_even(n: nat, d: nat) -> nat {
    let q = n / d;
    let r = n % d;
    if 2 * r < d || (2 * r == d && q % 2 == 0) {
        q
    } else {
        q + 1
    }
}

/// The smallest of `u`, `2 * u`, `4 * u`, ... whose 53-bit multiples reach past `n`: the distance
/// between two neighbouring `f64` values around `n`.
pub open spec fn f64_step(n: nat, u: nat) -> nat
    decreases n - u,
    when u > 0
{
    if n < F64_EXACT * u {
        u
    } else {
        f64_step(n, 2 * u)
    }
}

/// The integer nearest to `n` that an `f64` holds.
pub open spec fn f64_of(n: nat) -> nat {
    round_half_even(n, f64_step(n, 1)) * f64_step(n, 1)
}

/// `bytes`, as an `f64`, in hundredths of `unit`, to the nearest.
pub open spec fn hundredths(bytes: nat, unit: nat) -> nat {
    round_half_even(f64_of(bytes) * 100, unit)
}

/// A number of hundredths with two decimals.
pub open spec fn two_decimals(h: nat) -> Seq<char> {
    decimal(h / 100) + "."@ + decimal(h / 10 % 10) + decimal(h % 10)
}

/// `bytes` in GiB with two decimals.
pub open spec fn gib_text(bytes: nat) -> Seq<char> {
    two_decimals(hundredths(bytes, GIB as nat))
}

/// `bytes` in MiB with two decimals.
pub open spec fn mib_text(bytes: nat) -> Seq<char> {
    two_decimals(hundredths(bytes, MIB as nat))
}

fn digit_text(d: u64) -> (s: &'static str)
    requires
        d < 10,
    ensures
        s@ == seq![digit_char(d as nat)],
{
    proof {
        reveal_strlit("0");
        reveal_strlit("1");
        reveal_strlit("2");
        reveal_strlit("3");
        reveal_strlit("4");
        reveal_strlit("5");
        reveal_strlit("6");
        reveal_strlit("7");
        reveal_strlit("8");
        reveal_strlit("9");
    }
    let s: &'static str = match d {
        0 => "0",
        1 => "1",
        2 => "2",
        3 => "3",
        4 => "4",
        5 => "5",
        6 => "6",
        7 => "7",
        8 => "8",
        _ => "9",
    };
    assert(s@ =~= seq![digit_char(d as nat)]);
    s
}

/// Write `n` in decimal behind `out`.
pub fn push_decimal(out: &mut String, n: u64)
    ensures
        final(out)@ == old(out)@ + decimal(n as nat),
    decreases n,
{
    if n >= 10 {
        push_decimal(out, n / 10);
    }
    out.append(digit_text(n % 10));
    assert(out@ =~= old(out)@ + decimal(n as nat));
}

/// `n` in decimal.
pub fn decimal_text(n: u64) -> (s: String)
    ensures
        s@ == decimal(n as nat),
{
    let mut s = String::new();
    push_decimal(&mut s, n);
    assert(s@ =~= decimal(n as nat));
    s
}

fn rounded(n: u128, d: u128) -> (q: u128)
    requires
        0 < d < 0x1000_0000_0000_0000_0000_0000,
    ensures
        q == round_half_even(n as nat, d as nat),
{
    let q: u128 = n / d;
    let r: u128 = n % d;
    if 2 * r < d || (2 * r == d && q % 2 == 0) {
        q
    } else {
        proof {
            assert(d == 1 ==> r == 0);
            assert(d >= 2 ==> q <= n / 2) by (nonlinear_arith)
                requires
                    q == n / d,
                    d > 0,
            ;
        }
        q + 1
    }
}

/// The nearest integer to `n` that an `f64` holds.
pub fn as_f64(n: u128) -> (v: u128)
    requires
        n < 0x100_0000_0000_0000_0000_0000_0000_0000,
    ensures
        v == f64_of(n as nat),
        v <= 2 * n,
{
    let mut u: u128 = 1;
    while n >= 0x20_0000_0000_0000 * u
        invariant
            n < 0x100_0000_0000_0000_0000_0000_0000_0000,
            0 < u <= 0x10_0000_0000_0000_0000,
            u == 1 || n >= 0x10_0000_0000_0000 * u,
            f64_step(n as nat, u as nat) == f64_step(n as nat, 1),
        decreases 0x20_0000_0000_0000_0000_0000_0000 - u,
    {
        u = 2 * u;
    }
    let q: u128 = rounded(n, u);
    proof {
        assert(n / u < 0x20_0000_0000_0000) by (nonlinear_arith)
            requires
                n < 0x20_0000_0000_0000 * u,
                u > 0,
        ;
        assert(q * u <= 0x20_0000_0000_0000 * u) by (nonlinear_arith)
            requires
                q <= 0x20_0000_0000_0000,
                u > 0,
        ;
    }
    q * u
}

fn push_hundredths(out: &mut String, bytes: u64, unit: u64)
    requires
        0x10_0000 <= unit,
    ensures
        final(out)@ == old(out)@ + two_decimals(hundredths(bytes as nat, unit as nat)),
{
    let h: u128 = rounded(as_f64(bytes as u128) * 100, unit as u128);
    proof {
        let v = f64_of(bytes as nat) * 100;
        assert(v <= 200 * 0x1_0000_0000_0000_0000);
        assert(v / unit as nat <= v / 0x10_0000) by (nonlinear_arith)
            requires
                unit >= 0x10_0000,
                v >= 0,
        ;
    }
    let h: u64 = h as u64;
    push_decimal(out, h / 100);
    out.append(".");
    push_decimal(out, h / 10 % 10);
    push_decimal(out, h % 10);
    assert(out@ =~= old(out)@ + two_decimals(h as nat));
}

/// Write `bytes` in GiB, with two decimals, behind `out`.
pub fn push_gib(out: &mut String, bytes: u64)
    ensures
        final(out)@ == old(out)@ + gib_text(bytes as nat),
{
    push_hundredths(out, bytes, GIB);
}

/// Write `bytes` in MiB, with two decimals, behind `out`.
pub fn push_mib(out: &mut String, bytes: u64)
    ensures
        final(out)@ == old(out)@ + mib_text(bytes as nat),
{
    push_hundredths(out, bytes, MIB);
}

/// The uppercase mapping of one character: what `char::to_uppercase` yields, in order.
pub uninterp spec fn uppercase_of(c: char) -> Seq<char>;

/// `char::to_uppercase`, as text. The mapping is Unicode's; of it only the ASCII letters are
/// stated: a small letter gives the capital one.
#[verifier::external_body]
fn uppercase(c: char) -> (s: String)
    ensures
        s@ == uppercase_of(c),
        'a' <= c <= 'z' ==> s@ == seq![(c as u32 - 32) as char],
{
    c.to_uppercase().to_string()
}

/// `s` with its first character in upper case.
pub open spec fn capitalized(s: Seq<char>) -> Seq<char> {
    if s.len() == 0 {
        s
    } else {
        uppercase_of(s[0]) + s.skip(1)
    }
}

/// Upper-case the first letter, so a list of fixes reads as a sentence when it leads one.
pub fn capitalize(s: &str) -> (out: String)
    ensures
        out@ == capitalized(s@),
        s@.len() > 0 && 'a' <= s@[0] <= 'z' ==> out@ == seq![(s@[0] as u32 - 32) as char]
            + s@.skip(1),
{
    let n: usize = s.unicode_len();
    if n == 0 {
        let out = String::new();
        assert(out@ =~= s@);
        out
    } else {
        let mut out = uppercase(s.get_char(0));
        out.append(s.substring_char(1, n));
        assert(s@.subrange(1, n as int) =~= s@.skip(1));
        out
    }
}

/// The characters of `s`.
pub fn chars_of(s: &str) -> (v: Vec<char>)
    ensures
        v@ == s@,
{
    let mut v: Vec<char> = Vec::new();
    for c in iter: s.chars()
        invariant
            iter.seq() == s@,
            v@ == iter.seq().take(iter.index() as int),
    {
        v.push(c);
    }
    assert(s@.take(s@.len() as int) =~= s@);
    v
}

/// `c` in upper case, when it is an ASCII letter.
pub open spec fn ascii_upper(c: char) -> char {
    if 'a' <= c <= 'z' {
        (c as u32 - 32) as char
    } else {
        c
    }
}

/// `pattern` stands at `i` in the ASCII upper case of `s`.
pub open spec fn upper_at(s: Seq<char>, pattern: Seq<char>, i: int) -> bool {
    &&& 0 <= i <= s.len() - pattern.len()
    &&& forall|j: int| 0 <= j < pattern.len() ==> ascii_upper(s[i + j]) == #[trigger] pattern[j]
}

/// The ASCII upper case of `s` holds `pattern`.
pub open spec fn holds_upper(s: Seq<char>, pattern: Seq<char>) -> bool {
    exists|i: int| #[trigger] upper_at(s, pattern, i)
}

/// Whether the ASCII upper case of `s` holds `pattern`.
pub fn contains_upper(s: &str, pattern: &str) -> (r: bool)
    ensures
        r == holds_upper(s@, pattern@),
{
    let text = chars_of(s);
    let want = chars_of(pattern);
    if want.len() > text.len() {
        return false;
    }
    let last: usize = text.len() - want.len();
    let mut i: usize = 0;
    loop
        invariant
            i <= last,
            last == text.len() - want.len(),
            text@ == s@,
            want@ == pattern@,
            forall|k: int| 0 <= k < i ==> !upper_at(s@, pattern@, k),
        decreases last - i,
    {
        let mut j: usize = 0;
        while j < want.len() && upper(text[i + j]) == want[j]
            invariant
                i <= last,
                last == text.len() - want.len(),
                j <= want.len(),
                text@ == s@,
                want@ == pattern@,
                forall|k: int| 0 <= k < j ==> ascii_upper(s@[i + k]) == #[trigger] pattern@[k],
            decreases want.len() - j,
        {
            j = j + 1;
        }
        if j == want.len() {
            assert(upper_at(s@, pattern@, i as int));
            return true;
        }
        assert(!upper_at(s@, pattern@, i as int)) by {
            assert(ascii_upper(s@[i + j]) != pattern@[j as int]);
        }
        if i == last {
            return false;
        }
        i = i + 1;
    }
}

fn upper(c: char) -> (u: char)
    ensures
        u == ascii_upper(c),
{
    match c {
        'a'..='z' => ((c as u8) - 32) as char,
        _ => c,
    }
}

/// A decimal digit.
pub open spec fn is_digit(c: char) -> bool {
    '0' <= c <= '9'
}

/// A run of decimal digits.
pub open spec fn all_digits(s: Seq<char>) -> bool {
    forall|i: int| 0 <= i < s.len() ==> is_digit(#[trigger] s[i])
}

/// The number that a run of decimal digits writes.
pub open spec fn digits_value(s: Seq<char>) -> nat
    decreases s.len(),
{
    if s.len() == 0 {
        0
    } else {
        10 * digits_value(s.drop_last()) + (s.last() as nat - 48) as nat
    }
}

/// `s` behind an optional plus sign.
pub open spec fn unsigned_body(s: Seq<char>) -> Seq<char> {
    if s.len() > 0 && s[0] == '+' {
        s.skip(1)
    } else {
        s
    }
}

/// The unsigned number up to `max` that `s` writes: digits, with an optional plus sign before them
/// and nothing else.
pub open spec fn unsigned(s: Seq<char>, max: nat) -> Option<nat> {
    let body = unsigned_body(s);
    if body.len() > 0 && all_digits(body) && digits_value(body) <= max {
        Some(digits_value(body))
    } else {
        None
    }
}

proof fn lemma_value_grows(s: Seq<char>, n: int)
    requires
        0 <= n <= s.len(),
    ensures
        digits_value(s.take(n)) <= digits_value(s),
    decreases s.len(),
{
    if n == s.len() {
        assert(s.take(n) =~= s);
    } else {
        assert(s.take(n) =~= s.drop_last().take(n));
        lemma_value_grows(s.drop_last(), n);
    }
}

/// The unsigned number up to `max` that `s` writes.
pub fn parse_unsigned(s: &str, max: u64) -> (n: Option<u64>)
    ensures
        match n {
            Some(n) => unsigned(s@, max as nat) == Some(n as nat),
            None => unsigned(s@, max as nat) is None,
        },
{
    let chars: Vec<char> = chars_of(s);
    let len: usize = chars.len();
    let start: usize = if len > 0 && chars[0] == '+' {
        1
    } else {
        0
    };
    let ghost body = unsigned_body(s@);
    assert(body =~= s@.skip(start as int));
    if start == len {
        return None;
    }
    let mut value: u64 = 0;
    let mut i: usize = start;
    assert(body.take(0) =~= Seq::<char>::empty());
    while i < len
        invariant
            start <= i <= len,
            len == chars.len(),
            start < len,
            chars@ == s@,
            body == unsigned_body(s@),
            body =~= s@.skip(start as int),
            all_digits(body.take(i - start)),
            value == digits_value(body.take(i - start)),
            value <= max,
        decreases len - i,
    {
        let c: char = chars[i];
        let ghost upto = body.take(i + 1 - start);
        assert(upto.drop_last() =~= body.take(i - start));
        assert(upto.last() == c);
        assert(body[i - start] == c);
        if c < '0' || c > '9' {
            return None;
        }
        let d: u64 = (c as u32 - 48) as u64;
        proof {
            lemma_value_grows(body, i + 1 - start);
        }
        if value > (u64::MAX - d) / 10 {
            return None;
        }
        let next: u64 = 10 * value + d;
        if next > max {
            return None;
        }
        assert forall|j: int| 0 <= j < upto.len() implies is_digit(#[trigger] upto[j]) by {
            if j < i - start {
                assert(upto[j] == body.take(i - start)[j]);
            }
        }
        value = next;
        i = i + 1;
    }
    assert(body.take(len - start) =~= body);
    Some(value)
}

/// `s` and `t` are the same text.
pub fn same(s: &str, t: &str) -> (b: bool)
    ensures
        b == (s@ == t@),
{
    let n: usize = s.unicode_len();
    if n != t.unicode_len() {
        return false;
    }
    let a: Vec<char> = chars_of(s);
    let b: Vec<char> = chars_of(t);
    let mut i: usize = 0;
    while i < n
        invariant
            i <= n,
            a@ == s@,
            b@ == t@,
            n == a@.len(),
            n == b@.len(),
            a@.take(i as int) == b@.take(i as int),
        decreases n - i,
    {
        if a[i] != b[i] {
            assert(s@[i as int] != t@[i as int]);
            return false;
        }
        assert(a@.take(i + 1) =~= a@.take(i as int).push(a@[i as int]));
        assert(b@.take(i + 1) =~= b@.take(i as int).push(b@[i as int]));
        i = i + 1;
    }
    assert(a@.take(n as int) =~= a@);
    assert(b@.take(n as int) =~= b@);
    true
}

proof fn lemma_decimal_reads_back(n: nat)
    ensures
        decimal(n).len() > 0,
        all_digits(decimal(n)),
        digits_value(decimal(n)) == n,
    decreases n,
{
    reveal_with_fuel(digits_value, 2);
    if n < 10 {
        assert(seq![digit_char(n)].drop_last() =~= Seq::<char>::empty());
    } else {
        lemma_decimal_reads_back(n / 10);
        assert(decimal(n).drop_last() =~= decimal(n / 10));
    }
}

/// A number that the engine wrote reads back as itself.
pub proof fn law_numbers_read_back(n: nat, max: nat)
    requires
        n <= max,
    ensures
        unsigned(decimal(n), max) == Some(n),
{
    lemma_decimal_reads_back(n);
    assert(is_digit(decimal(n)[0]));
}

/// Numbers are written without leading zeros.
pub proof fn law_numbers_lead_with_no_zero(n: nat)
    ensures
        decimal(n).len() >= 1,
        n > 0 ==> decimal(n)[0] != '0',
        n < 10 ==> decimal(n).len() == 1,
    decreases n,
{
    if n >= 10 {
        law_numbers_lead_with_no_zero(n / 10);
    }
}

pub proof fn lemma_f64_exact(n: nat)
    requires
        n <= F64_EXACT,
    ensures
        f64_of(n) == n,
{
    if n < F64_EXACT {
        assert(f64_step(n, 1) == 1);
    } else {
        assert(f64_step(n, 2) == 2);
        assert(f64_step(n, 1) == 2);
    }
}

proof fn lemma_step(n: nat, u: nat)
    requires
        u > 0,
        u == 1 || F64_EXACT * u <= 2 * n,
    ensures
        n < F64_EXACT * f64_step(n, u),
        f64_step(n, u) == 1 || F64_EXACT * f64_step(n, u) <= 2 * n,
        f64_step(n, u) >= 1,
    decreases n - u,
{
    if n >= F64_EXACT * u {
        lemma_step(n, 2 * u);
    }
}

proof fn lemma_rounds(n: nat, d: nat)
    requires
        d > 0,
    ensures
        2 * n <= 2 * (round_half_even(n, d) * d) + d,
        2 * (round_half_even(n, d) * d) <= 2 * n + d,
{
    let q = n / d;
    let r = n % d;
    vstd::arithmetic::div_mod::lemma_fundamental_div_mod(n as int, d as int);
    assert(q * d == d * q && (q + 1) * d == q * d + d) by (nonlinear_arith);
}

/// A count as a double holds it is the nearest double: exact up to the first that has a gap behind
/// it, and off by no more than one part in the double's precision behind that.
pub proof fn law_doubles_are_the_nearest(n: nat)
    ensures
        n <= F64_EXACT ==> f64_of(n) == n,
        F64_EXACT * f64_of(n) <= F64_EXACT * n + n,
        F64_EXACT * n <= F64_EXACT * f64_of(n) + n,
{
    if n <= F64_EXACT {
        lemma_f64_exact(n);
    } else {
        lemma_step(n, 1);
        let s = f64_step(n, 1);
        lemma_rounds(n, s);
        let x = f64_of(n);
        assert(F64_EXACT * x <= F64_EXACT * n + n && F64_EXACT * n <= F64_EXACT * x + n);
    }
}

/// A byte count is written to the nearest hundredth of its unit.
pub proof fn law_byte_texts_round_to_the_nearest(bytes: nat)
    requires
        bytes <= F64_EXACT,
    ensures
        2 * (hundredths(bytes, GIB as nat) * GIB) <= 200 * bytes + GIB,
        200 * bytes <= 2 * (hundredths(bytes, GIB as nat) * GIB) + GIB,
        2 * (hundredths(bytes, MIB as nat) * MIB) <= 200 * bytes + MIB,
        200 * bytes <= 2 * (hundredths(bytes, MIB as nat) * MIB) + MIB,
        gib_text(bytes) == two_decimals(hundredths(bytes, 1024 * 1024 * 1024)),
        mib_text(bytes) == two_decimals(hundredths(bytes, 1024 * 1024)),
{
    lemma_f64_exact(bytes);
    lemma_rounds(bytes * 100, GIB as nat);
    lemma_rounds(bytes * 100, MIB as nat);
}

proof fn lemma_value_splits(a: Seq<char>, x: char, y: char)
    ensures
        digits_value(a + seq![x, y]) == 100 * digits_value(a) + 10 * ((x as nat - 48) as nat) + ((
        y as nat - 48) as nat),
{
    let s = a + seq![x, y];
    assert(s.drop_last() =~= a.push(x));
    assert(a.push(x).drop_last() =~= a);
    assert(digits_value(a.push(x)) == 10 * digits_value(a) + (x as nat - 48) as nat);
    assert(digits_value(s) == 10 * digits_value(a.push(x)) + (y as nat - 48) as nat);
}

/// Hundredths read back: the two digits behind the point and the digits before it write the number.
pub proof fn law_decimals_read_back(h: nat)
    ensures
        ({
            let s = two_decimals(h);
            &&& s.len() >= 4
            &&& s[s.len() - 3] == '.'
            &&& digits_value(s.take(s.len() - 3) + s.skip(s.len() - 2)) == h
        }),
{
    reveal_strlit(".");
    let s = two_decimals(h);
    let a = decimal(h / 100);
    law_numbers_lead_with_no_zero(h / 100);
    law_numbers_lead_with_no_zero(h / 10 % 10);
    law_numbers_lead_with_no_zero(h % 10);
    lemma_decimal_reads_back(h / 100);
    let x = digit_char(h / 10 % 10);
    let y = digit_char(h % 10);
    assert(s.len() == a.len() + 3);
    assert(s.take(s.len() - 3) =~= a);
    assert(s.skip(s.len() - 2) =~= seq![x, y]);
    lemma_value_splits(a, x, y);
}

/// What is not a number is not read as one: an empty text, a bare sign, and anything with a
/// character that is no digit behind an optional sign.
pub proof fn law_only_digits_are_numbers(s: Seq<char>, max: nat, i: int)
    requires
        s.len() == 0 || s == seq!['+'] || (0 <= i < s.len() && !('0' <= s[i] <= '9') && (i > 0 || s[0]
            != '+')),
    ensures
        unsigned(s, max) is None,
{
    let body = unsigned_body(s);
    if 0 <= i < s.len() && !('0' <= s[i] <= '9') && (i > 0 || s[0] != '+') {
        if s[0] == '+' {
            assert(body[i - 1] == s[i]);
            assert(!is_digit(body[i - 1]));
        } else {
            assert(!is_digit(body[i]));
        }
    }
}

/// A plus sign changes nothing, and one more digit is worth ten times what stood before it and
/// itself; past the largest number that is asked for there is none.
pub proof fn law_digits_count_in_tens(s: Seq<char>, d: nat, max: nat)
    requires
        s.len() > 0,
        all_digits(s),
        d < 10,
    ensures
        unsigned(seq!['+'] + s, max) == unsigned(s, max),
        unsigned(s, max) matches Some(n) ==> unsigned(s.push((d + 48) as char), max) == (if 10 * n
            + d <= max {
            Some(10 * n + d)
        } else {
            None
        }),
{
    assert((seq!['+'] + s).skip(1) =~= s);
    assert(is_digit(s[0]));
    let c = (d + 48) as char;
    let t = s.push(c);
    assert(t.drop_last() =~= s);
    assert(t[0] == s[0]);
    assert(unsigned_body(t) == t);
    assert forall|i: int| 0 <= i < t.len() implies is_digit(#[trigger] t[i]) by {
        if i < s.len() {
            assert(is_digit(s[i]));
        }
    }
}

/// A text holds a pattern in upper case exactly where its characters, letter case aside, are the
/// pattern's: the small letters are the only ones that change.
pub proof fn law_upper_case_moves_only_small_letters(c: char)
    ensures
        'a' <= c <= 'z' ==> 'A' <= ascii_upper(c) <= 'Z' && ascii_upper(c) as u32 + 32 == c as u32,
        !('a' <= c <= 'z') ==> ascii_upper(c) == c,
        ascii_upper(ascii_upper(c)) == ascii_upper(c),
{
}

/// A half goes to the even neighbour, everything else to the nearest.
pub proof fn law_halves_go_to_the_even(n: nat, d: nat)
    requires
        d > 0,
    ensures
        2 * n <= 2 * (round_half_even(n, d) * d) + d,
        2 * (round_half_even(n, d) * d) <= 2 * n + d,
        2 * (round_half_even(n, d) * d) == 2 * n + d || 2 * n == 2 * (round_half_even(n, d) * d) + d
            ==> round_half_even(n, d) % 2 == 0,
{
    lemma_rounds(n, d);
    let q = n / d;
    let r = n % d;
    vstd::arithmetic::div_mod::lemma_fundamental_div_mod(n as int, d as int);
    assert(q * d == d * q && (q + 1) * d == q * d + d) by (nonlinear_arith);
}

} // verus!
