//! Human-readable sizes and link helpers.
//!
//! `format_size` prints a byte count the way a double-precision division
//! followed by two-decimal formatting prints it.  The computation is carried
//! out on integers: the conversion of the count to a double, the division by
//! the unit, and the rounding to hundredths are each modelled exactly
//! (round-to-nearest, ties to even) by the spec functions below.

use vstd::prelude::*;
use rand::RngExt;
use crate::text::{
    chars_of, copy_range, decimal, decimal_string, digit, digit_char, find_last_before,
    last_index_of, lemma_last_index_of_bounds, push_char, string_from_chars,
};

verus! {

pub const KB: u64 = 1000;
pub const MB: u64 = 1_000_000;
pub const GB: u64 = 1_000_000_000;

/// `2^n`.
pub open spec fn two_pow(n: nat) -> nat
    decreases n,
{
    if n == 0 {
        1
    } else {
        2 * two_pow((n - 1) as nat)
    }
}

/// The number of binary digits of `n` (zero for zero).
pub open spec fn bit_length(n: nat) -> nat
    decreases n,
{
    if n == 0 {
        0
    } else {
        1 + bit_length(n / 2)
    }
}

/// `num / den` rounded to the nearest integer, ties to the even one.
pub open spec fn round_half_even(num: nat, den: nat) -> nat {
    let q = num / den;
    let r = num % den;
    if 2 * r > den {
        q + 1
    } else if 2 * r < den {
        q
    } else if q % 2 == 0 {
        q
    } else {
        q + 1
    }
}

/// The value of `b` once converted to a double: `b` rounded to 53
/// significant bits.
pub open spec fn as_f64(b: nat) -> nat {
    if bit_length(b) <= 53 {
        b
    } else {
        let k = (bit_length(b) - 53) as nat;
        round_half_even(b, two_pow(k)) * two_pow(k)
    }
}

/// The binary shift `t` such that `num / den * 2^t` lies in `[2^52, 2^53)`
/// (for `num >= den > 0`).
pub open spec fn quotient_shift(num: nat, den: nat) -> int {
    53 - bit_length(num / den)
}

/// The 53-bit significand of the double nearest to `num / den`; the double
/// is this significand times `2^-quotient_shift(num, den)`.
pub open spec fn quotient_significand(num: nat, den: nat) -> nat {
    let t = quotient_shift(num, den);
    if t >= 0 {
        round_half_even(num * two_pow(t as nat), den)
    } else {
        round_half_even(num, den * two_pow((-t) as nat))
    }
}

/// The double nearest to `num / den`, rounded to hundredths (ties to even),
/// counted in hundredths.
pub open spec fn quotient_hundredths(num: nat, den: nat) -> nat {
    let t = quotient_shift(num, den);
    let m = quotient_significand(num, den);
    if t >= 0 {
        round_half_even(m * 100, two_pow(t as nat))
    } else {
        m * 100 * two_pow((-t) as nat)
    }
}

/// A count of hundredths written with exactly two decimals.
pub open spec fn fixed_two(h: nat) -> Seq<char> {
    decimal(h / 100).push('.').push(digit_char((h % 100) / 10)).push(digit_char(h % 10))
}

/// The text of a size of `bytes` bytes in the largest decimal unit that it
/// reaches.
pub open spec fn size_text(bytes: u64) -> Seq<char> {
    if bytes >= GB {
        fixed_two(quotient_hundredths(as_f64(bytes as nat), GB as nat)) + " Gigabytes"@
    } else if bytes >= MB {
        fixed_two(quotient_hundredths(as_f64(bytes as nat), MB as nat)) + " Megabytes"@
    } else if bytes >= KB {
        fixed_two(quotient_hundredths(as_f64(bytes as nat), KB as nat)) + " Kilobytes"@
    } else {
        decimal(bytes as nat) + " bytes"@
    }
}

proof fn lemma_two_pow_positive(n: nat)
    ensures
        two_pow(n) > 0,
    decreases n,
{
    if n > 0 {
        lemma_two_pow_positive((n - 1) as nat);
    }
}

proof fn lemma_two_pow_add(a: nat, b: nat)
    ensures
        two_pow(a + b) == two_pow(a) * two_pow(b),
    decreases a,
{
    if a > 0 {
        let a1 = (a - 1) as nat;
        lemma_two_pow_add(a1, b);
        assert(two_pow(a + b) == 2 * two_pow(a1 + b));
        assert(two_pow(a) == 2 * two_pow(a1));
        assert(2 * (two_pow(a1) * two_pow(b)) == (2 * two_pow(a1)) * two_pow(b))
            by (nonlinear_arith);
    } else {
        assert(a + b == b);
        assert(two_pow(a) == 1);
    }
}

proof fn lemma_two_pow_monotone(a: nat, b: nat)
    requires
        a <= b,
    ensures
        two_pow(a) <= two_pow(b),
    decreases b,
{
    if a < b {
        lemma_two_pow_monotone(a, (b - 1) as nat);
        lemma_two_pow_positive((b - 1) as nat);
    }
}

proof fn lemma_two_pow_64()
    ensures
        two_pow(64) == 0x1_0000_0000_0000_0000,
        two_pow(53) == 0x20_0000_0000_0000,
        two_pow(12) == 4096,
{
    reveal_with_fuel(two_pow, 65);
}

/// `n < 2^bit_length(n)`, and a positive `n` is at least
/// `2^(bit_length(n) - 1)`.
proof fn lemma_bit_length(n: nat)
    ensures
        n < two_pow(bit_length(n)),
        n > 0 ==> two_pow((bit_length(n) - 1) as nat) <= n,
        n > 0 ==> bit_length(n) >= 1,
    decreases n,
{
    if n > 0 {
        lemma_bit_length(n / 2);
        if n / 2 == 0 {
            assert(bit_length(n / 2) == 0);
        }
    }
}

/// A number below `2^k` has at most `k` binary digits.
proof fn lemma_bit_length_le(n: nat, k: nat)
    requires
        n < two_pow(k),
    ensures
        bit_length(n) <= k,
    decreases k,
{
    if k > 0 && n > 0 {
        lemma_bit_length_le(n / 2, (k - 1) as nat);
    }
}

fn two_pow_exec(n: u32) -> (p: u128)
    requires
        n <= 64,
    ensures
        p == two_pow(n as nat),
{
    proof {
        lemma_two_pow_64();
    }
    let mut p: u128 = 1;
    let mut i: u32 = 0;
    while i < n
        invariant
            i <= n <= 64,
            p == two_pow(i as nat),
            two_pow(64) == 0x1_0000_0000_0000_0000,
        decreases n - i,
    {
        proof {
            lemma_two_pow_monotone((i + 1) as nat, 64);
        }
        p = p * 2;
        i = i + 1;
    }
    p
}

fn bit_length_exec(n: u128) -> (r: u32)
    ensures
        r == bit_length(n as nat),
{
    let mut x = n;
    let mut r: u32 = 0;
    proof {
        lemma_two_pow_add(64, 64);
        lemma_two_pow_64();
        lemma_bit_length_le(n as nat, 128);
    }
    while x > 0
        invariant
            bit_length(n as nat) == r + bit_length(x as nat),
            bit_length(n as nat) <= 128,
        decreases x,
    {
        x = x / 2;
        r = r + 1;
    }
    r
}

fn round_half_even_exec(num: u128, den: u128) -> (r: u128)
    requires
        den > 0,
        num / den < u128::MAX,
    ensures
        r == round_half_even(num as nat, den as nat),
        num / den <= r <= num / den + 1,
{
    let q = num / den;
    let rem = num % den;
    if rem > den - rem {
        q + 1
    } else if rem < den - rem {
        q
    } else if q % 2 == 0 {
        q
    } else {
        q + 1
    }
}

/// From `num < den * 2^k`: `num / den < 2^k`.
proof fn lemma_quotient_below(num: nat, den: nat, p: nat)
    requires
        den > 0,
        num < den * p,
    ensures
        num / den < p,
{
    assert(num / den < p) by (nonlinear_arith)
        requires
            den > 0,
            num < den * p,
    {
        assert(den * (num / den) <= num);
    }
}

/// `num < den * (num / den + 1)`.
proof fn lemma_below_next_multiple(num: nat, den: nat)
    requires
        den > 0,
    ensures
        num < den * (num / den + 1),
{
    assert(num < den * (num / den + 1)) by (nonlinear_arith)
        requires
            den > 0,
    {
        assert(num == den * (num / den) + num % den);
    }
}

/// The double nearest to `num / den`, in hundredths.
fn quotient_hundredths_exec(num: u128, den: u128) -> (h: u128)
    requires
        0 < den <= 1_000_000_000,
        den <= num <= 0x1_0000_0000_0000_0000,
    ensures
        h == quotient_hundredths(num as nat, den as nat),
{
    let ratio = num / den;
    let bl = bit_length_exec(ratio);
    proof {
        lemma_two_pow_64();
        lemma_bit_length(ratio as nat);
        assert(ratio >= 1) by (nonlinear_arith)
            requires
                den <= num,
                den > 0,
                ratio == num / den,
        ;
        assert(ratio <= 0x1_0000_0000_0000_0000) by (nonlinear_arith)
            requires
                den >= 1,
                num <= 0x1_0000_0000_0000_0000,
                ratio == num / den,
        ;
        lemma_bit_length_le(ratio as nat, 65);
        reveal_with_fuel(two_pow, 66);
        lemma_below_next_multiple(num as nat, den as nat);
        lemma_two_pow_positive(bl as nat);
        // num < den * 2^bl
        assert(den * (ratio + 1) <= den * two_pow(bl as nat)) by (nonlinear_arith)
            requires
                ratio + 1 <= two_pow(bl as nat),
                den > 0,
        ;
    }
    if bl <= 53 {
        let t = 53 - bl;
        let p = two_pow_exec(t);
        proof {
            lemma_two_pow_add(bl as nat, t as nat);
            lemma_two_pow_positive(t as nat);
            assert(num * p < den * two_pow(53)) by (nonlinear_arith)
                requires
                    num < den * two_pow(bl as nat),
                    p == two_pow(t as nat),
                    two_pow(53) == two_pow(bl as nat) * two_pow(t as nat),
                    p > 0,
            ;
            assert(den * two_pow(53) <= 1_000_000_000 * 0x20_0000_0000_0000) by (nonlinear_arith)
                requires
                    den <= 1_000_000_000,
                    two_pow(53) == 0x20_0000_0000_0000,
            ;
            lemma_quotient_below((num * p) as nat, den as nat, two_pow(53));
        }
        let scaled = num * p;
        let m = round_half_even_exec(scaled, den);
        let h = round_half_even_exec(m * 100, p);
        proof {
            assert(quotient_shift(num as nat, den as nat) == t as int);
        }
        h
    } else {
        let s = bl - 53;
        let p = two_pow_exec(s);
        proof {
            lemma_two_pow_add(53, s as nat);
            lemma_two_pow_positive(s as nat);
            lemma_two_pow_monotone(s as nat, 12);
            assert(num < (den * p) * two_pow(53)) by (nonlinear_arith)
                requires
                    num < den * two_pow(bl as nat),
                    two_pow(bl as nat) == two_pow(53) * p,
            ;
            assert(den * p <= 1_000_000_000 * 4096) by (nonlinear_arith)
                requires
                    den <= 1_000_000_000,
                    p <= 4096,
            ;
            assert(den * p > 0) by (nonlinear_arith)
                requires
                    den > 0,
                    p > 0,
            ;
            lemma_quotient_below(num as nat, (den * p) as nat, two_pow(53));
        }
        let m = round_half_even_exec(num, den * p);
        proof {
            assert(m * 100 * p <= 0x20_0000_0000_0000 * 100 * 4096) by (nonlinear_arith)
                requires
                    m <= 0x20_0000_0000_0000,
                    p <= 4096,
            ;
            assert(quotient_shift(num as nat, den as nat) == -(s as int));
            assert((-quotient_shift(num as nat, den as nat)) as nat == s as nat);
        }
        m * 100 * p
    }
}

/// `b` converted to a double, as an integer.
fn as_f64_exec(b: u64) -> (r: u128)
    ensures
        r == as_f64(b as nat),
        b >= 0x20_0000_0000_0000 ==> r >= 0x1f_0000_0000_0000,
        b < 0x20_0000_0000_0000 ==> r == b,
        r <= 0x1_0000_0000_0000_0000,
{
    let bl = bit_length_exec(b as u128);
    proof {
        lemma_two_pow_64();
        lemma_bit_length(b as nat);
        lemma_bit_length_le(b as nat, 64);
    }
    if bl <= 53 {
        proof {
            lemma_two_pow_monotone(bl as nat, 53);
        }
        b as u128
    } else {
        let k = bl - 53;
        let p = two_pow_exec(k);
        proof {
            lemma_two_pow_add(53, k as nat);
            lemma_two_pow_positive(k as nat);
            lemma_two_pow_monotone(k as nat, 11);
            lemma_two_pow_monotone(bl as nat, 64);
            reveal_with_fuel(two_pow, 12);
            assert((b as nat) < p * two_pow(53));
            lemma_quotient_below(b as nat, p as nat, two_pow(53));
        }
        let q = round_half_even_exec(b as u128, p);
        proof {
            assert(q * p <= two_pow(53) * p) by (nonlinear_arith)
                requires
                    q <= two_pow(53),
                    p > 0,
            ;
            assert((b as nat) / (p as nat) * (p as nat) > (b as nat) - (p as nat)) by (
            nonlinear_arith)
                requires
                    p > 0,
            {
                assert(b as nat == (b as nat) / (p as nat) * (p as nat) + (b as nat) % (
                p as nat));
            }
            assert(q * p >= (b as nat) / (p as nat) * (p as nat)) by (nonlinear_arith)
                requires
                    q >= (b as nat) / (p as nat),
                    p > 0,
            ;
        }
        q * p
    }
}

/// Writes a count of hundredths with two decimals.
fn fixed_two_string(h: u128) -> (s: String)
    ensures
        s@ == fixed_two(h as nat),
{
    let mut s = decimal_string(h / 100);
    push_char(&mut s, '.');
    push_char(&mut s, digit(((h % 100) / 10) as u8));
    push_char(&mut s, digit((h % 10) as u8));
    s
}

/// Formats a byte count as bytes, kilobytes, megabytes or gigabytes
/// (decimal units), with two decimals for the larger units.
pub fn format_size(bytes: u64) -> (s: String)
    ensures
        s@ == size_text(bytes),
{
    if bytes < KB {
        let mut s = decimal_string(bytes as u128);
        s.append(" bytes");
        return s;
    }
    let value = as_f64_exec(bytes);
    let (unit, name) = if bytes >= GB {
        (GB, " Gigabytes")
    } else if bytes >= MB {
        (MB, " Megabytes")
    } else {
        (KB, " Kilobytes")
    };
    let h = quotient_hundredths_exec(value, unit as u128);
    let mut s = fixed_two_string(h);
    s.append(name);
    s
}

/// Appends `?token=<token>` to `base` when a token is given.
pub fn with_optional_token(base: &str, token: Option<&str>) -> (res: String)
    ensures
        res@ == (match token {
            Some(t) => base@ + "?token="@ + t@,
            None => base@,
        }),
{
    let mut out = base.to_owned();
    match token {
        Some(t) => {
            out.append("?token=");
            out.append(t);
            out
        },
        None => out,
    }
}

/// The `n`-th name tried for a file called `name` when that name is taken:
/// `name` itself first, then `stem(n).ext`, the counter going before the
/// last dot (when the name has a dot past its first character), or at the
/// end of the name.
pub open spec fn candidate_name(name: Seq<char>, n: nat) -> Seq<char> {
    if n == 0 {
        name
    } else {
        let i = last_index_of(name, '.');
        if i > 0 {
            name.take(i) + "("@ + decimal(n) + ")"@ + name.skip(i)
        } else {
            name + "("@ + decimal(n) + ")"@
        }
    }
}

/// `name` placed in the directory `dir`: an empty directory or an absolute
/// name leaves the name as it is, and one separator goes between the two.
pub open spec fn joined_path(dir: Seq<char>, name: Seq<char>) -> Seq<char> {
    if dir.len() == 0 || (name.len() > 0 && name[0] == '/') {
        name
    } else if dir.last() == '/' {
        dir + name
    } else {
        dir + "/"@ + name
    }
}

/// The `n`-th name tried for a file called `name`.
pub fn candidate_filename(name: &str, n: u64) -> (r: String)
    ensures
        r@ == candidate_name(name@, n as nat),
{
    if n == 0 {
        return name.to_owned();
    }
    let cs = chars_of(name);
    let len = cs.len();
    let dot = find_last_before(&cs, '.', len);
    assert(cs@.take(len as int) =~= cs@);
    let counter = decimal_string(n as u128);
    match dot {
        Some(i) if i > 0 => {
            let stem = copy_range(&cs, 0, i);
            let ext = copy_range(&cs, i, len);
            let mut out = string_from_chars(stem.as_slice());
            out.append("(");
            out.append(counter.as_str());
            out.append(")");
            let ext_s = string_from_chars(ext.as_slice());
            out.append(ext_s.as_str());
            assert(stem@ =~= name@.take(i as int));
            assert(ext@ =~= name@.skip(i as int));
            out
        },
        _ => {
            let mut out = name.to_owned();
            out.append("(");
            out.append(counter.as_str());
            out.append(")");
            out
        },
    }
}

/// Places `name` in the directory `dir`.
pub fn join_path(dir: &str, name: &str) -> (r: String)
    ensures
        r@ == joined_path(dir@, name@),
{
    let d = chars_of(dir);
    let nm = chars_of(name);
    if d.len() == 0 || (nm.len() > 0 && nm[0] == '/') {
        return name.to_owned();
    }
    let mut out = dir.to_owned();
    if d[d.len() - 1] != '/' {
        out.append("/");
    }
    out.append(name);
    out
}

/// `std::path::Path::exists`: whether something is on disk at `path`.
/// Nothing is claimed of the answer, which depends on the file system.
#[verifier::external_body]
fn path_exists(path: &str) -> bool {
    std::path::Path::new(path).exists()
}

/// Picks a name for a new file called `name` in `dir` that does not
/// overwrite anything: the first of `name`, `stem(1).ext`, `stem(2).ext`, ...
/// whose path is reported free (the last counter value is taken as it is).
/// Returns the name, its path, and the record of the existence checks made,
/// one per candidate tried, in order: the path asked about and the answer.
/// Every candidate before the chosen one was reported taken, and the chosen
/// one free (unless the counter ran out).
pub fn get_unique_filename(dir: &str, name: &str) -> (r: (
    String,
    String,
    Ghost<Seq<(Seq<char>, bool)>>,
))
    ensures
        r.2@.len() >= 1,
        r.0@ == candidate_name(name@, (r.2@.len() - 1) as nat),
        r.1@ == joined_path(dir@, r.0@),
        forall|k: int|
            0 <= k < r.2@.len() ==> (#[trigger] r.2@[k]).0 == joined_path(
                dir@,
                candidate_name(name@, k as nat),
            ),
        forall|k: int| 0 <= k < r.2@.len() - 1 ==> (#[trigger] r.2@[k]).1,
        !r.2@[r.2@.len() - 1].1 || r.2@.len() - 1 == u64::MAX,
{
    let mut n: u64 = 0;
    let ghost mut probes: Seq<(Seq<char>, bool)> = Seq::empty();
    loop
        invariant
            probes.len() == n,
            forall|k: int|
                0 <= k < probes.len() ==> (#[trigger] probes[k]).0 == joined_path(
                    dir@,
                    candidate_name(name@, k as nat),
                ),
            forall|k: int| 0 <= k < probes.len() ==> (#[trigger] probes[k]).1,
        decreases u64::MAX - n,
    {
        let candidate = candidate_filename(name, n);
        let path = join_path(dir, candidate.as_str());
        let taken = path_exists(path.as_str());
        let ghost before = probes;
        proof {
            probes = probes.push((path@, taken));
            assert forall|k: int| 0 <= k < before.len() implies #[trigger] probes[k] == before[k] by {}
        }
        if !taken || n == u64::MAX {
            return (candidate, path, Ghost(probes));
        }
        n = n + 1;
    }
}

/// Whether `c` is an ASCII letter or digit.
pub open spec fn is_ascii_alnum(c: char) -> bool {
    ('0' <= c && c <= '9') || ('a' <= c && c <= 'z') || ('A' <= c && c <= 'Z')
}

/// Characters in a link token.
pub const AUTH_TOKEN_LEN: usize = 32;

/// `rand::rng().sample(rand::distr::Alphanumeric)`: one byte drawn from the
/// thread-local generator.  Claimed, as the distribution's documentation
/// states: it is an ASCII letter or digit.
#[verifier::external_body]
fn random_alphanumeric() -> (b: u8)
    ensures
        is_ascii_alnum(b as char),
{
    rand::rng().sample(rand::distr::Alphanumeric)
}

/// A fresh random link token: 32 ASCII letters and digits.
pub fn generate_auth_token() -> (t: String)
    ensures
        t@.len() == AUTH_TOKEN_LEN,
        forall|i: int| 0 <= i < t@.len() ==> is_ascii_alnum(#[trigger] t@[i]),
{
    let mut t = String::new();
    let mut i: usize = 0;
    while i < AUTH_TOKEN_LEN
        invariant
            i <= AUTH_TOKEN_LEN,
            t@.len() == i,
            forall|k: int| 0 <= k < t@.len() ==> is_ascii_alnum(#[trigger] t@[k]),
        decreases AUTH_TOKEN_LEN - i,
    {
        let b = random_alphanumeric();
        push_char(&mut t, b as char);
        i = i + 1;
    }
    t
}

/// What ends a hosted session.
#[derive(Debug, Clone, Copy, PartialEq, Eq, Structural)]
pub enum ShutdownEvent {
    /// Ctrl+C was pressed.
    Interrupt,
    /// The process was asked to terminate.
    Terminate,
    /// The transfer finished and the session cancelled itself.
    TransferComplete,
}

/// The notice printed when a session ends, and whether the session must
/// still be cancelled (it already is when the transfer completed).
pub open spec fn shutdown_notice_of(event: ShutdownEvent) -> (Seq<char>, bool) {
    match event {
        ShutdownEvent::Interrupt => ("\n[ INFO ] : Ctrl+C received, shutting down..."@, true),
        ShutdownEvent::Terminate => ("\n[ INFO ] : Terminate signal received, shutting down..."@, true),
        ShutdownEvent::TransferComplete => (
            "\n[ INFO ] : Transfer complete, shutting down server..."@,
            false,
        ),
    }
}

/// Decides how a session ends on `event`.
pub fn shutdown_notice(event: ShutdownEvent) -> (r: (&'static str, bool))
    ensures
        (r.0@, r.1) == shutdown_notice_of(event),
        r.1 == (event != ShutdownEvent::TransferComplete),
{
    match event {
        ShutdownEvent::Interrupt => ("\n[ INFO ] : Ctrl+C received, shutting down...", true),
        ShutdownEvent::Terminate => ("\n[ INFO ] : Terminate signal received, shutting down...", true),
        ShutdownEvent::TransferComplete => (
            "\n[ INFO ] : Transfer complete, shutting down server...",
            false,
        ),
    }
}

/// A decimal representation is never empty.
proof fn lemma_decimal_nonempty(n: nat)
    ensures
        decimal(n).len() >= 1,
        n >= 10 ==> decimal(n).len() >= 2,
    decreases n,
{
    if n >= 10 {
        lemma_decimal_nonempty(n / 10);
    }
}

/// Different numbers have different decimal representations.
proof fn lemma_decimal_injective(n: nat, m: nat)
    requires
        decimal(n) == decimal(m),
    ensures
        n == m,
    decreases n,
{
    lemma_decimal_nonempty(n);
    lemma_decimal_nonempty(m);
    if n < 10 && m < 10 {
        assert(decimal(n)[0] == digit_char(n));
        assert(decimal(m)[0] == digit_char(m));
    } else if n >= 10 && m >= 10 {
        assert(decimal(n).drop_last() =~= decimal(n / 10));
        assert(decimal(m).drop_last() =~= decimal(m / 10));
        lemma_decimal_injective(n / 10, m / 10);
        assert(decimal(n).last() == digit_char(n % 10));
        assert(decimal(m).last() == digit_char(m % 10));
    }
}

/// Every attempt of the search for a free file name tries a name that no
/// other attempt tries.
pub proof fn lemma_candidates_distinct(name: Seq<char>, n: nat, m: nat)
    requires
        n != m,
    ensures
        candidate_name(name, n) != candidate_name(name, m),
{
    reveal_strlit("(");
    reveal_strlit(")");
    if n == 0 || m == 0 {
        let k = if n == 0 { m } else { n };
        lemma_decimal_nonempty(k);
        lemma_last_index_of_bounds(name, '.');
        assert(candidate_name(name, k).len() == name.len() + 2 + decimal(k).len());
        assert(candidate_name(name, n).len() != candidate_name(name, m).len());
    } else {
        let i = last_index_of(name, '.');
        lemma_last_index_of_bounds(name, '.');
        let p = if i > 0 { name.take(i) } else { name };
        let e = if i > 0 { name.skip(i) } else { Seq::<char>::empty() };
        let cn = candidate_name(name, n);
        let cm = candidate_name(name, m);
        assert(cn =~= p + "("@ + decimal(n) + ")"@ + e);
        assert(cm =~= p + "("@ + decimal(m) + ")"@ + e);
        if cn == cm {
            assert(decimal(n).len() == decimal(m).len());
            let a: int = p.len() as int + 1;
            assert(cn.subrange(a, a + decimal(n).len() as int) =~= decimal(n));
            assert(cm.subrange(a, a + decimal(m).len() as int) =~= decimal(m));
            lemma_decimal_injective(n, m);
        }
    }
}

/// A session ends by cancelling itself exactly when a signal (Ctrl+C or a
/// termination request) ends it; a finished transfer has already cancelled
/// it.
pub proof fn lemma_signals_cancel_session(event: ShutdownEvent)
    ensures
        shutdown_notice_of(event).1 <==> (event == ShutdownEvent::Interrupt || event
            == ShutdownEvent::Terminate),
        shutdown_notice_of(event).1 <==> event != ShutdownEvent::TransferComplete,
{
}

} // verus!
