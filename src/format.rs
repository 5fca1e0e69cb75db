use vstd::prelude::*;

verus! {

pub const KB: u64 = 1024;

pub const MB: u64 = 1048576;

pub const GB: u64 = 1073741824;

/// The character of a decimal digit.
pub open spec fn digit_char(d: nat) -> char {
    seq!['0', '1', '2', '3', '4', '5', '6', '7', '8', '9'][d as int]
}

/// The decimal digits of `n`.
pub open spec fn decimal(n: nat) -> Seq<char>
    decreases n,
{
    if n < 10 {
        seq![digit_char(n)]
    } else {
        decimal(n / 10).push(digit_char(n % 10))
    }
}

/// `n / d` rounded to the nearest integer, ties to the even one.
pub open spec fn round_div(n: nat, d: nat) -> nat
    recommends
        d > 0,
{
    let q = n / d;
    let r = n % d;
    if 2 * r > d || (2 * r == d && q % 2 == 1) {
        q + 1
    } else {
        q
    }
}

/// `h` hundredths written with two decimals.
pub open spec fn with_two_decimals(h: nat) -> Seq<char> {
    decimal(h / 100) + seq!['.', digit_char((h % 100) / 10), digit_char(h % 10)]
}

/// `t` tenths written with one decimal.
pub open spec fn with_one_decimal(t: nat) -> Seq<char> {
    decimal(t / 10) + seq!['.', digit_char(t % 10)]
}

/// A byte count in the largest binary unit that it exceeds, with two
/// decimals; below one kibibyte, in bytes.
pub open spec fn size_text(size: nat) -> Seq<char> {
    if size > GB {
        with_two_decimals(round_div(size * 100, GB as nat)) + seq![' ', 'G', 'B']
    } else if size > MB {
        with_two_decimals(round_div(size * 100, MB as nat)) + seq![' ', 'M', 'B']
    } else if size > KB {
        with_two_decimals(round_div(size * 100, KB as nat)) + seq![' ', 'K', 'B']
    } else {
        decimal(size) + seq![' ', 'B']
    }
}

/// 2 to the power `k`.
pub open spec fn two_to(k: nat) -> nat
    decreases k,
{
    if k == 0 {
        1
    } else {
        2 * two_to((k - 1) as nat)
    }
}

/// The `e` with `d * 2^e <= n < d * 2^(e + 1)`, for `0 < d <= n`.
pub open spec fn binade(n: nat, d: nat) -> nat
    decreases n - d,
{
    if d == 0 || n < 2 * d {
        0
    } else {
        1 + binade(n, 2 * d)
    }
}

/// The binary64 number nearest to `n / d`, ties to the even significand, as
/// `(m, k)` standing for `m / 2^k`; for `1 <= n / d < 2^53`, where the
/// significand has 53 bits and the exponent is `52 - k`.
pub open spec fn f64_quotient(n: nat, d: nat) -> (nat, nat) {
    let k = (52 - binade(n, d)) as nat;
    (round_div(n * two_to(k), d), k)
}

/// Durations from this many milliseconds on are not held exactly by a
/// binary64 number.
pub const EXACT_MILLIS_LIMIT: u128 = 9007199254740992;

/// A duration in milliseconds, as printed from binary64 seconds: below a
/// second in milliseconds; else the seconds `s = ms / 1000` rounded to the
/// nearest binary64 number; below a minute `s` with one decimal, else the
/// floor of `s / 60` (itself rounded to binary64) in minutes and `s` modulo
/// 60 with one decimal. One decimal rounds the exact binary value to the
/// nearest tenth, ties to even.
pub open spec fn millis_text(ms: nat) -> Seq<char> {
    if ms < 1000 {
        decimal(ms) + seq![' ', 'm', 's']
    } else {
        let (m, k) = f64_quotient(ms, 1000);
        if m < 60 * two_to(k) {
            with_one_decimal(round_div(10 * m, two_to(k))) + seq![' ', 's']
        } else {
            let (m2, k2) = f64_quotient(m, 60 * two_to(k));
            decimal(m2 / two_to(k2)) + seq![' ', 'm', 'i', 'n', ' '] + with_one_decimal(
                round_div(10 * (m % (60 * two_to(k))), two_to(k)),
            ) + seq![' ', 's']
        }
    }
}

proof fn lemma_two_to_adds(a: nat, b: nat)
    ensures
        two_to(a + b) == two_to(a) * two_to(b),
    decreases a,
{
    if a > 0 {
        let a1 = (a - 1) as nat;
        lemma_two_to_adds(a1, b);
        assert(two_to(a1 + b + 1) == 2 * two_to(a1 + b));
        assert((a1 + b + 1) as nat == a + b);
        assert(two_to(a) == 2 * two_to(a1));
        assert(two_to(a) * two_to(b) == 2 * (two_to(a1) * two_to(b))) by (nonlinear_arith)
            requires
                two_to(a) == 2 * two_to(a1),
        ;
    } else {
        assert(two_to(0) == 1);
        assert(a + b == b);
    }
}

proof fn lemma_two_to_grows(a: nat, b: nat)
    requires
        a <= b,
    ensures
        1 <= two_to(a) <= two_to(b),
    decreases b,
{
    if b > 0 {
        let b1 = (b - 1) as nat;
        if a == b {
            lemma_two_to_grows(b1, b1);
        } else {
            lemma_two_to_grows(a, b1);
        }
        assert(two_to(b) == 2 * two_to(b1));
    }
}

proof fn lemma_two_to_values()
    ensures
        two_to(52) == 4503599627370496,
        two_to(53) == 9007199254740992,
        two_to(60) == 1152921504606846976,
{
    reveal_with_fuel(two_to, 61);
}

fn power_of_two(k: u128) -> (p: u128)
    requires
        k <= 60,
    ensures
        p == two_to(k as nat),
{
    let mut p: u128 = 1;
    let mut i: u128 = 0;
    while i < k
        invariant
            i <= k <= 60,
            p == two_to(i as nat),
        decreases k - i,
    {
        proof {
            lemma_two_to_grows((i + 1) as nat, 60);
            lemma_two_to_values();
        }
        p = p * 2;
        i = i + 1;
    }
    p
}

/// The binary64 number nearest to `n / d`, as `f64_quotient` states it.
fn nearest_quotient(n: u128, d: u128) -> (r: (u128, u128))
    requires
        0 < d <= n,
        d < 1152921504606846976,
        n < d * 9007199254740992,
    ensures
        r.0 == f64_quotient(n as nat, d as nat).0,
        r.1 == f64_quotient(n as nat, d as nat).1,
        r.1 <= 52,
        r.0 <= 9007199254740992,
{
    proof {
        lemma_two_to_values();
    }
    let mut dd: u128 = d;
    let mut e: u128 = 0;
    assert(two_to(0) == 1);
    while dd <= n / 2
        invariant
            0 < d <= dd <= n,
            n < d * 9007199254740992,
            dd == d * two_to(e as nat),
            binade(n as nat, d as nat) == e + binade(n as nat, dd as nat),
            e <= 52,
        decreases n - dd,
    {
        proof {
            lemma_two_to_values();
            assert(2 * dd <= n);
            assert(binade(n as nat, dd as nat) == 1 + binade(n as nat, (2 * dd) as nat));
            assert(two_to((e + 1) as nat) == 2 * two_to(e as nat));
            assert(2 * dd == d * two_to((e + 1) as nat)) by (nonlinear_arith)
                requires
                    dd == d * two_to(e as nat),
                    two_to((e + 1) as nat) == 2 * two_to(e as nat),
            ;
            if e + 1 > 52 {
                lemma_two_to_grows(53, (e + 1) as nat);
                assert(d * two_to((e + 1) as nat) >= d * 9007199254740992) by (nonlinear_arith)
                    requires
                        two_to((e + 1) as nat) >= 9007199254740992,
                        d > 0,
                ;
            }
        }
        dd = 2 * dd;
        e = e + 1;
    }
    let k = 52 - e;
    let p = power_of_two(k);
    proof {
        lemma_two_to_values();
        lemma_two_to_grows(0, k as nat);
        lemma_two_to_adds((e + 1) as nat, k as nat);
        assert(n < 2 * dd);
        assert((e + 1 + k) as nat == 53);
        assert(two_to((e + 1) as nat) == 2 * two_to(e as nat));
        assert(n * p < d * 9007199254740992) by (nonlinear_arith)
            requires
                n < 2 * dd,
                dd == d * two_to(e as nat),
                two_to((e + 1) as nat) == 2 * two_to(e as nat),
                two_to((e + 1) as nat) * p == 9007199254740992,
                p > 0,
        ;
        assert(n * p < 1152921504606846976 * 9007199254740992) by (nonlinear_arith)
            requires
                n * p < d * 9007199254740992,
                d < 1152921504606846976,
        ;
        assert(binade(n as nat, dd as nat) == 0);
    }
    let m = rounded_quotient(n * p, d);
    proof {
        assert(((n * p) as int) / (d as int) < 9007199254740992) by (nonlinear_arith)
            requires
                n * p < d * 9007199254740992,
                d > 0,
        ;
    }
    (m, k)
}

fn append_digit(s: &mut String, d: u128)
    requires
        d < 10,
    ensures
        final(s)@ == old(s)@.push(digit_char(d as nat)),
{
    let digits = "0123456789";
    proof {
        reveal_strlit("0123456789");
    }
    let one = digits.substring_char(d as usize, d as usize + 1);
    assert(one@ =~= seq![digit_char(d as nat)]);
    s.append(one);
}

fn append_decimal(s: &mut String, n: u128)
    ensures
        final(s)@ == old(s)@ + decimal(n as nat),
    decreases n,
{
    if n >= 10 {
        append_decimal(s, n / 10);
    }
    append_digit(s, n % 10);
    assert(final(s)@ =~= old(s)@ + decimal(n as nat));
}

fn append_literal(s: &mut String, lit: &str)
    ensures
        final(s)@ == old(s)@ + lit@,
{
    s.append(lit);
}

fn rounded_quotient(n: u128, d: u128) -> (r: u128)
    requires
        d > 0,
        n < u128::MAX / 2,
        d < u128::MAX / 2,
    ensures
        r == round_div(n as nat, d as nat),
{
    let q = n / d;
    let rem = n % d;
    if 2 * rem > d || (2 * rem == d && q % 2 == 1) {
        proof {
            assert(q < u128::MAX) by (nonlinear_arith)
                requires
                    q == n / d,
                    d > 0,
                    n < u128::MAX / 2,
            ;
        }
        q + 1
    } else {
        q
    }
}

fn append_two_decimals(s: &mut String, h: u128)
    ensures
        final(s)@ == old(s)@ + with_two_decimals(h as nat),
{
    append_decimal(s, h / 100);
    proof {
        reveal_strlit(".");
    }
    append_literal(s, ".");
    append_digit(s, (h % 100) / 10);
    append_digit(s, h % 10);
    assert(final(s)@ =~= old(s)@ + with_two_decimals(h as nat));
}

fn append_one_decimal(s: &mut String, t: u128)
    ensures
        final(s)@ == old(s)@ + with_one_decimal(t as nat),
{
    append_decimal(s, t / 10);
    proof {
        reveal_strlit(".");
    }
    append_literal(s, ".");
    append_digit(s, t % 10);
    assert(final(s)@ =~= old(s)@ + with_one_decimal(t as nat));
}

/// Writes a byte count for display, e.g. "1.50 KB" or "512 B".
pub fn format_size(size: u64) -> (r: String)
    ensures
        r@ == size_text(size as nat),
{
    let mut s = String::new();
    let scaled = size as u128 * 100;
    if size > GB {
        append_two_decimals(&mut s, rounded_quotient(scaled, GB as u128));
        proof {
            reveal_strlit(" GB");
        }
        append_literal(&mut s, " GB");
    } else if size > MB {
        append_two_decimals(&mut s, rounded_quotient(scaled, MB as u128));
        proof {
            reveal_strlit(" MB");
        }
        append_literal(&mut s, " MB");
    } else if size > KB {
        append_two_decimals(&mut s, rounded_quotient(scaled, KB as u128));
        proof {
            reveal_strlit(" KB");
        }
        append_literal(&mut s, " KB");
    } else {
        append_decimal(&mut s, size as u128);
        proof {
            reveal_strlit(" B");
        }
        append_literal(&mut s, " B");
    }
    assert(s@ =~= size_text(size as nat));
    s
}

/// Writes a count in decimal.
pub fn format_count(n: u64) -> (r: String)
    ensures
        r@ == decimal(n as nat),
{
    let mut s = String::new();
    append_decimal(&mut s, n as u128);
    assert(s@ =~= decimal(n as nat));
    s
}

/// Writes a duration in milliseconds for display, e.g. "250 ms", "1.5 s" or
/// "2 min 5.0 s", as it reads when computed in binary64 seconds.
pub fn format_millis(ms: u128) -> (r: String)
    requires
        ms < EXACT_MILLIS_LIMIT,
    ensures
        r@ == millis_text(ms as nat),
{
    let mut s = String::new();
    if ms < 1000 {
        append_decimal(&mut s, ms);
        proof {
            reveal_strlit(" ms");
        }
        append_literal(&mut s, " ms");
        assert(s@ =~= millis_text(ms as nat));
        return s;
    }
    let (m, k) = nearest_quotient(ms, 1000);
    let p = power_of_two(k);
    proof {
        lemma_two_to_grows(k as nat, 52);
        lemma_two_to_values();
    }
    let sixty = 60 * p;
    if m < sixty {
        append_one_decimal(&mut s, rounded_quotient(10 * m, p));
        proof {
            reveal_strlit(" s");
        }
        append_literal(&mut s, " s");
    } else {
        proof {
            assert(m < sixty * 9007199254740992) by (nonlinear_arith)
                requires
                    m <= 9007199254740992,
                    sixty >= 60,
            ;
        }
        let (m2, k2) = nearest_quotient(m, sixty);
        let p2 = power_of_two(k2);
        proof {
            lemma_two_to_grows(0, k2 as nat);
        }
        append_decimal(&mut s, m2 / p2);
        proof {
            reveal_strlit(" min ");
        }
        append_literal(&mut s, " min ");
        append_one_decimal(&mut s, rounded_quotient(10 * (m % sixty), p));
        proof {
            reveal_strlit(" s");
        }
        append_literal(&mut s, " s");
    }
    assert(s@ =~= millis_text(ms as nat));
    s
}

} // verus!
