//! Rounding a throughput value up to a "nice" number with a given count of
//! significant digits. The chart uses it to pick the ceiling of its vertical
//! axis from the largest value on display.

use vstd::prelude::*;

verus! {

/// 10 raised to the power `e`.
pub open spec fn pow10(e: nat) -> nat
    decreases e,
{
    if e == 0 {
        1
    } else {
        10 * pow10((e - 1) as nat)
    }
}

/// The number of decimal digits of `n`; 1 for the values 0 through 9.
pub open spec fn digit_count(n: nat) -> nat
    decreases n,
{
    if n < 10 {
        1
    } else {
        1 + digit_count(n / 10)
    }
}

/// What rounding up at `digit_number` significant digits produces.
///
/// A single-digit value becomes its strict successor. When `digit_number`
/// exceeds the digit count the value is returned unchanged. Otherwise the
/// digit at position `digit_number` (1-indexed from the most significant
/// digit) is incremented and every digit to its right becomes zero, which is
/// the closed form `(prefix + 1) * 10^p` for the kept prefix of the number.
pub open spec fn round_up_spec(n: nat, digit_number: nat) -> nat {
    let d = digit_count(n);
    if d == 1 {
        n + 1
    } else if digit_number > d {
        n
    } else {
        let p = (d - digit_number) as nat;
        (n / pow10(p) + 1) * pow10(p)
    }
}

pub proof fn lemma_pow10_pos(e: nat)
    ensures
        pow10(e) >= 1,
    decreases e,
{
    if e > 0 {
        lemma_pow10_pos((e - 1) as nat);
    }
}

pub proof fn lemma_pow10_monotone(e1: nat, e2: nat)
    requires
        e1 <= e2,
    ensures
        pow10(e1) <= pow10(e2),
    decreases e2,
{
    if e1 < e2 {
        lemma_pow10_monotone(e1, (e2 - 1) as nat);
        lemma_pow10_pos((e2 - 1) as nat);
    }
}

/// The value of `pow10` at the largest exponents the library works with.
pub proof fn lemma_pow10_values()
    ensures
        pow10(18) == 1_000_000_000_000_000_000,
        pow10(19) == 10_000_000_000_000_000_000,
{
    assert(pow10(19) == 10_000_000_000_000_000_000 && pow10(18) == 1_000_000_000_000_000_000) by {
        reveal_with_fuel(pow10, 20);
    }
}

/// Every value lies strictly below 10 to its own digit count, and, when
/// nonzero, no lower than 10 to one less than that count.
pub proof fn lemma_digit_count(n: nat)
    ensures
        digit_count(n) >= 1,
        n < pow10(digit_count(n)),
        n >= 1 ==> pow10((digit_count(n) - 1) as nat) <= n,
    decreases n,
{
    if n < 10 {
        assert(pow10(1) == 10) by {
            reveal_with_fuel(pow10, 2);
        }
    } else {
        lemma_digit_count(n / 10);
        let dt = digit_count((n / 10) as nat);
        assert(n == 10 * (n / 10) + n % 10 && n % 10 < 10) by {
            vstd::arithmetic::div_mod::lemma_fundamental_div_mod(n as int, 10);
            vstd::arithmetic::div_mod::lemma_mod_division_less_than_divisor(n as int, 10);
        }
        assert(n < 10 * pow10(dt));
        assert(10 * pow10(dt) == pow10(dt + 1));
        assert(pow10((dt - 1) as nat) <= n / 10);
        assert(10 * pow10((dt - 1) as nat) <= 10 * (n / 10));
    }
}

/// A value below `pow10(e)` has at most `e` digits.
pub proof fn lemma_digit_count_at_most(n: nat, e: nat)
    requires
        e >= 1,
        n < pow10(e),
    ensures
        digit_count(n) <= e,
{
    lemma_digit_count(n);
    if digit_count(n) > e {
        lemma_pow10_monotone(e, (digit_count(n) - 1) as nat);
        assert(pow10((digit_count(n) - 1) as nat) <= n);
        lemma_pow10_pos(e);
    }
}

pub proof fn lemma_pow10_adds(a: nat, b: nat)
    ensures
        pow10(a + b) == pow10(a) * pow10(b),
    decreases a,
{
    if a == 0 {
        assert(pow10(b) == 1 * pow10(b));
    } else {
        lemma_pow10_adds((a - 1) as nat, b);
        assert(10 * (pow10((a - 1) as nat) * pow10(b)) == (10 * pow10((a - 1) as nat)) * pow10(b))
            by (nonlinear_arith);
    }
}

/// Rounding never goes below the value it starts from, and always produces a
/// positive ceiling.
pub proof fn lemma_round_up_ge(n: nat, digit_number: nat)
    requires
        digit_number >= 1,
    ensures
        round_up_spec(n, digit_number) >= n,
        round_up_spec(n, digit_number) >= 1,
{
    lemma_digit_count(n);
    let d = digit_count(n);
    if d == 1 || digit_number > d {
        // the value itself, or its successor
    } else {
        let p = (d - digit_number) as nat;
        let q = n / pow10(p);
        lemma_pow10_pos(p);
        vstd::arithmetic::div_mod::lemma_fundamental_div_mod(n as int, pow10(p) as int);
        vstd::arithmetic::div_mod::lemma_mod_division_less_than_divisor(n as int, pow10(p) as int);
        assert((q + 1) * pow10(p) == pow10(p) * q + pow10(p)) by (nonlinear_arith);
    }
}

/// The digit count of `pow10(e)` is `e + 1`.
proof fn lemma_digit_count_pow10(e: nat)
    ensures
        digit_count(pow10(e)) == e + 1,
{
    lemma_pow10_pos(e);
    lemma_digit_count(pow10(e));
    let dc = digit_count(pow10(e));
    if dc <= e {
        lemma_pow10_monotone(dc, e);
    }
    if dc > e + 1 {
        lemma_pow10_monotone(e + 1, (dc - 1) as nat);
        lemma_pow10_pos(e);
        assert(pow10(e + 1) == 10 * pow10(e));
    }
}

/// The rounded value consists of at most `digit_number` leading digits
/// followed by zeros: either it has no more digits than that, or it is
/// divisible by 10 to the count of its remaining positions.
pub proof fn lemma_round_up_shape(n: nat, digit_number: nat)
    requires
        digit_number >= 1,
    ensures
        ({
            let r = round_up_spec(n, digit_number);
            digit_count(r) <= digit_number || r % pow10(
                (digit_count(r) - digit_number) as nat,
            ) == 0
        }),
{
    lemma_digit_count(n);
    let d = digit_count(n);
    let r = round_up_spec(n, digit_number);
    if d == 1 {
        // r == n + 1 <= 10
        if r < 10 {
            assert(digit_count(r) == 1);
        } else {
            assert(r == 10);
            assert(digit_count(10nat) == 2) by {
                reveal_with_fuel(digit_count, 3);
            }
            if digit_number == 1 {
                assert(pow10(1) == 10) by {
                    reveal_with_fuel(pow10, 2);
                }
                assert(10nat % 10 == 0);
            }
        }
    } else if digit_number > d {
        // r == n, whose digit count lies below digit_number
    } else {
        let p = (d - digit_number) as nat;
        let q = n / pow10(p);
        lemma_pow10_pos(p);
        lemma_pow10_adds(p, digit_number);
        // q < pow10(digit_number), because n < pow10(d) == pow10(p) * pow10(digit_number)
        assert(q < pow10(digit_number)) by (nonlinear_arith)
            requires
                n < pow10(p) * pow10(digit_number),
                pow10(p) >= 1,
                q == n / pow10(p),
        ;
        if q + 1 < pow10(digit_number) {
            assert(r < pow10(p) * pow10(digit_number)) by (nonlinear_arith)
                requires
                    r == (q + 1) * pow10(p),
                    q + 1 < pow10(digit_number),
                    pow10(p) >= 1,
            ;
            lemma_digit_count_at_most(r, d);
            let dcr = digit_count(r);
            if dcr > digit_number {
                let k = (dcr - digit_number) as nat;
                // k <= p, and pow10(k) divides r == (q + 1) * pow10(p - k) * pow10(k)
                lemma_pow10_adds((p - k) as nat, k);
                assert(r == ((q + 1) * pow10((p - k) as nat)) * pow10(k)) by (nonlinear_arith)
                    requires
                        r == (q + 1) * pow10(p),
                        pow10(p) == pow10((p - k) as nat) * pow10(k),
                ;
                vstd::arithmetic::div_mod::lemma_mod_multiples_basic(
                    ((q + 1) * pow10((p - k) as nat)) as int,
                    pow10(k) as int,
                );
            }
        } else {
            // q + 1 == pow10(digit_number), so r == pow10(d)
            assert(r == pow10(digit_number) * pow10(p)) by (nonlinear_arith)
                requires
                    r == (q + 1) * pow10(p),
                    q + 1 == pow10(digit_number),
            ;
            lemma_pow10_adds(digit_number, p);
            assert(r == pow10(d));
            lemma_digit_count_pow10(d);
            let k = (d + 1 - digit_number) as nat;
            assert(k == p + 1);
            lemma_pow10_adds((digit_number - 1) as nat, k);
            assert(r == pow10((digit_number - 1) as nat) * pow10(k));
            vstd::arithmetic::div_mod::lemma_mod_multiples_basic(
                pow10((digit_number - 1) as nat) as int,
                pow10(k) as int,
            );
        }
    }
}

/// Rounding keeps a value below 10 to its own digit count: the ceiling of a
/// nineteen-digit value still fits the machine word the chart computes with.
pub proof fn lemma_round_up_bound(n: nat, digit_number: nat)
    requires
        digit_number >= 1,
    ensures
        round_up_spec(n, digit_number) <= pow10(digit_count(n)),
{
    lemma_digit_count(n);
    let d = digit_count(n);
    if d == 1 {
        assert(pow10(1) == 10) by {
            reveal_with_fuel(pow10, 2);
        }
    } else if digit_number > d {
    } else {
        let p = (d - digit_number) as nat;
        let q = n / pow10(p);
        lemma_pow10_pos(p);
        lemma_pow10_adds(p, digit_number);
        assert(q < pow10(digit_number)) by (nonlinear_arith)
            requires
                n < pow10(p) * pow10(digit_number),
                pow10(p) >= 1,
                q == n / pow10(p),
        ;
        assert((q + 1) * pow10(p) <= pow10(digit_number) * pow10(p)) by (nonlinear_arith)
            requires
                q + 1 <= pow10(digit_number),
        ;
        lemma_pow10_adds(digit_number, p);
    }
}

/// Re-rounding at the same digit position is idempotent exactly where the
/// rounded value's digit count stays below that position: beyond a
/// multi-digit value's digits, where rounding returns the value unchanged,
/// and for the single-digit value whose successor reaches two digits while
/// the position lies beyond both. Everywhere else rounding increments a
/// digit, and its output moves again when rounded once more.
pub proof fn lemma_round_up_idempotent(n: nat, digit_number: nat)
    requires
        (digit_count(n) >= 2 && digit_number > digit_count(n)) || (n == 9 && digit_number >= 3),
    ensures
        digit_count(n) >= 2 ==> round_up_spec(n, digit_number) == n,
        round_up_spec(round_up_spec(n, digit_number), digit_number) == round_up_spec(n, digit_number),
{
    if n == 9 {
        assert(digit_count(9nat) == 1);
        assert(round_up_spec(9nat, digit_number) == 10);
        assert(digit_count(10nat) == 2) by {
            reveal_with_fuel(digit_count, 3);
        }
    }
}

/// Rounds `int_value` up to a "nice" number with `digit_number` significant
/// digits, the ceiling the chart scales its vertical axis with.
///
/// The bound on `int_value` keeps every intermediate product inside `u64`;
/// it admits any value of up to nineteen digits.
pub fn round_to_digit(int_value: u64, digit_number: usize) -> (r: u64)
    requires
        int_value < 10_000_000_000_000_000_000,
        digit_number >= 1,
    ensures
        r == round_up_spec(int_value as nat, digit_number as nat),
{
    proof {
        lemma_pow10_values();
        lemma_digit_count_at_most(int_value as nat, 19);
    }
    let mut x = int_value;
    let mut d: usize = 1;
    while x >= 10
        invariant
            digit_count(int_value as nat) == d - 1 + digit_count(x as nat),
            1 <= d <= digit_count(int_value as nat),
            digit_count(int_value as nat) <= 19,
        decreases x,
    {
        x = x / 10;
        d = d + 1;
    }
    assert(d == digit_count(int_value as nat));
    if d == 1 {
        return int_value + 1;
    }
    if digit_number > d {
        return int_value;
    }
    let p = d - digit_number;
    assert(p <= 18);
    let mut pw: u64 = 1;
    let mut i: usize = 0;
    while i < p
        invariant
            i <= p <= 18,
            pw == pow10(i as nat),
        decreases p - i,
    {
        proof {
            lemma_pow10_monotone((i + 1) as nat, 18);
            lemma_pow10_values();
        }
        pw = pw * 10;
        i = i + 1;
    }
    assert(pw == pow10(p as nat));
    proof {
        lemma_pow10_pos(p as nat);
    }
    let q = int_value / pw;
    proof {
        vstd::arithmetic::div_mod::lemma_fundamental_div_mod(int_value as int, pw as int);
        vstd::arithmetic::div_mod::lemma_mod_division_less_than_divisor(int_value as int, pw as int);
        lemma_pow10_monotone(p as nat, 18);
        lemma_pow10_values();
    }
    assert((q + 1) * pw == q * pw + pw) by (nonlinear_arith);
    assert(q * pw <= int_value) by (nonlinear_arith)
        requires
            int_value == pw * q + (int_value as int) % (pw as int),
            (int_value as int) % (pw as int) >= 0,
    ;
    (q + 1) * pw
}

} // verus!
