//! Canonical byte encodings: decimal digit strings for integers and
//! fixed-point values, and lowercase hex. Deterministic by
//! construction; the attestation and the normalizer share them.

use vstd::prelude::*;
use crate::fixed::{abs_i, fits, Fixed, BOUND, SCALE};

verus! {

/// ASCII digit test.
pub open spec fn spec_is_digit(b: u8) -> bool {
    48 <= b <= 57
}

/// Every byte is an ASCII digit.
pub open spec fn spec_all_digits(s: Seq<u8>) -> bool {
    forall|i: int| 0 <= i < s.len() ==> spec_is_digit(#[trigger] s[i])
}

/// Value of a digit string, most significant first.
pub open spec fn spec_digits_value(s: Seq<u8>) -> int
    decreases s.len(),
{
    if s.len() == 0 {
        0
    } else {
        10 * spec_digits_value(s.drop_last()) + (s.last() - 48)
    }
}

/// Canonical digit string of a natural number: no leading zeros,
/// except a lone zero.
pub open spec fn spec_digits(n: nat) -> Seq<u8>
    decreases n,
{
    if n < 10 {
        seq![(48 + n) as u8]
    } else {
        spec_digits(n / 10).push((48 + n % 10) as u8)
    }
}

/// Digit string of a natural number padded to exactly `w` digits.
pub open spec fn spec_padded(n: nat, w: nat) -> Seq<u8>
    decreases w,
{
    if w == 0 {
        Seq::<u8>::empty()
    } else {
        spec_padded(n / 10, (w - 1) as nat).push((48 + n % 10) as u8)
    }
}

/// Powers of ten.
pub open spec fn pow10(w: nat) -> int
    decreases w,
{
    if w == 0 {
        1
    } else {
        10 * pow10((w - 1) as nat)
    }
}

pub proof fn lemma_digits_shape(n: nat)
    ensures
        spec_all_digits(spec_digits(n)),
        spec_digits(n).len() >= 1,
        spec_digits_value(spec_digits(n)) == n,
    decreases n,
{
    if n < 10 {
        let s = spec_digits(n);
        assert(s =~= seq![(48 + n) as u8]);
        assert(s.drop_last() =~= Seq::<u8>::empty());
        assert(spec_digits_value(s) == 10 * spec_digits_value(s.drop_last()) + (s.last() - 48));
    } else {
        lemma_digits_shape(n / 10);
        let t = spec_digits(n / 10);
        let s = t.push((48 + n % 10) as u8);
        assert(s.drop_last() =~= t);
        assert(s.last() == (48 + n % 10) as u8);
        assert(spec_digits_value(s) == 10 * spec_digits_value(t) + (n % 10));
        vstd::arithmetic::div_mod::lemma_fundamental_div_mod(n as int, 10);
    }
}

pub proof fn lemma_pow10_pos(w: nat)
    ensures
        pow10(w) >= 1,
    decreases w,
{
    if w > 0 {
        lemma_pow10_pos((w - 1) as nat);
    }
}

pub proof fn lemma_padded_shape(n: nat, w: nat)
    requires
        n < pow10(w),
    ensures
        spec_all_digits(spec_padded(n, w)),
        spec_padded(n, w).len() == w,
        spec_digits_value(spec_padded(n, w)) == n,
    decreases w,
{
    if w == 0 {
    } else {
        let p = pow10((w - 1) as nat);
        lemma_pow10_pos((w - 1) as nat);
        assert(pow10(w) == 10 * p);
        assert(n / 10 < p) by (nonlinear_arith)
            requires
                n < 10 * p,
                p >= 1,
                n >= 0,
        ;
        lemma_padded_shape(n / 10, (w - 1) as nat);
        let t = spec_padded(n / 10, (w - 1) as nat);
        let s = t.push((48 + n % 10) as u8);
        assert(s.drop_last() =~= t);
        assert(s.last() == (48 + n % 10) as u8);
        assert(spec_digits_value(s) == 10 * spec_digits_value(t) + (n % 10));
        vstd::arithmetic::div_mod::lemma_fundamental_div_mod(n as int, 10);
    }
}

/// Appends the canonical digits of `n`.
pub fn push_digits(out: &mut Vec<u8>, n: u128)
    ensures
        final(out)@ == old(out)@ + spec_digits(n as nat),
    decreases n,
{
    if n < 10 {
        out.push(48 + n as u8);
        proof {
            assert(final(out)@ =~= old(out)@ + spec_digits(n as nat));
        }
    } else {
        push_digits(out, n / 10);
        out.push(48 + (n % 10) as u8);
        proof {
            assert(final(out)@ =~= old(out)@ + spec_digits(n as nat));
        }
    }
}

/// Appends exactly `w` digits of `n`, zero-padded.
pub fn push_padded(out: &mut Vec<u8>, n: u64, w: u32)
    ensures
        final(out)@ == old(out)@ + spec_padded(n as nat, w as nat),
    decreases w,
{
    if w == 0 {
        proof {
            assert(final(out)@ =~= old(out)@ + spec_padded(n as nat, 0));
        }
    } else {
        push_padded(out, n / 10, w - 1);
        out.push(48 + (n % 10) as u8);
        proof {
            assert(final(out)@ =~= old(out)@ + spec_padded(n as nat, w as nat));
        }
    }
}

/// Canonical bytes of a fixed-point value: optional minus sign, the
/// whole units, a dot, and all fourteen fraction digits.
pub open spec fn spec_fixed_bytes(m: int) -> Seq<u8> {
    let sign: Seq<u8> = if m < 0 {
        seq![45u8]
    } else {
        Seq::<u8>::empty()
    };
    sign + spec_digits((abs_i(m) / (SCALE as int)) as nat) + seq![46u8] + spec_padded(
        (abs_i(m) % (SCALE as int)) as nat,
        14,
    )
}

/// Appends the canonical bytes of a value.
pub fn push_fixed_bytes(out: &mut Vec<u8>, v: Fixed)
    ensures
        final(out)@ == old(out)@ + spec_fixed_bytes(v@),
{
    let m: i128 = v.mantissa();
    let a: u128 = if m < 0 {
        out.push(45);
        (-m) as u128
    } else {
        m as u128
    };
    push_digits(out, a / (SCALE as u128));
    out.push(46);
    push_padded(out, (a % (SCALE as u128)) as u64, 14);
    proof {
        assert(final(out)@ =~= old(out)@ + spec_fixed_bytes(v@));
    }
}

/// Appends the canonical digits of a signed 64-bit value.
pub fn push_i64_digits(out: &mut Vec<u8>, v: i64)
    ensures
        final(out)@ == old(out)@ + spec_i64_bytes(v as int),
{
    let a: u128 = if v < 0 {
        out.push(45);
        (-(v as i128)) as u128
    } else {
        v as u128
    };
    push_digits(out, a);
    proof {
        assert(final(out)@ =~= old(out)@ + spec_i64_bytes(v as int));
    }
}

/// Canonical bytes of a signed integer.
pub open spec fn spec_i64_bytes(v: int) -> Seq<u8> {
    if v < 0 {
        seq![45u8] + spec_digits((-v) as nat)
    } else {
        spec_digits(v as nat)
    }
}

/// Index of the first occurrence of `b`, or -1.
pub open spec fn spec_find_byte(s: Seq<u8>, b: u8) -> int
    decreases s.len(),
{
    if s.len() == 0 {
        -1
    } else if s[0] == b {
        0
    } else {
        let r = spec_find_byte(s.subrange(1, s.len() as int), b);
        if r == -1 {
            -1
        } else {
            r + 1
        }
    }
}

proof fn lemma_find_byte_characterizes(s: Seq<u8>, b: u8)
    ensures
        spec_find_byte(s, b) == -1 ==> forall|j: int| 0 <= j < s.len() ==> s[j] != b,
        spec_find_byte(s, b) != -1 ==> 0 <= spec_find_byte(s, b) < s.len() && s[spec_find_byte(
            s,
            b,
        )] == b && forall|j: int| 0 <= j < spec_find_byte(s, b) ==> s[j] != b,
    decreases s.len(),
{
    if s.len() > 0 && s[0] != b {
        let t = s.subrange(1, s.len() as int);
        assert(forall|j: int| 0 <= j < t.len() ==> t[j] == s[j + 1]);
        lemma_find_byte_characterizes(t, b);
        let r = spec_find_byte(t, b);
        if r == -1 {
            assert forall|j: int| 0 <= j < s.len() implies s[j] != b by {
                if j > 0 {
                    assert(t[j - 1] == s[j]);
                }
            }
        } else {
            assert(t[r] == s[r + 1]);
            assert forall|j: int| 0 <= j < r + 1 implies s[j] != b by {
                if j > 0 {
                    assert(t[j - 1] == s[j]);
                }
            }
        }
    }
}

proof fn lemma_find_byte_first(s: Seq<u8>, b: u8, i: int)
    requires
        0 <= i < s.len(),
        s[i] == b,
        forall|j: int| 0 <= j < i ==> s[j] != b,
    ensures
        spec_find_byte(s, b) == i,
    decreases i,
{
    if i > 0 {
        let t = s.subrange(1, s.len() as int);
        assert(forall|j: int| 0 <= j < t.len() ==> t[j] == s[j + 1]);
        lemma_find_byte_first(t, b, i - 1);
    }
}

proof fn lemma_find_byte_none(s: Seq<u8>, b: u8)
    requires
        forall|j: int| 0 <= j < s.len() ==> s[j] != b,
    ensures
        spec_find_byte(s, b) == -1,
    decreases s.len(),
{
    if s.len() > 0 {
        let t = s.subrange(1, s.len() as int);
        assert(forall|j: int| 0 <= j < t.len() ==> t[j] == s[j + 1]);
        lemma_find_byte_none(t, b);
    }
}

pub proof fn lemma_digits_value_nonneg(s: Seq<u8>)
    requires
        spec_all_digits(s),
    ensures
        spec_digits_value(s) >= 0,
    decreases s.len(),
{
    if s.len() > 0 {
        assert(spec_all_digits(s.drop_last()));
        lemma_digits_value_nonneg(s.drop_last());
    }
}

pub proof fn lemma_digits_value_take_le(s: Seq<u8>, i: int)
    requires
        spec_all_digits(s),
        0 <= i <= s.len(),
    ensures
        spec_digits_value(s.take(i)) <= spec_digits_value(s),
    decreases s.len() - i,
{
    if i == s.len() {
        assert(s.take(i) =~= s);
    } else {
        assert(s.take(i + 1).drop_last() =~= s.take(i));
        assert(s.take(i + 1).last() == s[i]);
        assert(spec_all_digits(s.take(i)));
        lemma_digits_value_nonneg(s.take(i));
        lemma_digits_value_take_le(s, i + 1);
    }
}

pub proof fn lemma_digits_value_upper(s: Seq<u8>)
    requires
        spec_all_digits(s),
    ensures
        spec_digits_value(s) < pow10(s.len()),
    decreases s.len(),
{
    if s.len() > 0 {
        assert(spec_all_digits(s.drop_last()));
        lemma_digits_value_upper(s.drop_last());
        assert(pow10(s.len()) == 10 * pow10((s.len() - 1) as nat));
    }
}

/// Value of a decimal byte string: optional minus sign, at least one
/// whole digit, and optionally a dot followed by one to fourteen
/// fraction digits; `None` on any other shape.
pub open spec fn spec_decimal_value(s: Seq<u8>) -> Option<int> {
    let negative = s.len() > 0 && s[0] == 45;
    let body = if negative {
        s.subrange(1, s.len() as int)
    } else {
        s
    };
    let dot = spec_find_byte(body, 46);
    if dot == -1 {
        if body.len() >= 1 && spec_all_digits(body) {
            let mag = spec_digits_value(body) * (SCALE as int);
            Some(
                if negative {
                    -mag
                } else {
                    mag
                },
            )
        } else {
            None
        }
    } else {
        let ip = body.take(dot);
        let fp = body.subrange(dot + 1, body.len() as int);
        if ip.len() >= 1 && 1 <= fp.len() <= 14 && spec_all_digits(ip) && spec_all_digits(fp) {
            let mag = spec_digits_value(ip) * (SCALE as int) + spec_digits_value(fp) * pow10(
                (14 - fp.len()) as nat,
            );
            Some(
                if negative {
                    -mag
                } else {
                    mag
                },
            )
        } else {
            None
        }
    }
}

pub proof fn lemma_pow10_le(a: nat, b: nat)
    requires
        a <= b,
    ensures
        pow10(a) <= pow10(b),
    decreases b,
{
    lemma_pow10_pos(a);
    if a < b {
        lemma_pow10_le(a, (b - 1) as nat);
        lemma_pow10_pos((b - 1) as nat);
    }
}

pub proof fn lemma_pow10_mul(a: nat, b: nat)
    ensures
        pow10(a) * pow10(b) == pow10((a + b) as nat),
    decreases b,
{
    if b == 0 {
        assert(pow10(a) * 1 == pow10(a)) by (nonlinear_arith);
    } else {
        lemma_pow10_mul(a, (b - 1) as nat);
        assert(pow10(a) * (10 * pow10((b - 1) as nat)) == 10 * (pow10(a) * pow10(
            (b - 1) as nat,
        ))) by (nonlinear_arith);
    }
}

proof fn lemma_pow10_values()
    ensures
        pow10(13) == 10_000_000_000_000int,
        pow10(14) == 100_000_000_000_000int,
{
    reveal_with_fuel(pow10, 16);
}

proof fn lemma_parse_overflow(body: Seq<u8>, k: int, acc: int)
    requires
        0 <= k <= body.len(),
        spec_all_digits(body.take(k)),
        acc == spec_digits_value(body.take(k)),
        acc > 100_000,
        forall|j: int| 0 <= j < k ==> body[j] != 46,
    ensures
        spec_all_digits(body) ==> spec_digits_value(body) * (SCALE as int) > BOUND as int,
        spec_find_byte(body, 46) != -1 ==> (spec_all_digits(
            body.take(spec_find_byte(body, 46)),
        ) && spec_all_digits(
            body.subrange(spec_find_byte(body, 46) + 1, body.len() as int),
        ) ==> spec_digits_value(body.take(spec_find_byte(body, 46))) * (SCALE as int)
            + spec_digits_value(body.subrange(spec_find_byte(body, 46) + 1, body.len() as int))
            * pow10(
            (14 - body.subrange(spec_find_byte(body, 46) + 1, body.len() as int).len()) as nat,
        ) > BOUND as int),
{
    if spec_all_digits(body) {
        lemma_digits_value_take_le(body, k);
        assert(spec_digits_value(body) * (SCALE as int) > BOUND as int) by (nonlinear_arith)
            requires
                spec_digits_value(body) > 100_000,
        ;
    }
    lemma_find_byte_characterizes(body, 46);
    let dot = spec_find_byte(body, 46);
    if dot != -1 {
        assert(dot >= k);
        let ip = body.take(dot);
        let fp = body.subrange(dot + 1, body.len() as int);
        if spec_all_digits(ip) && spec_all_digits(fp) {
            assert(ip.take(k) =~= body.take(k));
            lemma_digits_value_take_le(ip, k);
            lemma_digits_value_nonneg(fp);
            lemma_pow10_pos((14 - fp.len()) as nat);
            assert(spec_digits_value(ip) * (SCALE as int) > BOUND as int && spec_digits_value(fp)
                * pow10((14 - fp.len()) as nat) >= 0) by (nonlinear_arith)
                requires
                    spec_digits_value(ip) > 100_000,
                    spec_digits_value(fp) >= 0,
                    pow10((14 - fp.len()) as nat) >= 1,
            ;
        }
    }
}

/// Parses a decimal byte string into a fixed-point value; `None` on a
/// malformed string or a value outside the representable range.
pub fn parse_decimal(s: &Vec<u8>) -> (r: Option<Fixed>)
    ensures
        match r {
            Some(v) => spec_decimal_value(s@) == Some(v@),
            None => (match spec_decimal_value(s@) {
                Some(x) => !fits(x),
                None => true,
            }),
        },
{
    let n = s.len();
    let negative = n > 0 && s[0] == 45;
    let start: usize = if negative {
        1
    } else {
        0
    };
    let ghost body = if negative {
        s@.subrange(1, n as int)
    } else {
        s@
    };
    proof {
        assert(body.len() == n - start);
        assert(forall|j: int| 0 <= j < body.len() ==> body[j] == s@[j + start]);
    }
    let mut i: usize = start;
    let mut int_acc: i128 = 0;
    let mut int_len: usize = 0;
    while i < n && s[i] != 46
        invariant
            start <= i <= n,
            n == s@.len(),
            start == (if negative {
                1int
            } else {
                0int
            }),
            negative == (n > 0 && s@[0] == 45),
            body == (if negative {
                s@.subrange(1, n as int)
            } else {
                s@
            }),
            body.len() == n - start,
            forall|j: int| 0 <= j < body.len() ==> body[j] == s@[j + start],
            int_len == i - start,
            spec_all_digits(body.take(int_len as int)),
            int_acc as int == spec_digits_value(body.take(int_len as int)),
            0 <= int_acc <= 100_000,
            forall|j: int| 0 <= j < int_len ==> body[j] != 46,
        decreases n - i,
    {
        let c = s[i];
        if c < 48 || c > 57 {
            proof {
                lemma_find_byte_characterizes(body, 46);
                let dot = spec_find_byte(body, 46);
                if dot != -1 {
                    assert(body[int_len as int] == c && c != 46);
                    assert(dot > int_len as int);
                    assert(body.take(dot)[int_len as int] == c);
                }
            }
            return None;
        }
        proof {
            assert(body.take(int_len as int + 1).drop_last() =~= body.take(int_len as int));
            assert(body.take(int_len as int + 1).last() == body[int_len as int]);
        }
        int_acc = int_acc * 10 + ((c - 48) as i128);
        int_len = int_len + 1;
        i = i + 1;
        if int_acc > 100_000 {
            proof {
                lemma_parse_overflow(body, int_len as int, int_acc as int);
            }
            return None;
        }
    }
    if int_len == 0 {
        proof {
            if i < n {
                lemma_find_byte_first(body, 46, 0);
            } else {
                lemma_find_byte_none(body, 46);
            }
        }
        return None;
    }
    if i == n {
        proof {
            lemma_find_byte_none(body, 46);
            assert(body.take(int_len as int) =~= body);
            assert((int_acc as int) * (SCALE as int) <= (BOUND as int)) by (nonlinear_arith)
                requires
                    0 <= int_acc <= 100_000,
            ;
        }
        let m: i128 = int_acc * SCALE;
        let v = Fixed::from_mantissa(
            if negative {
                -m
            } else {
                m
            },
        );
        return Some(v);
    }
    // s[i] is the first dot
    proof {
        lemma_find_byte_first(body, 46, int_len as int);
    }
    let ghost dot = int_len as int;
    let ghost ip = body.take(dot);
    let ghost fp = body.subrange(dot + 1, body.len() as int);
    proof {
        assert(ip =~= body.take(int_len as int));
        assert(forall|j: int| 0 <= j < fp.len() ==> fp[j] == body[dot + 1 + j]);
    }
    i = i + 1;
    let frac_start = i;
    let mut frac_acc: u64 = 0;
    let mut frac_len: usize = 0;
    while i < n
        invariant
            frac_start <= i <= n,
            n == s@.len(),
            start == (if negative {
                1int
            } else {
                0int
            }),
            body == (if negative {
                s@.subrange(1, n as int)
            } else {
                s@
            }),
            body.len() == n - start,
            forall|j: int| 0 <= j < body.len() ==> body[j] == s@[j + start],
            dot == int_len as int,
            frac_start == start + int_len + 1,
            spec_find_byte(body, 46) == dot,
            ip == body.take(dot),
            fp == body.subrange(dot + 1, body.len() as int),
            fp.len() == n - frac_start,
            forall|j: int| 0 <= j < fp.len() ==> fp[j] == s@[frac_start + j],
            int_len >= 1,
            spec_all_digits(ip),
            int_acc as int == spec_digits_value(ip),
            0 <= int_acc <= 100_000,
            negative == (n > 0 && s@[0] == 45),
            frac_len == i - frac_start,
            frac_len <= 14,
            spec_all_digits(fp.take(frac_len as int)),
            frac_acc as int == spec_digits_value(fp.take(frac_len as int)),
            (frac_acc as int) < pow10(frac_len as nat),
        decreases n - i,
    {
        let c = s[i];
        if c < 48 || c > 57 {
            proof {
                assert(fp[frac_len as int] == c);
            }
            return None;
        }
        if frac_len == 14 {
            proof {
                assert(fp.len() > 14);
            }
            return None;
        }
        proof {
            assert(fp.take(frac_len as int + 1).drop_last() =~= fp.take(frac_len as int));
            assert(fp.take(frac_len as int + 1).last() == fp[frac_len as int]);
            lemma_pow10_le(frac_len as nat, 13);
            lemma_pow10_pos(frac_len as nat);
            lemma_pow10_values();
        }
        frac_acc = frac_acc * 10 + ((c - 48) as u64);
        frac_len = frac_len + 1;
        i = i + 1;
    }
    if frac_len == 0 {
        return None;
    }
    proof {
        assert(fp.take(frac_len as int) =~= fp);
    }
    let mut f: u64 = 1;
    let mut k: usize = frac_len;
    while k < 14
        invariant
            frac_len <= k <= 14,
            f as int == pow10((k - frac_len) as nat),
        decreases 14 - k,
    {
        proof {
            lemma_pow10_le((k - frac_len) as nat, 13);
            lemma_pow10_pos((k - frac_len) as nat);
            lemma_pow10_values();
        }
        f = f * 10;
        k = k + 1;
    }
    proof {
        lemma_pow10_mul(frac_len as nat, (14 - frac_len) as nat);
        lemma_pow10_pos((14 - frac_len) as nat);
        lemma_digits_value_nonneg(fp);
        assert((frac_acc as int) * (f as int) < pow10(frac_len as nat) * pow10(
            (14 - frac_len) as nat,
        ) && 0 <= (frac_acc as int) * (f as int)) by (nonlinear_arith)
            requires
                0 <= (frac_acc as int) < pow10(frac_len as nat),
                0 < f as int,
                f as int == pow10((14 - frac_len) as nat),
        ;
        lemma_pow10_values();
        assert((int_acc as int) * (SCALE as int) <= BOUND as int) by (nonlinear_arith)
            requires
                0 <= int_acc <= 100_000,
        ;
    }
    let frac_scaled: i128 = (frac_acc as i128) * (f as i128);
    let m: i128 = int_acc * SCALE + frac_scaled;
    if m > BOUND {
        return None;
    }
    let v = Fixed::from_mantissa(
        if negative {
            -m
        } else {
            m
        },
    );
    Some(v)
}

/// Round trip: parsing the canonical bytes of a representable value
/// recovers exactly that value.
pub proof fn lemma_decimal_round_trip(m: int)
    requires
        fits(m),
    ensures
        spec_decimal_value(spec_fixed_bytes(m)) == Some(m),
{
    let a = abs_i(m);
    let whole = (a / (SCALE as int)) as nat;
    let frac = (a % (SCALE as int)) as nat;
    vstd::arithmetic::div_mod::lemma_mod_division_less_than_divisor(a, SCALE as int);
    vstd::arithmetic::div_mod::lemma_div_pos_is_pos(a, SCALE as int);
    lemma_pow10_values();
    lemma_digits_shape(whole);
    lemma_padded_shape(frac, 14);
    let d = spec_digits(whole);
    let p = spec_padded(frac, 14);
    let s = spec_fixed_bytes(m);
    let body = if m < 0 {
        s.subrange(1, s.len() as int)
    } else {
        s
    };
    assert(body =~= d + seq![46u8] + p);
    assert(s.len() > 0);
    if m < 0 {
        assert(s[0] == 45);
    } else {
        assert(s[0] == d[0]);
        assert(spec_is_digit(d[0]));
    }
    assert(body[d.len() as int] == 46);
    assert forall|j: int| 0 <= j < d.len() implies body[j] != 46 by {
        assert(body[j] == d[j]);
        assert(spec_is_digit(d[j]));
    }
    lemma_find_byte_first(body, 46, d.len() as int);
    let ip = body.take(d.len() as int);
    let fp = body.subrange(d.len() as int + 1, body.len() as int);
    assert(ip =~= d);
    assert(fp =~= p);
    vstd::arithmetic::div_mod::lemma_fundamental_div_mod(a, SCALE as int);
    assert(pow10((14 - 14) as nat) == 1);
    assert(spec_digits_value(d) * (SCALE as int) == (a / (SCALE as int)) * (SCALE as int));
    assert((a / (SCALE as int)) * (SCALE as int) + a % (SCALE as int) == a) by (nonlinear_arith)
        requires
            a == (SCALE as int) * (a / (SCALE as int)) + a % (SCALE as int),
    ;
    assert(spec_digits_value(p) * 1 == spec_digits_value(p)) by (nonlinear_arith);
}

/// One lowercase hex digit.
pub open spec fn spec_hex_digit(n: int) -> u8 {
    if n < 10 {
        (48 + n) as u8
    } else {
        (87 + n) as u8
    }
}

/// Lowercase hex encoding: two digits per byte, in order.
pub open spec fn spec_hex_of(s: Seq<u8>) -> Seq<u8>
    decreases s.len(),
{
    if s.len() == 0 {
        Seq::<u8>::empty()
    } else {
        spec_hex_of(s.drop_last()) + seq![
            spec_hex_digit(s.last() as int / 16),
            spec_hex_digit(s.last() as int % 16),
        ]
    }
}

/// Hex-encodes a byte string.
pub fn hex_bytes(data: &Vec<u8>) -> (r: Vec<u8>)
    ensures
        r@ == spec_hex_of(data@),
{
    let n = data.len();
    let mut out: Vec<u8> = Vec::new();
    let mut i: usize = 0;
    while i < n
        invariant
            i <= n,
            n == data@.len(),
            out@ == spec_hex_of(data@.take(i as int)),
        decreases n - i,
    {
        proof {
            assert(data@.take(i as int + 1).drop_last() =~= data@.take(i as int));
            assert(data@.take(i as int + 1).last() == data@[i as int]);
        }
        let b = data[i];
        let hi = b / 16;
        let lo = b % 16;
        out.push(
            if hi < 10 {
                48 + hi
            } else {
                87 + hi
            },
        );
        out.push(
            if lo < 10 {
                48 + lo
            } else {
                87 + lo
            },
        );
        proof {
            assert(out@ =~= spec_hex_of(data@.take(i as int + 1)));
        }
        i = i + 1;
    }
    proof {
        assert(data@.take(n as int) =~= data@);
    }
    out
}

} // verus!
