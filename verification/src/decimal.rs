use vstd::prelude::*;

use crate::bytes::find_byte;
use crate::bytes::find_byte_from;
use crate::bytes::lemma_find_byte;

verus! {

broadcast use vstd::std_specs::vec::group_vec_axioms;

/// Ten to the `n`.
pub open spec fn pow10(n: nat) -> nat
    decreases n,
{
    if n == 0 {
        1
    } else {
        10 * pow10((n - 1) as nat)
    }
}

pub proof fn lemma_pow10_vals()
    ensures
        pow10(6nat) == 1_000_000,
        pow10(13nat) == 10_000_000_000_000,
{
    assert(pow10(0nat) == 1);
    assert(pow10(1nat) == 10);
    assert(pow10(2nat) == 100);
    assert(pow10(3nat) == 1000);
    assert(pow10(4nat) == 10000);
    assert(pow10(5nat) == 100000);
    assert(pow10(6nat) == 1000000);
    assert(pow10(7nat) == 10000000);
    assert(pow10(8nat) == 100000000);
    assert(pow10(9nat) == 1000000000);
    assert(pow10(10nat) == 10000000000);
    assert(pow10(11nat) == 100000000000);
    assert(pow10(12nat) == 1000000000000);
    assert(pow10(13nat) == 10000000000000);
}

/// Whether every byte is an ASCII digit.
pub open spec fn is_digit_seq(s: Seq<u8>) -> bool {
    forall|i: int| 0 <= i < s.len() ==> 48 <= #[trigger] s[i] <= 57
}

/// The value of an ASCII digit string, most significant first.
pub open spec fn digits_val(s: Seq<u8>) -> nat
    decreases s.len(),
{
    if s.len() == 0 {
        0
    } else {
        (digits_val(s.subrange(0, s.len() - 1)) * 10 + (s[s.len() - 1] - 48)) as nat
    }
}

pub proof fn lemma_digits_val_bound(s: Seq<u8>)
    requires
        is_digit_seq(s),
    ensures
        digits_val(s) < pow10(s.len()),
    decreases s.len(),
{
    if s.len() > 0 {
        let p = s.subrange(0, s.len() - 1);
        lemma_digits_val_bound(p);
        assert(digits_val(s) == digits_val(p) * 10 + (s[s.len() - 1] - 48));
        assert(pow10(s.len()) == 10 * pow10(p.len()));
    }
}

/// A digit string's value only grows as digits are appended.
pub proof fn lemma_digits_val_mono(s: Seq<u8>, i: int)
    requires
        0 <= i <= s.len(),
        is_digit_seq(s),
    ensures
        digits_val(s) >= digits_val(s.subrange(0, i)),
    decreases s.len() - i,
{
    if i == s.len() {
        assert(s.subrange(0, i) =~= s);
    } else {
        assert(s.subrange(0, i + 1).subrange(0, i) =~= s.subrange(0, i));
        assert(s.subrange(0, i + 1)[i] == s[i]);
        lemma_digits_val_mono(s, i + 1);
    }
}

/// The decimal digits of `v`, most significant first.
pub open spec fn dec_str(v: nat) -> Seq<u8>
    decreases v,
{
    if v < 10 {
        seq![(48 + v) as u8]
    } else {
        dec_str(v / 10).push((48 + v % 10) as u8)
    }
}

/// Writes the decimal digits of `v`.
pub fn dec_str_exec(v: u64) -> (r: Vec<u8>)
    ensures
        r@ == dec_str(v as nat),
    decreases v,
{
    if v < 10 {
        let mut out: Vec<u8> = Vec::new();
        out.push(48 + (v as u8));
        proof {
            assert(out@ =~= dec_str(v as nat));
        }
        out
    } else {
        let mut out = dec_str_exec(v / 10);
        out.push(48 + ((v % 10) as u8));
        out
    }
}

/// A millisecond value with a fraction of any length, read as a whole
/// number of nanoseconds; fraction digits past the sixth are truncated.
/// Rejects empty or non-digit parts, an integer part of more than thirteen
/// digits, values past `i64::MAX` nanoseconds, and exponent notation.
pub open spec fn parse_ms_spec(s: Seq<u8>) -> Option<int> {
    match find_byte(s, 46) {
        None => if 1 <= s.len() <= 13 && is_digit_seq(s) && digits_val(s) * 1_000_000
            <= i64::MAX {
            Some((digits_val(s) * 1_000_000) as int)
        } else {
            None
        },
        Some(d) => {
            let ip = s.subrange(0, d);
            let fp = s.subrange(d + 1, s.len() as int);
            let fp6 = if fp.len() <= 6 {
                fp
            } else {
                fp.subrange(0, 6)
            };
            if 1 <= ip.len() <= 13 && fp.len() >= 1 && is_digit_seq(ip) && is_digit_seq(fp)
                && digits_val(ip) * 1_000_000 + digits_val(fp6) * pow10((6 - fp6.len()) as nat)
                <= i64::MAX {
                Some((digits_val(ip) * 1_000_000 + digits_val(fp6) * pow10((6 - fp6.len()) as nat)) as int)
            } else {
                None
            }
        },
    }
}

/// Reads a digit run as a number, bounded by thirteen digits.
fn digits_exec(s: &Vec<u8>, from: usize, to: usize) -> (r: Option<u64>)
    requires
        from <= to <= s@.len(),
        to - from <= 13,
    ensures
        ({
            let part = s@.subrange(from as int, to as int);
            match r {
                Some(v) => is_digit_seq(part) && v == digits_val(part) && v < 10_000_000_000_000u64,
                None => !is_digit_seq(part),
            }
        }),
{
    let ghost part = s@.subrange(from as int, to as int);
    proof {
        lemma_pow10_mono(0nat, 13nat);
    }
    let mut acc: u64 = 0;
    let mut i: usize = from;
    while i < to
        invariant
            from <= i <= to <= s@.len(),
            to - from <= 13,
            part == s@.subrange(from as int, to as int),
            is_digit_seq(part.subrange(0, i - from)),
            acc == digits_val(part.subrange(0, i - from)),
            acc < pow10((i - from) as nat),
            pow10((i - from) as nat) <= pow10(13),
        decreases to - i,
    {
        let b = s[i];
        if b < 48 || b > 57 {
            proof {
                assert(part[i - from] == s@[i as int]);
            }
            return None;
        }
        proof {
            lemma_pow10_vals();
            assert(pow10(((i - from) + 1) as nat) == 10 * pow10((i - from) as nat));
            lemma_pow10_mono((i - from + 1) as nat, 13nat);
        }
        acc = acc * 10 + ((b - 48) as u64);
        proof {
            let k = i - from;
            assert(part.subrange(0, k + 1) =~= part.subrange(0, k).push(part[k]));
            assert(part.subrange(0, k + 1).subrange(0, k) =~= part.subrange(0, k));
            assert(part[k] == s@[i as int]);
            assert(digits_val(part.subrange(0, k + 1)) == digits_val(part.subrange(0, k)) * 10 + (
            part[k] - 48));
        }
        i += 1;
    }
    proof {
        assert(part.subrange(0, to - from) =~= part);
        lemma_pow10_vals();
        lemma_pow10_mono((to - from) as nat, 13nat);
    }
    Some(acc)
}

pub proof fn lemma_pow10_mono(a: nat, b: nat)
    requires
        a <= b,
    ensures
        pow10(a) <= pow10(b),
    decreases b,
{
    if a < b {
        lemma_pow10_mono(a, (b - 1) as nat);
    }
}

/// Ten to the `n`, for small `n`.
fn pow10_exec(n: u64) -> (r: u64)
    requires
        n <= 13,
    ensures
        r == pow10(n as nat),
    decreases n,
{
    if n == 0 {
        1
    } else {
        proof {
            lemma_pow10_vals();
            lemma_pow10_mono(n as nat, 13nat);
        }
        10 * pow10_exec(n - 1)
    }
}

/// Reads a millisecond value with an optional fraction as nanoseconds.
pub fn parse_ms_nanos(s: &Vec<u8>) -> (r: Option<i64>)
    ensures
        match r {
            Some(v) => parse_ms_spec(s@) == Some(v as int) && v >= 0,
            None => parse_ms_spec(s@) is None,
        },
{
    let n: usize = s.len();
    let dot = find_byte_from(s, 46, 0);
    proof {
        assert(s@.subrange(0, n as int) =~= s@);
    }
    match dot {
        None => {
            if n < 1 || n > 13 {
                return None;
            }
            match digits_exec(s, 0, n) {
                Some(v) => {
                    proof {
                        assert(s@.subrange(0, n as int) =~= s@);
                    }
                    let total: u64 = v * 1_000_000;
                    if total > i64::MAX as u64 {
                        return None;
                    }
                    Some(total as i64)
                },
                None => None,
            }
        },
        Some(d) => {
            if d < 1 || d > 13 {
                return None;
            }
            let fl: usize = n - d - 1;
            if fl < 1 {
                return None;
            }
            let f6: usize = if fl <= 6 {
                fl
            } else {
                6
            };
            let ghost fp = s@.subrange(d + 1, n as int);
            let ghost fp6 = if fp.len() <= 6 {
                fp
            } else {
                fp.subrange(0, 6)
            };
            proof {
                assert(forall|k: int| 0 <= k < fl ==> fp[k] == s@[d + 1 + k]);
                assert(fp6 =~= s@.subrange(d + 1, d + 1 + f6));
            }
            // the seventh fraction digit onward only has to be a digit
            let mut j: usize = d + 1 + f6;
            while j < n
                invariant
                    n == s@.len(),
                    find_byte(s@, 46) == Some(d as int),
                    1 <= d <= 13,
                    d + 1 + f6 <= j <= n,
                    1 <= fl,
                    f6 <= fl,
                    f6 <= 6,
                    fl == n - d - 1,
                    fp == s@.subrange(d + 1, n as int),
                    forall|k: int| d + 1 + f6 <= k < j ==> 48 <= #[trigger] s@[k] <= 57,
                decreases n - j,
            {
                let b = s[j];
                if b < 48 || b > 57 {
                    proof {
                        assert(fp[j - (d + 1)] == s@[j as int]);
                    }
                    return None;
                }
                j += 1;
            }
            let ip = digits_exec(s, 0, d);
            match ip {
                None => None,
                Some(iv) => {
                    let fv6 = digits_exec(s, d + 1, d + 1 + f6);
                    match fv6 {
                        None => {
                            proof {
                                let part = s@.subrange(d + 1, d + 1 + f6);
                                assert(exists|k: int|
                                    0 <= k < part.len() && !(48 <= #[trigger] part[k] <= 57)) by {
                                    assert(!is_digit_seq(part));
                                }
                                let k = choose|k: int|
                                    0 <= k < part.len() && !(48 <= #[trigger] part[k] <= 57);
                                assert(fp[k] == part[k]);
                            }
                            None
                        },
                        Some(fv) => {
                            proof {
                                assert(forall|k: int| 0 <= k < fp.len() ==> 48 <= #[trigger] fp[k]
                                    <= 57) by {
                                    assert(forall|k: int|
                                        0 <= k < f6 ==> fp[k] == #[trigger] fp6[k]);
                                }
                                assert(is_digit_seq(fp));
                            }
                            let scale = pow10_exec(6 - (f6 as u64));
                            proof {
                                lemma_pow10_vals();
                                lemma_pow10_mono(0nat, (6 - f6) as nat);
                                lemma_pow10_mono((6 - f6) as nat, 6nat);
                                lemma_digits_val_bound(fp6);
                                assert(pow10(f6 as nat) * pow10((6 - f6) as nat) == pow10(6nat))
                                    by {
                                    lemma_pow10_add(f6 as nat, (6 - f6) as nat);
                                };
                                assert(fv * scale < 1_000_000) by (nonlinear_arith)
                                    requires
                                        fv < pow10(f6 as nat),
                                        scale == pow10((6 - f6) as nat),
                                        pow10(f6 as nat) * pow10((6 - f6) as nat) == 1_000_000,
                                        scale >= 1,
                                ;
                            }
                            let total: u64 = iv * 1_000_000 + fv * scale;
                            if total > i64::MAX as u64 {
                                return None;
                            }
                            Some(total as i64)
                        },
                    }
                },
            }
        },
    }
}

pub proof fn lemma_pow10_add(a: nat, b: nat)
    ensures
        pow10(a) * pow10(b) == pow10(a + b),
    decreases a,
{
    if a == 0 {
        assert(pow10(0) == 1);
    } else {
        lemma_pow10_add((a - 1) as nat, b);
        assert(pow10(a) == 10 * pow10((a - 1) as nat));
        assert(pow10(a + b) == 10 * pow10((a + b - 1) as nat));
        assert(pow10(a) * pow10(b) == 10 * (pow10((a - 1) as nat) * pow10(b)))
            by (nonlinear_arith)
            requires
                pow10(a) == 10 * pow10((a - 1) as nat),
        ;
    }
}

/// The written form of a nanosecond count as milliseconds: the whole
/// milliseconds, then, when the remainder is not zero, a dot and six
/// fractional digits.
pub open spec fn fmt_ms_spec(v: int) -> Seq<u8> {
    let ms = v / 1_000_000;
    let frac = v % 1_000_000;
    if frac == 0 {
        dec_str(ms as nat)
    } else {
        dec_str(ms as nat) + seq![46u8] + dec_str((1_000_000 + frac) as nat).subrange(1, 7)
    }
}

/// Writes a nanosecond count as milliseconds.
pub fn fmt_ms_nanos(v: i64) -> (r: Vec<u8>)
    requires
        v >= 0,
    ensures
        r@ == fmt_ms_spec(v as int),
{
    let ms: u64 = (v as u64) / 1_000_000;
    let frac: u64 = (v as u64) % 1_000_000;
    let mut out = dec_str_exec(ms);
    if frac == 0 {
        proof {
            assert(out@ =~= fmt_ms_spec(v as int));
        }
        out
    } else {
        out.push(46);
        let padded = dec_str_exec(1_000_000 + frac);
        proof {
            lemma_dec_str_len_7(frac as nat);
        }
        let mut i: usize = 1;
        while i < 7
            invariant
                1 <= i <= 7,
                padded@ == dec_str((1_000_000 + frac) as nat),
                padded@.len() == 7,
                out@ == dec_str((v as int / 1_000_000) as nat) + seq![46u8] + padded@.subrange(
                    1,
                    i as int,
                ),
            decreases 7 - i,
        {
            out.push(padded[i]);
            proof {
                assert(padded@.subrange(1, i + 1) =~= padded@.subrange(1, i as int) + seq![
                    padded@[i as int],
                ]);
                assert(out@ =~= dec_str((v as int / 1_000_000) as nat) + seq![46u8]
                    + padded@.subrange(1, i + 1));
            }
            i += 1;
        }
        proof {
            assert(out@ =~= fmt_ms_spec(v as int));
        }
        out
    }
}

/// The padded fraction has exactly seven digits.
proof fn lemma_dec_str_len_7(frac: nat)
    requires
        frac < 1_000_000,
    ensures
        dec_str(1_000_000 + frac).len() == 7,
{
    lemma_pow10_vals();
    assert(pow10(7nat) == 10 * pow10(6nat));
    lemma_dec_str_len(1_000_000 + frac, 7);
}

proof fn lemma_dec_str_len(v: nat, n: nat)
    requires
        n >= 1,
        pow10((n - 1) as nat) <= v < pow10(n),
    ensures
        dec_str(v).len() == n,
    decreases n,
{
    if n == 1 {
        assert(pow10(0) == 1);
        assert(pow10(1) == 10);
    } else {
        assert(pow10(n) == 10 * pow10((n - 1) as nat));
        assert(pow10((n - 1) as nat) == 10 * pow10((n - 2) as nat));
        assert(v >= 10);
        assert(pow10((n - 2) as nat) <= v / 10 < pow10((n - 1) as nat)) by (nonlinear_arith)
            requires
                pow10((n - 1) as nat) <= v,
                v < pow10(n as nat),
                pow10(n as nat) == 10 * pow10((n - 1) as nat),
                pow10((n - 1) as nat) == 10 * pow10((n - 2) as nat),
        ;
        lemma_dec_str_len(v / 10, (n - 1) as nat);
    }
}


pub proof fn lemma_find_byte_none(s: Seq<u8>, b: u8)
    requires
        forall|j: int| 0 <= j < s.len() ==> s[j] != b,
    ensures
        find_byte(s, b) is None,
{
    lemma_find_byte(s, b);
    match find_byte(s, b) {
        Some(k) => {
            assert(s[k] != b);
            assert(false);
        },
        None => {},
    }
}

pub proof fn lemma_find_byte_at(s: Seq<u8>, b: u8, i: int)
    requires
        0 <= i < s.len(),
        s[i] == b,
        forall|j: int| 0 <= j < i ==> s[j] != b,
    ensures
        find_byte(s, b) == Some(i),
{
    lemma_find_byte(s, b);
    match find_byte(s, b) {
        Some(k) => {
            if k < i {
                assert(s[k] != b);
                assert(false);
            }
            if k > i {
                assert(s[i] != b);
                assert(false);
            }
        },
        None => {
            assert(s[i] != b);
            assert(false);
        },
    }
}

/// The decimal digits of a value are digits, carry the value back, and a
/// value under ten to the `n` takes at most `n` digits.
pub proof fn lemma_dec_str_digits(v: nat)
    ensures
        is_digit_seq(dec_str(v)),
        digits_val(dec_str(v)) == v,
        dec_str(v).len() >= 1,
    decreases v,
{
    if v < 10 {
        assert(dec_str(v) == seq![(48 + v) as u8]);
        assert(dec_str(v).subrange(0, 0) =~= Seq::<u8>::empty());
        assert(digits_val(dec_str(v).subrange(0, 0)) == 0);
        assert(digits_val(dec_str(v)) == v);
    } else {
        lemma_dec_str_digits(v / 10);
        let d = dec_str(v);
        assert(d == dec_str(v / 10).push((48 + v % 10) as u8));
        assert(d.subrange(0, d.len() - 1) =~= dec_str(v / 10));
        assert(digits_val(d) == digits_val(dec_str(v / 10)) * 10 + (d[d.len() - 1] - 48));
    }
}

pub proof fn lemma_dec_str_len_le(v: nat, n: nat)
    requires
        n >= 1,
        v < pow10(n),
    ensures
        dec_str(v).len() <= n,
    decreases n,
{
    if v < 10 {
    } else {
        assert(pow10(n) == 10 * pow10((n - 1) as nat));
        assert(v / 10 < pow10((n - 1) as nat));
        assert(n - 1 >= 1) by {
            if n == 1 {
                assert(pow10(1nat) == 10);
            }
        }
        lemma_dec_str_len_le(v / 10, (n - 1) as nat);
    }
}

/// The leading digit weighs ten to the rest's length.
pub proof fn lemma_digits_val_split1(s: Seq<u8>)
    requires
        s.len() >= 1,
        is_digit_seq(s),
    ensures
        digits_val(s) == (s[0] - 48) * pow10((s.len() - 1) as nat) + digits_val(
            s.subrange(1, s.len() as int),
        ),
    decreases s.len(),
{
    let n = s.len() as int;
    if n == 1 {
        assert(s.subrange(0, 0) =~= Seq::<u8>::empty());
        assert(s.subrange(1, 1) =~= Seq::<u8>::empty());
        assert(digits_val(s.subrange(0, 0)) == 0);
        assert(digits_val(s.subrange(1, 1)) == 0);
        assert(pow10(0nat) == 1);
        assert(digits_val(s) == (s[0] - 48) as nat);
        assert((s[0] - 48) * (pow10(0nat) as int) == (s[0] - 48) as int) by (nonlinear_arith)
            requires
                pow10(0nat) == 1,
        ;
    } else {
        let p = s.subrange(0, n - 1);
        assert(forall|j: int| 0 <= j < p.len() ==> p[j] == s[j]);
        lemma_digits_val_split1(p);
        let a = (s[0] - 48) as int;
        let pw = pow10((n - 2) as nat) as int;
        let mid = digits_val(s.subrange(1, n - 1)) as int;
        let last = (s[n - 1] - 48) as int;
        assert(p[0] == s[0]);
        assert(p.subrange(1, n - 1) =~= s.subrange(1, n - 1));
        assert(digits_val(p) == a * pw + mid);
        assert(digits_val(s) == digits_val(p) * 10 + last);
        let t = s.subrange(1, n);
        assert(t.subrange(0, t.len() - 1) =~= s.subrange(1, n - 1));
        assert(t[t.len() - 1] == s[n - 1]);
        assert(digits_val(t) == mid * 10 + last);
        assert(pow10((n - 1) as nat) == 10 * pow10((n - 2) as nat));
        assert((a * pw + mid) * 10 + last == a * (10 * pw) + (mid * 10 + last))
            by (nonlinear_arith);
        assert(a * (10 * pw) == a * (pow10((n - 1) as nat) as int)) by (nonlinear_arith)
            requires
                10 * pw == pow10((n - 1) as nat) as int,
        ;
        assert(digits_val(s) == a * (pow10((n - 1) as nat) as int) + digits_val(t));
    }
}

/// A written millisecond value reads back as the very nanosecond count it
/// was written from: the printed time of a stamped event carries the stamp
/// exactly.
pub proof fn lemma_fmt_parse_round_trip(v: int)
    requires
        0 <= v <= i64::MAX,
    ensures
        parse_ms_spec(fmt_ms_spec(v)) == Some(v),
{
    lemma_pow10_vals();
    let ms = (v / 1_000_000) as nat;
    let frac = (v % 1_000_000) as nat;
    let d = dec_str(ms);
    lemma_dec_str_digits(ms);
    assert(ms < pow10(13nat));
    lemma_dec_str_len_le(ms, 13);
    if frac == 0 {
        assert(fmt_ms_spec(v) == d);
        lemma_find_byte_none(d, 46);
        assert(digits_val(d) * 1_000_000 == v);
    } else {
        let d7 = dec_str((1_000_000 + frac) as nat);
        lemma_dec_str_digits((1_000_000 + frac) as nat);
        lemma_dec_str_len_7(frac);
        let fp6 = d7.subrange(1, 7);
        assert(forall|j: int| 0 <= j < fp6.len() ==> fp6[j] == d7[j + 1]);
        assert(is_digit_seq(fp6));
        let f = fmt_ms_spec(v);
        assert(f == d + seq![46u8] + fp6);
        let dl = d.len() as int;
        assert(forall|j: int| 0 <= j < dl ==> f[j] == d[j] && f[j] != 46);
        assert(f[dl] == 46);
        lemma_find_byte_at(f, 46, dl);
        let ip = f.subrange(0, dl);
        let fp = f.subrange(dl + 1, f.len() as int);
        assert(ip =~= d);
        assert(fp =~= fp6);
        assert(fp.len() == 6);
        lemma_digits_val_split1(d7);
        assert(digits_val(d7) == (d7[0] - 48) * pow10(6nat) + digits_val(fp6));
        lemma_digits_val_bound(fp6);
        assert(digits_val(fp6) < pow10(6nat));
        assert(d7[0] == 49) by {
            let lead = (d7[0] - 48) as int;
            assert(lead * 1_000_000 + digits_val(fp6) == 1_000_000 + frac);
            assert(frac < 1_000_000);
            assert(lead >= 0);
            assert(lead == 1) by (nonlinear_arith)
                requires
                    lead * 1_000_000 + digits_val(fp6) == 1_000_000 + frac,
                    0 <= digits_val(fp6) < 1_000_000,
                    0 <= frac < 1_000_000,
                    lead >= 0,
            ;
        }
        assert(digits_val(fp6) == frac);
        assert(pow10((6 - fp.len()) as nat) == 1);
        assert(digits_val(ip) * 1_000_000 + digits_val(fp) * pow10((6 - fp.len()) as nat) == v);
    }
}

} // verus!
