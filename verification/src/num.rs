//! Fixed-point numbers for the blackboard.
//!
//! A number is stored as a count of thousandths (millis), in an `i64`.
//! Literals carry up to three fractional digits; anything finer is cut
//! off. Arithmetic saturates at the `i64` bounds, and the query language
//! reduces a number to its floor, held to the `i32` range.
use vstd::prelude::*;

use crate::text::{is_digit, find_at, lemma_find_at_bounds};

verus! {

/// Value of a run of decimal digits.
pub open spec fn dec_val(s: Seq<u8>) -> int
    decreases s.len(),
{
    if s.len() == 0 {
        0
    } else {
        dec_val(s.drop_last()) * 10 + (s.last() - 48)
    }
}

/// Every byte of `s[a..b]` is a decimal digit.
pub open spec fn digits_in(s: Seq<u8>, a: int, b: int) -> bool {
    forall|k: int| a <= k < b ==> is_digit(#[trigger] s[k])
}

/// Decimal rendering of a non-negative integer.
pub open spec fn dec_rep(n: int) -> Seq<u8>
    decreases n,
{
    if n < 10 {
        seq![(48 + if n >= 0 { n } else { 0 }) as u8]
    } else {
        dec_rep(n / 10) + seq![(48 + n % 10) as u8]
    }
}

pub open spec fn pow10(k: int) -> int
    decreases k,
{
    if k <= 0 {
        1
    } else {
        10 * pow10(k - 1)
    }
}

/// One past the sign, if any: where the digits of a literal begin.
pub open spec fn num_start(s: Seq<u8>) -> int {
    if s.len() > 0 && s[0] == 45 {
        1
    } else {
        0
    }
}

/// `s` is a number literal: an optional minus sign, then digits, then
/// optionally a dot followed by at least one digit.
pub open spec fn is_num_lit(s: Seq<u8>) -> bool {
    let i0 = num_start(s);
    match find_at(s, seq![46u8], i0) {
        Option::None => s.len() > i0 && digits_in(s, i0, s.len() as int),
        Option::Some(d) => {
            &&& d > i0
            &&& digits_in(s, i0, d)
            &&& d + 1 < s.len()
            &&& digits_in(s, d + 1, s.len() as int)
        },
    }
}

/// Millis contributed by the fractional digits `f`; digits past the
/// third are cut off.
pub open spec fn frac_millis_of(f: Seq<u8>) -> int {
    let f3 = if f.len() <= 3 {
        f
    } else {
        f.subrange(0, 3)
    };
    dec_val(f3) * pow10(3 - f3.len())
}

/// Exact mathematical value, in millis, of the number literal `s`.
pub open spec fn num_millis(s: Seq<u8>) -> int {
    let i0 = num_start(s);
    let v = match find_at(s, seq![46u8], i0) {
        Option::None => dec_val(s.subrange(i0, s.len() as int)) * 1000,
        Option::Some(d) => dec_val(s.subrange(i0, d)) * 1000 + frac_millis_of(
            s.subrange(d + 1, s.len() as int),
        ),
    };
    if num_start(s) == 1 {
        -v
    } else {
        v
    }
}

/// `x` held to the `i64` range.
pub open spec fn clamp_millis(x: int) -> int {
    if x > i64::MAX {
        i64::MAX as int
    } else if x < i64::MIN {
        i64::MIN as int
    } else {
        x
    }
}

/// `x` held to the `i32` range.
pub open spec fn clamp_i32(x: int) -> int {
    if x > i32::MAX {
        i32::MAX as int
    } else if x < i32::MIN {
        i32::MIN as int
    } else {
        x
    }
}

/// Fractional digits of `r` millis (0 < r < 1000), trailing zeros cut.
pub open spec fn frac_rep(r: int) -> Seq<u8> {
    let d1 = r / 100;
    let d2 = (r / 10) % 10;
    let d3 = r % 10;
    if r == 0 {
        seq![]
    } else if d3 != 0 {
        seq![46u8, (48 + d1) as u8, (48 + d2) as u8, (48 + d3) as u8]
    } else if d2 != 0 {
        seq![46u8, (48 + d1) as u8, (48 + d2) as u8]
    } else {
        seq![46u8, (48 + d1) as u8]
    }
}

/// Canonical rendering of `m` millis as a number literal.
pub open spec fn num_rep(m: int) -> Seq<u8> {
    let a = if m >= 0 {
        m
    } else {
        -m
    };
    let sign: Seq<u8> = if m < 0 {
        seq![45u8]
    } else {
        seq![]
    };
    sign + dec_rep(a / 1000) + frac_rep(a % 1000)
}

/// The decimal rendering of a non-negative integer holds only digits
/// and reads back to the same value.
pub proof fn lemma_dec_rep(n: int)
    requires
        n >= 0,
    ensures
        dec_rep(n).len() >= 1,
        digits_in(dec_rep(n), 0, dec_rep(n).len() as int),
        dec_val(dec_rep(n)) == n,
    decreases n,
{
    if n < 10 {
        let s = dec_rep(n);
        assert(s =~= seq![(48 + n) as u8]);
        assert(s.drop_last() =~= Seq::<u8>::empty());
        assert(dec_val(Seq::<u8>::empty()) == 0);
        assert(dec_val(s) == n);
    } else {
        vstd::arithmetic::div_mod::lemma_fundamental_div_mod(n, 10);
        assert(0 <= n % 10 < 10);
        assert(n / 10 >= 0) by {
            vstd::arithmetic::div_mod::lemma_div_is_ordered(0, n, 10);
        }
        lemma_dec_rep(n / 10);
        let a = dec_rep(n / 10);
        let s = dec_rep(n);
        assert(s =~= a + seq![(48 + n % 10) as u8]);
        assert(s.drop_last() =~= a);
        assert(s.last() == (48 + n % 10) as u8);
        assert((48 + n % 10) as u8 == 48 + n % 10);
        assert(dec_val(s) == dec_val(a) * 10 + (n % 10));
        assert(dec_val(a) == n / 10);
        assert(dec_val(s) == (n / 10) * 10 + (n % 10));
        assert(dec_val(s) == n);
    }
}

/// For a single-byte pattern, `find_at` finds exactly the first
/// occurrence of that byte.
pub proof fn lemma_find_byte(s: Seq<u8>, b: u8, i: int)
    requires
        0 <= i <= s.len(),
    ensures
        match find_at(s, seq![b], i) {
            Option::None => forall|k: int| i <= k < s.len() ==> s[k] != b,
            Option::Some(j) => {
                &&& i <= j < s.len()
                &&& s[j] == b
                &&& forall|k: int| i <= k < j ==> s[k] != b
            },
        },
    decreases s.len() - i,
{
    let pat = seq![b];
    if i + 1 > s.len() {
    } else {
        assert(matches_at_byte(s, b, i) == (s[i] == b)) by {
            if s.subrange(i, i + 1) == pat {
                assert(s.subrange(i, i + 1)[0] == b);
            } else {
                if s[i] == b {
                    assert(s.subrange(i, i + 1) =~= pat);
                }
            }
        }
        if s[i] == b {
        } else {
            lemma_find_byte(s, b, i + 1);
        }
    }
}

/// Helper naming the one-byte match condition.
pub open spec fn matches_at_byte(s: Seq<u8>, b: u8, i: int) -> bool {
    crate::text::matches_at(s, seq![b], i)
}

fn push_dec(n: u64, out: &mut Vec<u8>)
    ensures
        final(out)@ == old(out)@ + dec_rep(n as int),
    decreases n,
{
    if n < 10 {
        out.push(48 + (n as u8));
        assert(out@ =~= old(out)@ + dec_rep(n as int));
    } else {
        push_dec(n / 10, out);
        out.push(48 + ((n % 10) as u8));
        assert(out@ =~= old(out)@ + dec_rep(n as int));
    }
}

/// Magnitude of `m` as a `u64` (total, also at `i64::MIN`).
fn abs_u64(m: i64) -> (a: u64)
    ensures
        a as int == if m >= 0 {
            m as int
        } else {
            -(m as int)
        },
{
    if m >= 0 {
        m as u64
    } else {
        ((-(m + 1)) as u64) + 1
    }
}

/// Renders `m` millis as its canonical number literal.
pub fn render_millis(m: i64) -> (r: Vec<u8>)
    ensures
        r@ == num_rep(m as int),
{
    let mut out: Vec<u8> = Vec::new();
    let a = abs_u64(m);
    if m < 0 {
        out.push(45);
    }
    let ghost sign: Seq<u8> = if m < 0 {
        seq![45u8]
    } else {
        seq![]
    };
    assert(out@ =~= sign);
    let q = a / 1000;
    let r = a % 1000;
    push_dec(q, &mut out);
    if r > 0 {
        out.push(46);
        let d1 = (r / 100) as u8;
        let d2 = ((r / 10) % 10) as u8;
        let d3 = (r % 10) as u8;
        out.push(48 + d1);
        if d2 != 0 || d3 != 0 {
            out.push(48 + d2);
            if d3 != 0 {
                out.push(48 + d3);
            }
        }
    }
    proof {
        let am = a as int;
        assert(q as int == am / 1000 && r as int == am % 1000);
        assert(out@ =~= sign + dec_rep(am / 1000) + frac_rep(am % 1000));
    }
    out
}

/// Parses a number literal into clamped millis; `None` exactly when
/// `s` is not a number literal.
#[verifier::loop_isolation(false)]
pub fn parse_num(s: &[u8]) -> (r: Option<i64>)
    ensures
        match r {
            Option::Some(v) => is_num_lit(s@) && v as int == clamp_millis(num_millis(s@)),
            Option::None => !is_num_lit(s@),
        },
{
    let n = s.len();
    let neg = n > 0 && s[0] == 45;
    let i0: usize = if neg {
        1
    } else {
        0
    };
    assert(i0 as int == num_start(s@));
    let mut dotpat: Vec<u8> = Vec::new();
    dotpat.push(46);
    assert(dotpat@ =~= seq![46u8]);
    let dot = crate::text::find_at_exec(s, dotpat.as_slice(), i0);
    proof {
        if dot is Some {
            lemma_find_at_bounds(s@, seq![46u8], i0 as int);
        }
    }
    let dend: usize = match dot {
        Some(d) => d,
        None => n,
    };
    if dend <= i0 {
        return None;
    }
    // integer part
    let mut acc: u64 = 0;
    let mut sat = false;
    let mut i = i0;
    while i < dend
        invariant
            i0 <= i <= dend <= n == s@.len(),
            digits_in(s@, i0 as int, i as int),
            !sat ==> acc < 0x8000000000000000u64 && acc as int == dec_val(
                s@.subrange(i0 as int, i as int),
            ),
            sat ==> dec_val(s@.subrange(i0 as int, i as int)) >= 0x8000000000000000,
        decreases dend - i,
    {
        let b = s[i];
        if !(48 <= b && b <= 57) {
            assert(!is_num_lit(s@)) by {
                assert(!is_digit(s@[i as int]));
            }
            return None;
        }
        let d = (b - 48) as u64;
        proof {
            let pre = s@.subrange(i0 as int, i as int);
            let ext = s@.subrange(i0 as int, i + 1 as int);
            assert(ext.drop_last() =~= pre);
            assert(ext.last() == s@[i as int]);
            assert(dec_val(ext) == dec_val(pre) * 10 + (d as int));
        }
        if sat {
            proof {
                let pre = s@.subrange(i0 as int, i as int);
                assert(dec_val(pre) * 10 >= dec_val(pre)) by {
                    assert(dec_val(pre) >= 0x8000000000000000);
                }
            }
        } else if acc <= (0x7fffffffffffffffu64 - d) / 10 {
            proof {
                let cap = 0x7fffffffffffffff - (d as int);
                vstd::arithmetic::div_mod::lemma_fundamental_div_mod(cap, 10);
                assert(acc as int * 10 + d as int <= 0x7fffffffffffffff);
            }
            acc = acc * 10 + d;
        } else {
            proof {
                let cap = 0x7fffffffffffffff - (d as int);
                vstd::arithmetic::div_mod::lemma_fundamental_div_mod(cap, 10);
                assert(acc as int * 10 + d as int >= 0x8000000000000000);
            }
            sat = true;
        }
        i += 1;
    }
    // fractional part
    let mut fv: u64 = 0;
    proof {
        if dot is Some {
            assert(dend as int == find_at(s@, seq![46u8], i0 as int)->Some_0);
        }
    }
    match dot {
        None => {
        },
        Some(d) => {
            if d + 1 >= n {
                assert(!is_num_lit(s@));
                return None;
            }
            let mut fr: u64 = 0;
            let mut j = d + 1;
            while j < n
                invariant
                    d + 1 <= j <= n == s@.len(),
                    d + 4 <= n ==> j <= n,
                    digits_in(s@, d + 1 as int, j as int),
                    fr as int == dec_val(
                        s@.subrange(d + 1 as int, if j > d + 4 { d + 4 as int } else { j as int }),
                    ),
                    fr < 1000,
                decreases n - j,
            {
                let b = s[j];
                if !(48 <= b && b <= 57) {
                    assert(!is_num_lit(s@)) by {
                        assert(!is_digit(s@[j as int]));
                    }
                    return None;
                }
                if j - (d + 1) < 3 {
                    proof {
                        let pre = s@.subrange(d + 1 as int, j as int);
                        let ext = s@.subrange(d + 1 as int, j + 1 as int);
                        assert(ext.drop_last() =~= pre);
                        assert(ext.last() == s@[j as int]);
                        assert(forall|k: int|
                            0 <= k < pre.len() ==> is_digit(#[trigger] pre[k]) && pre[k] == s@[d + 1
                                + k]);
                        lemma_dec_val_bounds(pre);
                        assert(dec_val(pre) <= 99);
                    }
                    fr = fr * 10 + ((b - 48) as u64);
                    assert(fr < 1000);
                }
                proof {
                    if j + 1 > d + 4 {
                        assert(s@.subrange(
                            d + 1 as int,
                            if j + 1 > d + 4 { d + 4 as int } else { j + 1 as int },
                        ) =~= s@.subrange(d + 1 as int, d + 4 as int));
                    }
                }
                j += 1;
            }
            let flen = n - (d + 1);
            let mult: u64 = if flen >= 3 {
                1
            } else if flen == 2 {
                10
            } else {
                100
            };
            proof {
                assert(pow10(0) == 1);
                assert(pow10(1) == 10);
                assert(pow10(2) == 100);
                let f = s@.subrange(d + 1 as int, n as int);
                let f3 = if f.len() <= 3 {
                    f
                } else {
                    f.subrange(0, 3)
                };
                if f.len() > 3 {
                    assert(f3 =~= s@.subrange(d + 1 as int, d + 4 as int));
                }
                assert(fr as int == dec_val(f3));
                assert(mult as int == pow10(3 - f3.len()));
            }
            fv = fr * mult;
            proof {
                let f = s@.subrange(d + 1 as int, n as int);
                assert(fv as int == frac_millis_of(f));
            }
        },
    }
    // combine
    if sat {
        proof {
            let iv = dec_val(s@.subrange(i0 as int, dend as int));
            assert(iv * 1000 >= 0x8000000000000000 * 1000) by {
                vstd::arithmetic::mul::lemma_mul_inequality(0x8000000000000000, iv, 1000);
            }
            if dot is Some {
                let f = s@.subrange(dend + 1 as int, n as int);
                assert(frac_millis_of(f) >= 0) by {
                    lemma_frac_millis_bounds(f);
                }
            }
        }
        if neg {
            return Some(i64::MIN);
        } else {
            return Some(i64::MAX);
        }
    }
    let total: u128 = (acc as u128) * 1000 + (fv as u128);
    proof {
        assert((acc as u128) * 1000 <= 0x7fffffffffffffffu128 * 1000) by {
            vstd::arithmetic::mul::lemma_mul_inequality(acc as int, 0x7fffffffffffffff, 1000);
        }
    }
    if neg {
        if total >= 0x8000000000000000u128 {
            Some(i64::MIN)
        } else {
            Some(-(total as i64))
        }
    } else {
        if total > 0x7fffffffffffffffu128 {
            Some(i64::MAX)
        } else {
            Some(total as i64)
        }
    }
}

pub proof fn lemma_frac_millis_bounds(f: Seq<u8>)
    requires
        digits_in(f, 0, f.len() as int),
    ensures
        0 <= frac_millis_of(f) <= 999,
{
    let f3 = if f.len() <= 3 {
        f
    } else {
        f.subrange(0, 3)
    };
    assert(digits_in(f3, 0, f3.len() as int));
    lemma_dec_val_bounds(f3);
    assert(pow10(0) == 1);
    assert(pow10(1) == 10);
    assert(pow10(2) == 100);
    if f3.len() == 0 {
    } else if f3.len() == 1 {
        assert(frac_millis_of(f) == dec_val(f3) * 100);
    } else if f3.len() == 2 {
        assert(dec_val(f3) <= 99);
        assert(frac_millis_of(f) == dec_val(f3) * 10);
    } else {
        assert(dec_val(f3) <= 999);
    }
}

/// A run of `k` digits reads to a value below `10^k` (stated for the
/// first three lengths, which the fraction needs).
pub proof fn lemma_dec_val_bounds(s: Seq<u8>)
    requires
        digits_in(s, 0, s.len() as int),
    ensures
        dec_val(s) >= 0,
        s.len() == 1 ==> dec_val(s) <= 9,
        s.len() == 2 ==> dec_val(s) <= 99,
        s.len() == 3 ==> dec_val(s) <= 999,
    decreases s.len(),
{
    if s.len() == 0 {
    } else {
        assert(digits_in(s.drop_last(), 0, s.drop_last().len() as int));
        lemma_dec_val_bounds(s.drop_last());
        assert(is_digit(s.last()));
    }
}

/// Values of one-, two- and three-digit runs, spelled out.
pub proof fn lemma_dec_val_digits(x: int, y: int, z: int)
    requires
        0 <= x <= 9,
        0 <= y <= 9,
        0 <= z <= 9,
    ensures
        dec_val(seq![(48 + x) as u8]) == x,
        dec_val(seq![(48 + x) as u8, (48 + y) as u8]) == 10 * x + y,
        dec_val(seq![(48 + x) as u8, (48 + y) as u8, (48 + z) as u8]) == 100 * x + 10 * y + z,
{
    let s1 = seq![(48 + x) as u8];
    let s2 = seq![(48 + x) as u8, (48 + y) as u8];
    let s3 = seq![(48 + x) as u8, (48 + y) as u8, (48 + z) as u8];
    assert(s1.drop_last() =~= Seq::<u8>::empty());
    assert(dec_val(Seq::<u8>::empty()) == 0);
    assert(dec_val(s1) == x);
    assert(s2.drop_last() =~= s1);
    assert(dec_val(s2) == 10 * x + y);
    assert(s3.drop_last() =~= s2);
    assert(dec_val(s3) == 100 * x + 10 * y + z);
}

/// Saturating addition on millis.
pub fn sat_add(a: i64, b: i64) -> (r: i64)
    ensures
        r as int == clamp_millis(a as int + b as int),
{
    if b >= 0 {
        if a > i64::MAX - b {
            i64::MAX
        } else {
            a + b
        }
    } else {
        if a < i64::MIN - b {
            i64::MIN
        } else {
            a + b
        }
    }
}

/// Saturating subtraction on millis.
pub fn sat_sub(a: i64, b: i64) -> (r: i64)
    ensures
        r as int == clamp_millis(a as int - b as int),
{
    if b <= 0 {
        if a > i64::MAX + b {
            i64::MAX
        } else {
            a - b
        }
    } else {
        if a < i64::MIN + b {
            i64::MIN
        } else {
            a - b
        }
    }
}

/// Floor of `m` millis as whole units, held to the `i32` range.
pub fn floor_units(m: i64) -> (r: i64)
    ensures
        r as int == clamp_i32((m as int) / 1000),
{
    let a = abs_u64(m);
    let q = a / 1000;
    let rem = a % 1000;
    if m >= 0 {
        let qi = q as i64;
        if qi > 2147483647 {
            2147483647
        } else {
            qi
        }
    } else {
        proof {
            let mi = m as int;
            let ai = a as int;
            vstd::arithmetic::div_mod::lemma_fundamental_div_mod(ai, 1000);
            if rem > 0 {
                vstd::arithmetic::div_mod::lemma_fundamental_div_mod_converse(
                    mi,
                    1000,
                    -(q as int) - 1,
                    1000 - (rem as int),
                );
            } else {
                vstd::arithmetic::div_mod::lemma_fundamental_div_mod_converse(
                    mi,
                    1000,
                    -(q as int),
                    0,
                );
            }
        }
        let mut qi = -(q as i64);
        if rem > 0 {
            qi = qi - 1;
        }
        if qi < -2147483648 {
            -2147483648
        } else {
            qi
        }
    }
}

/// Rendering millis and reading the literal back yields the same
/// value: the canonical form is always a valid literal, and its exact
/// value needs no clamping inside the `i64` range.
pub proof fn lemma_num_roundtrip(m: int)
    requires
        i64::MIN <= m <= i64::MAX,
    ensures
        is_num_lit(num_rep(m)),
        num_millis(num_rep(m)) == m,
        clamp_millis(m) == m,
{
    let a = if m >= 0 {
        m
    } else {
        -m
    };
    vstd::arithmetic::div_mod::lemma_fundamental_div_mod(a, 1000);
    let q = a / 1000;
    let r = a % 1000;
    assert(q >= 0) by {
        vstd::arithmetic::div_mod::lemma_div_is_ordered(0, a, 1000);
    }
    lemma_dec_rep(q);
    let ds = dec_rep(q);
    let s = num_rep(m);
    let sign: Seq<u8> = if m < 0 {
        seq![45u8]
    } else {
        seq![]
    };
    let i0 = sign.len() as int;
    assert(s == sign + ds + frac_rep(r));
    assert(is_digit(ds[0]));
    assert(num_start(s) == i0) by {
        if m < 0 {
            assert(s[0] == 45);
        } else {
            assert(s[0] == ds[0]);
        }
    }
    // digit positions before any dot
    assert forall|k: int| i0 <= k < i0 + ds.len() implies is_digit(#[trigger] s[k]) by {
        assert(s[k] == ds[k - i0]);
    }
    if r == 0 {
        assert(frac_rep(r) =~= Seq::<u8>::empty());
        assert(s.len() == i0 + ds.len());
        lemma_find_byte(s, 46, i0);
        match find_at(s, seq![46u8], i0) {
            Option::None => {},
            Option::Some(j) => {
                assert(is_digit(s[j]));
                assert(false);
            },
        }
        assert(is_num_lit(s)) by {
            assert(digits_in(s, i0, s.len() as int));
        }
        assert(s.subrange(i0, s.len() as int) =~= ds);
        assert(num_millis(s) == m);
    } else {
        let d1 = r / 100;
        let d2 = (r / 10) % 10;
        let d3 = r % 10;
        vstd::arithmetic::div_mod::lemma_fundamental_div_mod(r, 10);
        vstd::arithmetic::div_mod::lemma_fundamental_div_mod(r / 10, 10);
        assert((r / 10) / 10 == r / 100) by {
            vstd::arithmetic::div_mod::lemma_div_denominator(r, 10, 10);
        }
        assert(r == 100 * d1 + 10 * d2 + d3);
        assert(0 <= d1 <= 9) by {
            vstd::arithmetic::div_mod::lemma_div_is_ordered(r, 999, 100);
            vstd::arithmetic::div_mod::lemma_div_is_ordered(0, r, 100);
        }
        let fr = frac_rep(r);
        let dd = i0 + ds.len();
        assert(s[dd] == fr[0] && fr[0] == 46);
        // the fraction bytes are digits
        assert forall|k: int| dd + 1 <= k < s.len() implies is_digit(#[trigger] s[k]) by {
            assert(s[k] == fr[k - dd]);
        }
        lemma_find_byte(s, 46, i0);
        match find_at(s, seq![46u8], i0) {
            Option::None => {
                assert(s[dd] != 46);
                assert(false);
            },
            Option::Some(j) => {
                if j < dd {
                    assert(is_digit(s[j]));
                    assert(false);
                }
                if j > dd {
                    assert(s[dd] != 46);
                    assert(false);
                }
                assert(j == dd);
            },
        }
        assert(is_num_lit(s)) by {
            assert(digits_in(s, i0, dd));
            assert(dd + 1 < s.len());
            assert(digits_in(s, dd + 1, s.len() as int));
        }
        // the value reads back
        assert(s.subrange(i0, dd) =~= ds);
        let f = s.subrange(dd + 1, s.len() as int);
        assert(f =~= fr.subrange(1, fr.len() as int));
        assert(frac_millis_of(f) == r) by {
            assert(pow10(0) == 1);
            assert(pow10(1) == 10);
            assert(pow10(2) == 100);
            lemma_dec_val_digits(d1, d2, d3);
            if d3 != 0 {
                let f3 = seq![(48 + d1) as u8, (48 + d2) as u8, (48 + d3) as u8];
                assert(f =~= f3);
                assert(dec_val(f3) == 100 * d1 + 10 * d2 + d3);
            } else if d2 != 0 {
                let f2 = seq![(48 + d1) as u8, (48 + d2) as u8];
                assert(f =~= f2);
                assert(dec_val(f2) == 10 * d1 + d2);
                assert(frac_millis_of(f) == (10 * d1 + d2) * 10);
            } else {
                let f1 = seq![(48 + d1) as u8];
                assert(f =~= f1);
                assert(dec_val(f1) == d1);
                assert(frac_millis_of(f) == d1 * 100);
            }
        }
        assert(num_millis(s) == m);
    }
}

} // verus!
