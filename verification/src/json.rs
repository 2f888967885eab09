//! A small JSON reader for dialog documents: objects, arrays, strings,
//! fixed-point numbers, the booleans and `null`.
//!
//! Strings take any escaped byte literally (so `\"` and `\\` work; the
//! control escapes and `\u` are not interpreted), numbers carry no
//! exponent and keep three fractional digits, and text is treated as
//! bytes. This covers the document format the track parser accepts.
use vstd::prelude::*;

use crate::doc::{arr_view, obj_view, DocV, DocValue};
use crate::num::{clamp_millis, digits_in, is_num_lit, num_millis, num_start};
use crate::text::{find_at, is_digit, matches_at, ws_prefix_end, ws_prefix_end_exec};
use crate::value::{false_lit, quoted_body, quoted_body_exec, true_lit};

verus! {

/// First index at or after `i` that holds no decimal digit.
pub open spec fn digits_end(s: Seq<u8>, i: int) -> int
    decreases s.len() - i,
{
    if 0 <= i < s.len() && is_digit(s[i]) {
        digits_end(s, i + 1)
    } else {
        i
    }
}

fn digits_end_exec(s: &[u8], i: usize) -> (r: usize)
    requires
        i <= s@.len(),
    ensures
        r == digits_end(s@, i as int),
        i <= r <= s@.len(),
        digits_in(s@, i as int, r as int),
        r < s@.len() ==> !is_digit(s@[r as int]),
    decreases s@.len() - i,
{
    if i < s.len() && 48 <= s[i] && s[i] <= 57 {
        let r = digits_end_exec(s, i + 1);
        assert(digits_in(s@, i as int, r as int));
        r
    } else {
        i
    }
}

/// A number token: optional sign, digits, optionally a dot and more
/// digits; its clamped millis value and its end.
pub open spec fn j_number(s: Seq<u8>, i: int) -> Option<(int, int)> {
    if !(0 <= i < s.len()) {
        None
    } else {
        let d0 = if s[i] == 45 {
            i + 1
        } else {
            i
        };
        let de = digits_end(s, d0);
        if de == d0 {
            None
        } else if de < s.len() && s[de] == 46 {
            let fe = digits_end(s, de + 1);
            if fe == de + 1 {
                None
            } else {
                Some((clamp_millis(num_millis(s.subrange(i, fe))), fe))
            }
        } else {
            Some((clamp_millis(num_millis(s.subrange(i, de))), de))
        }
    }
}

pub open spec fn null_word() -> Seq<u8> {
    crate::doc::null_word()
}

/// One JSON value starting at `i`: the parsed tree and the index just
/// past it.
pub open spec fn j_value(s: Seq<u8>, i: int) -> Option<(DocV, int)>
    decreases s.len() - i, 0int,
{
    if !(0 <= i < s.len()) {
        None
    } else if s[i] == 110 {
        if matches_at(s, null_word(), i) {
            Some((DocV::Null, i + 4))
        } else {
            None
        }
    } else if s[i] == 116 {
        if matches_at(s, true_lit(), i) {
            Some((DocV::Bool(true), i + 4))
        } else {
            None
        }
    } else if s[i] == 102 {
        if matches_at(s, false_lit(), i) {
            Some((DocV::Bool(false), i + 5))
        } else {
            None
        }
    } else if s[i] == 34 {
        match quoted_body(s, i + 1) {
            Option::None => None,
            Option::Some((u, e)) => Some((DocV::Text(u), e)),
        }
    } else if s[i] == 91 {
        let j = ws_prefix_end(s, i + 1);
        if !(i < j && j <= s.len()) {
            None
        } else if j < s.len() && s[j] == 93 {
            Some((DocV::Arr(seq![]), j + 1))
        } else {
            match j_elems(s, j) {
                Option::None => None,
                Option::Some((v, e)) => Some((DocV::Arr(v), e)),
            }
        }
    } else if s[i] == 123 {
        let j = ws_prefix_end(s, i + 1);
        if !(i < j && j <= s.len()) {
            None
        } else if j < s.len() && s[j] == 125 {
            Some((DocV::Obj(seq![]), j + 1))
        } else {
            match j_members(s, j) {
                Option::None => None,
                Option::Some((v, e)) => Some((DocV::Obj(v), e)),
            }
        }
    } else if s[i] == 45 || is_digit(s[i]) {
        match j_number(s, i) {
            Option::None => None,
            Option::Some((m, e)) => Some((DocV::Num(m), e)),
        }
    } else {
        None
    }
}

/// Array elements from the first element on, up to and past `]`.
pub open spec fn j_elems(s: Seq<u8>, i: int) -> Option<(Seq<DocV>, int)>
    decreases s.len() - i, 1int,
{
    if !(0 <= i <= s.len()) {
        None
    } else {
        match j_value(s, i) {
            Option::None => None,
            Option::Some((v, j)) => {
                if !(i < j && j <= s.len()) {
                    None
                } else {
                    let k = ws_prefix_end(s, j);
                    if k < s.len() && s[k] == 44 {
                        let n = ws_prefix_end(s, k + 1);
                        if !(i < n && n <= s.len()) {
                            None
                        } else {
                            match j_elems(s, n) {
                                Option::None => None,
                                Option::Some((rest, e)) => Some((seq![v] + rest, e)),
                            }
                        }
                    } else if k < s.len() && s[k] == 93 {
                        Some((seq![v], k + 1))
                    } else {
                        None
                    }
                }
            },
        }
    }
}

/// Object members from the first key on, up to and past `}`.
pub open spec fn j_members(s: Seq<u8>, i: int) -> Option<(Seq<(Seq<u8>, DocV)>, int)>
    decreases s.len() - i, 1int,
{
    if !(0 <= i < s.len() && s[i] == 34) {
        None
    } else {
        match quoted_body(s, i + 1) {
            Option::None => None,
            Option::Some((key, e)) => {
                if !(i < e && e <= s.len()) {
                    None
                } else {
                    let k = ws_prefix_end(s, e);
                    if !(e <= k && k < s.len() && s[k] == 58) {
                        None
                    } else {
                        let va = ws_prefix_end(s, k + 1);
                        if !(k < va && va <= s.len()) {
                            None
                        } else {
                            match j_value(s, va) {
                                Option::None => None,
                                Option::Some((v, j)) => {
                                    if !(va < j && j <= s.len()) {
                                        None
                                    } else {
                                        let c = ws_prefix_end(s, j);
                                        if c < s.len() && s[c] == 44 {
                                            let n = ws_prefix_end(s, c + 1);
                                            if !(i < n && n <= s.len()) {
                                                None
                                            } else {
                                                match j_members(s, n) {
                                                    Option::None => None,
                                                    Option::Some((rest, e2)) => Some(
                                                        (seq![(key, v)] + rest, e2),
                                                    ),
                                                }
                                            }
                                        } else if c < s.len() && s[c] == 125 {
                                            Some((seq![(key, v)], c + 1))
                                        } else {
                                            None
                                        }
                                    }
                                },
                            }
                        }
                    }
                }
            },
        }
    }
}

/// A whole document: one value, surrounded only by whitespace.
pub open spec fn json_doc(s: Seq<u8>) -> Option<DocV> {
    let i0 = ws_prefix_end(s, 0);
    if !(0 <= i0 <= s.len()) {
        None
    } else {
        match j_value(s, i0) {
            Option::None => None,
            Option::Some((v, j)) => if 0 <= j <= s.len() && ws_prefix_end(s, j) == s.len() {
                Some(v)
            } else {
                None
            },
        }
    }
}

/// A quoted body's end index sits past its opening position and inside
/// the text.
proof fn lemma_quoted_body_bounds(s: Seq<u8>, i: int)
    requires
        quoted_body(s, i) is Some,
    ensures
        i < quoted_body(s, i)->Some_0.1 <= s.len(),
    decreases s.len() - i,
{
    if i < 0 || i >= s.len() {
    } else if s[i] == 34 {
    } else if s[i] == 92 {
        if i + 1 < s.len() {
            if quoted_body(s, i + 2) is Some {
                lemma_quoted_body_bounds(s, i + 2);
            }
        }
    } else {
        if quoted_body(s, i + 1) is Some {
            lemma_quoted_body_bounds(s, i + 1);
        }
    }
}

/// A maximal digit run (with optional sign and fraction) is a number
/// literal.
proof fn lemma_number_token(s: Seq<u8>, i: int, o: int, dend: int, fend: Option<int>)
    requires
        0 <= i < s.len(),
        o == if s[i] == 45 {
            i + 1
        } else {
            i
        },
        o < dend <= s.len(),
        digits_in(s, o, dend),
        match fend {
            Option::Some(f) => {
                &&& dend < s.len()
                &&& s[dend] == 46
                &&& dend + 1 < f <= s.len()
                &&& digits_in(s, dend + 1, f)
            },
            Option::None => true,
        },
    ensures
        is_num_lit(
            match fend {
                Option::Some(f) => s.subrange(i, f),
                Option::None => s.subrange(i, dend),
            },
        ),
{
    let io = o - i;
    match fend {
        Option::None => {
            let t = s.subrange(i, dend);
            assert(t[0] == s[i]);
            if s[i] == 45 {
                assert(num_start(t) == 1);
            } else {
                assert(is_digit(s[o]));
                assert(num_start(t) == 0);
            }
            assert forall|k: int| io <= k < t.len() implies is_digit(#[trigger] t[k]) by {
                assert(t[k] == s[i + k]);
                assert(is_digit(s[i + k]));
            }
            crate::num::lemma_find_byte(t, 46, io);
            match find_at(t, seq![46u8], io) {
                Option::None => {},
                Option::Some(j) => {
                    assert(is_digit(t[j]));
                    assert(false);
                },
            }
            assert(is_num_lit(t));
        },
        Option::Some(f) => {
            let t = s.subrange(i, f);
            let dd = dend - i;
            assert(t[0] == s[i]);
            if s[i] == 45 {
                assert(num_start(t) == 1);
            } else {
                assert(is_digit(s[o]));
                assert(num_start(t) == 0);
            }
            assert forall|k: int| io <= k < dd implies is_digit(#[trigger] t[k]) by {
                assert(t[k] == s[i + k]);
                assert(is_digit(s[i + k]));
            }
            assert forall|k: int| dd + 1 <= k < t.len() implies is_digit(#[trigger] t[k]) by {
                assert(t[k] == s[i + k]);
                assert(is_digit(s[i + k]));
            }
            assert(t[dd] == 46);
            crate::num::lemma_find_byte(t, 46, io);
            match find_at(t, seq![46u8], io) {
                Option::None => {
                    assert(t[dd] != 46);
                    assert(false);
                },
                Option::Some(j) => {
                    if j < dd {
                        assert(is_digit(t[j]));
                        assert(false);
                    }
                    if j > dd {
                        assert(t[dd] != 46);
                        assert(false);
                    }
                    assert(j == dd);
                    assert(is_num_lit(t)) by {
                        assert(digits_in(t, io, dd));
                        assert(dd + 1 < t.len());
                        assert(digits_in(t, dd + 1, t.len() as int));
                    }
                },
            }
        },
    }
}

fn p_number(s: &[u8], i: usize) -> (r: Option<(DocValue, usize)>)
    requires
        i < s@.len(),
        s@[i as int] == 45 || is_digit(s@[i as int]),
    ensures
        match r {
            Option::Some((d, e)) => {
                &&& j_number(s@, i as int) matches Some((m, me))
                &&& d.view_rec() == DocV::Num(m)
                &&& me == e as int
                &&& i < e <= s@.len()
            },
            Option::None => j_number(s@, i as int) is None,
        },
{
    let neg = s[i] == 45;
    let d0 = if neg {
        i + 1
    } else {
        i
    };
    let de = digits_end_exec(s, d0);
    if de == d0 {
        return None;
    }
    let end: usize;
    let ghost fend: Option<int>;
    if de < s.len() && s[de] == 46 {
        let fe = digits_end_exec(s, de + 1);
        if fe == de + 1 {
            return None;
        }
        end = fe;
        proof {
            fend = Some(fe as int);
        }
    } else {
        end = de;
        proof {
            fend = None;
        }
    }
    let tok = crate::text::copy_range(s, i, end);
    proof {
        lemma_number_token(s@, i as int, d0 as int, de as int, fend);
    }
    match crate::num::parse_num(tok.as_slice()) {
        Some(v) => Some((DocValue::Num(v), end)),
        None => {
            // unreachable: the token was just shown to be a number literal
            proof {
                assert(false);
            }
            None
        },
    }
}

fn p_value(s: &[u8], i: usize) -> (r: Option<(DocValue, usize)>)
    requires
        i <= s@.len(),
    ensures
        match r {
            Option::Some((d, e)) => j_value(s@, i as int) == Some((d.view_rec(), e as int)) && i
                < e <= s@.len(),
            Option::None => j_value(s@, i as int) is None,
        },
    decreases s@.len() - i, 0int,
{
    if i >= s.len() {
        return None;
    }
    let b = s[i];
    if b == 110 {
        let mut pat: Vec<u8> = Vec::new();
        pat.push(110);
        pat.push(117);
        pat.push(108);
        pat.push(108);
        assert(pat@ =~= null_word());
        if s.len() - i >= 4 && crate::text::matches_at_exec(s, pat.as_slice(), i) {
            Some((DocValue::Null, i + 4))
        } else {
            None
        }
    } else if b == 116 {
        let mut pat: Vec<u8> = Vec::new();
        pat.push(116);
        pat.push(114);
        pat.push(117);
        pat.push(101);
        assert(pat@ =~= true_lit());
        if s.len() - i >= 4 && crate::text::matches_at_exec(s, pat.as_slice(), i) {
            Some((DocValue::Bool(true), i + 4))
        } else {
            None
        }
    } else if b == 102 {
        let mut pat: Vec<u8> = Vec::new();
        pat.push(102);
        pat.push(97);
        pat.push(108);
        pat.push(115);
        pat.push(101);
        assert(pat@ =~= false_lit());
        if s.len() - i >= 5 && crate::text::matches_at_exec(s, pat.as_slice(), i) {
            Some((DocValue::Bool(false), i + 5))
        } else {
            None
        }
    } else if b == 34 {
        match quoted_body_exec(s, i + 1) {
            None => None,
            Some((u, e)) => {
                proof {
                    lemma_quoted_body_bounds(s@, i + 1 as int);
                }
                Some((DocValue::Text(u), e))
            },
        }
    } else if b == 91 {
        let j = ws_prefix_end_exec(s, i + 1);
        if j < s.len() && s[j] == 93 {
            let v: Vec<DocValue> = Vec::new();
            assert(arr_view(v) =~= Seq::<DocV>::empty());
            Some((DocValue::Arr(v), j + 1))
        } else {
            match p_elems(s, j) {
                None => None,
                Some((v, e)) => Some((DocValue::Arr(v), e)),
            }
        }
    } else if b == 123 {
        let j = ws_prefix_end_exec(s, i + 1);
        if j < s.len() && s[j] == 125 {
            let v: Vec<(Vec<u8>, DocValue)> = Vec::new();
            assert(obj_view(v) =~= Seq::<(Seq<u8>, DocV)>::empty());
            Some((DocValue::Obj(v), j + 1))
        } else {
            match p_members(s, j) {
                None => None,
                Some((v, e)) => Some((DocValue::Obj(v), e)),
            }
        }
    } else if b == 45 || (48 <= b && b <= 57) {
        match p_number(s, i) {
            None => None,
            Some((d, e)) => Some((d, e)),
        }
    } else {
        None
    }
}

fn p_elems(s: &[u8], i: usize) -> (r: Option<(Vec<DocValue>, usize)>)
    requires
        i <= s@.len(),
    ensures
        match r {
            Option::Some((v, e)) => j_elems(s@, i as int) == Some((arr_view(v), e as int)) && i
                < e <= s@.len(),
            Option::None => j_elems(s@, i as int) is None,
        },
    decreases s@.len() - i, 1int,
{
    match p_value(s, i) {
        None => None,
        Some((d, j)) => {
            let ghost dv = d.view_rec();
            let k = ws_prefix_end_exec(s, j);
            if k < s.len() && s[k] == 44 {
                let n = ws_prefix_end_exec(s, k + 1);
                match p_elems(s, n) {
                    None => None,
                    Some((rest, e)) => {
                        let ghost restv = arr_view(rest);
                        let mut v = rest;
                        v.insert(0, d);
                        proof {
                            assert(arr_view(v) =~= seq![dv] + restv) by {
                                assert forall|t: int| 0 <= t < v@.len() implies arr_view(v)[t] == (
                                seq![dv] + restv)[t] by {
                                    if t == 0 {
                                        assert(v@[0] == d);
                                    } else {
                                        assert(v@[t] == rest@[t - 1]);
                                        assert(restv[t - 1] == rest@[t - 1].view_rec());
                                    }
                                }
                            }
                        }
                        Some((v, e))
                    },
                }
            } else if k < s.len() && s[k] == 93 {
                let mut v: Vec<DocValue> = Vec::new();
                v.push(d);
                assert(arr_view(v) =~= seq![dv]);
                Some((v, k + 1))
            } else {
                None
            }
        },
    }
}

fn p_members(s: &[u8], i: usize) -> (r: Option<(Vec<(Vec<u8>, DocValue)>, usize)>)
    requires
        i <= s@.len(),
    ensures
        match r {
            Option::Some((v, e)) => j_members(s@, i as int) == Some((obj_view(v), e as int)) && i
                < e <= s@.len(),
            Option::None => j_members(s@, i as int) is None,
        },
    decreases s@.len() - i, 1int,
{
    if i >= s.len() || s[i] != 34 {
        return None;
    }
    match quoted_body_exec(s, i + 1) {
        None => None,
        Some((key, e)) => {
            proof {
                lemma_quoted_body_bounds(s@, i + 1 as int);
            }
            let k = ws_prefix_end_exec(s, e);
            if !(k < s.len() && s[k] == 58) {
                return None;
            }
            let va = ws_prefix_end_exec(s, k + 1);
            match p_value(s, va) {
                None => None,
                Some((d, j)) => {
                    let ghost kv = key@;
                    let ghost dv = d.view_rec();
                    let c = ws_prefix_end_exec(s, j);
                    if c < s.len() && s[c] == 44 {
                        let n = ws_prefix_end_exec(s, c + 1);
                        match p_members(s, n) {
                            None => None,
                            Some((rest, e2)) => {
                                let ghost restv = obj_view(rest);
                                let mut v = rest;
                                v.insert(0, (key, d));
                                proof {
                                    assert(obj_view(v) =~= seq![(kv, dv)] + restv) by {
                                        assert forall|t: int| 0 <= t < v@.len() implies obj_view(
                                            v,
                                        )[t] == (seq![(kv, dv)] + restv)[t] by {
                                            if t == 0 {
                                                assert(v@[0] == (key, d));
                                            } else {
                                                assert(v@[t] == rest@[t - 1]);
                                                assert(restv[t - 1] == (
                                                    rest@[t - 1].0@,
                                                    rest@[t - 1].1.view_rec(),
                                                ));
                                            }
                                        }
                                    }
                                }
                                Some((v, e2))
                            },
                        }
                    } else if c < s.len() && s[c] == 125 {
                        let mut v: Vec<(Vec<u8>, DocValue)> = Vec::new();
                        v.push((key, d));
                        assert(obj_view(v) =~= seq![(kv, dv)]);
                        Some((v, c + 1))
                    } else {
                        None
                    }
                },
            }
        },
    }
}

/// Reads a whole JSON document. On failure, the error carries a byte
/// position near where reading stopped, for the host's log.
pub fn parse_json(s: &[u8]) -> (r: Result<DocValue, usize>)
    ensures
        match r {
            Result::Ok(d) => json_doc(s@) == Some(d.view_rec()),
            Result::Err(_) => json_doc(s@) is None,
        },
{
    let i0 = ws_prefix_end_exec(s, 0);
    match p_value(s, i0) {
        None => Err(i0),
        Some((d, j)) => {
            let k = ws_prefix_end_exec(s, j);
            if k == s.len() {
                Ok(d)
            } else {
                Err(k)
            }
        },
    }
}

} // verus!
