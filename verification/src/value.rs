//! Blackboard values and the scalar-literal codec.
//!
//! An entry is a number (fixed-point millis), a text, a boolean, or the
//! empty value. `decode` turns a literal token into an entry; `stringify`
//! renders an entry as a literal that decodes back to it; `display` is
//! the unquoted form used for concatenation and text interpolation.
use vstd::prelude::*;

use crate::num::{
    clamp_i32, clamp_millis, digits_in, is_num_lit, lemma_num_roundtrip, num_millis, num_rep,
    num_start, parse_num, render_millis, floor_units,
};
use crate::text::{copy_range, slice_eq};

verus! {

/// One value stored in the blackboard. Numbers hold thousandths.
#[derive(Debug, Clone, PartialEq, Eq)]
pub enum Entry {
    Number(i64),
    Str(Vec<u8>),
    Bool(bool),
    Empty,
}

/// Spec twin of `Entry`.
pub enum EntryV {
    Number(int),
    Str(Seq<u8>),
    Bool(bool),
    Empty,
}

impl View for Entry {
    type V = EntryV;

    open spec fn view(&self) -> EntryV {
        match self {
            Entry::Number(m) => EntryV::Number(*m as int),
            Entry::Str(s) => EntryV::Str(s@),
            Entry::Bool(b) => EntryV::Bool(*b),
            Entry::Empty => EntryV::Empty,
        }
    }
}

pub open spec fn true_lit() -> Seq<u8> {
    seq![116u8, 114u8, 117u8, 101u8]
}

pub open spec fn false_lit() -> Seq<u8> {
    seq![102u8, 97u8, 108u8, 115u8, 101u8]
}

pub open spec fn nil_lit() -> Seq<u8> {
    seq![110u8, 105u8, 108u8]
}

/// Body text with quotes and backslashes escaped.
pub open spec fn escape(s: Seq<u8>) -> Seq<u8>
    decreases s.len(),
{
    if s.len() == 0 {
        seq![]
    } else {
        (if s[0] == 34 || s[0] == 92 {
            seq![92u8, s[0]]
        } else {
            seq![s[0]]
        }) + escape(s.skip(1))
    }
}

/// Reads a quoted body from index `i` up to its closing quote:
/// the unescaped content and the index just past the quote.
pub open spec fn quoted_body(s: Seq<u8>, i: int) -> Option<(Seq<u8>, int)>
    decreases s.len() - i,
{
    if i < 0 || i >= s.len() {
        None
    } else if s[i] == 34 {
        Some((seq![], i + 1))
    } else if s[i] == 92 {
        if i + 1 < s.len() {
            match quoted_body(s, i + 2) {
                Option::None => None,
                Option::Some((u, e)) => Some((seq![s[i + 1]] + u, e)),
            }
        } else {
            None
        }
    } else {
        match quoted_body(s, i + 1) {
            Option::None => None,
            Option::Some((u, e)) => Some((seq![s[i]] + u, e)),
        }
    }
}

/// What a literal token decodes to: the booleans, then numbers, then
/// quoted text, then (non-empty) bare words as text; an empty token or
/// a malformed quoted text decodes to the empty value.
pub open spec fn spec_decode(s: Seq<u8>) -> EntryV {
    if s == true_lit() {
        EntryV::Bool(true)
    } else if s == false_lit() {
        EntryV::Bool(false)
    } else if is_num_lit(s) {
        EntryV::Number(clamp_millis(num_millis(s)))
    } else if s.len() > 0 && s[0] == 34 {
        match quoted_body(s, 1) {
            Option::Some((u, e)) => if e == s.len() {
                EntryV::Str(u)
            } else {
                EntryV::Empty
            },
            Option::None => EntryV::Empty,
        }
    } else if s.len() == 0 {
        EntryV::Empty
    } else {
        EntryV::Str(s)
    }
}

/// The literal form of a value: quoted for text, canonical for numbers.
pub open spec fn spec_stringify(v: EntryV) -> Seq<u8> {
    match v {
        EntryV::Number(m) => num_rep(m),
        EntryV::Str(s) => seq![34u8] + escape(s) + seq![34u8],
        EntryV::Bool(b) => if b {
            true_lit()
        } else {
            false_lit()
        },
        EntryV::Empty => nil_lit(),
    }
}

/// The unquoted display form: raw text, canonical numbers, `true` /
/// `false`; the empty value shows as nothing.
pub open spec fn spec_display(v: EntryV) -> Seq<u8> {
    match v {
        EntryV::Number(m) => num_rep(m),
        EntryV::Str(s) => s,
        EntryV::Bool(b) => if b {
            true_lit()
        } else {
            false_lit()
        },
        EntryV::Empty => seq![],
    }
}

/// A stable 32-bit polynomial hash of a byte text.
pub open spec fn str_hash(s: Seq<u8>) -> int
    decreases s.len(),
{
    if s.len() == 0 {
        5381
    } else {
        (str_hash(s.drop_last()) * 31 + s.last()) % 0x100000000
    }
}

/// The hash folded into the signed 32-bit range.
pub open spec fn hash_i32(s: Seq<u8>) -> int {
    if str_hash(s) >= 0x80000000 {
        str_hash(s) - 0x100000000
    } else {
        str_hash(s)
    }
}

/// Reduction of a value to a signed integer for query comparisons:
/// numbers floor, texts hash, booleans map to one and zero, and the
/// empty value takes the least representable integer, so it never wins
/// a comparison.
pub open spec fn reduce(v: EntryV) -> int {
    match v {
        EntryV::Number(m) => clamp_i32(m / 1000),
        EntryV::Str(s) => hash_i32(s),
        EntryV::Bool(b) => if b {
            1
        } else {
            0
        },
        EntryV::Empty => -0x80000000,
    }
}

fn true_vec() -> (r: Vec<u8>)
    ensures
        r@ == true_lit(),
{
    let mut v: Vec<u8> = Vec::new();
    v.push(116);
    v.push(114);
    v.push(117);
    v.push(101);
    assert(v@ =~= true_lit());
    v
}

fn false_vec() -> (r: Vec<u8>)
    ensures
        r@ == false_lit(),
{
    let mut v: Vec<u8> = Vec::new();
    v.push(102);
    v.push(97);
    v.push(108);
    v.push(115);
    v.push(101);
    assert(v@ =~= false_lit());
    v
}

fn nil_vec() -> (r: Vec<u8>)
    ensures
        r@ == nil_lit(),
{
    let mut v: Vec<u8> = Vec::new();
    v.push(110);
    v.push(105);
    v.push(108);
    assert(v@ =~= nil_lit());
    v
}

pub(crate) fn quoted_body_exec(s: &[u8], i: usize) -> (r: Option<(Vec<u8>, usize)>)
    requires
        i <= s@.len(),
    ensures
        match r {
            Option::Some((u, e)) => quoted_body(s@, i as int) == Some((u@, e as int)),
            Option::None => quoted_body(s@, i as int) is None,
        },
    decreases s@.len() - i,
{
    if i >= s.len() {
        None
    } else if s[i] == 34 {
        let u: Vec<u8> = Vec::new();
        assert(u@ =~= Seq::<u8>::empty());
        Some((u, i + 1))
    } else if s[i] == 92 {
        if i + 1 < s.len() {
            match quoted_body_exec(s, i + 2) {
                None => None,
                Some((u, e)) => {
                    let mut w: Vec<u8> = Vec::new();
                    w.push(s[i + 1]);
                    let mut rest = u;
                    w.append(&mut rest);
                    assert(w@ =~= seq![s@[i + 1]] + quoted_body(s@, i + 2 as int)->Some_0.0);
                    Some((w, e))
                },
            }
        } else {
            None
        }
    } else {
        match quoted_body_exec(s, i + 1) {
            None => None,
            Some((u, e)) => {
                let mut w: Vec<u8> = Vec::new();
                w.push(s[i]);
                let mut rest = u;
                w.append(&mut rest);
                assert(w@ =~= seq![s@[i as int]] + quoted_body(s@, i + 1 as int)->Some_0.0);
                Some((w, e))
            },
        }
    }
}

/// Decodes a literal token into a value.
pub fn decode(s: &[u8]) -> (r: Entry)
    ensures
        r@ == spec_decode(s@),
{
    let tv = true_vec();
    if slice_eq(s, tv.as_slice()) {
        return Entry::Bool(true);
    }
    let fv = false_vec();
    if slice_eq(s, fv.as_slice()) {
        return Entry::Bool(false);
    }
    match parse_num(s) {
        Some(m) => {
            return Entry::Number(m);
        },
        None => {
        },
    }
    if s.len() > 0 && s[0] == 34 {
        match quoted_body_exec(s, 1) {
            Some((u, e)) => {
                if e == s.len() {
                    return Entry::Str(u);
                } else {
                    return Entry::Empty;
                }
            },
            None => {
                return Entry::Empty;
            },
        }
    }
    if s.len() == 0 {
        return Entry::Empty;
    }
    let w = copy_range(s, 0, s.len());
    assert(w@ =~= s@);
    Entry::Str(w)
}

/// `escape` distributes over splitting off the last byte.
proof fn lemma_escape_last(s: Seq<u8>)
    requires
        s.len() > 0,
    ensures
        escape(s) == escape(s.drop_last()) + (if s.last() == 34 || s.last() == 92 {
            seq![92u8, s.last()]
        } else {
            seq![s.last()]
        }),
    decreases s.len(),
{
    let tail: Seq<u8> = if s.last() == 34 || s.last() == 92 {
        seq![92u8, s.last()]
    } else {
        seq![s.last()]
    };
    if s.len() == 1 {
        assert(s.skip(1) =~= Seq::<u8>::empty());
        assert(s.drop_last() =~= Seq::<u8>::empty());
        assert(escape(s) =~= tail);
        assert(escape(s.drop_last()) + tail =~= tail);
    } else {
        lemma_escape_last(s.skip(1));
        assert(s.skip(1).drop_last() =~= s.drop_last().skip(1));
        assert(s.skip(1).last() == s.last());
        assert(s.drop_last()[0] == s[0]);
        assert(escape(s) =~= escape(s.drop_last()) + tail);
    }
}

pub(crate) fn escape_exec(s: &[u8]) -> (r: Vec<u8>)
    ensures
        r@ == escape(s@),
{
    let mut out: Vec<u8> = Vec::new();
    let mut i: usize = 0;
    while i < s.len()
        invariant
            0 <= i <= s@.len(),
            out@ == escape(s@.subrange(0, i as int)),
        decreases s@.len() - i,
    {
        let b = s[i];
        if b == 34 || b == 92 {
            out.push(92);
            out.push(b);
        } else {
            out.push(b);
        }
        proof {
            let ext = s@.subrange(0, i + 1 as int);
            assert(ext.drop_last() =~= s@.subrange(0, i as int));
            assert(ext.last() == s@[i as int]);
            lemma_escape_last(ext);
            assert(out@ =~= escape(ext));
        }
        i += 1;
    }
    assert(s@.subrange(0, s@.len() as int) =~= s@);
    out
}

/// Renders a value as a literal token.
pub fn stringify(v: &Entry) -> (r: Vec<u8>)
    ensures
        r@ == spec_stringify(v@),
{
    match v {
        Entry::Number(m) => render_millis(*m),
        Entry::Bool(b) => if *b {
            true_vec()
        } else {
            false_vec()
        },
        Entry::Empty => nil_vec(),
        Entry::Str(s) => {
            let mut out: Vec<u8> = Vec::new();
            out.push(34);
            let mut body = escape_exec(s.as_slice());
            out.append(&mut body);
            out.push(34);
            assert(out@ =~= seq![34u8] + escape(s@) + seq![34u8]);
            out
        },
    }
}

/// Renders a value in its unquoted display form.
pub fn display(v: &Entry) -> (r: Vec<u8>)
    ensures
        r@ == spec_display(v@),
{
    match v {
        Entry::Number(m) => render_millis(*m),
        Entry::Bool(b) => if *b {
            true_vec()
        } else {
            false_vec()
        },
        Entry::Empty => Vec::new(),
        Entry::Str(s) => copy_range(s.as_slice(), 0, s.len()),
    }
}

/// The 32-bit string hash, as a signed value.
pub fn hash_of(s: &[u8]) -> (h: i64)
    ensures
        h as int == hash_i32(s@),
{
    let mut acc: u64 = 5381;
    let mut i: usize = 0;
    while i < s.len()
        invariant
            0 <= i <= s@.len(),
            acc < 0x100000000,
            acc as int == str_hash(s@.subrange(0, i as int)),
        decreases s@.len() - i,
    {
        proof {
            let ext = s@.subrange(0, i + 1 as int);
            assert(ext.drop_last() =~= s@.subrange(0, i as int));
            assert(ext.last() == s@[i as int]);
        }
        acc = (acc * 31 + (s[i] as u64)) % 0x100000000;
        i += 1;
    }
    assert(s@.subrange(0, s@.len() as int) =~= s@);
    if acc >= 0x80000000 {
        (acc as i64) - 0x100000000
    } else {
        acc as i64
    }
}

/// Reduces a value to its comparison integer.
pub fn reduce_entry(v: &Entry) -> (r: i64)
    ensures
        r as int == reduce(v@),
{
    match v {
        Entry::Number(m) => floor_units(*m),
        Entry::Str(s) => hash_of(s.as_slice()),
        Entry::Bool(b) => if *b {
            1
        } else {
            0
        },
        Entry::Empty => -0x80000000,
    }
}

/// Reading an escaped body back from its quoted rendering restores the
/// original text and stops exactly at the closing quote.
proof fn lemma_qbody_escape(u: Seq<u8>, s: Seq<u8>, i: int)
    requires
        0 <= i,
        s.len() == i + escape(u).len() + 1,
        s.subrange(i, s.len() as int) == escape(u) + seq![34u8],
    ensures
        quoted_body(s, i) == Some((u, s.len() as int)),
    decreases u.len(),
{
    if u.len() == 0 {
        assert(escape(u) =~= Seq::<u8>::empty());
        assert(s[i] == 34) by {
            assert(s.subrange(i, s.len() as int)[0] == 34);
        }
    } else {
        let b = u[0];
        let rest = u.skip(1);
        let eb: Seq<u8> = if b == 34 || b == 92 {
            seq![92u8, b]
        } else {
            seq![b]
        };
        assert(escape(u) == eb + escape(rest));
        let tail = s.subrange(i, s.len() as int);
        assert(tail == eb + escape(rest) + seq![34u8]);
        if b == 34 || b == 92 {
            assert(s[i] == 92) by {
                assert(tail[0] == 92);
            }
            assert(s[i + 1] == b) by {
                assert(tail[1] == b);
            }
            assert(escape(u).len() == 2 + escape(rest).len());
            assert(s.subrange(i + 2, s.len() as int) =~= escape(rest) + seq![34u8]) by {
                assert forall|k: int| 0 <= k < s.len() - i - 2 implies s.subrange(
                    i + 2,
                    s.len() as int,
                )[k] == (escape(rest) + seq![34u8])[k] by {
                    assert(s.subrange(i + 2, s.len() as int)[k] == s[i + 2 + k]);
                    assert(s[i + 2 + k] == tail[k + 2]);
                    assert(tail[k + 2] == (escape(rest) + seq![34u8])[k]);
                }
            }
            lemma_qbody_escape(rest, s, i + 2);
            assert(seq![b] + rest =~= u);
        } else {
            assert(s[i] == b) by {
                assert(tail[0] == b);
            }
            assert(b != 34 && b != 92);
            assert(escape(u).len() == 1 + escape(rest).len());
            assert(s.subrange(i + 1, s.len() as int) =~= escape(rest) + seq![34u8]) by {
                assert forall|k: int| 0 <= k < s.len() - i - 1 implies s.subrange(
                    i + 1,
                    s.len() as int,
                )[k] == (escape(rest) + seq![34u8])[k] by {
                    assert(s.subrange(i + 1, s.len() as int)[k] == s[i + 1 + k]);
                    assert(s[i + 1 + k] == tail[k + 1]);
                    assert(tail[k + 1] == (escape(rest) + seq![34u8])[k]);
                }
            }
            lemma_qbody_escape(rest, s, i + 1);
            assert(seq![b] + rest =~= u);
        }
    }
}

/// Decoding the rendered literal of any non-empty value restores the
/// value: the round trip holds for numbers, texts and booleans. (The
/// range bound holds of every number an `Entry` can carry.)
pub proof fn lemma_decode_stringify(v: EntryV)
    requires
        !(v is Empty),
        v is Number ==> i64::MIN <= v->Number_0 <= i64::MAX,
    ensures
        spec_decode(spec_stringify(v)) == v,
{
    match v {
        EntryV::Bool(b) => {
            if b {
            } else {
                assert(false_lit() != true_lit()) by {
                    assert(false_lit().len() != true_lit().len());
                }
            }
        },
        EntryV::Number(m) => {
            lemma_num_roundtrip(m);
            let s = num_rep(m);
            assert(s[0] == 45 || is_digit_at0(s)) by {
                reveal_num_rep_head(m);
            }
            assert(s != true_lit()) by {
                if s == true_lit() {
                    assert(s[0] == 116);
                }
            }
            assert(s != false_lit()) by {
                if s == false_lit() {
                    assert(s[0] == 102);
                }
            }
        },
        EntryV::Str(u) => {
            let s = spec_stringify(v);
            assert(s == seq![34u8] + escape(u) + seq![34u8]);
            assert(s[0] == 34);
            assert(s != true_lit()) by {
                if s == true_lit() {
                    assert(s[0] == 116);
                }
            }
            assert(s != false_lit()) by {
                if s == false_lit() {
                    assert(s[0] == 102);
                }
            }
            assert(!is_num_lit(s)) by {
                assert(num_start(s) == 0);
                match crate::text::find_at(s, seq![46u8], 0) {
                    Option::None => {
                        if is_num_lit(s) {
                            assert(crate::text::is_digit(s[0]));
                        }
                    },
                    Option::Some(d) => {
                        if is_num_lit(s) {
                            assert(digits_in(s, 0, d));
                            assert(crate::text::is_digit(s[0]));
                        }
                    },
                }
            }
            assert(s.subrange(1, s.len() as int) =~= escape(u) + seq![34u8]);
            lemma_qbody_escape(u, s, 1);
        },
        EntryV::Empty => {
        },
    }
}

/// The first byte of a number rendering: a minus sign or a digit.
pub open spec fn is_digit_at0(s: Seq<u8>) -> bool {
    s.len() > 0 && crate::text::is_digit(s[0])
}

proof fn reveal_num_rep_head(m: int)
    ensures
        num_rep(m).len() > 0,
        num_rep(m)[0] == 45 || crate::text::is_digit(num_rep(m)[0]),
{
    let a = if m >= 0 {
        m
    } else {
        -m
    };
    let q = a / 1000;
    crate::num::lemma_dec_rep(if q >= 0 {
        q
    } else {
        0
    });
    if m < 0 {
        assert(num_rep(m)[0] == 45);
    } else {
        assert(q >= 0) by {
            if m >= 0 {
                vstd::arithmetic::div_mod::lemma_div_is_ordered(0, a, 1000);
            }
        }
        assert(num_rep(m)[0] == crate::num::dec_rep(q)[0]);
    }
}

} // verus!
