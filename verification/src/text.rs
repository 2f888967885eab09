//! Byte-level text utilities: searching, splitting, trimming and
//! whitespace tokenization, as the command and query languages need them.
//!
//! All script text is handled as UTF-8 bytes; every delimiter this module
//! searches for is ASCII, so byte-level splitting never cuts a multi-byte
//! character in half.
use vstd::prelude::*;

verus! {

/// ASCII whitespace, as the tokenizers treat it.
pub open spec fn is_space(b: u8) -> bool {
    b == 32 || b == 9 || b == 10 || b == 13
}

/// ASCII decimal digit.
pub open spec fn is_digit(b: u8) -> bool {
    48 <= b <= 57
}

/// The pattern `pat` occurs in `s` starting at index `i`.
pub open spec fn matches_at(s: Seq<u8>, pat: Seq<u8>, i: int) -> bool {
    &&& 0 <= i
    &&& i + pat.len() <= s.len()
    &&& s.subrange(i, i + pat.len()) == pat
}

/// Index of the first occurrence of the non-empty pattern `pat` at or
/// after `i`, if any.
pub open spec fn find_at(s: Seq<u8>, pat: Seq<u8>, i: int) -> Option<int>
    decreases s.len() - i,
{
    if pat.len() == 0 || i < 0 || i + pat.len() > s.len() {
        None
    } else if matches_at(s, pat, i) {
        Some(i)
    } else {
        find_at(s, pat, i + 1)
    }
}

pub proof fn lemma_find_at_bounds(s: Seq<u8>, pat: Seq<u8>, i: int)
    requires
        find_at(s, pat, i) is Some,
    ensures
        i <= find_at(s, pat, i)->Some_0,
        find_at(s, pat, i)->Some_0 + pat.len() <= s.len(),
        pat.len() > 0,
    decreases s.len() - i,
{
    if pat.len() == 0 || i < 0 || i + pat.len() > s.len() {
    } else if matches_at(s, pat, i) {
    } else {
        lemma_find_at_bounds(s, pat, i + 1);
    }
}

/// The segments of `s[i..]` split on the separator `pat`, separators
/// removed. Splitting an empty remainder yields one empty segment.
pub open spec fn segments_from(s: Seq<u8>, pat: Seq<u8>, i: int) -> Seq<Seq<u8>>
    decreases s.len() - i,
{
    if pat.len() == 0 || i < 0 || i > s.len() {
        seq![]
    } else {
        match find_at(s, pat, i) {
            Option::None => seq![s.subrange(i, s.len() as int)],
            Option::Some(j) => if i <= j && j + pat.len() <= s.len() {
                seq![s.subrange(i, j)] + segments_from(s, pat, j + pat.len())
            } else {
                seq![]
            },
        }
    }
}

/// First index at or after `i` that does not hold whitespace.
pub open spec fn ws_prefix_end(s: Seq<u8>, i: int) -> int
    decreases s.len() - i,
{
    if 0 <= i < s.len() && is_space(s[i]) {
        ws_prefix_end(s, i + 1)
    } else {
        i
    }
}

/// First index at or after `i` that holds whitespace, or the length.
pub open spec fn token_end(s: Seq<u8>, i: int) -> int
    decreases s.len() - i,
{
    if 0 <= i < s.len() && !is_space(s[i]) {
        token_end(s, i + 1)
    } else {
        i
    }
}

/// Start of the whitespace run that ends at `j` (scanning backwards).
pub open spec fn ws_suffix_start(s: Seq<u8>, j: int) -> int
    decreases j,
{
    if 0 < j <= s.len() && is_space(s[j - 1]) {
        ws_suffix_start(s, j - 1)
    } else {
        j
    }
}

/// `s` with leading and trailing ASCII whitespace removed.
pub open spec fn trimmed(s: Seq<u8>) -> Seq<u8> {
    let a = ws_prefix_end(s, 0);
    let b = ws_suffix_start(s, s.len() as int);
    if 0 <= a <= b <= s.len() {
        s.subrange(a, b)
    } else {
        seq![]
    }
}

/// The whitespace-separated tokens of `s[i..]`; runs of whitespace
/// collapse and yield no empty tokens.
pub open spec fn tokens_from(s: Seq<u8>, i: int) -> Seq<Seq<u8>>
    decreases s.len() - i,
{
    if i < 0 {
        seq![]
    } else {
        let j = ws_prefix_end(s, i);
        if !(i <= j < s.len()) {
            seq![]
        } else {
            let k = token_end(s, j);
            if j < k <= s.len() {
                seq![s.subrange(j, k)] + tokens_from(s, k)
            } else {
                seq![]
            }
        }
    }
}

/// `s` with ASCII upper-case letters folded to lower case.
pub open spec fn lowered(s: Seq<u8>) -> Seq<u8> {
    s.map_values(|b: u8| if 65 <= b <= 90 { (b + 32) as u8 } else { b })
}

/// Byte-for-byte equality of two slices.
pub fn slice_eq(a: &[u8], b: &[u8]) -> (r: bool)
    ensures
        r == (a@ == b@),
{
    if a.len() != b.len() {
        assert(a@.len() != b@.len());
        return false;
    }
    let n = a.len();
    let mut i: usize = 0;
    while i < n
        invariant
            n == a@.len() == b@.len(),
            0 <= i <= n,
            forall|k: int| 0 <= k < i ==> a@[k] == b@[k],
        decreases n - i,
    {
        if a[i] != b[i] {
            return false;
        }
        i += 1;
    }
    assert(a@ =~= b@);
    true
}

/// A fresh vector holding `s[a..b]`.
pub fn copy_range(s: &[u8], a: usize, b: usize) -> (r: Vec<u8>)
    requires
        a <= b <= s@.len(),
    ensures
        r@ == s@.subrange(a as int, b as int),
{
    let mut out: Vec<u8> = Vec::new();
    let mut i: usize = a;
    while i < b
        invariant
            a <= i <= b <= s@.len(),
            out@ == s@.subrange(a as int, i as int),
        decreases b - i,
    {
        out.push(s[i]);
        assert(out@ =~= s@.subrange(a as int, i + 1 as int));
        i += 1;
    }
    out
}

/// Whether `pat` occurs at exactly index `i` of `s`.
pub(crate) fn matches_at_exec(s: &[u8], pat: &[u8], i: usize) -> (r: bool)
    requires
        i + pat@.len() <= s@.len(),
    ensures
        r == matches_at(s@, pat@, i as int),
{
    let sl = s.len();
    let n = pat.len();
    let mut k: usize = 0;
    while k < n
        invariant
            i + n <= sl == s@.len(),
            n == pat@.len(),
            0 <= k <= n,
            forall|t: int| 0 <= t < k ==> s@[i + t] == pat@[t],
        decreases n - k,
    {
        if s[i + k] != pat[k] {
            assert(s@.subrange(i as int, i + n) != pat@) by {
                assert(s@.subrange(i as int, i + n)[k as int] != pat@[k as int]);
            }
            return false;
        }
        k += 1;
    }
    assert(s@.subrange(i as int, i + n) =~= pat@);
    true
}

/// First occurrence of `pat` at or after `i`.
pub fn find_at_exec(s: &[u8], pat: &[u8], i: usize) -> (r: Option<usize>)
    ensures
        match r {
            Option::Some(j) => i <= j && find_at(s@, pat@, i as int) == Option::Some(j as int),
            Option::None => find_at(s@, pat@, i as int) is None,
        },
    decreases s@.len() - i,
{
    if pat.len() == 0 || i > s.len() || pat.len() > s.len() - i {
        return None;
    }
    if matches_at_exec(s, pat, i) {
        Some(i)
    } else {
        find_at_exec(s, pat, i + 1)
    }
}

/// Pushes the segments of `s[i..]`, split on `pat`, onto `out`.
fn segments_push(s: &[u8], pat: &[u8], i: usize, out: &mut Vec<Vec<u8>>)
    requires
        pat@.len() > 0,
        i <= s@.len(),
    ensures
        final(out).deep_view() == old(out).deep_view() + segments_from(s@, pat@, i as int),
    decreases s@.len() - i,
{
    match find_at_exec(s, pat, i) {
        None => {
            out.push(copy_range(s, i, s.len()));
            assert(out.deep_view() =~~= old(out).deep_view() + segments_from(
                s@,
                pat@,
                i as int,
            ));
        },
        Some(j) => {
            proof {
                lemma_find_at_bounds(s@, pat@, i as int);
            }
            let sl = s.len();
            assert(j + pat@.len() <= sl);
            out.push(copy_range(s, i, j));
            let ghost mid = out.deep_view();
            assert(mid =~~= old(out).deep_view() + seq![s@.subrange(i as int, j as int)]);
            segments_push(s, pat, j + pat.len(), out);
            assert(out.deep_view() =~~= old(out).deep_view() + segments_from(
                s@,
                pat@,
                i as int,
            ));
        },
    }
}

/// The segments of `s` split on the separator `pat`.
pub fn split_on(s: &[u8], pat: &[u8]) -> (r: Vec<Vec<u8>>)
    requires
        pat@.len() > 0,
    ensures
        r.deep_view() == segments_from(s@, pat@, 0),
{
    let mut out: Vec<Vec<u8>> = Vec::new();
    segments_push(s, pat, 0, &mut out);
    assert(out.deep_view() =~~= segments_from(s@, pat@, 0));
    out
}

/// First non-whitespace index at or after `i`.
pub fn ws_prefix_end_exec(s: &[u8], i: usize) -> (r: usize)
    requires
        i <= s@.len(),
    ensures
        r == ws_prefix_end(s@, i as int),
        i <= r <= s@.len(),
        r < s@.len() ==> !is_space(s@[r as int]),
    decreases s@.len() - i,
{
    if i < s.len() && (s[i] == 32 || s[i] == 9 || s[i] == 10 || s[i] == 13) {
        ws_prefix_end_exec(s, i + 1)
    } else {
        i
    }
}

/// First whitespace index at or after `i`, or the length.
pub fn token_end_exec(s: &[u8], i: usize) -> (r: usize)
    requires
        i <= s@.len(),
    ensures
        r == token_end(s@, i as int),
        i <= r <= s@.len(),
        i < s@.len() && !is_space(s@[i as int]) ==> r > i,
    decreases s@.len() - i,
{
    if i < s.len() && !(s[i] == 32 || s[i] == 9 || s[i] == 10 || s[i] == 13) {
        token_end_exec(s, i + 1)
    } else {
        i
    }
}

fn ws_suffix_start_exec(s: &[u8], j: usize) -> (r: usize)
    requires
        j <= s@.len(),
    ensures
        r == ws_suffix_start(s@, j as int),
        0 <= r <= j,
    decreases j,
{
    if j > 0 && (s[j - 1] == 32 || s[j - 1] == 9 || s[j - 1] == 10 || s[j - 1] == 13) {
        ws_suffix_start_exec(s, j - 1)
    } else {
        j
    }
}

/// A fresh vector holding `s` with surrounding whitespace removed.
pub fn trim(s: &[u8]) -> (r: Vec<u8>)
    ensures
        r@ == trimmed(s@),
{
    let a = ws_prefix_end_exec(s, 0);
    let b = ws_suffix_start_exec(s, s.len());
    if a <= b {
        copy_range(s, a, b)
    } else {
        let out: Vec<u8> = Vec::new();
        assert(out@ =~= trimmed(s@));
        out
    }
}

fn tokens_push(s: &[u8], i: usize, out: &mut Vec<Vec<u8>>)
    requires
        i <= s@.len(),
    ensures
        final(out).deep_view() == old(out).deep_view() + tokens_from(s@, i as int),
    decreases s@.len() - i,
{
    let j = ws_prefix_end_exec(s, i);
    if j >= s.len() {
        assert(out.deep_view() =~~= old(out).deep_view() + tokens_from(s@, i as int));
    } else {
        let k = token_end_exec(s, j);
        out.push(copy_range(s, j, k));
        let ghost mid = out.deep_view();
        assert(mid =~~= old(out).deep_view() + seq![s@.subrange(j as int, k as int)]);
        tokens_push(s, k, out);
        assert(out.deep_view() =~~= old(out).deep_view() + tokens_from(s@, i as int));
    }
}

/// The whitespace-separated tokens of `s`.
pub fn tokens(s: &[u8]) -> (r: Vec<Vec<u8>>)
    ensures
        r.deep_view() == tokens_from(s@, 0),
{
    let mut out: Vec<Vec<u8>> = Vec::new();
    tokens_push(s, 0, &mut out);
    assert(out.deep_view() =~~= tokens_from(s@, 0));
    out
}

/// A fresh vector holding `s` with ASCII letters folded to lower case.
pub fn to_lower(s: &[u8]) -> (r: Vec<u8>)
    ensures
        r@ == lowered(s@),
{
    let mut out: Vec<u8> = Vec::new();
    let mut i: usize = 0;
    while i < s.len()
        invariant
            0 <= i <= s@.len(),
            out@ == lowered(s@.subrange(0, i as int)),
        decreases s@.len() - i,
    {
        let b = s[i];
        if 65 <= b && b <= 90 {
            out.push(b + 32);
        } else {
            out.push(b);
        }
        assert(out@ =~= lowered(s@.subrange(0, i + 1 as int)));
        i += 1;
    }
    assert(s@.subrange(0, s@.len() as int) =~= s@);
    out
}

} // verus!
