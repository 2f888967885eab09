//! The blackboard: a key/value store driven by a tiny command language
//! (`set`, `add`, `sub`, `jump`, `end`) and queried through a boolean
//! language of `and` / `or` chained three-token comparisons.
//!
//! Commands that go wrong (unknown verb, wrong arity, undecodable
//! literal, incompatible arithmetic) are never fatal: a diagnostic is
//! recorded and the rest of the script runs on. `jump` and `end` leave a
//! one-shot pending event in an explicit slot, read by the playback
//! engine through `get_event` and cleared with `mark_event_handled`;
//! a newer event silently replaces an unhandled one.
use vstd::prelude::*;

use crate::num::clamp_millis;
use crate::text::{
    find_at, lemma_find_at_bounds, segments_from, tokens_from, trimmed, split_on, tokens, trim,
    slice_eq, copy_range,
};
use crate::value::{
    decode, display, reduce_entry, spec_decode, spec_display, reduce, Entry, EntryV,
};

verus! {

/// A recorded, non-fatal complaint from the script interpreters.
#[derive(Debug, Clone, PartialEq, Eq)]
pub enum Diag {
    UnknownCommand { command: Vec<u8> },
    BadArity { command: Vec<u8> },
    BadLiteral { literal: Vec<u8> },
    MissingKey { key: Vec<u8> },
    BadCombine { key: Vec<u8> },
    MalformedClause { clause: Vec<u8> },
    UnknownOperator { op: Vec<u8> },
    UnknownKey { key: Vec<u8> },
}

/// The two internal events the command language can raise.
#[derive(Debug, Clone, Copy, PartialEq, Eq, Structural)]
pub enum EventKind {
    Jump,
    End,
}

/// The blackboard's state as the contracts see it: its mapping and its
/// pending event. Diagnostics stand outside the view and only grow.
pub struct BlackboardV {
    pub entries: Map<Seq<u8>, EntryV>,
    pub event: Option<(EventKind, EntryV)>,
}

pub struct Blackboard {
    entries: Vec<(Vec<u8>, Entry)>,
    event: Option<(EventKind, Entry)>,
    diags: Vec<Diag>,
}

/// The mapping an association list denotes; a later pair wins.
pub open spec fn assoc_map(s: Seq<(Vec<u8>, Entry)>) -> Map<Seq<u8>, EntryV>
    decreases s.len(),
{
    if s.len() == 0 {
        Map::empty()
    } else {
        assoc_map(s.drop_last()).insert(s.last().0@, s.last().1@)
    }
}

/// No key occurs twice.
pub open spec fn keys_unique(s: Seq<(Vec<u8>, Entry)>) -> bool {
    forall|i: int, j: int| 0 <= i < j < s.len() ==> (#[trigger] s[i].0@) != (#[trigger] s[j].0@)
}

impl View for Blackboard {
    type V = BlackboardV;

    closed spec fn view(&self) -> BlackboardV {
        BlackboardV {
            entries: assoc_map(self.entries@),
            event: match self.event {
                Option::Some((k, e)) => Some((k, e@)),
                Option::None => None,
            },
        }
    }
}

impl Blackboard {
    /// The association list is well formed.
    pub closed spec fn wf(&self) -> bool {
        keys_unique(self.entries@)
    }

    /// The recorded diagnostics.
    pub closed spec fn diags_view(&self) -> Seq<Diag> {
        self.diags@
    }
}

proof fn lemma_assoc_lookup(s: Seq<(Vec<u8>, Entry)>, k: Seq<u8>)
    requires
        keys_unique(s),
    ensures
        assoc_map(s).contains_key(k) == (exists|i: int|
            0 <= i < s.len() && (#[trigger] s[i].0@) == k),
        forall|i: int|
            0 <= i < s.len() && (#[trigger] s[i].0@) == k ==> assoc_map(s)[k] == s[i].1@,
    decreases s.len(),
{
    if s.len() == 0 {
    } else {
        let pre = s.drop_last();
        assert(keys_unique(pre));
        lemma_assoc_lookup(pre, k);
        let last = s.last();
        if last.0@ == k {
            assert(s[s.len() - 1].0@ == k);
            assert forall|i: int| 0 <= i < s.len() && (#[trigger] s[i].0@) == k implies assoc_map(
                s,
            )[k] == s[i].1@ by {
                if i < s.len() - 1 {
                    assert(s[i].0@ != s[s.len() - 1].0@);
                    assert(false);
                }
            }
        } else {
            assert forall|i: int| 0 <= i < s.len() && (#[trigger] s[i].0@) == k implies assoc_map(
                s,
            )[k] == s[i].1@ by {
                assert(i < s.len() - 1);
                assert(pre[i] == s[i]);
            }
            assert(assoc_map(s).contains_key(k) == assoc_map(pre).contains_key(k));
            if assoc_map(pre).contains_key(k) {
                let i = choose|i: int| 0 <= i < pre.len() && (#[trigger] pre[i].0@) == k;
                assert(s[i].0@ == k);
            }
            if exists|i: int| 0 <= i < s.len() && (#[trigger] s[i].0@) == k {
                let i = choose|i: int| 0 <= i < s.len() && (#[trigger] s[i].0@) == k;
                assert(i < s.len() - 1);
                assert(pre[i].0@ == k);
                assert(assoc_map(pre).contains_key(k));
            }
        }
    }
}

proof fn lemma_assoc_remove(s: Seq<(Vec<u8>, Entry)>, i: int)
    requires
        keys_unique(s),
        0 <= i < s.len(),
    ensures
        keys_unique(s.remove(i)),
        assoc_map(s.remove(i)) == assoc_map(s).remove(s[i].0@),
    decreases s.len(),
{
    let k = s[i].0@;
    assert(keys_unique(s.remove(i))) by {
        let r = s.remove(i);
        assert forall|a: int, b: int| 0 <= a < b < r.len() implies (#[trigger] r[a].0@)
            != (#[trigger] r[b].0@) by {
            let a0 = if a < i {
                a
            } else {
                a + 1
            };
            let b0 = if b < i {
                b
            } else {
                b + 1
            };
            assert(r[a] == s[a0] && r[b] == s[b0]);
        }
    }
    if i == s.len() - 1 {
        assert(s.remove(i) =~= s.drop_last());
        lemma_assoc_lookup(s.drop_last(), k);
        assert forall|j: int| 0 <= j < s.drop_last().len() implies (#[trigger] s.drop_last()[j].0@)
            != k by {
            assert(s.drop_last()[j] == s[j]);
            assert(s[j].0@ != s[s.len() - 1].0@);
        }
        assert(!assoc_map(s.drop_last()).contains_key(k));
        assert(assoc_map(s.drop_last()) =~= assoc_map(s).remove(k));
    } else {
        let pre = s.drop_last();
        assert(keys_unique(pre));
        lemma_assoc_remove(pre, i);
        assert(s.remove(i).drop_last() =~= pre.remove(i));
        assert(s.remove(i).last() == s.last());
        assert(assoc_map(s.remove(i)) == assoc_map(pre.remove(i)).insert(s.last().0@, s.last().1@));
        assert(s.last().0@ != k) by {
            assert(s[i].0@ != s[s.len() - 1].0@);
        }
        assert(assoc_map(pre).remove(k).insert(s.last().0@, s.last().1@) =~= assoc_map(s).remove(
            k,
        ));
    }
}

// ---- the command language, as the contracts state it ----

pub open spec fn set_word() -> Seq<u8> {
    seq![115u8, 101u8, 116u8]
}

pub open spec fn add_word() -> Seq<u8> {
    seq![97u8, 100u8, 100u8]
}

pub open spec fn sub_word() -> Seq<u8> {
    seq![115u8, 117u8, 98u8]
}

pub open spec fn jump_word() -> Seq<u8> {
    seq![106u8, 117u8, 109u8, 112u8]
}

pub open spec fn end_word() -> Seq<u8> {
    seq![101u8, 110u8, 100u8]
}

pub open spec fn and_word() -> Seq<u8> {
    seq![97u8, 110u8, 100u8]
}

pub open spec fn or_word() -> Seq<u8> {
    seq![111u8, 114u8]
}

/// `set key lit`: an undecodable literal writes nothing.
pub open spec fn spec_set(bb: BlackboardV, key: Seq<u8>, lit: Seq<u8>) -> BlackboardV {
    let e = spec_decode(lit);
    if e is Empty {
        bb
    } else {
        BlackboardV { entries: bb.entries.insert(key, e), event: bb.event }
    }
}

/// Combination rule for `add`: numbers add (booleans count as one),
/// texts concatenate with the display form of the addend, and any
/// other pairing yields the empty value.
pub open spec fn spec_combine_add(a: EntryV, b: EntryV) -> EntryV {
    match a {
        EntryV::Number(x) => match b {
            EntryV::Number(y) => EntryV::Number(clamp_millis(x + y)),
            EntryV::Bool(t) => EntryV::Number(clamp_millis(x + if t {
                1000int
            } else {
                0int
            })),
            EntryV::Str(_) => EntryV::Empty,
            EntryV::Empty => EntryV::Number(x),
        },
        EntryV::Str(xs) => EntryV::Str(xs + spec_display(b)),
        EntryV::Bool(_) => EntryV::Empty,
        EntryV::Empty => EntryV::Empty,
    }
}

/// Combination rule for `sub`: only numbers (boolean as one) subtract.
pub open spec fn spec_combine_sub(a: EntryV, b: EntryV) -> EntryV {
    match a {
        EntryV::Number(x) => match b {
            EntryV::Number(y) => EntryV::Number(clamp_millis(x - y)),
            EntryV::Bool(t) => EntryV::Number(clamp_millis(x - if t {
                1000int
            } else {
                0int
            })),
            EntryV::Str(_) => EntryV::Empty,
            EntryV::Empty => EntryV::Number(x),
        },
        _ => EntryV::Empty,
    }
}

/// `add key lit`: the key must exist and the literal must decode; the
/// combined value (possibly the empty value) is stored back.
pub open spec fn spec_add(bb: BlackboardV, key: Seq<u8>, lit: Seq<u8>) -> BlackboardV {
    if !bb.entries.contains_key(key) {
        bb
    } else {
        let e = spec_decode(lit);
        if e is Empty {
            bb
        } else {
            BlackboardV {
                entries: bb.entries.insert(key, spec_combine_add(bb.entries[key], e)),
                event: bb.event,
            }
        }
    }
}

/// `sub key lit`, mirroring `add`.
pub open spec fn spec_sub(bb: BlackboardV, key: Seq<u8>, lit: Seq<u8>) -> BlackboardV {
    if !bb.entries.contains_key(key) {
        bb
    } else {
        let e = spec_decode(lit);
        if e is Empty {
            bb
        } else {
            BlackboardV {
                entries: bb.entries.insert(key, spec_combine_sub(bb.entries[key], e)),
                event: bb.event,
            }
        }
    }
}

/// `jump target`: raises the jump event carrying the decoded target.
pub open spec fn spec_jump(bb: BlackboardV, target: Seq<u8>) -> BlackboardV {
    BlackboardV { entries: bb.entries, event: Some((EventKind::Jump, spec_decode(target))) }
}

/// `end`: raises the end event.
pub open spec fn spec_end(bb: BlackboardV) -> BlackboardV {
    BlackboardV { entries: bb.entries, event: Some((EventKind::End, EntryV::Empty)) }
}

/// One `;`-separated segment: verb lookup, arity check, dispatch.
/// A segment that fails either check leaves the state unchanged.
pub open spec fn spec_run_segment(bb: BlackboardV, seg: Seq<u8>) -> BlackboardV {
    let toks = tokens_from(seg, 0);
    if toks.len() == 0 {
        bb
    } else if toks[0] == set_word() {
        if toks.len() == 3 {
            spec_set(bb, toks[1], toks[2])
        } else {
            bb
        }
    } else if toks[0] == add_word() {
        if toks.len() == 3 {
            spec_add(bb, toks[1], toks[2])
        } else {
            bb
        }
    } else if toks[0] == sub_word() {
        if toks.len() == 3 {
            spec_sub(bb, toks[1], toks[2])
        } else {
            bb
        }
    } else if toks[0] == jump_word() {
        if toks.len() == 2 {
            spec_jump(bb, toks[1])
        } else {
            bb
        }
    } else if toks[0] == end_word() {
        if toks.len() == 1 {
            spec_end(bb)
        } else {
            bb
        }
    } else {
        bb
    }
}

pub open spec fn spec_run_action_from(bb: BlackboardV, segs: Seq<Seq<u8>>, i: int) -> BlackboardV
    decreases segs.len() - i,
{
    if i < 0 || i >= segs.len() {
        bb
    } else {
        spec_run_action_from(spec_run_segment(bb, segs[i]), segs, i + 1)
    }
}

/// What running a whole action script does: its `;`-separated segments
/// applied in order.
pub open spec fn spec_run_action(bb: BlackboardV, code: Seq<u8>) -> BlackboardV {
    spec_run_action_from(bb, segments_from(code, seq![59u8], 0), 0)
}

// ---- the query language, as the contracts state it ----

/// A token names a stored entry, or else decodes as a literal; either
/// way it reduces to a comparison integer.
pub open spec fn spec_resolve(m: Map<Seq<u8>, EntryV>, tok: Seq<u8>) -> int {
    if m.contains_key(tok) {
        reduce(m[tok])
    } else {
        reduce(spec_decode(tok))
    }
}

pub open spec fn eq_word() -> Seq<u8> {
    seq![61u8, 61u8]
}

pub open spec fn ne_word() -> Seq<u8> {
    seq![33u8, 61u8]
}

pub open spec fn ge_word() -> Seq<u8> {
    seq![62u8, 61u8]
}

pub open spec fn le_word() -> Seq<u8> {
    seq![60u8, 61u8]
}

pub open spec fn gt_word() -> Seq<u8> {
    seq![62u8]
}

pub open spec fn lt_word() -> Seq<u8> {
    seq![60u8]
}

/// One comparison clause: exactly three whitespace tokens, else false.
pub open spec fn spec_clause_value(m: Map<Seq<u8>, EntryV>, clause: Seq<u8>) -> bool {
    let toks = tokens_from(clause, 0);
    if toks.len() != 3 {
        false
    } else {
        let a = spec_resolve(m, toks[0]);
        let b = spec_resolve(m, toks[2]);
        if toks[1] == eq_word() {
            a == b
        } else if toks[1] == ne_word() {
            a != b
        } else if toks[1] == ge_word() {
            a >= b
        } else if toks[1] == le_word() {
            a <= b
        } else if toks[1] == gt_word() {
            a > b
        } else if toks[1] == lt_word() {
            a < b
        } else {
            false
        }
    }
}

pub open spec fn spec_or_value(m: Map<Seq<u8>, EntryV>, clauses: Seq<Seq<u8>>, i: int) -> bool
    decreases clauses.len() - i,
{
    if i < 0 || i >= clauses.len() {
        false
    } else {
        spec_clause_value(m, clauses[i]) || spec_or_value(m, clauses, i + 1)
    }
}

/// An `and`-chunk: true when any of its `or`-separated clauses is.
pub open spec fn spec_chunk_value(m: Map<Seq<u8>, EntryV>, chunk: Seq<u8>) -> bool {
    spec_or_value(m, segments_from(chunk, or_word(), 0), 0)
}

pub open spec fn spec_and_value(m: Map<Seq<u8>, EntryV>, chunks: Seq<Seq<u8>>, i: int) -> bool
    decreases chunks.len() - i,
{
    if i < 0 || i >= chunks.len() {
        true
    } else {
        spec_chunk_value(m, chunks[i]) && spec_and_value(m, chunks, i + 1)
    }
}

/// What a whole query evaluates to over a given mapping.
pub open spec fn spec_eval_query(m: Map<Seq<u8>, EntryV>, code: Seq<u8>) -> bool {
    spec_and_value(m, segments_from(code, and_word(), 0), 0)
}

// ---- text interpolation, as the contracts state it ----

pub open spec fn open_pat() -> Seq<u8> {
    seq![123u8, 123u8]
}

pub open spec fn close_pat() -> Seq<u8> {
    seq![125u8, 125u8]
}

/// Replaces each `{{ key }}` with the display form of the stored
/// entry; an unknown key shows as nothing. An unmatched opener is
/// dropped and the rest of the text kept.
pub open spec fn spec_format(m: Map<Seq<u8>, EntryV>, s: Seq<u8>) -> Seq<u8>
    decreases s.len(),
{
    match find_at(s, open_pat(), 0) {
        Option::None => s,
        Option::Some(p) => {
            if 0 <= p && p + 2 <= s.len() {
                let pre = s.subrange(0, p);
                let rest = s.subrange(p + 2, s.len() as int);
                match find_at(rest, close_pat(), 0) {
                    Option::None => pre + rest,
                    Option::Some(c) => {
                        if 0 <= c && c + 2 <= rest.len() {
                            let key = trimmed(rest.subrange(0, c));
                            let after = rest.subrange(c + 2, rest.len() as int);
                            let valtext = if m.contains_key(key) {
                                spec_display(m[key])
                            } else {
                                seq![]
                            };
                            pre + valtext + spec_format(m, after)
                        } else {
                            pre
                        }
                    },
                }
            } else {
                s
            }
        },
    }
}

fn word_vec(bytes: &[u8]) -> (r: Vec<u8>)
    ensures
        r@ == bytes@,
{
    let r = copy_range(bytes, 0, bytes.len());
    assert(r@ =~= bytes@);
    r
}

fn dup_bytes(v: &Vec<u8>) -> (r: Vec<u8>)
    ensures
        r@ == v@,
{
    let r = copy_range(v.as_slice(), 0, v.len());
    assert(r@ =~= v@);
    r
}

fn dup_entry(e: &Entry) -> (r: Entry)
    ensures
        r@ == e@,
{
    match e {
        Entry::Number(m) => Entry::Number(*m),
        Entry::Bool(b) => Entry::Bool(*b),
        Entry::Empty => Entry::Empty,
        Entry::Str(s) => Entry::Str(dup_bytes(s)),
    }
}

impl Blackboard {
    /// A fresh, empty blackboard.
    pub fn new() -> (r: Blackboard)
        ensures
            r.wf(),
            r@.entries == Map::<Seq<u8>, EntryV>::empty(),
            r@.event is None,
            r.diags_view() == Seq::<Diag>::empty(),
    {
        let r = Blackboard { entries: Vec::new(), event: None, diags: Vec::new() };
        assert(assoc_map(r.entries@) =~= Map::<Seq<u8>, EntryV>::empty());
        r
    }

    /// The recorded diagnostics, for the host to show.
    pub fn diagnostics(&self) -> (r: &Vec<Diag>)
        ensures
            r@ == self.diags_view(),
    {
        &self.diags
    }

    fn find_key(&self, key: &[u8]) -> (r: Option<usize>)
        requires
            self.wf(),
        ensures
            match r {
                Option::Some(i) => {
                    &&& i < self.entries@.len()
                    &&& self.entries@[i as int].0@ == key@
                    &&& self@.entries.contains_key(key@)
                    &&& self@.entries[key@] == self.entries@[i as int].1@
                },
                Option::None => !self@.entries.contains_key(key@),
            },
    {
        proof {
            lemma_assoc_lookup(self.entries@, key@);
        }
        let n = self.entries.len();
        let mut i: usize = 0;
        while i < n
            invariant
                self.wf(),
                n == self.entries@.len(),
                0 <= i <= n,
                forall|j: int| 0 <= j < i ==> (#[trigger] self.entries@[j].0@) != key@,
            decreases n - i,
        {
            if slice_eq(self.entries[i].0.as_slice(), key) {
                proof {
                    lemma_assoc_lookup(self.entries@, key@);
                }
                return Some(i);
            }
            i += 1;
        }
        proof {
            lemma_assoc_lookup(self.entries@, key@);
        }
        None
    }

    /// The stored entry under `key`, if any.
    pub fn get(&self, key: &[u8]) -> (r: Option<Entry>)
        requires
            self.wf(),
        ensures
            match r {
                Option::Some(e) => self@.entries.contains_key(key@) && e@ == self@.entries[key@],
                Option::None => !self@.entries.contains_key(key@),
            },
    {
        match self.find_key(key) {
            Some(i) => Some(dup_entry(&self.entries[i].1)),
            None => None,
        }
    }

    /// Removes `key`, if present.
    pub fn unset(&mut self, key: &[u8])
        requires
            old(self).wf(),
        ensures
            final(self).wf(),
            final(self)@.entries == old(self)@.entries.remove(key@),
            final(self)@.event == old(self)@.event,
            final(self).diags_view() == old(self).diags_view(),
    {
        match self.find_key(key) {
            Some(i) => {
                proof {
                    lemma_assoc_remove(self.entries@, i as int);
                }
                let _ = self.entries.remove(i);
            },
            None => {
                assert(old(self)@.entries.remove(key@) =~= old(self)@.entries);
            },
        }
    }

    /// Stores `val` under `key`, replacing any previous entry.
    fn put(&mut self, key: Vec<u8>, val: Entry)
        requires
            old(self).wf(),
        ensures
            final(self).wf(),
            final(self)@.entries == old(self)@.entries.insert(key@, val@),
            final(self)@.event == old(self)@.event,
            final(self).diags_view() == old(self).diags_view(),
    {
        let ghost k = key@;
        match self.find_key(key.as_slice()) {
            Some(i) => {
                proof {
                    lemma_assoc_remove(self.entries@, i as int);
                }
                let ghost removed = self.entries@.remove(i as int);
                let _ = self.entries.remove(i);
                proof {
                    lemma_assoc_lookup(removed, k);
                }
                self.entries.push((key, val));
                proof {
                    let s = self.entries@;
                    assert(s.drop_last() =~= removed);
                    assert(s.last().0@ == k && s.last().1@ == val@);
                    assert(assoc_map(s) == assoc_map(removed).insert(k, val@));
                    assert(assoc_map(removed) == assoc_map(old(self).entries@).remove(k));
                    assert(assoc_map(s) =~= assoc_map(old(self).entries@).insert(k, val@));
                    assert forall|a: int, b: int| 0 <= a < b < s.len() implies (#[trigger] s[a].0@)
                        != (#[trigger] s[b].0@) by {
                        if b == s.len() - 1 {
                            if s[a].0@ == s[b].0@ {
                                assert(removed[a] == s[a]);
                                assert(assoc_map(removed).contains_key(s[a].0@));
                                assert(false);
                            }
                        } else {
                            assert(removed[a] == s[a] && removed[b] == s[b]);
                        }
                    }
                }
            },
            None => {
                let ghost pre = self.entries@;
                self.entries.push((key, val));
                proof {
                    lemma_assoc_lookup(pre, k);
                    let s = self.entries@;
                    assert(s.drop_last() =~= pre);
                    assert(s.last().0@ == k && s.last().1@ == val@);
                    assert(assoc_map(s) == assoc_map(pre).insert(k, val@));
                    assert forall|a: int, b: int| 0 <= a < b < s.len() implies (#[trigger] s[a].0@)
                        != (#[trigger] s[b].0@) by {
                        if b == s.len() - 1 {
                            if s[a].0@ == s[b].0@ {
                                assert(pre[a] == s[a]);
                                assert(assoc_map(pre).contains_key(s[a].0@));
                                assert(false);
                            }
                        } else {
                            assert(pre[a] == s[a] && pre[b] == s[b]);
                        }
                    }
                }
            },
        }
    }

    /// `set`: decodes the literal and stores it; an undecodable
    /// literal writes nothing and records a diagnostic.
    pub fn set(&mut self, key: &[u8], value: &[u8])
        requires
            old(self).wf(),
        ensures
            final(self).wf(),
            final(self)@ == spec_set(old(self)@, key@, value@),
            old(self).diags_view().is_prefix_of(final(self).diags_view()),
            spec_decode(value@) is Empty ==> final(self).diags_view().len() > old(
                self,
            ).diags_view().len(),
    {
        let e = decode(value);
        match e {
            Entry::Empty => {
                self.diags.push(Diag::BadLiteral { literal: word_vec(value) });
            },
            _ => {
                self.put(word_vec(key), e);
            },
        }
    }

    /// `add`: combines the decoded literal into an existing entry.
    pub fn add(&mut self, key: &[u8], value: &[u8])
        requires
            old(self).wf(),
        ensures
            final(self).wf(),
            final(self)@ == spec_add(old(self)@, key@, value@),
            old(self).diags_view().is_prefix_of(final(self).diags_view()),
    {
        match self.find_key(key) {
            None => {
                self.diags.push(Diag::MissingKey { key: word_vec(key) });
            },
            Some(i) => {
                let e = decode(value);
                match e {
                    Entry::Empty => {
                        self.diags.push(Diag::BadLiteral { literal: word_vec(value) });
                    },
                    _ => {
                        let prev = dup_entry(&self.entries[i].1);
                        let combined = combine_add(&prev, &e);
                        match combined {
                            Entry::Empty => {
                                self.diags.push(Diag::BadCombine { key: word_vec(key) });
                            },
                            _ => {
                            },
                        }
                        self.put(word_vec(key), combined);
                    },
                }
            },
        }
    }

    /// `sub`: subtracts the decoded literal from an existing entry.
    pub fn sub(&mut self, key: &[u8], value: &[u8])
        requires
            old(self).wf(),
        ensures
            final(self).wf(),
            final(self)@ == spec_sub(old(self)@, key@, value@),
            old(self).diags_view().is_prefix_of(final(self).diags_view()),
    {
        match self.find_key(key) {
            None => {
                self.diags.push(Diag::MissingKey { key: word_vec(key) });
            },
            Some(i) => {
                let e = decode(value);
                match e {
                    Entry::Empty => {
                        self.diags.push(Diag::BadLiteral { literal: word_vec(value) });
                    },
                    _ => {
                        let prev = dup_entry(&self.entries[i].1);
                        let combined = combine_sub(&prev, &e);
                        match combined {
                            Entry::Empty => {
                                self.diags.push(Diag::BadCombine { key: word_vec(key) });
                            },
                            _ => {
                            },
                        }
                        self.put(word_vec(key), combined);
                    },
                }
            },
        }
    }

    /// `jump`: raises the jump event with the decoded target.
    pub fn jump(&mut self, target: &[u8])
        requires
            old(self).wf(),
        ensures
            final(self).wf(),
            final(self)@ == spec_jump(old(self)@, target@),
            final(self).diags_view() == old(self).diags_view(),
    {
        let e = decode(target);
        self.event = Some((EventKind::Jump, e));
    }

    /// `end`: raises the end event.
    pub fn end(&mut self)
        requires
            old(self).wf(),
        ensures
            final(self).wf(),
            final(self)@ == spec_end(old(self)@),
            final(self).diags_view() == old(self).diags_view(),
    {
        self.event = Some((EventKind::End, Entry::Empty));
    }

    /// The pending one-shot event, if any; reading does not clear it.
    pub fn get_event(&self) -> (r: Option<(EventKind, Entry)>)
        ensures
            match r {
                Option::Some((k, e)) => self@.event == Some((k, e@)),
                Option::None => self@.event is None,
            },
    {
        match &self.event {
            Some((k, e)) => Some((*k, dup_entry(e))),
            None => None,
        }
    }

    /// Clears the pending event.
    pub fn mark_event_handled(&mut self)
        ensures
            final(self).wf() == old(self).wf(),
            final(self)@.entries == old(self)@.entries,
            final(self)@.event is None,
            final(self).diags_view() == old(self).diags_view(),
    {
        self.event = None;
    }
}

pub proof fn lemma_diag_prefix_trans(a: Seq<Diag>, b: Seq<Diag>, c: Seq<Diag>)
    requires
        a.is_prefix_of(b),
        b.is_prefix_of(c),
    ensures
        a.is_prefix_of(c),
{
    assert(a =~= c.subrange(0, a.len() as int));
}

impl Blackboard {
    fn run_segment(&mut self, seg: &[u8])
        requires
            old(self).wf(),
        ensures
            final(self).wf(),
            final(self)@ == spec_run_segment(old(self)@, seg@),
            old(self).diags_view().is_prefix_of(final(self).diags_view()),
    {
        let toks = tokens(seg);
        let ghost tv = toks.deep_view();
        if toks.len() == 0 {
            self.diags.push(Diag::UnknownCommand { command: word_vec(seg) });
            return ;
        }
        assert(tv[0] == toks@[0]@);
        assert(toks@.len() >= 2 ==> tv[1] == toks@[1]@);
        assert(toks@.len() >= 3 ==> tv[2] == toks@[2]@);
        let mut setw: Vec<u8> = Vec::new();
        setw.push(115);
        setw.push(101);
        setw.push(116);
        assert(setw@ =~= set_word());
        let mut addw: Vec<u8> = Vec::new();
        addw.push(97);
        addw.push(100);
        addw.push(100);
        assert(addw@ =~= add_word());
        let mut subw: Vec<u8> = Vec::new();
        subw.push(115);
        subw.push(117);
        subw.push(98);
        assert(subw@ =~= sub_word());
        let mut jumpw: Vec<u8> = Vec::new();
        jumpw.push(106);
        jumpw.push(117);
        jumpw.push(109);
        jumpw.push(112);
        assert(jumpw@ =~= jump_word());
        let mut endw: Vec<u8> = Vec::new();
        endw.push(101);
        endw.push(110);
        endw.push(100);
        assert(endw@ =~= end_word());
        let cmd = &toks[0];
        if slice_eq(cmd.as_slice(), setw.as_slice()) {
            if toks.len() == 3 {
                let a = &toks[1];
                let b = &toks[2];
                self.set(a.as_slice(), b.as_slice());
            } else {
                self.diags.push(Diag::BadArity { command: dup_bytes(cmd) });
            }
        } else if slice_eq(cmd.as_slice(), addw.as_slice()) {
            if toks.len() == 3 {
                let a = &toks[1];
                let b = &toks[2];
                self.add(a.as_slice(), b.as_slice());
            } else {
                self.diags.push(Diag::BadArity { command: dup_bytes(cmd) });
            }
        } else if slice_eq(cmd.as_slice(), subw.as_slice()) {
            if toks.len() == 3 {
                let a = &toks[1];
                let b = &toks[2];
                self.sub(a.as_slice(), b.as_slice());
            } else {
                self.diags.push(Diag::BadArity { command: dup_bytes(cmd) });
            }
        } else if slice_eq(cmd.as_slice(), jumpw.as_slice()) {
            if toks.len() == 2 {
                let a = &toks[1];
                self.jump(a.as_slice());
            } else {
                self.diags.push(Diag::BadArity { command: dup_bytes(cmd) });
            }
        } else if slice_eq(cmd.as_slice(), endw.as_slice()) {
            if toks.len() == 1 {
                self.end();
            } else {
                self.diags.push(Diag::BadArity { command: dup_bytes(cmd) });
            }
        } else {
            self.diags.push(Diag::UnknownCommand { command: dup_bytes(cmd) });
        }
    }

    /// Runs a whole action script: its `;`-separated commands in order.
    /// Failing commands are skipped with a diagnostic; the rest run.
    #[verifier::loop_isolation(false)]
    pub fn parse_action(&mut self, code: &[u8])
        requires
            old(self).wf(),
        ensures
            final(self).wf(),
            final(self)@ == spec_run_action(old(self)@, code@),
            old(self).diags_view().is_prefix_of(final(self).diags_view()),
    {
        let mut semi: Vec<u8> = Vec::new();
        semi.push(59);
        assert(semi@ =~= seq![59u8]);
        let segs = split_on(code, semi.as_slice());
        let ghost sv = segs.deep_view();
        let n = segs.len();
        let mut i: usize = 0;
        while i < n
            invariant
                0 <= i <= n == sv.len(),
                self.wf(),
                spec_run_action_from(self@, sv, i as int) == spec_run_action_from(old(self)@, sv, 0),
                old(self).diags_view().is_prefix_of(self.diags_view()),
            decreases n - i,
        {
            let ghost before = *self;
            assert(sv[i as int] == segs@[i as int]@);
            let seg = &segs[i];
            self.run_segment(seg.as_slice());
            proof {
                lemma_diag_prefix_trans(
                    old(self).diags_view(),
                    before.diags_view(),
                    self.diags_view(),
                );
            }
            i += 1;
        }
    }

    fn resolve(&self, tok: &[u8]) -> (r: i64)
        requires
            self.wf(),
        ensures
            r as int == spec_resolve(self@.entries, tok@),
    {
        match self.find_key(tok) {
            Some(i) => reduce_entry(&self.entries[i].1),
            None => {
                let e = decode(tok);
                reduce_entry(&e)
            },
        }
    }

    fn eval_clause(&mut self, clause: &[u8]) -> (r: bool)
        requires
            old(self).wf(),
        ensures
            final(self).wf(),
            final(self)@ == old(self)@,
            r == spec_clause_value(old(self)@.entries, clause@),
            old(self).diags_view().is_prefix_of(final(self).diags_view()),
    {
        let toks = tokens(clause);
        let ghost tv = toks.deep_view();
        if toks.len() != 3 {
            self.diags.push(Diag::MalformedClause { clause: word_vec(clause) });
            return false;
        }
        assert(tv[0] == toks@[0]@ && tv[1] == toks@[1]@ && tv[2] == toks@[2]@);
        let a = self.resolve(toks[0].as_slice());
        let b = self.resolve(toks[2].as_slice());
        let op = &toks[1];
        let mut w: Vec<u8> = Vec::new();
        w.push(61);
        w.push(61);
        assert(w@ =~= eq_word());
        if slice_eq(op.as_slice(), w.as_slice()) {
            return a == b;
        }
        let mut w: Vec<u8> = Vec::new();
        w.push(33);
        w.push(61);
        assert(w@ =~= ne_word());
        if slice_eq(op.as_slice(), w.as_slice()) {
            return a != b;
        }
        let mut w: Vec<u8> = Vec::new();
        w.push(62);
        w.push(61);
        assert(w@ =~= ge_word());
        if slice_eq(op.as_slice(), w.as_slice()) {
            return a >= b;
        }
        let mut w: Vec<u8> = Vec::new();
        w.push(60);
        w.push(61);
        assert(w@ =~= le_word());
        if slice_eq(op.as_slice(), w.as_slice()) {
            return a <= b;
        }
        let mut w: Vec<u8> = Vec::new();
        w.push(62);
        assert(w@ =~= gt_word());
        if slice_eq(op.as_slice(), w.as_slice()) {
            return a > b;
        }
        let mut w: Vec<u8> = Vec::new();
        w.push(60);
        assert(w@ =~= lt_word());
        if slice_eq(op.as_slice(), w.as_slice()) {
            return a < b;
        }
        self.diags.push(Diag::UnknownOperator { op: dup_bytes(op) });
        false
    }

    #[verifier::loop_isolation(false)]
    fn eval_chunk(&mut self, chunk: &[u8]) -> (r: bool)
        requires
            old(self).wf(),
        ensures
            final(self).wf(),
            final(self)@ == old(self)@,
            r == spec_chunk_value(old(self)@.entries, chunk@),
            old(self).diags_view().is_prefix_of(final(self).diags_view()),
    {
        let mut orw: Vec<u8> = Vec::new();
        orw.push(111);
        orw.push(114);
        assert(orw@ =~= or_word());
        let clauses = split_on(chunk, orw.as_slice());
        let ghost ov = clauses.deep_view();
        let ghost m = old(self)@.entries;
        let n = clauses.len();
        let mut j: usize = 0;
        while j < n
            invariant
                0 <= j <= n == ov.len(),
                self.wf(),
                self@ == old(self)@,
                spec_or_value(m, ov, 0) == spec_or_value(m, ov, j as int),
                old(self).diags_view().is_prefix_of(self.diags_view()),
            decreases n - j,
        {
            let ghost before = *self;
            assert(ov[j as int] == clauses@[j as int]@);
            let c = self.eval_clause(clauses[j].as_slice());
            proof {
                lemma_diag_prefix_trans(
                    old(self).diags_view(),
                    before.diags_view(),
                    self.diags_view(),
                );
            }
            if c {
                assert(spec_or_value(m, ov, j as int));
                return true;
            }
            j += 1;
        }
        assert(!spec_or_value(m, ov, n as int));
        false
    }

    /// Evaluates a whole query: `and`-chunks must all hold, and a
    /// chunk holds when any of its `or`-clauses does. A malformed
    /// clause counts as false and records a diagnostic; the store and
    /// any pending event are untouched.
    #[verifier::loop_isolation(false)]
    pub fn parse_query(&mut self, code: &[u8]) -> (r: bool)
        requires
            old(self).wf(),
        ensures
            final(self).wf(),
            final(self)@ == old(self)@,
            r == spec_eval_query(old(self)@.entries, code@),
            old(self).diags_view().is_prefix_of(final(self).diags_view()),
    {
        let mut andw: Vec<u8> = Vec::new();
        andw.push(97);
        andw.push(110);
        andw.push(100);
        assert(andw@ =~= and_word());
        let chunks = split_on(code, andw.as_slice());
        let ghost cv = chunks.deep_view();
        let ghost m = old(self)@.entries;
        let n = chunks.len();
        let mut i: usize = 0;
        while i < n
            invariant
                0 <= i <= n == cv.len(),
                self.wf(),
                self@ == old(self)@,
                spec_and_value(m, cv, 0) == spec_and_value(m, cv, i as int),
                old(self).diags_view().is_prefix_of(self.diags_view()),
            decreases n - i,
        {
            let ghost before = *self;
            assert(cv[i as int] == chunks@[i as int]@);
            let c = self.eval_chunk(chunks[i].as_slice());
            proof {
                lemma_diag_prefix_trans(
                    old(self).diags_view(),
                    before.diags_view(),
                    self.diags_view(),
                );
            }
            if !c {
                assert(!spec_and_value(m, cv, i as int));
                return false;
            }
            i += 1;
        }
        assert(spec_and_value(m, cv, n as int));
        true
    }

    /// Interpolates `{{ key }}` placeholders with stored values; an
    /// unknown or empty entry renders as nothing, with a diagnostic.
    pub fn format_text(&mut self, text: &[u8]) -> (r: Vec<u8>)
        requires
            old(self).wf(),
        ensures
            final(self).wf(),
            final(self)@ == old(self)@,
            r@ == spec_format(old(self)@.entries, text@),
            old(self).diags_view().is_prefix_of(final(self).diags_view()),
        decreases text@.len(),
    {
        let mut op: Vec<u8> = Vec::new();
        op.push(123);
        op.push(123);
        assert(op@ =~= open_pat());
        let mut cp: Vec<u8> = Vec::new();
        cp.push(125);
        cp.push(125);
        assert(cp@ =~= close_pat());
        let tl = text.len();
        match crate::text::find_at_exec(text, op.as_slice(), 0) {
            None => {
                let r = copy_range(text, 0, tl);
                assert(r@ =~= text@);
                r
            },
            Some(p) => {
                proof {
                    lemma_find_at_bounds(text@, open_pat(), 0);
                }
                let rest = &text[p + 2..tl];
                assert(rest@ == text@.subrange(p + 2 as int, tl as int));
                let rl = rest.len();
                match crate::text::find_at_exec(rest, cp.as_slice(), 0) {
                    None => {
                        let mut out = copy_range(text, 0, p);
                        let mut tail = copy_range(rest, 0, rl);
                        out.append(&mut tail);
                        assert(out@ =~= text@.subrange(0, p as int) + rest@);
                        out
                    },
                    Some(c) => {
                        proof {
                            lemma_find_at_bounds(rest@, close_pat(), 0);
                        }
                        let keyv = trim(&rest[0..c]);
                        assert(keyv@ == trimmed(rest@.subrange(0, c as int)));
                        let valtext: Vec<u8> = match self.find_key(keyv.as_slice()) {
                            Some(i) => {
                                let e = &self.entries[i].1;
                                match e {
                                    Entry::Empty => {
                                        self.diags.push(
                                            Diag::UnknownKey { key: dup_bytes(&keyv) },
                                        );
                                    },
                                    _ => {
                                    },
                                }
                                display(&self.entries[i].1)
                            },
                            None => {
                                self.diags.push(Diag::UnknownKey { key: dup_bytes(&keyv) });
                                Vec::new()
                            },
                        };
                        let ghost mid = self.diags_view();
                        let after = &rest[c + 2..rl];
                        assert(after@ == rest@.subrange(c + 2 as int, rl as int));
                        let mut tail = self.format_text(after);
                        proof {
                            lemma_diag_prefix_trans(old(self).diags_view(), mid, self.diags_view());
                        }
                        let mut out = copy_range(text, 0, p);
                        let mut vt = valtext;
                        out.append(&mut vt);
                        out.append(&mut tail);
                        assert(out@ =~= text@.subrange(0, p as int) + (if old(
                            self,
                        )@.entries.contains_key(keyv@) {
                            spec_display(old(self)@.entries[keyv@])
                        } else {
                            Seq::<u8>::empty()
                        }) + spec_format(old(self)@.entries, after@));
                        out
                    },
                }
            },
        }
    }
}

/// The `add` combination rule, on concrete entries.
fn combine_add(a: &Entry, b: &Entry) -> (r: Entry)
    ensures
        r@ == spec_combine_add(a@, b@),
{
    match a {
        Entry::Number(x) => match b {
            Entry::Number(y) => Entry::Number(crate::num::sat_add(*x, *y)),
            Entry::Bool(t) => Entry::Number(crate::num::sat_add(*x, if *t {
                1000
            } else {
                0
            })),
            Entry::Str(_) => Entry::Empty,
            Entry::Empty => Entry::Number(*x),
        },
        Entry::Str(xs) => {
            let mut out = dup_bytes(xs);
            let mut tail = display(b);
            out.append(&mut tail);
            assert(out@ =~= xs@ + spec_display(b@));
            Entry::Str(out)
        },
        Entry::Bool(_) => Entry::Empty,
        Entry::Empty => Entry::Empty,
    }
}

/// The `sub` combination rule, on concrete entries.
fn combine_sub(a: &Entry, b: &Entry) -> (r: Entry)
    ensures
        r@ == spec_combine_sub(a@, b@),
{
    match a {
        Entry::Number(x) => match b {
            Entry::Number(y) => Entry::Number(crate::num::sat_sub(*x, *y)),
            Entry::Bool(t) => Entry::Number(crate::num::sat_sub(*x, if *t {
                1000
            } else {
                0
            })),
            Entry::Str(_) => Entry::Empty,
            Entry::Empty => Entry::Number(*x),
        },
        _ => Entry::Empty,
    }
}

} // verus!
