//! The playback engine: owns the current track, its remaining line
//! queue and the blackboard, and drives them as a state machine.
//!
//! While `Active`, `advance` pops lines: signals are published and
//! skipped, gated texts are filtered against the blackboard, a text or
//! choice stops the loop as a display call for the host, and an action
//! turns playback `Pending` with the script stashed for the next host
//! tick. Display calls and bus events accumulate in an outbox the host
//! drains with `take_outputs`; the engine never touches the outside
//! world itself. Loading a new track over a live session tears the old
//! one down first and drops any stale stashed action, so a discarded
//! session cannot mutate a newer one.
use vstd::prelude::*;

use crate::blackboard::{
    spec_eval_query, spec_format, spec_run_action, Blackboard, BlackboardV, Diag, EventKind,
};
use crate::num::clamp_i32;
use crate::track::{
    options_view, ChoiceOptionEntry, ChoiceOptionV, DialogError, DialogErrorV, DialogTrack, Line,
    LineV,
};
use crate::value::EntryV;

verus! {

/// Whether playback may move forward or is waiting on a deferred
/// action.
#[derive(Debug, Clone, Copy, PartialEq, Eq, Structural)]
pub enum DialogState {
    Active,
    Pending,
}

/// One engine emission: a lifecycle or signal event for the bus, or a
/// display call for the presentation adapter.
#[derive(Debug, PartialEq, Eq)]
pub enum Output {
    TrackStarted,
    TrackEnded,
    Signal { name: Vec<u8>, args: Vec<Vec<u8>> },
    DisplayText { text: Vec<u8>, character: Vec<u8> },
    DisplayChoice { prompt: Vec<u8>, character: Vec<u8>, options: Vec<ChoiceOptionEntry> },
}

/// Spec twin of `Output`.
pub enum OutputV {
    TrackStarted,
    TrackEnded,
    Signal { name: Seq<u8>, args: Seq<Seq<u8>> },
    DisplayText { text: Seq<u8>, character: Seq<u8> },
    DisplayChoice { prompt: Seq<u8>, character: Seq<u8>, options: Seq<ChoiceOptionV> },
}

impl View for Output {
    type V = OutputV;

    open spec fn view(&self) -> OutputV {
        match self {
            Output::TrackStarted => OutputV::TrackStarted,
            Output::TrackEnded => OutputV::TrackEnded,
            Output::Signal { name, args } => OutputV::Signal {
                name: name@,
                args: args.deep_view(),
            },
            Output::DisplayText { text, character } => OutputV::DisplayText {
                text: text@,
                character: character@,
            },
            Output::DisplayChoice { prompt, character, options } => OutputV::DisplayChoice {
                prompt: prompt@,
                character: character@,
                options: options_view(*options),
            },
        }
    }
}

/// The engine's state as the contracts see it.
#[verifier::ext_equal]
pub struct CoreDialogV {
    pub blackboard: BlackboardV,
    pub track: Option<Seq<LineV>>,
    pub queue: Seq<LineV>,
    pub state: DialogState,
    pub pending_action: Option<Seq<u8>>,
    pub choice_open: Option<Seq<ChoiceOptionV>>,
    pub session: bool,
    pub outputs: Seq<OutputV>,
}

/// The playback engine.
pub struct CoreDialog {
    blackboard: Blackboard,
    current_track: Option<DialogTrack>,
    queue: Vec<Line>,
    state: DialogState,
    pending_action: Option<Vec<u8>>,
    choice_open: Option<Vec<ChoiceOptionEntry>>,
    session: bool,
    outputs: Vec<Output>,
}

impl View for CoreDialog {
    type V = CoreDialogV;

    closed spec fn view(&self) -> CoreDialogV {
        CoreDialogV {
            blackboard: self.blackboard@,
            track: match &self.current_track {
                Option::Some(t) => Some(t@),
                Option::None => None,
            },
            queue: Seq::new(self.queue@.len(), |i: int| self.queue@[i]@),
            state: self.state,
            pending_action: match &self.pending_action {
                Option::Some(a) => Some(a@),
                Option::None => None,
            },
            choice_open: match &self.choice_open {
                Option::Some(v) => Some(options_view(*v)),
                Option::None => None,
            },
            session: self.session,
            outputs: Seq::new(self.outputs@.len(), |i: int| self.outputs@[i]@),
        }
    }
}

/// The options of a choice that pass their `requires` gate, in order.
pub open spec fn enabled_from(
    m: Map<Seq<u8>, EntryV>,
    opts: Seq<ChoiceOptionV>,
    i: int,
) -> Seq<ChoiceOptionV>
    decreases opts.len() - i,
{
    if i < 0 || i >= opts.len() {
        seq![]
    } else {
        (if opts[i].gate.len() == 0 || spec_eval_query(m, opts[i].gate) {
            seq![opts[i]]
        } else {
            seq![]
        }) + enabled_from(m, opts, i + 1)
    }
}

/// One run of the advance loop: no-op while pending, while a choice is
/// on screen, or without a session; otherwise lines pop until a text
/// or choice renders, an action suspends playback, or the queue runs
/// out and the session ends. Signal lines publish and never pause;
/// gated texts that fail their query are discarded unrendered.
pub open spec fn spec_scan(s: CoreDialogV) -> CoreDialogV
    decreases s.queue.len(),
{
    if s.state is Pending || s.choice_open is Some || !s.session {
        s
    } else if s.queue.len() == 0 {
        CoreDialogV {
            session: false,
            outputs: s.outputs.push(OutputV::TrackEnded),
            choice_open: None,
            ..s
        }
    } else {
        let rest = s.queue.skip(1);
        match s.queue[0] {
            LineV::Empty => spec_scan(CoreDialogV { queue: rest, ..s }),
            LineV::Signal { name, args } => spec_scan(
                CoreDialogV {
                    queue: rest,
                    outputs: s.outputs.push(OutputV::Signal { name, args }),
                    ..s
                },
            ),
            LineV::Action { action } => CoreDialogV {
                queue: rest,
                state: DialogState::Pending,
                pending_action: Some(action),
                ..s
            },
            LineV::Text { text, character, gate } => {
                if gate.len() > 0 && !spec_eval_query(s.blackboard.entries, gate) {
                    spec_scan(CoreDialogV { queue: rest, ..s })
                } else {
                    CoreDialogV {
                        queue: rest,
                        outputs: s.outputs.push(
                            OutputV::DisplayText {
                                text: spec_format(s.blackboard.entries, text),
                                character: spec_format(s.blackboard.entries, character),
                            },
                        ),
                        ..s
                    }
                }
            },
            LineV::Choice { prompt, character, options } => {
                let en = enabled_from(s.blackboard.entries, options, 0);
                CoreDialogV {
                    queue: rest,
                    choice_open: Some(en),
                    outputs: s.outputs.push(
                        OutputV::DisplayChoice {
                            prompt: spec_format(s.blackboard.entries, prompt),
                            character: spec_format(s.blackboard.entries, character),
                            options: en,
                        },
                    ),
                    ..s
                }
            },
        }
    }
}

/// How many lines a jump argument drops: its floor, held at zero and
/// at the queue's length.
pub open spec fn jump_count(m: int, qlen: int) -> int {
    let n = clamp_i32(m / 1000);
    if n < 0 {
        0
    } else if n > qlen {
        qlen
    } else {
        n
    }
}

/// Running a script through the blackboard and answering its event:
/// `end` clears the queue, `jump n` drops `n` lines off the remaining
/// queue; the stale stashed action (if any) is discarded, the event is
/// cleared, playback returns to `Active` and advances again.
pub open spec fn spec_bb_action(s: CoreDialogV, code: Seq<u8>) -> CoreDialogV {
    let bb1 = spec_run_action(s.blackboard, code);
    let cleared = BlackboardV { event: None, ..bb1 };
    let s1 = CoreDialogV {
        blackboard: cleared,
        pending_action: None,
        state: DialogState::Active,
        ..s
    };
    let s2 = match bb1.event {
        Option::None => s1,
        Option::Some((EventKind::End, _)) => CoreDialogV { queue: seq![], ..s1 },
        Option::Some((EventKind::Jump, arg)) => match arg {
            EntryV::Number(m) => CoreDialogV {
                queue: s1.queue.skip(jump_count(m, s1.queue.len() as int)),
                ..s1
            },
            _ => s1,
        },
    };
    spec_scan(s2)
}

/// What loading a parsed line sequence does: a live session ends
/// first, then the queue is replaced, state resets, a fresh adapter
/// session opens, the start of the track is announced, and playback
/// advances at once.
pub open spec fn spec_load(s: CoreDialogV, lines: Seq<LineV>) -> CoreDialogV {
    let pre_outputs = if s.session {
        s.outputs.push(OutputV::TrackEnded)
    } else {
        s.outputs
    };
    spec_scan(
        CoreDialogV {
            blackboard: s.blackboard,
            track: Some(lines),
            queue: lines,
            state: DialogState::Active,
            pending_action: None,
            choice_open: None,
            session: true,
            outputs: pre_outputs.push(OutputV::TrackStarted),
        },
    )
}

fn dup_bytes(v: &Vec<u8>) -> (r: Vec<u8>)
    ensures
        r@ == v@,
{
    let r = crate::text::copy_range(v.as_slice(), 0, v.len());
    assert(r@ =~= v@);
    r
}

impl CoreDialog {
    /// The engine's association store is well formed.
    pub closed spec fn wf(&self) -> bool {
        self.blackboard.wf()
    }

    /// The blackboard's recorded diagnostics.
    pub closed spec fn diags_view(&self) -> Seq<Diag> {
        self.blackboard.diags_view()
    }

    /// A fresh engine: empty blackboard, no track, no session.
    pub fn new() -> (r: CoreDialog)
        ensures
            r.wf(),
            r@.blackboard.entries == Map::<Seq<u8>, EntryV>::empty(),
            r@.blackboard.event is None,
            r@.track is None,
            r@.queue == Seq::<LineV>::empty(),
            r@.state == DialogState::Active,
            r@.pending_action is None,
            r@.choice_open is None,
            !r@.session,
            r@.outputs == Seq::<OutputV>::empty(),
    {
        let r = CoreDialog {
            blackboard: Blackboard::new(),
            current_track: None,
            queue: Vec::new(),
            state: DialogState::Active,
            pending_action: None,
            choice_open: None,
            session: false,
            outputs: Vec::new(),
        };
        assert(r@.queue =~= Seq::<LineV>::empty());
        assert(r@.outputs =~= Seq::<OutputV>::empty());
        r
    }

    /// The recorded diagnostics, for the host to show.
    pub fn diagnostics(&self) -> (r: &Vec<Diag>)
        ensures
            r@ == self.diags_view(),
    {
        self.blackboard.diagnostics()
    }

    /// The playback state.
    pub fn current_state(&self) -> (r: DialogState)
        ensures
            r == self@.state,
    {
        self.state
    }

    /// Whether a presentation session is live.
    pub fn has_session(&self) -> (r: bool)
        ensures
            r == self@.session,
    {
        self.session
    }

    /// The lines still queued for playback.
    pub fn remaining(&self) -> (r: &Vec<Line>)
        ensures
            Seq::new(r@.len(), |i: int| r@[i]@) == self@.queue,
    {
        &self.queue
    }

    /// The stored entry under `key`, straight from the blackboard.
    pub fn get(&self, key: &[u8]) -> (r: Option<crate::value::Entry>)
        requires
            self.wf(),
        ensures
            match r {
                Option::Some(e) => self@.blackboard.entries.contains_key(key@) && e@
                    == self@.blackboard.entries[key@],
                Option::None => !self@.blackboard.entries.contains_key(key@),
            },
    {
        self.blackboard.get(key)
    }

    /// Drains the outbox: everything emitted since the last drain, in
    /// emission order.
    pub fn take_outputs(&mut self) -> (r: Vec<Output>)
        ensures
            final(self).wf() == old(self).wf(),
            Seq::new(r@.len(), |i: int| r@[i]@) == old(self)@.outputs,
            final(self)@ == (CoreDialogV { outputs: Seq::<OutputV>::empty(), ..old(self)@ }),
            final(self).diags_view() == old(self).diags_view(),
    {
        let mut out: Vec<Output> = Vec::new();
        core::mem::swap(&mut out, &mut self.outputs);
        assert(Seq::new(self.outputs@.len(), |i: int| self.outputs@[i]@) =~= Seq::<
            OutputV,
        >::empty());
        out
    }

    fn emit(&mut self, o: Output)
        ensures
            final(self)@ == (CoreDialogV { outputs: old(self)@.outputs.push(o@), ..old(self)@ }),
            final(self).wf() == old(self).wf(),
            final(self).diags_view() == old(self).diags_view(),
    {
        let ghost ov = o@;
        self.outputs.push(o);
        assert(Seq::new(self.outputs@.len(), |i: int| self.outputs@[i]@) =~= old(
            self,
        )@.outputs.push(ov));
    }

    fn filter_enabled(&mut self, opts: &Vec<ChoiceOptionEntry>, i: usize) -> (r: Vec<
        ChoiceOptionEntry,
    >)
        requires
            old(self).wf(),
            i <= opts@.len(),
        ensures
            final(self).wf(),
            final(self)@ == old(self)@,
            options_view(r) == enabled_from(old(self)@.blackboard.entries, options_view(*opts), i as int),
            old(self).diags_view().is_prefix_of(final(self).diags_view()),
        decreases opts@.len() - i,
    {
        let ghost ov = options_view(*opts);
        let ghost m = old(self)@.blackboard.entries;
        if i >= opts.len() {
            let r: Vec<ChoiceOptionEntry> = Vec::new();
            assert(options_view(r) =~= enabled_from(m, ov, i as int));
            return r;
        }
        assert(ov[i as int] == opts@[i as int]@);
        let keep = if opts[i].gate.len() == 0 {
            true
        } else {
            self.blackboard.parse_query(opts[i].gate.as_slice())
        };
        let ghost before = *self;
        let mut rest = self.filter_enabled(opts, i + 1);
        proof {
            crate::blackboard::lemma_diag_prefix_trans(
                old(self).diags_view(),
                before.diags_view(),
                self.diags_view(),
            );
        }
        if keep {
            let ghost restv = options_view(rest);
            let mut r = rest;
            r.insert(0, opts[i].duplicate());
            proof {
                assert(options_view(r) =~= seq![ov[i as int]] + restv) by {
                    assert forall|t: int| 0 <= t < r@.len() implies options_view(r)[t] == (
                    seq![ov[i as int]] + restv)[t] by {
                        if t == 0 {
                        } else {
                            assert(r@[t] == rest@[t - 1]);
                            assert(restv[t - 1] == rest@[t - 1]@);
                        }
                    }
                }
            }
            r
        } else {
            assert(options_view(rest) =~= enabled_from(m, ov, i as int));
            rest
        }
    }

    /// Pops lines forward as far as the state machine allows: the next
    /// text or choice renders, an action suspends, signals publish in
    /// passing, and an exhausted queue ends the session.
    pub fn advance(&mut self)
        requires
            old(self).wf(),
        ensures
            final(self).wf(),
            final(self)@ == spec_scan(old(self)@),
            old(self).diags_view().is_prefix_of(final(self).diags_view()),
    {
        let pend = match self.state {
            DialogState::Pending => true,
            DialogState::Active => false,
        };
        let choice = match &self.choice_open {
            Some(_) => true,
            None => false,
        };
        if pend || choice || !self.session {
            assert(self@ == spec_scan(old(self)@));
            assert(old(self).diags_view().is_prefix_of(self.diags_view())) by {
                assert(old(self).diags_view() =~= self.diags_view().subrange(
                    0,
                    old(self).diags_view().len() as int,
                ));
            }
            return ;
        }
        loop
            invariant
                self.wf(),
                self.state == DialogState::Active,
                self.choice_open is None,
                self.session,
                spec_scan(self@) == spec_scan(old(self)@),
                old(self).diags_view().is_prefix_of(self.diags_view()),
            decreases self.queue@.len(),
        {
            let ghost pre = self@;
            if self.queue.len() == 0 {
                self.emit(Output::TrackEnded);
                self.session = false;
                assert(self@ == spec_scan(pre));
                return ;
            }
            let line = self.queue.remove(0);
            let ghost lv = line@;
            assert(lv == pre.queue[0] && Seq::new(self.queue@.len(), |i: int| self.queue@[i]@)
                =~= pre.queue.skip(1));
            match line {
                Line::Empty => {
                    assert(spec_scan(self@) == spec_scan(pre));
                },
                Line::Signal { name, args } => {
                    self.emit(Output::Signal { name, args });
                    assert(spec_scan(self@) == spec_scan(pre));
                },
                Line::Action { action } => {
                    self.state = DialogState::Pending;
                    self.pending_action = Some(action);
                    assert(self@ == spec_scan(pre));
                    return ;
                },
                Line::Text { text, character, gate } => {
                    let skip_line = if gate.len() == 0 {
                        false
                    } else {
                        let ghost before = *self;
                        let ok = self.blackboard.parse_query(gate.as_slice());
                        proof {
                            crate::blackboard::lemma_diag_prefix_trans(
                                old(self).diags_view(),
                                before.diags_view(),
                                self.diags_view(),
                            );
                        }
                        !ok
                    };
                    if !skip_line {
                        let ghost before = *self;
                        let ftext = self.blackboard.format_text(text.as_slice());
                        let fchar = self.blackboard.format_text(character.as_slice());
                        proof {
                            crate::blackboard::lemma_diag_prefix_trans(
                                old(self).diags_view(),
                                before.diags_view(),
                                self.diags_view(),
                            );
                        }
                        self.emit(Output::DisplayText { text: ftext, character: fchar });
                        assert(self@ == spec_scan(pre));
                        return ;
                    } else {
                        assert(spec_scan(self@) == spec_scan(pre));
                    }
                },
                Line::Choice { prompt, character, options } => {
                    let ghost before = *self;
                    let en = self.filter_enabled(&options, 0);
                    let ghost env = options_view(en);
                    let fprompt = self.blackboard.format_text(prompt.as_slice());
                    let fchar = self.blackboard.format_text(character.as_slice());
                    proof {
                        crate::blackboard::lemma_diag_prefix_trans(
                            old(self).diags_view(),
                            before.diags_view(),
                            self.diags_view(),
                        );
                    }
                    let shown = self.filter_enabled(&options, 0);
                    proof {
                        crate::blackboard::lemma_diag_prefix_trans(
                            old(self).diags_view(),
                            before.diags_view(),
                            self.diags_view(),
                        );
                    }
                    self.emit(
                        Output::DisplayChoice { prompt: fprompt, character: fchar, options: en },
                    );
                    self.choice_open = Some(shown);
                    assert(self@ == spec_scan(pre));
                    return ;
                },
            }
        }
    }

    /// Drops up to `n` lines off the front of the queue.
    fn drop_front(&mut self, n: usize)
        ensures
            final(self)@ == (CoreDialogV {
                queue: old(self)@.queue.skip(
                    if n <= old(self)@.queue.len() {
                        n as int
                    } else {
                        old(self)@.queue.len() as int
                    },
                ),
                ..old(self)@
            }),
            final(self).wf() == old(self).wf(),
            final(self).diags_view() == old(self).diags_view(),
    {
        let ghost s0 = self@;
        let qlen = self.queue.len();
        let m = if n <= qlen {
            n
        } else {
            qlen
        };
        proof {
            assert(s0.queue.skip(0) =~= s0.queue);
            assert(self@ =~= (CoreDialogV { queue: s0.queue.skip(0), ..s0 }));
        }
        let mut k: usize = 0;
        while k < m
            invariant
                0 <= k <= m <= s0.queue.len(),
                m == if n <= s0.queue.len() {
                    n as int
                } else {
                    s0.queue.len() as int
                },
                self@ == (CoreDialogV { queue: s0.queue.skip(k as int), ..s0 }),
                self.blackboard == old(self).blackboard,
            decreases m - k,
        {
            proof {
                assert(self@.queue == s0.queue.skip(k as int));
                assert(self@.queue == Seq::new(self.queue@.len(), |i: int| self.queue@[i]@));
                assert(self.queue@.len() == s0.queue.len() - k);
            }
            let ghost prev = self.queue@;
            let _ = self.queue.remove(0);
            proof {
                assert(self.queue@ == prev.remove(0));
                assert forall|i: int| 0 <= i < self.queue@.len() implies (#[trigger] self.queue@[i]@)
                    == s0.queue.skip(k + 1 as int)[i] by {
                    assert(self.queue@[i] == prev[i + 1]);
                    assert(prev[i + 1]@ == s0.queue.skip(k as int)[i + 1]);
                }
                assert(Seq::new(self.queue@.len(), |i: int| self.queue@[i]@) =~= s0.queue.skip(
                    k + 1 as int,
                ));
                assert(self@ =~= (CoreDialogV { queue: s0.queue.skip(k + 1 as int), ..s0 }));
            }
            k += 1;
        }
    }

    /// Runs a script through the blackboard and answers the event it
    /// left: `end` empties the queue, `jump n` drops `n` lines off the
    /// remaining queue (a jump with no number is recovered by just
    /// clearing the event), then playback returns to `Active` and
    /// advances. Any stale stashed action is discarded first, so a
    /// callback from a replaced session cannot run twice.
    pub fn blackboard_action(&mut self, action: &[u8])
        requires
            old(self).wf(),
        ensures
            final(self).wf(),
            final(self)@ == spec_bb_action(old(self)@, action@),
            old(self).diags_view().is_prefix_of(final(self).diags_view()),
    {
        self.pending_action = None;
        let ghost pre = *self;
        self.blackboard.parse_action(action);
        let ghost mid = *self;
        match self.blackboard.get_event() {
            None => {
                self.blackboard.mark_event_handled();
            },
            Some((EventKind::End, _)) => {
                self.queue.clear();
                assert(Seq::new(self.queue@.len(), |i: int| self.queue@[i]@) =~= Seq::<
                    LineV,
                >::empty());
                self.blackboard.mark_event_handled();
            },
            Some((EventKind::Jump, arg)) => {
                match arg {
                    crate::value::Entry::Number(m) => {
                        let f = crate::num::floor_units(m);
                        let n: usize = if f < 0 {
                            0
                        } else {
                            f as usize
                        };
                        let ghost qlen = self@.queue.len() as int;
                        self.drop_front(n);
                        proof {
                            assert((if n as int <= qlen {
                                n as int
                            } else {
                                qlen
                            }) == jump_count(m as int, qlen));
                        }
                    },
                    _ => {
                    },
                }
                self.blackboard.mark_event_handled();
            },
        }
        self.state = DialogState::Active;
        let ghost before_scan = *self;
        self.advance();
        proof {
            crate::blackboard::lemma_diag_prefix_trans(
                old(self).diags_view(),
                before_scan.diags_view(),
                self.diags_view(),
            );
        }
    }

    /// One host tick: while pending with a stashed action, runs it
    /// (which resumes playback); otherwise does nothing.
    pub fn tick(&mut self)
        requires
            old(self).wf(),
        ensures
            final(self).wf(),
            final(self)@ == spec_tick(old(self)@),
            old(self).diags_view().is_prefix_of(final(self).diags_view()),
    {
        let pend = match self.state {
            DialogState::Pending => true,
            DialogState::Active => false,
        };
        let act: Option<Vec<u8>> = if pend {
            match &self.pending_action {
                Some(a) => Some(dup_bytes(a)),
                None => None,
            }
        } else {
            None
        };
        match act {
            Some(a) => {
                self.blackboard_action(a.as_slice());
            },
            None => {
                assert(old(self).diags_view().is_prefix_of(self.diags_view())) by {
                    assert(old(self).diags_view() =~= self.diags_view().subrange(
                        0,
                        old(self).diags_view().len() as int,
                    ));
                }
            },
        }
    }

    /// Forwards a selection to the open choice. A selection that does
    /// not name an enabled option (the adapter never shows the
    /// filtered ones) is refused; an honored selection closes the
    /// choice and runs its action.
    pub fn make_choice_selection(&mut self, selection: i32) -> (r: bool)
        requires
            old(self).wf(),
        ensures
            final(self).wf(),
            r == spec_selection_valid(old(self)@, selection as int),
            final(self)@ == spec_choice(old(self)@, selection as int),
            old(self).diags_view().is_prefix_of(final(self).diags_view()),
    {
        let valid = self.session && selection >= 0 && (match &self.choice_open {
            Some(opts) => (selection as usize) < opts.len(),
            None => false,
        });
        if !valid {
            assert(old(self).diags_view().is_prefix_of(self.diags_view())) by {
                assert(old(self).diags_view() =~= self.diags_view().subrange(
                    0,
                    old(self).diags_view().len() as int,
                ));
            }
            return false;
        }
        let act: Vec<u8> = match &self.choice_open {
            Some(opts) => dup_bytes(&opts[selection as usize].action),
            None => Vec::new(),
        };
        self.choice_open = None;
        self.blackboard_action(act.as_slice());
        true
    }

    /// Replaces the playback session with the already-loaded track, if
    /// one is set; without a track nothing changes.
    pub fn load_track(&mut self)
        requires
            old(self).wf(),
        ensures
            final(self).wf(),
            match old(self)@.track {
                Option::Some(lines) => final(self)@ == spec_load(old(self)@, lines),
                Option::None => final(self)@ == old(self)@,
            },
            old(self).diags_view().is_prefix_of(final(self).diags_view()),
    {
        let have_track = match &self.current_track {
            Some(_) => true,
            None => false,
        };
        if !have_track {
            assert(old(self).diags_view().is_prefix_of(self.diags_view())) by {
                assert(old(self).diags_view() =~= self.diags_view().subrange(
                    0,
                    old(self).diags_view().len() as int,
                ));
            }
            return ;
        }
        if self.session {
            self.emit(Output::TrackEnded);
        }
        let mut fresh: Vec<Line> = Vec::new();
        match &self.current_track {
            Some(t) => {
                let n = t.lines.len();
                let mut i: usize = 0;
                while i < n
                    invariant
                        n == t.lines@.len(),
                        0 <= i <= n,
                        fresh@.len() == i,
                        forall|j: int| 0 <= j < i ==> (#[trigger] fresh@[j]@) == t.lines@[j]@,
                    decreases n - i,
                {
                    fresh.push(t.lines[i].duplicate());
                    i += 1;
                }
            },
            None => {
            },
        }
        self.queue = fresh;
        self.state = DialogState::Active;
        self.pending_action = None;
        self.choice_open = None;
        self.session = true;
        self.emit(Output::TrackStarted);
        proof {
            assert(Seq::new(self.queue@.len(), |i: int| self.queue@[i]@) =~= old(
                self,
            )@.track->Some_0);
        }
        let ghost before_scan = *self;
        self.advance();
        proof {
            crate::blackboard::lemma_diag_prefix_trans(
                old(self).diags_view(),
                before_scan.diags_view(),
                self.diags_view(),
            );
        }
    }

    /// Validates a decoded document and, on success, loads and starts
    /// it. A failed load changes nothing: the previous session's
    /// display stays untouched and the structural error is returned.
    pub fn load_track_dict(&mut self, doc: &crate::doc::DocValue) -> (r: Result<(), DialogError>)
        requires
            old(self).wf(),
        ensures
            final(self).wf(),
            match r {
                Result::Ok(_) => {
                    &&& crate::track::spec_parse_track(doc.view_rec()) is Ok
                    &&& final(self)@ == spec_load(
                        old(self)@,
                        crate::track::spec_parse_track(doc.view_rec())->Ok_0,
                    )
                },
                Result::Err(e) => {
                    &&& crate::track::spec_parse_track(doc.view_rec()) == Err::<
                        Seq<LineV>,
                        DialogErrorV,
                    >(e@)
                    &&& final(self)@ == old(self)@
                },
            },
            old(self).diags_view().is_prefix_of(final(self).diags_view()),
    {
        match DialogTrack::load_from_dict(doc) {
            Err(e) => {
                assert(old(self).diags_view().is_prefix_of(self.diags_view())) by {
                    assert(old(self).diags_view() =~= self.diags_view().subrange(
                        0,
                        old(self).diags_view().len() as int,
                    ));
                }
                Err(e)
            },
            Ok(t) => {
                let ghost lines = t@;
                self.current_track = Some(t);
                proof {
                    assert(self@ == (CoreDialogV { track: Some(lines), ..old(self)@ }));
                    assert(spec_load(self@, lines) == spec_load(old(self)@, lines));
                }
                self.load_track();
                Ok(())
            },
        }
    }

    /// Decodes JSON text, validates it and, on success, loads and
    /// starts it; a syntax or structural error changes nothing.
    pub fn load_track_text(&mut self, text: &[u8]) -> (r: Result<(), DialogError>)
        requires
            old(self).wf(),
        ensures
            final(self).wf(),
            match r {
                Result::Ok(_) => {
                    &&& crate::json::json_doc(text@) is Some
                    &&& crate::track::spec_parse_track(crate::json::json_doc(text@)->Some_0) is Ok
                    &&& final(self)@ == spec_load(
                        old(self)@,
                        crate::track::spec_parse_track(
                            crate::json::json_doc(text@)->Some_0,
                        )->Ok_0,
                    )
                },
                Result::Err(e) => {
                    &&& final(self)@ == old(self)@
                    &&& match crate::json::json_doc(text@) {
                        Option::None => e@ is ExternalJsonParseError,
                        Option::Some(d) => crate::track::spec_parse_track(d) == Err::<
                            Seq<LineV>,
                            DialogErrorV,
                        >(e@),
                    }
                },
            },
            old(self).diags_view().is_prefix_of(final(self).diags_view()),
    {
        match crate::json::parse_json(text) {
            Err(pos) => {
                assert(old(self).diags_view().is_prefix_of(self.diags_view())) by {
                    assert(old(self).diags_view() =~= self.diags_view().subrange(
                        0,
                        old(self).diags_view().len() as int,
                    ));
                }
                Err(DialogError::ExternalJsonParseError { pos })
            },
            Ok(doc) => self.load_track_dict(&doc),
        }
    }

    /// Evaluates a gating query against the blackboard.
    pub fn handle_line_query(&mut self, query: &[u8]) -> (r: bool)
        requires
            old(self).wf(),
        ensures
            final(self).wf(),
            final(self)@ == old(self)@,
            r == spec_eval_query(old(self)@.blackboard.entries, query@),
            old(self).diags_view().is_prefix_of(final(self).diags_view()),
    {
        self.blackboard.parse_query(query)
    }

    /// Evaluates a query against the blackboard (the host-facing
    /// name for `handle_line_query`).
    pub fn blackboard_query(&mut self, query: &[u8]) -> (r: bool)
        requires
            old(self).wf(),
        ensures
            final(self).wf(),
            final(self)@ == old(self)@,
            r == spec_eval_query(old(self)@.blackboard.entries, query@),
            old(self).diags_view().is_prefix_of(final(self).diags_view()),
    {
        self.blackboard.parse_query(query)
    }

    /// Interpolates `{{ key }}` placeholders through the blackboard.
    pub fn blackboard_parse(&mut self, text: &[u8]) -> (r: Vec<u8>)
        requires
            old(self).wf(),
        ensures
            final(self).wf(),
            final(self)@ == old(self)@,
            r@ == spec_format(old(self)@.blackboard.entries, text@),
            old(self).diags_view().is_prefix_of(final(self).diags_view()),
    {
        self.blackboard.format_text(text)
    }

    /// Ends any live session: a final track-ended event is left in the
    /// outbox, the queue and track are dropped, and the engine returns
    /// to its idle shape.
    pub fn shutdown(&mut self)
        ensures
            final(self).wf() == old(self).wf(),
            final(self)@ == (CoreDialogV {
                track: None,
                queue: Seq::<LineV>::empty(),
                state: DialogState::Active,
                pending_action: None,
                choice_open: None,
                session: false,
                outputs: if old(self)@.session {
                    old(self)@.outputs.push(OutputV::TrackEnded)
                } else {
                    old(self)@.outputs
                },
                ..old(self)@
            }),
            final(self).diags_view() == old(self).diags_view(),
    {
        if self.session {
            self.emit(Output::TrackEnded);
            self.session = false;
        }
        self.current_track = None;
        self.queue.clear();
        self.state = DialogState::Active;
        self.pending_action = None;
        self.choice_open = None;
        assert(Seq::new(self.queue@.len(), |i: int| self.queue@[i]@) =~= Seq::<LineV>::empty());
    }

    /// Publishes a signal line to the bus outbox; any other line is
    /// left alone.
    pub fn handle_dialog_signal(&mut self, line: &Line)
        ensures
            final(self).wf() == old(self).wf(),
            final(self)@ == (match line@ {
                LineV::Signal { name, args } => (CoreDialogV {
                    outputs: old(self)@.outputs.push(OutputV::Signal { name, args }),
                    ..old(self)@
                }),
                _ => old(self)@,
            }),
            final(self).diags_view() == old(self).diags_view(),
    {
        match line {
            Line::Signal { name, args } => {
                let l2 = line.duplicate();
                match l2 {
                    Line::Signal { name: n2, args: a2 } => {
                        self.emit(Output::Signal { name: n2, args: a2 });
                    },
                    _ => {
                    },
                }
            },
            _ => {
            },
        }
    }
}

/// What `tick` does: run the stashed action while pending, else
/// nothing.
pub open spec fn spec_tick(s: CoreDialogV) -> CoreDialogV {
    if s.state is Pending && s.pending_action is Some {
        spec_bb_action(s, s.pending_action->0)
    } else {
        s
    }
}

/// A selection is honored exactly when a session is live, a choice is
/// open, and the index names one of its enabled options.
pub open spec fn spec_selection_valid(s: CoreDialogV, sel: int) -> bool {
    &&& s.session
    &&& s.choice_open is Some
    &&& 0 <= sel < s.choice_open->0.len()
}

/// What a selection does: nothing when refused; otherwise the choice
/// closes and the chosen option's action runs.
pub open spec fn spec_choice(s: CoreDialogV, sel: int) -> CoreDialogV {
    if !spec_selection_valid(s, sel) {
        s
    } else {
        spec_bb_action(
            CoreDialogV { choice_open: None, ..s },
            s.choice_open->0[sel].action,
        )
    }
}

/// A text line whose non-empty `requires` query evaluates false under
/// the current blackboard is discarded unrendered: advancing from a
/// queue that starts with it equals advancing from the queue without
/// it, so a filtered line never blocks progress.
pub proof fn lemma_gated_text_skipped(s: CoreDialogV)
    requires
        s.state is Active,
        s.choice_open is None,
        s.session,
        s.queue.len() > 0,
        s.queue[0] matches LineV::Text { text, character, gate } && gate.len() > 0
            && !spec_eval_query(s.blackboard.entries, gate),
    ensures
        spec_scan(s) == spec_scan(CoreDialogV { queue: s.queue.skip(1), ..s }),
{
}

} // verus!
