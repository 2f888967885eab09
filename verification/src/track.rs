//! The dialog track model: the typed line sequence a document parses
//! into, and the validation that builds it.
//!
//! A document is an object with a `nodes` array; each node is an object
//! whose `type` (case-insensitive) picks one of text, choice, signal or
//! action. Structural faults are fatal to the whole parse and carry the
//! offending node's index and raw content; nothing malformed is dropped
//! in silence.
use vstd::prelude::*;

use crate::doc::{arr_view, json_of, obj_get, DocV, DocValue};
use crate::json::json_doc;
use crate::text::{lowered, to_lower, slice_eq, copy_range};

verus! {

/// One selectable option of a choice line. `gate` holds the authored
/// `requires` query (empty: always shown).
#[derive(Debug, PartialEq, Eq)]
pub struct ChoiceOptionEntry {
    pub text: Vec<u8>,
    pub gate: Vec<u8>,
    pub action: Vec<u8>,
}

/// Spec twin of `ChoiceOptionEntry`.
pub struct ChoiceOptionV {
    pub text: Seq<u8>,
    pub gate: Seq<u8>,
    pub action: Seq<u8>,
}

impl View for ChoiceOptionEntry {
    type V = ChoiceOptionV;

    open spec fn view(&self) -> ChoiceOptionV {
        ChoiceOptionV { text: self.text@, gate: self.gate@, action: self.action@ }
    }
}

/// One authored line. `gate` holds the `requires` query of a text
/// line; `Empty` marks nothing and is never delivered to playback.
#[derive(Debug, PartialEq, Eq)]
pub enum Line {
    Text { text: Vec<u8>, character: Vec<u8>, gate: Vec<u8> },
    Choice { prompt: Vec<u8>, character: Vec<u8>, options: Vec<ChoiceOptionEntry> },
    Action { action: Vec<u8> },
    Signal { name: Vec<u8>, args: Vec<Vec<u8>> },
    Empty,
}

/// Spec twin of `Line`.
pub enum LineV {
    Text { text: Seq<u8>, character: Seq<u8>, gate: Seq<u8> },
    Choice { prompt: Seq<u8>, character: Seq<u8>, options: Seq<ChoiceOptionV> },
    Action { action: Seq<u8> },
    Signal { name: Seq<u8>, args: Seq<Seq<u8>> },
    Empty,
}

/// The views of an option list's entries.
pub open spec fn options_view(v: Vec<ChoiceOptionEntry>) -> Seq<ChoiceOptionV> {
    Seq::new(v@.len(), |i: int| v@[i]@)
}

impl View for Line {
    type V = LineV;

    open spec fn view(&self) -> LineV {
        match self {
            Line::Text { text, character, gate } => LineV::Text {
                text: text@,
                character: character@,
                gate: gate@,
            },
            Line::Choice { prompt, character, options } => LineV::Choice {
                prompt: prompt@,
                character: character@,
                options: options_view(*options),
            },
            Line::Action { action } => LineV::Action { action: action@ },
            Line::Signal { name, args } => LineV::Signal { name: name@, args: args.deep_view() },
            Line::Empty => LineV::Empty,
        }
    }
}

/// An ordered sequence of parsed lines.
#[derive(Debug)]
pub struct DialogTrack {
    pub lines: Vec<Line>,
}

impl View for DialogTrack {
    type V = Seq<LineV>;

    open spec fn view(&self) -> Seq<LineV> {
        Seq::new(self.lines@.len(), |i: int| self.lines@[i]@)
    }
}

/// Why a document failed structural validation.
#[derive(Debug, Clone, Copy, PartialEq, Eq, Structural)]
pub enum StructureReason {
    RootNotObject,
    MissingNodes,
    NodesNotArray,
    NodeNotObject,
    MissingType,
    UnknownType,
    MissingContent,
    MissingCode,
    MissingSignalFields,
    MissingOptions,
    BadOption { option_index: usize },
}

/// A failed track load. Structural errors carry the failing node's
/// index (where one is at fault) and its raw JSON content.
#[derive(Debug, PartialEq, Eq)]
pub enum DialogError {
    CannotOpenFile { file: Vec<u8> },
    ExternalJsonParseError { pos: usize },
    InternalJsonParseError { node_index: Option<usize>, reason: StructureReason, raw: Vec<u8> },
}

/// Spec twin of `DialogError`.
pub enum DialogErrorV {
    CannotOpenFile { file: Seq<u8> },
    ExternalJsonParseError { pos: int },
    InternalJsonParseError { node_index: Option<int>, reason: StructureReason, raw: Seq<u8> },
}

impl View for DialogError {
    type V = DialogErrorV;

    open spec fn view(&self) -> DialogErrorV {
        match self {
            DialogError::CannotOpenFile { file } => DialogErrorV::CannotOpenFile { file: file@ },
            DialogError::ExternalJsonParseError { pos } => DialogErrorV::ExternalJsonParseError {
                pos: *pos as int,
            },
            DialogError::InternalJsonParseError { node_index, reason, raw } => {
                DialogErrorV::InternalJsonParseError {
                    node_index: match node_index {
                        Option::Some(i) => Some(*i as int),
                        Option::None => None,
                    },
                    reason: *reason,
                    raw: raw@,
                }
            },
        }
    }
}

pub open spec fn type_key() -> Seq<u8> {
    seq![116u8, 121u8, 112u8, 101u8]
}

pub open spec fn content_key() -> Seq<u8> {
    seq![99u8, 111u8, 110u8, 116u8, 101u8, 110u8, 116u8]
}

pub open spec fn character_key() -> Seq<u8> {
    seq![99u8, 104u8, 97u8, 114u8, 97u8, 99u8, 116u8, 101u8, 114u8]
}

pub open spec fn requires_key() -> Seq<u8> {
    seq![114u8, 101u8, 113u8, 117u8, 105u8, 114u8, 101u8, 115u8]
}

pub open spec fn options_key() -> Seq<u8> {
    seq![111u8, 112u8, 116u8, 105u8, 111u8, 110u8, 115u8]
}

pub open spec fn text_key() -> Seq<u8> {
    seq![116u8, 101u8, 120u8, 116u8]
}

pub open spec fn action_key() -> Seq<u8> {
    seq![97u8, 99u8, 116u8, 105u8, 111u8, 110u8]
}

pub open spec fn prompt_key() -> Seq<u8> {
    seq![112u8, 114u8, 111u8, 109u8, 112u8, 116u8]
}

pub open spec fn name_key() -> Seq<u8> {
    seq![110u8, 97u8, 109u8, 101u8]
}

pub open spec fn args_key() -> Seq<u8> {
    seq![97u8, 114u8, 103u8, 115u8]
}

pub open spec fn code_key() -> Seq<u8> {
    seq![99u8, 111u8, 100u8, 101u8]
}

pub open spec fn choice_word() -> Seq<u8> {
    seq![99u8, 104u8, 111u8, 105u8, 99u8, 101u8]
}

pub open spec fn signal_word() -> Seq<u8> {
    seq![115u8, 105u8, 103u8, 110u8, 97u8, 108u8]
}

/// A field's textual form: raw for text, JSON for anything else.
pub open spec fn field_text(d: DocV) -> Seq<u8> {
    match d {
        DocV::Text(s) => s,
        _ => json_of(d),
    }
}

/// A field's textual form, or empty when absent.
pub open spec fn field_or_empty(node: DocV, key: Seq<u8>) -> Seq<u8> {
    match obj_get(node, key) {
        Option::Some(d) => field_text(d),
        Option::None => seq![],
    }
}

/// The literal forms of a signal's arguments.
pub open spec fn args_of(elems: Seq<DocV>) -> Seq<Seq<u8>> {
    Seq::new(elems.len(), |i: int| json_of(elems[i]))
}

/// Validation of one choice option list, from index `j` on.
pub open spec fn spec_parse_options(elems: Seq<DocV>, j: int) -> Result<
    Seq<ChoiceOptionV>,
    StructureReason,
>
    decreases elems.len() - j,
{
    if j < 0 || j >= elems.len() {
        Ok(seq![])
    } else {
        let el = elems[j];
        if !(el is Obj) {
            Err(StructureReason::BadOption { option_index: j as usize })
        } else {
            match (obj_get(el, text_key()), obj_get(el, action_key())) {
                (Option::Some(t), Option::Some(a)) => {
                    match spec_parse_options(elems, j + 1) {
                        Result::Ok(rest) => Ok(
                            seq![
                                ChoiceOptionV {
                                    text: field_text(t),
                                    gate: field_or_empty(el, requires_key()),
                                    action: field_text(a),
                                },
                            ] + rest,
                        ),
                        Result::Err(e) => Err(e),
                    }
                },
                _ => Err(StructureReason::BadOption { option_index: j as usize }),
            }
        }
    }
}

/// Validation of one node into a line, or the reason it fails.
pub open spec fn spec_parse_node(node: DocV) -> Result<LineV, StructureReason> {
    if !(node is Obj) {
        Err(StructureReason::NodeNotObject)
    } else {
        match obj_get(node, type_key()) {
            Option::None => Err(StructureReason::MissingType),
            Option::Some(tv) => {
                let ty = lowered(field_text(tv));
                if ty == text_key() {
                    match obj_get(node, content_key()) {
                        Option::None => Err(StructureReason::MissingContent),
                        Option::Some(c) => Ok(
                            LineV::Text {
                                text: field_text(c),
                                character: field_or_empty(node, character_key()),
                                gate: field_or_empty(node, requires_key()),
                            },
                        ),
                    }
                } else if ty == choice_word() {
                    match obj_get(node, options_key()) {
                        Option::None => Err(StructureReason::MissingOptions),
                        Option::Some(o) => {
                            let elems = match o {
                                DocV::Arr(e) => e,
                                _ => seq![],
                            };
                            match spec_parse_options(elems, 0) {
                                Result::Ok(opts) => Ok(
                                    LineV::Choice {
                                        prompt: field_or_empty(node, prompt_key()),
                                        character: field_or_empty(node, character_key()),
                                        options: opts,
                                    },
                                ),
                                Result::Err(e) => Err(e),
                            }
                        },
                    }
                } else if ty == signal_word() {
                    match (obj_get(node, name_key()), obj_get(node, args_key())) {
                        (Option::Some(n), Option::Some(a)) => Ok(
                            LineV::Signal {
                                name: field_text(n),
                                args: match a {
                                    DocV::Arr(elems) => args_of(elems),
                                    _ => seq![],
                                },
                            },
                        ),
                        _ => Err(StructureReason::MissingSignalFields),
                    }
                } else if ty == action_key() {
                    match obj_get(node, code_key()) {
                        Option::None => Err(StructureReason::MissingCode),
                        Option::Some(c) => Ok(LineV::Action { action: field_text(c) }),
                    }
                } else {
                    Err(StructureReason::UnknownType)
                }
            },
        }
    }
}

/// Validation of the node list, from index `i` on. The first failing
/// node aborts the parse with its index and raw content.
pub open spec fn spec_parse_nodes(nodes: Seq<DocV>, i: int) -> Result<Seq<LineV>, DialogErrorV>
    decreases nodes.len() - i,
{
    if i < 0 || i >= nodes.len() {
        Ok(seq![])
    } else {
        match spec_parse_node(nodes[i]) {
            Result::Err(r) => Err(
                DialogErrorV::InternalJsonParseError {
                    node_index: Some(i),
                    reason: r,
                    raw: json_of(nodes[i]),
                },
            ),
            Result::Ok(l) => match spec_parse_nodes(nodes, i + 1) {
                Result::Ok(rest) => Ok(seq![l] + rest),
                Result::Err(e) => Err(e),
            },
        }
    }
}

pub open spec fn nodes_key() -> Seq<u8> {
    seq![110u8, 111u8, 100u8, 101u8, 115u8]
}

/// Validation of a whole document into a line sequence.
pub open spec fn spec_parse_track(d: DocV) -> Result<Seq<LineV>, DialogErrorV> {
    if !(d is Obj) {
        Err(
            DialogErrorV::InternalJsonParseError {
                node_index: None,
                reason: StructureReason::RootNotObject,
                raw: json_of(d),
            },
        )
    } else {
        match obj_get(d, nodes_key()) {
            Option::None => Err(
                DialogErrorV::InternalJsonParseError {
                    node_index: None,
                    reason: StructureReason::MissingNodes,
                    raw: json_of(d),
                },
            ),
            Option::Some(n) => match n {
                DocV::Arr(elems) => spec_parse_nodes(elems, 0),
                _ => Err(
                    DialogErrorV::InternalJsonParseError {
                        node_index: None,
                        reason: StructureReason::NodesNotArray,
                        raw: json_of(d),
                    },
                ),
            },
        }
    }
}

fn dup_bytes(v: &Vec<u8>) -> (r: Vec<u8>)
    ensures
        r@ == v@,
{
    let r = copy_range(v.as_slice(), 0, v.len());
    assert(r@ =~= v@);
    r
}

impl ChoiceOptionEntry {
    /// A field-for-field copy.
    pub fn duplicate(&self) -> (r: ChoiceOptionEntry)
        ensures
            r@ == self@,
    {
        ChoiceOptionEntry {
            text: dup_bytes(&self.text),
            gate: dup_bytes(&self.gate),
            action: dup_bytes(&self.action),
        }
    }
}

impl Line {
    /// A field-for-field copy.
    #[verifier::loop_isolation(false)]
    pub fn duplicate(&self) -> (r: Line)
        ensures
            r@ == self@,
    {
        match self {
            Line::Text { text, character, gate } => Line::Text {
                text: dup_bytes(text),
                character: dup_bytes(character),
                gate: dup_bytes(gate),
            },
            Line::Action { action } => Line::Action { action: dup_bytes(action) },
            Line::Empty => Line::Empty,
            Line::Signal { name, args } => {
                let mut out: Vec<Vec<u8>> = Vec::new();
                let n = args.len();
                let mut i: usize = 0;
                while i < n
                    invariant
                        n == args@.len(),
                        0 <= i <= n,
                        out.deep_view() == args.deep_view().take(i as int),
                    decreases n - i,
                {
                    out.push(dup_bytes(&args[i]));
                    assert(out.deep_view() =~~= args.deep_view().take(i + 1 as int));
                    i += 1;
                }
                assert(out.deep_view() =~~= args.deep_view());
                Line::Signal { name: dup_bytes(name), args: out }
            },
            Line::Choice { prompt, character, options } => {
                let mut out: Vec<ChoiceOptionEntry> = Vec::new();
                let n = options.len();
                let ghost ov = Seq::new(options@.len(), |i: int| options@[i]@);
                let mut i: usize = 0;
                while i < n
                    invariant
                        n == options@.len() == ov.len(),
                        0 <= i <= n,
                        forall|j: int| 0 <= j < n ==> (#[trigger] ov[j]) == options@[j]@,
                        out@.len() == i,
                        forall|j: int| 0 <= j < i ==> (#[trigger] out@[j]@) == ov[j],
                    decreases n - i,
                {
                    out.push(options[i].duplicate());
                    i += 1;
                }
                let r = Line::Choice {
                    prompt: dup_bytes(prompt),
                    character: dup_bytes(character),
                    options: out,
                };
                assert(r@ == self@) by {
                    assert(Seq::new(out@.len(), |i: int| out@[i]@) =~= ov);
                }
                r
            },
        }
    }
}

/// A field's textual form: raw for text, JSON for anything else.
fn field_text_exec(d: &DocValue) -> (r: Vec<u8>)
    ensures
        r@ == field_text(d.view_rec()),
{
    match d {
        DocValue::Text(s) => dup_bytes(s),
        _ => crate::doc::doc_to_json(d),
    }
}

/// A field's textual form under `key`, or empty when absent.
fn field_or_empty_exec(node: &DocValue, key: &[u8]) -> (r: Vec<u8>)
    ensures
        r@ == field_or_empty(node.view_rec(), key@),
{
    match crate::doc::doc_get(node, key) {
        Some(d) => field_text_exec(d),
        None => Vec::new(),
    }
}

fn parse_options_exec(elems: &Vec<DocValue>, j: usize) -> (r: Result<
    Vec<ChoiceOptionEntry>,
    StructureReason,
>)
    requires
        j <= elems@.len(),
    ensures
        match r {
            Result::Ok(v) => spec_parse_options(arr_view(*elems), j as int) == Ok::<
                Seq<ChoiceOptionV>,
                StructureReason,
            >(options_view(v)),
            Result::Err(e) => spec_parse_options(arr_view(*elems), j as int) == Err::<
                Seq<ChoiceOptionV>,
                StructureReason,
            >(e),
        },
    decreases elems@.len() - j,
{
    let ghost ev = arr_view(*elems);
    if j >= elems.len() {
        let v: Vec<ChoiceOptionEntry> = Vec::new();
        assert(options_view(v) =~= Seq::<ChoiceOptionV>::empty());
        return Ok(v);
    }
    assert(ev[j as int] == elems@[j as int].view_rec());
    let el = &elems[j];
    let is_obj = match el {
        DocValue::Obj(_) => true,
        _ => false,
    };
    if !is_obj {
        return Err(StructureReason::BadOption { option_index: j });
    }
    let mut textk: Vec<u8> = Vec::new();
    textk.push(116);
    textk.push(101);
    textk.push(120);
    textk.push(116);
    assert(textk@ =~= text_key());
    let mut actionk: Vec<u8> = Vec::new();
    actionk.push(97);
    actionk.push(99);
    actionk.push(116);
    actionk.push(105);
    actionk.push(111);
    actionk.push(110);
    assert(actionk@ =~= action_key());
    let mut requiresk: Vec<u8> = Vec::new();
    requiresk.push(114);
    requiresk.push(101);
    requiresk.push(113);
    requiresk.push(117);
    requiresk.push(105);
    requiresk.push(114);
    requiresk.push(101);
    requiresk.push(115);
    assert(requiresk@ =~= requires_key());
    let t = crate::doc::doc_get(el, textk.as_slice());
    let a = crate::doc::doc_get(el, actionk.as_slice());
    match (t, a) {
        (Some(tv), Some(av)) => {
            let opt = ChoiceOptionEntry {
                text: field_text_exec(tv),
                gate: field_or_empty_exec(el, requiresk.as_slice()),
                action: field_text_exec(av),
            };
            let ghost optv = opt@;
            match parse_options_exec(elems, j + 1) {
                Err(e) => Err(e),
                Ok(rest) => {
                    let ghost restv = Seq::new(rest@.len(), |i: int| rest@[i]@);
                    let mut v = rest;
                    v.insert(0, opt);
                    proof {
                        assert(options_view(v) =~= seq![optv] + restv) by {
                            assert forall|t2: int| 0 <= t2 < v@.len() implies options_view(
                                v,
                            )[t2] == (seq![optv] + restv)[t2] by {
                                if t2 == 0 {
                                    assert(v@[0] == opt);
                                } else {
                                    assert(v@[t2] == rest@[t2 - 1]);
                                    assert(restv[t2 - 1] == rest@[t2 - 1]@);
                                }
                            }
                        }
                    }
                    Ok(v)
                },
            }
        },
        _ => Err(StructureReason::BadOption { option_index: j }),
    }
}

#[verifier::loop_isolation(false)]
fn parse_node_exec(node: &DocValue, idx: usize) -> (r: Result<Line, DialogError>)
    ensures
        match r {
            Result::Ok(l) => spec_parse_node(node.view_rec()) == Ok::<LineV, StructureReason>(l@),
            Result::Err(e) => {
                &&& spec_parse_node(node.view_rec()) is Err
                &&& e@ == (DialogErrorV::InternalJsonParseError {
                    node_index: Some(idx as int),
                    reason: spec_parse_node(node.view_rec())->Err_0,
                    raw: json_of(node.view_rec()),
                })
            },
        },
{
    let is_obj = match node {
        DocValue::Obj(_) => true,
        _ => false,
    };
    if !is_obj {
        return Err(
            DialogError::InternalJsonParseError {
                node_index: Some(idx),
                reason: StructureReason::NodeNotObject,
                raw: crate::doc::doc_to_json(node),
            },
        );
    }
    let mut typek: Vec<u8> = Vec::new();
    typek.push(116);
    typek.push(121);
    typek.push(112);
    typek.push(101);
    assert(typek@ =~= type_key());
    let tv = match crate::doc::doc_get(node, typek.as_slice()) {
        None => {
            return Err(
                DialogError::InternalJsonParseError {
                    node_index: Some(idx),
                    reason: StructureReason::MissingType,
                    raw: crate::doc::doc_to_json(node),
                },
            );
        },
        Some(tv) => tv,
    };
    let tt = field_text_exec(tv);
    let ty = to_lower(tt.as_slice());
    let mut characterk: Vec<u8> = Vec::new();
    characterk.push(99);
    characterk.push(104);
    characterk.push(97);
    characterk.push(114);
    characterk.push(97);
    characterk.push(99);
    characterk.push(116);
    characterk.push(101);
    characterk.push(114);
    assert(characterk@ =~= character_key());
    let mut requiresk: Vec<u8> = Vec::new();
    requiresk.push(114);
    requiresk.push(101);
    requiresk.push(113);
    requiresk.push(117);
    requiresk.push(105);
    requiresk.push(114);
    requiresk.push(101);
    requiresk.push(115);
    assert(requiresk@ =~= requires_key());
    let mut w: Vec<u8> = Vec::new();
    w.push(116);
    w.push(101);
    w.push(120);
    w.push(116);
    assert(w@ =~= text_key());
    if slice_eq(ty.as_slice(), w.as_slice()) {
        let mut contentk: Vec<u8> = Vec::new();
        contentk.push(99);
        contentk.push(111);
        contentk.push(110);
        contentk.push(116);
        contentk.push(101);
        contentk.push(110);
        contentk.push(116);
        assert(contentk@ =~= content_key());
        match crate::doc::doc_get(node, contentk.as_slice()) {
            None => {
                return Err(
                    DialogError::InternalJsonParseError {
                        node_index: Some(idx),
                        reason: StructureReason::MissingContent,
                        raw: crate::doc::doc_to_json(node),
                    },
                );
            },
            Some(c) => {
                return Ok(
                    Line::Text {
                        text: field_text_exec(c),
                        character: field_or_empty_exec(node, characterk.as_slice()),
                        gate: field_or_empty_exec(node, requiresk.as_slice()),
                    },
                );
            },
        }
    }
    let mut w: Vec<u8> = Vec::new();
    w.push(99);
    w.push(104);
    w.push(111);
    w.push(105);
    w.push(99);
    w.push(101);
    assert(w@ =~= choice_word());
    if slice_eq(ty.as_slice(), w.as_slice()) {
        let mut optionsk: Vec<u8> = Vec::new();
        optionsk.push(111);
        optionsk.push(112);
        optionsk.push(116);
        optionsk.push(105);
        optionsk.push(111);
        optionsk.push(110);
        optionsk.push(115);
        assert(optionsk@ =~= options_key());
        match crate::doc::doc_get(node, optionsk.as_slice()) {
            None => {
                return Err(
                    DialogError::InternalJsonParseError {
                        node_index: Some(idx),
                        reason: StructureReason::MissingOptions,
                        raw: crate::doc::doc_to_json(node),
                    },
                );
            },
            Some(o) => {
                let empty_elems: Vec<DocValue> = Vec::new();
                proof {
                    assert(arr_view(empty_elems) =~= Seq::<DocV>::empty());
                }
                let elems: &Vec<DocValue> = match o {
                    DocValue::Arr(e) => e,
                    _ => &empty_elems,
                };
                let mut promptk: Vec<u8> = Vec::new();
                promptk.push(112);
                promptk.push(114);
                promptk.push(111);
                promptk.push(109);
                promptk.push(112);
                promptk.push(116);
                assert(promptk@ =~= prompt_key());
                match parse_options_exec(elems, 0) {
                    Err(e) => {
                        return Err(
                            DialogError::InternalJsonParseError {
                                node_index: Some(idx),
                                reason: e,
                                raw: crate::doc::doc_to_json(node),
                            },
                        );
                    },
                    Ok(opts) => {
                        let r = Line::Choice {
                            prompt: field_or_empty_exec(node, promptk.as_slice()),
                            character: field_or_empty_exec(node, characterk.as_slice()),
                            options: opts,
                        };
                        return Ok(r);
                    },
                }
            },
        }
    }
    let mut w: Vec<u8> = Vec::new();
    w.push(115);
    w.push(105);
    w.push(103);
    w.push(110);
    w.push(97);
    w.push(108);
    assert(w@ =~= signal_word());
    if slice_eq(ty.as_slice(), w.as_slice()) {
        let mut namek: Vec<u8> = Vec::new();
        namek.push(110);
        namek.push(97);
        namek.push(109);
        namek.push(101);
        assert(namek@ =~= name_key());
        let mut argsk: Vec<u8> = Vec::new();
        argsk.push(97);
        argsk.push(114);
        argsk.push(103);
        argsk.push(115);
        assert(argsk@ =~= args_key());
        let nv = crate::doc::doc_get(node, namek.as_slice());
        let av = crate::doc::doc_get(node, argsk.as_slice());
        match (nv, av) {
            (Some(n), Some(a)) => {
                let args: Vec<Vec<u8>> = match a {
                    DocValue::Arr(elems) => {
                        let ghost ev = arr_view(*elems);
                        let mut out: Vec<Vec<u8>> = Vec::new();
                        let cnt = elems.len();
                        let mut i: usize = 0;
                        while i < cnt
                            invariant
                                cnt == elems@.len() == ev.len(),
                                0 <= i <= cnt,
                                ev == arr_view(*elems),
                                out.deep_view() == args_of(ev).take(i as int),
                            decreases cnt - i,
                        {
                            assert(ev[i as int] == elems@[i as int].view_rec());
                            out.push(crate::doc::doc_to_json(&elems[i]));
                            assert(out.deep_view() =~~= args_of(ev).take(i + 1 as int));
                            i += 1;
                        }
                        assert(out.deep_view() =~~= args_of(ev));
                        out
                    },
                    _ => Vec::new(),
                };
                proof {
                    if !(a.view_rec() is Arr) {
                        assert(args.deep_view() =~~= Seq::<Seq<u8>>::empty());
                    }
                }
                return Ok(Line::Signal { name: field_text_exec(n), args });
            },
            _ => {
                return Err(
                    DialogError::InternalJsonParseError {
                        node_index: Some(idx),
                        reason: StructureReason::MissingSignalFields,
                        raw: crate::doc::doc_to_json(node),
                    },
                );
            },
        }
    }
    let mut w: Vec<u8> = Vec::new();
    w.push(97);
    w.push(99);
    w.push(116);
    w.push(105);
    w.push(111);
    w.push(110);
    assert(w@ =~= action_key());
    if slice_eq(ty.as_slice(), w.as_slice()) {
        let mut codek: Vec<u8> = Vec::new();
        codek.push(99);
        codek.push(111);
        codek.push(100);
        codek.push(101);
        assert(codek@ =~= code_key());
        match crate::doc::doc_get(node, codek.as_slice()) {
            None => {
                return Err(
                    DialogError::InternalJsonParseError {
                        node_index: Some(idx),
                        reason: StructureReason::MissingCode,
                        raw: crate::doc::doc_to_json(node),
                    },
                );
            },
            Some(c) => {
                return Ok(Line::Action { action: field_text_exec(c) });
            },
        }
    }
    Err(
        DialogError::InternalJsonParseError {
            node_index: Some(idx),
            reason: StructureReason::UnknownType,
            raw: crate::doc::doc_to_json(node),
        },
    )
}

fn parse_nodes_exec(nodes: &Vec<DocValue>, i: usize) -> (r: Result<Vec<Line>, DialogError>)
    requires
        i <= nodes@.len(),
    ensures
        match r {
            Result::Ok(v) => spec_parse_nodes(arr_view(*nodes), i as int) == Ok::<
                Seq<LineV>,
                DialogErrorV,
            >(Seq::new(v@.len(), |k: int| v@[k]@)),
            Result::Err(e) => spec_parse_nodes(arr_view(*nodes), i as int) == Err::<
                Seq<LineV>,
                DialogErrorV,
            >(e@),
        },
    decreases nodes@.len() - i,
{
    let ghost nv = arr_view(*nodes);
    if i >= nodes.len() {
        let v: Vec<Line> = Vec::new();
        assert(Seq::new(v@.len(), |k: int| v@[k]@) =~= Seq::<LineV>::empty());
        return Ok(v);
    }
    assert(nv[i as int] == nodes@[i as int].view_rec());
    match parse_node_exec(&nodes[i], i) {
        Err(e) => Err(e),
        Ok(l) => {
            let ghost lv = l@;
            match parse_nodes_exec(nodes, i + 1) {
                Err(e) => Err(e),
                Ok(rest) => {
                    let ghost restv = Seq::new(rest@.len(), |k: int| rest@[k]@);
                    let mut v = rest;
                    v.insert(0, l);
                    proof {
                        assert(Seq::new(v@.len(), |k: int| v@[k]@) =~= seq![lv] + restv) by {
                            assert forall|t: int| 0 <= t < v@.len() implies (Seq::new(
                                v@.len(),
                                |k: int| v@[k]@,
                            ))[t] == (seq![lv] + restv)[t] by {
                                if t == 0 {
                                    assert(v@[0] == l);
                                } else {
                                    assert(v@[t] == rest@[t - 1]);
                                    assert(restv[t - 1] == rest@[t - 1]@);
                                }
                            }
                        }
                    }
                    Ok(v)
                },
            }
        },
    }
}

impl DialogTrack {
    /// Validates an already-decoded document into a track.
    pub fn load_from_dict(doc: &DocValue) -> (r: Result<DialogTrack, DialogError>)
        ensures
            match r {
                Result::Ok(t) => spec_parse_track(doc.view_rec()) == Ok::<Seq<LineV>, DialogErrorV>(
                    t@,
                ),
                Result::Err(e) => spec_parse_track(doc.view_rec()) == Err::<
                    Seq<LineV>,
                    DialogErrorV,
                >(e@),
            },
    {
        let is_obj = match doc {
            DocValue::Obj(_) => true,
            _ => false,
        };
        if !is_obj {
            return Err(
                DialogError::InternalJsonParseError {
                    node_index: None,
                    reason: StructureReason::RootNotObject,
                    raw: crate::doc::doc_to_json(doc),
                },
            );
        }
        let mut nodesk: Vec<u8> = Vec::new();
        nodesk.push(110);
        nodesk.push(111);
        nodesk.push(100);
        nodesk.push(101);
        nodesk.push(115);
        assert(nodesk@ =~= nodes_key());
        match crate::doc::doc_get(doc, nodesk.as_slice()) {
            None => Err(
                DialogError::InternalJsonParseError {
                    node_index: None,
                    reason: StructureReason::MissingNodes,
                    raw: crate::doc::doc_to_json(doc),
                },
            ),
            Some(n) => {
                match n {
                    DocValue::Arr(elems) => {
                        match parse_nodes_exec(elems, 0) {
                            Err(e) => Err(e),
                            Ok(v) => {
                                let t = DialogTrack { lines: v };
                                Ok(t)
                            },
                        }
                    },
                    _ => Err(
                        DialogError::InternalJsonParseError {
                            node_index: None,
                            reason: StructureReason::NodesNotArray,
                            raw: crate::doc::doc_to_json(doc),
                        },
                    ),
                }
            },
        }
    }

    /// Decodes JSON text and validates it into a track.
    pub fn load_from_text(text: &[u8]) -> (r: Result<DialogTrack, DialogError>)
        ensures
            match r {
                Result::Ok(t) => {
                    &&& json_doc(text@) is Some
                    &&& spec_parse_track(json_doc(text@)->Some_0) == Ok::<Seq<LineV>, DialogErrorV>(
                        t@,
                    )
                },
                Result::Err(e) => match json_doc(text@) {
                    Option::None => e@ is ExternalJsonParseError,
                    Option::Some(d) => spec_parse_track(d) == Err::<Seq<LineV>, DialogErrorV>(e@),
                },
            },
    {
        match crate::json::parse_json(text) {
            Err(pos) => Err(DialogError::ExternalJsonParseError { pos }),
            Ok(doc) => {
                assert(json_doc(text@)->Some_0 == doc.view_rec());
                DialogTrack::load_from_dict(&doc)
            },
        }
    }
}


proof fn lemma_nodes_fail_at(nodes: Seq<DocV>, k: int, i: int, r: StructureReason)
    requires
        0 <= k <= i < nodes.len(),
        forall|j: int| k <= j < i ==> spec_parse_node(#[trigger] nodes[j]) is Ok,
        spec_parse_node(nodes[i]) == Err::<LineV, StructureReason>(r),
    ensures
        spec_parse_nodes(nodes, k) == Err::<Seq<LineV>, DialogErrorV>(
            DialogErrorV::InternalJsonParseError {
                node_index: Some(i),
                reason: r,
                raw: json_of(nodes[i]),
            },
        ),
    decreases i - k,
{
    if k == i {
    } else {
        assert(spec_parse_node(nodes[k]) is Ok);
        lemma_nodes_fail_at(nodes, k + 1, i, r);
    }
}

/// A node that omits its `type` field makes the whole parse fail with
/// a structural error naming that node's index and raw content, and no
/// track is produced -- provided the nodes before it are themselves
/// valid (an earlier fault would name the earlier node instead).
pub proof fn lemma_missing_type_fails(d: DocV, i: int)
    requires
        d is Obj,
        obj_get(d, nodes_key()) is Some,
        obj_get(d, nodes_key())->Some_0 is Arr,
        0 <= i < obj_get(d, nodes_key())->Some_0->Arr_0.len(),
        forall|j: int|
            0 <= j < i ==> spec_parse_node(
                #[trigger] obj_get(d, nodes_key())->Some_0->Arr_0[j],
            ) is Ok,
        obj_get(d, nodes_key())->Some_0->Arr_0[i] is Obj,
        obj_get(obj_get(d, nodes_key())->Some_0->Arr_0[i], type_key()) is None,
    ensures
        spec_parse_track(d) == Err::<Seq<LineV>, DialogErrorV>(
            DialogErrorV::InternalJsonParseError {
                node_index: Some(i),
                reason: StructureReason::MissingType,
                raw: json_of(obj_get(d, nodes_key())->Some_0->Arr_0[i]),
            },
        ),
{
    let nodes = obj_get(d, nodes_key())->Some_0->Arr_0;
    assert(spec_parse_node(nodes[i]) == Err::<LineV, StructureReason>(
        StructureReason::MissingType,
    ));
    lemma_nodes_fail_at(nodes, 0, i, StructureReason::MissingType);
}

} // verus!
