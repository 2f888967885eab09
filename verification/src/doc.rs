//! The document tree: the decoded form of an authored dialog document,
//! as a generic hierarchy of nulls, booleans, numbers, text, arrays and
//! keyed objects. Numbers carry fixed-point millis, like the blackboard.
use vstd::prelude::*;

use crate::num::num_rep;
use crate::value::escape;

verus! {

broadcast use vstd::std_specs::vec::axiom_vec_index_decreases;

/// A document tree value, as an external decoder would hand it over.
#[derive(Debug)]
pub enum DocValue {
    Null,
    Bool(bool),
    Num(i64),
    Text(Vec<u8>),
    Arr(Vec<DocValue>),
    Obj(Vec<(Vec<u8>, DocValue)>),
}

/// Spec twin of `DocValue`, used by the contracts.
pub enum DocV {
    Null,
    Bool(bool),
    Num(int),
    Text(Seq<u8>),
    Arr(Seq<DocV>),
    Obj(Seq<(Seq<u8>, DocV)>),
}

/// The trees an array's elements denote.
pub open spec fn arr_view(v: Vec<DocValue>) -> Seq<DocV>
    decreases v,
{
    Seq::new(
        v@.len(),
        |i: int|
            if 0 <= i < v.len() {
                v[i].view_rec()
            } else {
                DocV::Null
            },
    )
}

/// The pairs an object's fields denote.
pub open spec fn obj_view(v: Vec<(Vec<u8>, DocValue)>) -> Seq<(Seq<u8>, DocV)>
    decreases v,
{
    Seq::new(
        v@.len(),
        |i: int|
            if 0 <= i < v.len() {
                (v[i].0@, v[i].1.view_rec())
            } else {
                (Seq::empty(), DocV::Null)
            },
    )
}

impl DocValue {
    /// The tree a concrete document denotes.
    pub open spec fn view_rec(self) -> DocV
        decreases self,
    {
        match self {
            DocValue::Null => DocV::Null,
            DocValue::Bool(b) => DocV::Bool(b),
            DocValue::Num(n) => DocV::Num(n as int),
            DocValue::Text(t) => DocV::Text(t@),
            DocValue::Arr(v) => DocV::Arr(arr_view(v)),
            DocValue::Obj(v) => DocV::Obj(obj_view(v)),
        }
    }
}

pub open spec fn obj_get_from(fields: Seq<(Seq<u8>, DocV)>, key: Seq<u8>, i: int) -> Option<DocV>
    decreases fields.len() - i,
{
    if i < 0 || i >= fields.len() {
        None
    } else if fields[i].0 == key {
        Some(fields[i].1)
    } else {
        obj_get_from(fields, key, i + 1)
    }
}

/// The first field named `key` of an object; `None` on any other kind
/// of value.
pub open spec fn obj_get(d: DocV, key: Seq<u8>) -> Option<DocV> {
    match d {
        DocV::Obj(fields) => obj_get_from(fields, key, 0),
        _ => None,
    }
}

/// Looks a field up in an object document.
#[verifier::loop_isolation(false)]
pub fn doc_get<'a>(d: &'a DocValue, key: &[u8]) -> (r: Option<&'a DocValue>)
    ensures
        match r {
            Option::Some(v) => obj_get(d.view_rec(), key@) == Some(v.view_rec()),
            Option::None => obj_get(d.view_rec(), key@) is None,
        },
{
    match d {
        DocValue::Obj(fields) => {
            let ghost fv = obj_view(*fields);
            let n = fields.len();
            let mut i: usize = 0;
            while i < n
                invariant
                    n == fields@.len() == fv.len(),
                    0 <= i <= n,
                    fv == obj_view(*fields),
                    obj_get_from(fv, key@, 0) == obj_get_from(fv, key@, i as int),
                decreases n - i,
            {
                assert(fv[i as int] == (fields@[i as int].0@, fields@[i as int].1.view_rec()));
                if crate::text::slice_eq(fields[i].0.as_slice(), key) {
                    assert(obj_get_from(fv, key@, i as int) == Some(
                        fields@[i as int].1.view_rec(),
                    ));
                    return Some(&fields[i].1);
                }
                i += 1;
            }
            None
        },
        _ => None,
    }
}

pub open spec fn null_word() -> Seq<u8> {
    seq![110u8, 117u8, 108u8, 108u8]
}

/// The JSON rendering of a document tree; strings are escaped as the
/// literal codec does.
pub open spec fn json_of(d: DocV) -> Seq<u8>
    decreases d, 0int,
{
    match d {
        DocV::Null => null_word(),
        DocV::Bool(b) => if b {
            crate::value::true_lit()
        } else {
            crate::value::false_lit()
        },
        DocV::Num(m) => num_rep(m),
        DocV::Text(s) => seq![34u8] + escape(s) + seq![34u8],
        DocV::Arr(elems) => seq![91u8] + json_of_list(elems, 0) + seq![93u8],
        DocV::Obj(fields) => seq![123u8] + json_of_fields(fields, 0) + seq![125u8],
    }
}

pub open spec fn json_of_list(elems: Seq<DocV>, i: int) -> Seq<u8>
    decreases elems, elems.len() - i,
{
    if i < 0 || i >= elems.len() {
        seq![]
    } else if i == elems.len() - 1 {
        json_of(elems[i])
    } else {
        json_of(elems[i]) + seq![44u8] + json_of_list(elems, i + 1)
    }
}

pub open spec fn json_of_fields(fields: Seq<(Seq<u8>, DocV)>, i: int) -> Seq<u8>
    decreases fields, fields.len() - i,
{
    if i < 0 || i >= fields.len() {
        seq![]
    } else {
        let one = seq![34u8] + escape(fields[i].0) + seq![34u8, 58u8] + json_of(fields[i].1);
        if i == fields.len() - 1 {
            one
        } else {
            one + seq![44u8] + json_of_fields(fields, i + 1)
        }
    }
}

/// Renders a document tree as JSON text.
pub fn doc_to_json(d: &DocValue) -> (r: Vec<u8>)
    ensures
        r@ == json_of(d.view_rec()),
    decreases *d, 0int,
{
    match d {
        DocValue::Null => {
            let mut out: Vec<u8> = Vec::new();
            out.push(110);
            out.push(117);
            out.push(108);
            out.push(108);
            assert(out@ =~= null_word());
            out
        },
        DocValue::Bool(b) => {
            let mut out: Vec<u8> = Vec::new();
            if *b {
                out.push(116);
                out.push(114);
                out.push(117);
                out.push(101);
                assert(out@ =~= crate::value::true_lit());
            } else {
                out.push(102);
                out.push(97);
                out.push(108);
                out.push(115);
                out.push(101);
                assert(out@ =~= crate::value::false_lit());
            }
            out
        },
        DocValue::Num(m) => crate::num::render_millis(*m),
        DocValue::Text(s) => {
            let mut out: Vec<u8> = Vec::new();
            out.push(34);
            let mut body = crate::value::escape_exec(s.as_slice());
            out.append(&mut body);
            out.push(34);
            assert(out@ =~= seq![34u8] + escape(s@) + seq![34u8]);
            out
        },
        DocValue::Arr(elems) => {
            let mut out: Vec<u8> = Vec::new();
            out.push(91);
            json_list_exec(elems, 0, &mut out);
            out.push(93);
            assert(out@ =~= seq![91u8] + json_of_list(arr_view(*elems), 0) + seq![93u8]);
            out
        },
        DocValue::Obj(fields) => {
            let mut out: Vec<u8> = Vec::new();
            out.push(123);
            json_fields_exec(fields, 0, &mut out);
            out.push(125);
            assert(out@ =~= seq![123u8] + json_of_fields(obj_view(*fields), 0) + seq![125u8]);
            out
        },
    }
}

fn json_list_exec(elems: &Vec<DocValue>, i: usize, out: &mut Vec<u8>)
    requires
        i <= elems@.len(),
    ensures
        final(out)@ == old(out)@ + json_of_list(arr_view(*elems), i as int),
    decreases *elems, elems@.len() - i,
{
    let ghost ev = arr_view(*elems);
    if i >= elems.len() {
        assert(out@ =~= old(out)@ + json_of_list(ev, i as int));
    } else {
        assert(ev[i as int] == elems@[i as int].view_rec());
        let mut piece = doc_to_json(&elems[i]);
        out.append(&mut piece);
        if i + 1 < elems.len() {
            out.push(44);
            json_list_exec(elems, i + 1, out);
            assert(out@ =~= old(out)@ + json_of_list(ev, i as int));
        } else {
            assert(out@ =~= old(out)@ + json_of_list(ev, i as int));
        }
    }
}

fn json_fields_exec(fields: &Vec<(Vec<u8>, DocValue)>, i: usize, out: &mut Vec<u8>)
    requires
        i <= fields@.len(),
    ensures
        final(out)@ == old(out)@ + json_of_fields(obj_view(*fields), i as int),
    decreases *fields, fields@.len() - i,
{
    let ghost fv = obj_view(*fields);
    if i >= fields.len() {
        assert(out@ =~= old(out)@ + json_of_fields(fv, i as int));
    } else {
        assert(fv[i as int] == (fields@[i as int].0@, fields@[i as int].1.view_rec()));
        out.push(34);
        let mut kb = crate::value::escape_exec(fields[i].0.as_slice());
        out.append(&mut kb);
        out.push(34);
        out.push(58);
        let mut piece = doc_to_json(&fields[i].1);
        out.append(&mut piece);
        if i + 1 < fields.len() {
            out.push(44);
            json_fields_exec(fields, i + 1, out);
            assert(out@ =~= old(out)@ + json_of_fields(fv, i as int));
        } else {
            assert(out@ =~= old(out)@ + json_of_fields(fv, i as int));
        }
    }
}

} // verus!
