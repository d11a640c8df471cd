//! The structured payload value: a closed JSON-like sum type.
//!
//! Node and edge payloads are modeled as `JsonValue`, which the payload codec
//! turns into JSON text and back. The ghost counterpart `JsonVal` is the
//! mathematical model that all contracts speak of.

use vstd::prelude::*;

verus! {

/// Mathematical model of a payload value.
pub ghost enum JsonVal {
    Null,
    Bool(bool),
    Int(int),
    Str(Seq<char>),
    Arr(Seq<JsonVal>),
    Obj(Seq<(Seq<char>, JsonVal)>),
}

/// A structured payload value, stored as JSON text.
///
/// Numbers are integers: payloads carry identifiers, counters and epoch
/// timestamps, and integer arithmetic is the part the library can reason
/// about exactly.
#[derive(Debug, PartialEq)]
pub enum JsonValue {
    Null,
    Bool(bool),
    Int(i64),
    Str(String),
    Arr(Vec<JsonValue>),
    Obj(Vec<(String, JsonValue)>),
}

/// Model of a sequence of array elements.
pub open spec fn arr_view(s: Seq<JsonValue>) -> Seq<JsonVal>
    decreases s,
{
    if s.len() == 0 {
        Seq::empty()
    } else {
        arr_view(s.drop_last()).push(s.last()@)
    }
}

/// Model of a sequence of object entries.
pub open spec fn obj_view(s: Seq<(String, JsonValue)>) -> Seq<(Seq<char>, JsonVal)>
    decreases s,
{
    if s.len() == 0 {
        Seq::empty()
    } else {
        obj_view(s.drop_last()).push((s.last().0@, s.last().1@))
    }
}

impl View for JsonValue {
    type V = JsonVal;

    open spec fn view(&self) -> JsonVal
        decreases self,
    {
        match self {
            JsonValue::Null => JsonVal::Null,
            JsonValue::Bool(b) => JsonVal::Bool(*b),
            JsonValue::Int(i) => JsonVal::Int(*i as int),
            JsonValue::Str(s) => JsonVal::Str(s@),
            JsonValue::Arr(es) => JsonVal::Arr(arr_view(es@)),
            JsonValue::Obj(kvs) => JsonVal::Obj(obj_view(kvs@)),
        }
    }
}

/// A representable payload value: every number fits the stored integer
/// width. Texts are unconstrained; the encoder escapes whatever needs
/// escaping.
pub open spec fn wf_val(m: JsonVal) -> bool
    decreases m,
{
    match m {
        JsonVal::Null => true,
        JsonVal::Bool(_) => true,
        JsonVal::Int(i) => i64::MIN <= i <= i64::MAX,
        JsonVal::Str(_) => true,
        JsonVal::Arr(es) => wf_arr(es),
        JsonVal::Obj(kvs) => wf_obj(kvs),
    }
}

pub open spec fn wf_arr(es: Seq<JsonVal>) -> bool
    decreases es,
{
    if es.len() == 0 {
        true
    } else {
        wf_val(es[0]) && wf_arr(es.drop_first())
    }
}

pub open spec fn wf_obj(kvs: Seq<(Seq<char>, JsonVal)>) -> bool
    decreases kvs,
{
    if kvs.len() == 0 {
        true
    } else {
        wf_val(kvs[0].1) && wf_obj(kvs.drop_first())
    }
}

/// Nesting depth of a value; the codec refuses to read anything deeper than
/// `MAX_JSON_DEPTH`.
pub open spec fn depth_val(m: JsonVal) -> nat
    decreases m,
{
    match m {
        JsonVal::Arr(es) => 1 + depth_arr(es),
        JsonVal::Obj(kvs) => 1 + depth_obj(kvs),
        _ => 1,
    }
}

pub open spec fn depth_arr(es: Seq<JsonVal>) -> nat
    decreases es,
{
    if es.len() == 0 {
        0
    } else {
        let d0 = depth_val(es[0]);
        let dr = depth_arr(es.drop_first());
        if d0 >= dr {
            d0
        } else {
            dr
        }
    }
}

pub open spec fn depth_obj(kvs: Seq<(Seq<char>, JsonVal)>) -> nat
    decreases kvs,
{
    if kvs.len() == 0 {
        0
    } else {
        let d0 = depth_val(kvs[0].1);
        let dr = depth_obj(kvs.drop_first());
        if d0 >= dr {
            d0
        } else {
            dr
        }
    }
}

/// The decoder's recursion guard: nesting deeper than this is rejected
/// rather than followed.
pub const MAX_JSON_DEPTH: usize = 500;

/// The model of an element sequence is element-wise.
pub proof fn lemma_arr_view(s: Seq<JsonValue>)
    ensures
        arr_view(s).len() == s.len(),
        forall|i: int| 0 <= i < s.len() ==> #[trigger] arr_view(s)[i] == s[i]@,
    decreases s,
{
    if s.len() > 0 {
        lemma_arr_view(s.drop_last());
        assert(arr_view(s) == arr_view(s.drop_last()).push(s.last()@));
        assert forall|i: int| 0 <= i < s.len() implies #[trigger] arr_view(s)[i] == s[i]@ by {
            if i < s.len() - 1 {
                assert(arr_view(s)[i] == arr_view(s.drop_last())[i]);
                assert(s.drop_last()[i] == s[i]);
            } else {
                assert(arr_view(s)[i] == s.last()@);
            }
        }
    }
}

/// The model of an entry sequence is entry-wise.
pub proof fn lemma_obj_view(s: Seq<(String, JsonValue)>)
    ensures
        obj_view(s).len() == s.len(),
        forall|i: int| 0 <= i < s.len() ==> #[trigger] obj_view(s)[i] == (s[i].0@, s[i].1@),
    decreases s,
{
    if s.len() > 0 {
        lemma_obj_view(s.drop_last());
        assert(obj_view(s) == obj_view(s.drop_last()).push((s.last().0@, s.last().1@)));
        assert forall|i: int| 0 <= i < s.len() implies #[trigger] obj_view(s)[i] == (
        s[i].0@,
        s[i].1@,
        ) by {
            if i < s.len() - 1 {
                assert(obj_view(s)[i] == obj_view(s.drop_last())[i]);
                assert(s.drop_last()[i] == s[i]);
            } else {
                assert(obj_view(s)[i] == (s.last().0@, s.last().1@));
            }
        }
    }
}

/// Well-formedness of an array is well-formedness of each element.
pub proof fn lemma_wf_arr_iff(es: Seq<JsonVal>)
    ensures
        wf_arr(es) <==> (forall|i: int| 0 <= i < es.len() ==> wf_val(#[trigger] es[i])),
    decreases es,
{
    if es.len() > 0 {
        lemma_wf_arr_iff(es.drop_first());
        assert(forall|j: int|
            0 <= j < es.drop_first().len() ==> #[trigger] es.drop_first()[j] == es[j + 1]);
        if wf_arr(es) {
            assert forall|i: int| 0 <= i < es.len() implies wf_val(#[trigger] es[i]) by {
                if i > 0 {
                    assert(es[i] == es.drop_first()[i - 1]);
                }
            }
        }
        if forall|i: int| 0 <= i < es.len() ==> wf_val(#[trigger] es[i]) {
            assert forall|j: int|
                0 <= j < es.drop_first().len() implies wf_val(
                #[trigger] es.drop_first()[j],
            ) by {
                assert(es.drop_first()[j] == es[j + 1]);
            }
        }
    }
}

/// Well-formedness of an object is well-formedness of each entry.
pub proof fn lemma_wf_obj_iff(kvs: Seq<(Seq<char>, JsonVal)>)
    ensures
        wf_obj(kvs) <==> (forall|i: int| 0 <= i < kvs.len() ==> wf_val((#[trigger] kvs[i]).1)),
    decreases kvs,
{
    if kvs.len() > 0 {
        lemma_wf_obj_iff(kvs.drop_first());
        assert(forall|j: int|
            0 <= j < kvs.drop_first().len() ==> #[trigger] kvs.drop_first()[j] == kvs[j + 1]);
        if wf_obj(kvs) {
            assert(wf_val(kvs[0].1) && wf_obj(kvs.drop_first()));
            assert forall|i: int|
                0 <= i < kvs.len() implies wf_val((#[trigger] kvs[i]).1) by {
                if i > 0 {
                    assert(kvs[i] == kvs.drop_first()[i - 1]);
                    assert(wf_val(kvs.drop_first()[i - 1].1));
                }
            }
        }
        if forall|i: int| 0 <= i < kvs.len() ==> wf_val((#[trigger] kvs[i]).1) {
            assert forall|j: int|
                0 <= j < kvs.drop_first().len() implies wf_val(
                (#[trigger] kvs.drop_first()[j]).1,
            ) by {
                assert(kvs.drop_first()[j] == kvs[j + 1]);
            }
        }
    }
}

/// Every array element sits strictly below the array's own depth.
pub proof fn lemma_depth_arr(es: Seq<JsonVal>)
    ensures
        forall|i: int| 0 <= i < es.len() ==> depth_val(#[trigger] es[i]) <= depth_arr(es),
    decreases es,
{
    if es.len() > 0 {
        lemma_depth_arr(es.drop_first());
        assert forall|i: int|
            0 <= i < es.len() implies depth_val(#[trigger] es[i]) <= depth_arr(es) by {
            if i > 0 {
                assert(es[i] == es.drop_first()[i - 1]);
                assert(depth_val(es.drop_first()[i - 1]) <= depth_arr(es.drop_first()));
            }
        }
    }
}

/// Every object value sits strictly below the object's own depth.
pub proof fn lemma_depth_obj(kvs: Seq<(Seq<char>, JsonVal)>)
    ensures
        forall|i: int| 0 <= i < kvs.len() ==> depth_val((#[trigger] kvs[i]).1) <= depth_obj(kvs),
    decreases kvs,
{
    if kvs.len() > 0 {
        lemma_depth_obj(kvs.drop_first());
        assert forall|i: int|
            0 <= i < kvs.len() implies depth_val((#[trigger] kvs[i]).1) <= depth_obj(kvs) by {
            if i > 0 {
                assert(kvs[i] == kvs.drop_first()[i - 1]);
                assert(depth_val(kvs.drop_first()[i - 1].1) <= depth_obj(kvs.drop_first()));
            }
        }
    }
}

} // verus!
