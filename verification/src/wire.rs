//! The wire format: a query as a tagged JSON document. The `type` key
//! names the shape; every other key is a field name whose value is an
//! expression — a literal, an `{operator: operand}` object, or a nested
//! object of payload path segments.

use crate::compile::{data_depth, expr_depth, lemma_data_depth, lemma_list_depth, list_depth};
use crate::errors::DecodeError;
use crate::query::{field_name, Query, QueryExpr, QueryField, QueryOp, QueryShape, QueryValue};
use crate::strutil::str_eq;
use crate::value::{
    arr_view, depth_arr, depth_obj, depth_val, lemma_arr_view, lemma_depth_arr, lemma_depth_obj,
    lemma_obj_view, obj_view, JsonVal, JsonValue,
};
use vstd::prelude::*;

verus! {

/// The shape a type tag names.
pub open spec fn shape_tag(t: Seq<char>) -> Option<QueryShape> {
    if t == "node"@ {
        Some(QueryShape::Node)
    } else if t == "edge"@ {
        Some(QueryShape::Edge)
    } else if t == "node_edge"@ {
        Some(QueryShape::NodeEdge)
    } else {
        None
    }
}

/// The field a wire key names: the inverse of `field_name`.
pub open spec fn field_of_name(t: Seq<char>) -> Option<QueryField> {
    if t == "node.id"@ {
        Some(QueryField::NodeId)
    } else if t == "node.uri"@ {
        Some(QueryField::NodeURI)
    } else if t == "node.data"@ {
        Some(QueryField::NodeData)
    } else if t == "node.updated_at"@ {
        Some(QueryField::NodeUpdatedAt)
    } else if t == "node.created_at"@ {
        Some(QueryField::NodeCreatedAt)
    } else if t == "edge.id"@ {
        Some(QueryField::EdgeId)
    } else if t == "edge.from_node_id"@ {
        Some(QueryField::EdgeFromNodeId)
    } else if t == "edge.to_node_id"@ {
        Some(QueryField::EdgeToNodeId)
    } else if t == "edge.uri"@ {
        Some(QueryField::EdgeURI)
    } else if t == "edge.data"@ {
        Some(QueryField::EdgeData)
    } else if t == "edge.updated_at"@ {
        Some(QueryField::EdgeUpdatedAt)
    } else if t == "edge.created_at"@ {
        Some(QueryField::EdgeCreatedAt)
    } else if t == "from_node.id"@ {
        Some(QueryField::NodeEdgeFromNodeId)
    } else if t == "from_node.uri"@ {
        Some(QueryField::NodeEdgeFromNodeURI)
    } else if t == "from_node.data"@ {
        Some(QueryField::NodeEdgeFromNodeData)
    } else if t == "from_node.updated_at"@ {
        Some(QueryField::NodeEdgeFromNodeUpdatedAt)
    } else if t == "from_node.created_at"@ {
        Some(QueryField::NodeEdgeFromNodeCreatedAt)
    } else if t == "to_node.id"@ {
        Some(QueryField::NodeEdgeToNodeId)
    } else if t == "to_node.uri"@ {
        Some(QueryField::NodeEdgeToNodeURI)
    } else if t == "to_node.data"@ {
        Some(QueryField::NodeEdgeToNodeData)
    } else if t == "to_node.updated_at"@ {
        Some(QueryField::NodeEdgeToNodeUpdatedAt)
    } else if t == "to_node.created_at"@ {
        Some(QueryField::NodeEdgeToNodeCreatedAt)
    } else {
        None
    }
}

/// Every field renders to a key that reads back as that field, and no
/// field renders to the type tag. The asserts put each name's length and
/// one distinguishing character of every same-length pair in view.
pub proof fn lemma_field_name_reads_back(f: QueryField)
    ensures
        field_of_name(field_name(f)) == Some(f),
        field_name(f) != "type"@,
{
    reveal_strlit("node.id");
    reveal_strlit("node.uri");
    reveal_strlit("node.data");
    reveal_strlit("node.updated_at");
    reveal_strlit("node.created_at");
    reveal_strlit("edge.id");
    reveal_strlit("edge.from_node_id");
    reveal_strlit("edge.to_node_id");
    reveal_strlit("edge.uri");
    reveal_strlit("edge.data");
    reveal_strlit("edge.updated_at");
    reveal_strlit("edge.created_at");
    reveal_strlit("from_node.id");
    reveal_strlit("from_node.uri");
    reveal_strlit("from_node.data");
    reveal_strlit("from_node.updated_at");
    reveal_strlit("from_node.created_at");
    reveal_strlit("to_node.id");
    reveal_strlit("to_node.uri");
    reveal_strlit("to_node.data");
    reveal_strlit("to_node.updated_at");
    reveal_strlit("to_node.created_at");
    reveal_strlit("type");
    assert("node.id"@.len() == 7);
    assert("node.uri"@.len() == 8);
    assert("node.data"@.len() == 9);
    assert("node.updated_at"@.len() == 15);
    assert("node.created_at"@.len() == 15);
    assert("edge.id"@.len() == 7);
    assert("edge.from_node_id"@.len() == 17);
    assert("edge.to_node_id"@.len() == 15);
    assert("edge.uri"@.len() == 8);
    assert("edge.data"@.len() == 9);
    assert("edge.updated_at"@.len() == 15);
    assert("edge.created_at"@.len() == 15);
    assert("from_node.id"@.len() == 12);
    assert("from_node.uri"@.len() == 13);
    assert("from_node.data"@.len() == 14);
    assert("from_node.updated_at"@.len() == 20);
    assert("from_node.created_at"@.len() == 20);
    assert("to_node.id"@.len() == 10);
    assert("to_node.uri"@.len() == 11);
    assert("to_node.data"@.len() == 12);
    assert("to_node.updated_at"@.len() == 18);
    assert("to_node.created_at"@.len() == 18);
    assert("type"@.len() == 4);
    assert("edge.created_at"@[0] == 'e');
    assert("edge.created_at"@[5] == 'c');
    assert("edge.data"@[0] == 'e');
    assert("edge.id"@[0] == 'e');
    assert("edge.to_node_id"@[0] == 'e');
    assert("edge.to_node_id"@[5] == 't');
    assert("edge.updated_at"@[0] == 'e');
    assert("edge.updated_at"@[5] == 'u');
    assert("edge.uri"@[0] == 'e');
    assert("from_node.created_at"@[10] == 'c');
    assert("from_node.id"@[0] == 'f');
    assert("from_node.updated_at"@[10] == 'u');
    assert("node.created_at"@[0] == 'n');
    assert("node.created_at"@[5] == 'c');
    assert("node.data"@[0] == 'n');
    assert("node.id"@[0] == 'n');
    assert("node.updated_at"@[0] == 'n');
    assert("node.updated_at"@[5] == 'u');
    assert("node.uri"@[0] == 'n');
    assert("to_node.created_at"@[8] == 'c');
    assert("to_node.data"@[0] == 't');
    assert("to_node.updated_at"@[8] == 'u');
}

/// A key that names an operator.
pub open spec fn is_op_name(t: Seq<char>) -> bool {
    t == "eq"@ || t == "neq"@ || t == "gt"@ || t == "lt"@ || t == "gte"@ || t == "lte"@ || t
        == "like"@ || t == "in"@ || t == "and"@ || t == "or"@ || t == "not"@
}

/// An operator whose operand is a list of expressions.
pub open spec fn is_list_op_name(t: Seq<char>) -> bool {
    t == "in"@ || t == "and"@ || t == "or"@
}

/// The literal a scalar document denotes.
pub open spec fn value_matches(qv: QueryValue, m: JsonVal) -> bool {
    match m {
        JsonVal::Null => qv == QueryValue::Null,
        JsonVal::Bool(b) => qv matches QueryValue::Bool(b2) && b2 == b,
        JsonVal::Int(i) => qv matches QueryValue::Number(n) && n == i,
        JsonVal::Str(t) => qv matches QueryValue::String(s) && s@ == t,
        _ => false,
    }
}

/// The document denotes an expression.
pub open spec fn wire_expr_ok(m: JsonVal) -> bool
    decreases m, 0int,
{
    match m {
        JsonVal::Arr(_) => false,
        JsonVal::Obj(kvs) => {
            if kvs.len() == 1 && is_op_name(kvs[0].0) {
                op_operand_ok(kvs[0].0, kvs[0].1)
            } else {
                data_entries_ok(kvs)
            }
        },
        _ => true,
    }
}

/// The operand document fits the named operator.
pub open spec fn op_operand_ok(name: Seq<char>, m: JsonVal) -> bool
    decreases m, 1int,
{
    if is_list_op_name(name) {
        m matches JsonVal::Arr(ms) && wire_list_ok(ms)
    } else {
        wire_expr_ok(m)
    }
}

pub open spec fn wire_list_ok(ms: Seq<JsonVal>) -> bool
    decreases ms, 2int,
{
    if ms.len() == 0 {
        true
    } else {
        wire_expr_ok(ms[0]) && wire_list_ok(ms.drop_first())
    }
}

pub open spec fn data_entries_ok(kvs: Seq<(Seq<char>, JsonVal)>) -> bool
    decreases kvs, 2int,
{
    if kvs.len() == 0 {
        true
    } else {
        wire_expr_ok(kvs[0].1) && data_entries_ok(kvs.drop_first())
    }
}

/// `e` is the expression the document denotes.
pub open spec fn expr_matches(e: QueryExpr, m: JsonVal) -> bool
    decreases m, 0int,
{
    match m {
        JsonVal::Arr(_) => false,
        JsonVal::Obj(kvs) => {
            if kvs.len() == 1 && is_op_name(kvs[0].0) {
                e matches QueryExpr::Op(op) && op_matches(op, kvs[0].0, kvs[0].1)
            } else {
                e matches QueryExpr::Data(entries) && entries@.len() == kvs.len() && (forall|i: int|
                    0 <= i < kvs.len() ==> (#[trigger] entries@[i]).0@ == kvs[i].0 && expr_matches(
                        entries@[i].1,
                        kvs[i].1,
                    ))
            }
        },
        _ => e matches QueryExpr::Value(qv) && value_matches(qv, m),
    }
}

/// `op` is the operator the single-key document denotes.
pub open spec fn op_matches(op: QueryOp, name: Seq<char>, m: JsonVal) -> bool
    decreases m, 1int,
{
    ||| (name == "eq"@ && (op matches QueryOp::Eq(sub) && expr_matches(*sub, m)))
    ||| (name == "neq"@ && (op matches QueryOp::Neq(sub) && expr_matches(*sub, m)))
    ||| (name == "gt"@ && (op matches QueryOp::Gt(sub) && expr_matches(*sub, m)))
    ||| (name == "lt"@ && (op matches QueryOp::Lt(sub) && expr_matches(*sub, m)))
    ||| (name == "gte"@ && (op matches QueryOp::Gte(sub) && expr_matches(*sub, m)))
    ||| (name == "lte"@ && (op matches QueryOp::Lte(sub) && expr_matches(*sub, m)))
    ||| (name == "like"@ && (op matches QueryOp::Like(sub) && expr_matches(*sub, m)))
    ||| (name == "not"@ && (op matches QueryOp::Not(sub) && expr_matches(*sub, m)))
    ||| (name == "in"@ && (m matches JsonVal::Arr(ms) && (op matches QueryOp::In(es)
        && list_matches(es@, ms))))
    ||| (name == "and"@ && (m matches JsonVal::Arr(ms) && (op matches QueryOp::And(es)
        && list_matches(es@, ms))))
    ||| (name == "or"@ && (m matches JsonVal::Arr(ms) && (op matches QueryOp::Or(es)
        && list_matches(es@, ms))))
}

pub open spec fn list_matches(es: Seq<QueryExpr>, ms: Seq<JsonVal>) -> bool
    decreases ms, 2int,
{
    es.len() == ms.len() && (forall|i: int|
        0 <= i < ms.len() ==> expr_matches(#[trigger] es[i], ms[i]))
}

/// How many entries carry the type tag.
pub open spec fn type_count(kvs: Seq<(Seq<char>, JsonVal)>) -> nat
    decreases kvs,
{
    if kvs.len() == 0 {
        0
    } else {
        type_count(kvs.drop_last()) + if kvs.last().0 == "type"@ {
            1nat
        } else {
            0nat
        }
    }
}

/// The value of the last type tag, if any.
pub open spec fn type_value(kvs: Seq<(Seq<char>, JsonVal)>) -> Option<JsonVal>
    decreases kvs,
{
    if kvs.len() == 0 {
        None
    } else if kvs.last().0 == "type"@ {
        Some(kvs.last().1)
    } else {
        type_value(kvs.drop_last())
    }
}

/// The entries other than the type tag, in order.
pub open spec fn without_type(kvs: Seq<(Seq<char>, JsonVal)>) -> Seq<(Seq<char>, JsonVal)>
    decreases kvs,
{
    if kvs.len() == 0 {
        Seq::empty()
    } else if kvs.last().0 == "type"@ {
        without_type(kvs.drop_last())
    } else {
        without_type(kvs.drop_last()).push(kvs.last())
    }
}

/// Every non-type entry names a field and denotes an expression.
pub open spec fn wire_entries_ok(kvs: Seq<(Seq<char>, JsonVal)>) -> bool
    decreases kvs,
{
    if kvs.len() == 0 {
        true
    } else {
        field_of_name(kvs[0].0) is Some && wire_expr_ok(kvs[0].1) && wire_entries_ok(
            kvs.drop_first(),
        )
    }
}

/// The document denotes a query: an object with exactly one type tag that
/// names a shape, whose other entries all name fields and denote
/// expressions.
pub open spec fn wire_query_ok(m: JsonVal) -> bool {
    m matches JsonVal::Obj(kvs) && {
        &&& type_count(kvs) == 1
        &&& (type_value(kvs) matches Some(tv) && tv matches JsonVal::Str(t) && shape_tag(t)
            is Some)
        &&& wire_entries_ok(without_type(kvs))
    }
}

/// `es` is the mapping the non-type entries denote, in document order.
pub open spec fn entries_match(
    es: Seq<(QueryField, QueryExpr)>,
    kvs: Seq<(Seq<char>, JsonVal)>,
) -> bool {
    es.len() == kvs.len() && (forall|i: int|
        0 <= i < kvs.len() ==> field_of_name(kvs[i].0) == Some((#[trigger] es[i]).0)
            && expr_matches(es[i].1, kvs[i].1))
}

/// `q` is the query the document denotes.
pub open spec fn query_matches(q: Query, m: JsonVal) -> bool {
    m matches JsonVal::Obj(kvs) && {
        &&& (type_value(kvs) matches Some(tv) && tv matches JsonVal::Str(t) && shape_tag(t)
            == Some(q.shape))
        &&& entries_match(q.entries@, without_type(kvs))
    }
}

proof fn lemma_wire_list_ok_iff(ms: Seq<JsonVal>)
    ensures
        wire_list_ok(ms) <==> (forall|i: int| 0 <= i < ms.len() ==> wire_expr_ok(#[trigger] ms[i])),
    decreases ms,
{
    if ms.len() > 0 {
        lemma_wire_list_ok_iff(ms.drop_first());
        assert(forall|j: int|
            0 <= j < ms.drop_first().len() ==> #[trigger] ms.drop_first()[j] == ms[j + 1]);
        if wire_list_ok(ms) {
            assert forall|i: int| 0 <= i < ms.len() implies wire_expr_ok(#[trigger] ms[i]) by {
                if i > 0 {
                    assert(ms[i] == ms.drop_first()[i - 1]);
                    assert(wire_expr_ok(ms.drop_first()[i - 1]));
                }
            }
        }
        if forall|i: int| 0 <= i < ms.len() ==> wire_expr_ok(#[trigger] ms[i]) {
            assert forall|j: int|
                0 <= j < ms.drop_first().len() implies wire_expr_ok(
                #[trigger] ms.drop_first()[j],
            ) by {
                assert(ms.drop_first()[j] == ms[j + 1]);
            }
        }
    }
}

proof fn lemma_data_entries_ok_iff(kvs: Seq<(Seq<char>, JsonVal)>)
    ensures
        data_entries_ok(kvs) <==> (forall|i: int|
            0 <= i < kvs.len() ==> wire_expr_ok((#[trigger] kvs[i]).1)),
    decreases kvs,
{
    if kvs.len() > 0 {
        lemma_data_entries_ok_iff(kvs.drop_first());
        assert(forall|j: int|
            0 <= j < kvs.drop_first().len() ==> #[trigger] kvs.drop_first()[j] == kvs[j + 1]);
        if data_entries_ok(kvs) {
            assert forall|i: int|
                0 <= i < kvs.len() implies wire_expr_ok((#[trigger] kvs[i]).1) by {
                if i > 0 {
                    assert(kvs[i] == kvs.drop_first()[i - 1]);
                    assert(wire_expr_ok(kvs.drop_first()[i - 1].1));
                }
            }
        }
        if forall|i: int| 0 <= i < kvs.len() ==> wire_expr_ok((#[trigger] kvs[i]).1) {
            assert forall|j: int|
                0 <= j < kvs.drop_first().len() implies wire_expr_ok(
                (#[trigger] kvs.drop_first()[j]).1,
            ) by {
                assert(kvs.drop_first()[j] == kvs[j + 1]);
            }
        }
    }
}

proof fn lemma_wire_entries_ok_iff(kvs: Seq<(Seq<char>, JsonVal)>)
    ensures
        wire_entries_ok(kvs) <==> (forall|i: int|
            0 <= i < kvs.len() ==> field_of_name((#[trigger] kvs[i]).0) is Some && wire_expr_ok(
                kvs[i].1,
            )),
    decreases kvs,
{
    if kvs.len() > 0 {
        lemma_wire_entries_ok_iff(kvs.drop_first());
        assert(forall|j: int|
            0 <= j < kvs.drop_first().len() ==> #[trigger] kvs.drop_first()[j] == kvs[j + 1]);
        if wire_entries_ok(kvs) {
            assert forall|i: int|
                0 <= i < kvs.len() implies field_of_name((#[trigger] kvs[i]).0) is Some
                && wire_expr_ok(kvs[i].1) by {
                if i > 0 {
                    assert(kvs[i] == kvs.drop_first()[i - 1]);
                    assert(field_of_name(kvs.drop_first()[i - 1].0) is Some && wire_expr_ok(
                        kvs.drop_first()[i - 1].1,
                    ));
                }
            }
        }
        if forall|i: int|
            0 <= i < kvs.len() ==> field_of_name((#[trigger] kvs[i]).0) is Some && wire_expr_ok(
                kvs[i].1,
            ) {
            assert forall|j: int|
                0 <= j < kvs.drop_first().len() implies field_of_name(
                (#[trigger] kvs.drop_first()[j]).0,
            ) is Some && wire_expr_ok(kvs.drop_first()[j].1) by {
                assert(kvs.drop_first()[j] == kvs[j + 1]);
            }
        }
    }
}

/// Splitting an entry sequence splits its type-tag bookkeeping.
proof fn lemma_type_split(kvs: Seq<(Seq<char>, JsonVal)>, i: int)
    requires
        0 <= i <= kvs.len(),
    ensures
        type_count(kvs) == type_count(kvs.subrange(0, i)) + type_count(
            kvs.subrange(i, kvs.len() as int),
        ),
        type_value(kvs) == if type_count(kvs.subrange(i, kvs.len() as int)) > 0 {
            type_value(kvs.subrange(i, kvs.len() as int))
        } else {
            type_value(kvs.subrange(0, i))
        },
        without_type(kvs) == without_type(kvs.subrange(0, i)) + without_type(
            kvs.subrange(i, kvs.len() as int),
        ),
    decreases kvs,
{
    let rest = kvs.subrange(i, kvs.len() as int);
    if i == kvs.len() {
        assert(kvs.subrange(0, i) =~= kvs);
        assert(rest =~= Seq::<(Seq<char>, JsonVal)>::empty());
        assert(without_type(kvs) + without_type(rest) =~= without_type(kvs));
    } else {
        lemma_type_split(kvs.drop_last(), i);
        assert(kvs.drop_last().subrange(0, i) =~= kvs.subrange(0, i));
        assert(kvs.drop_last().subrange(i, kvs.drop_last().len() as int) =~= rest.drop_last());
        assert(rest.last() == kvs.last());
        assert(rest.len() > 0);
        assert(type_count(rest) == type_count(rest.drop_last()) + if rest.last().0 == "type"@ {
            1nat
        } else {
            0nat
        });
        if kvs.last().0 == "type"@ {
            assert(type_value(kvs) == Some(kvs.last().1));
            assert(type_value(rest) == Some(rest.last().1));
            assert(without_type(kvs) == without_type(kvs.drop_last()));
            assert(without_type(rest) == without_type(rest.drop_last()));
            assert(without_type(kvs.subrange(0, i)) + without_type(rest) =~= without_type(kvs));
        } else {
            assert(type_value(kvs) == type_value(kvs.drop_last()));
            assert(type_value(rest) == type_value(rest.drop_last()));
            assert(without_type(kvs) == without_type(kvs.drop_last()).push(kvs.last()));
            assert(without_type(rest) == without_type(rest.drop_last()).push(rest.last()));
            assert(without_type(kvs.subrange(0, i)) + without_type(rest) =~= without_type(kvs));
        }
    }
}

/// The shape a type tag names.
fn shape_from_tag(s: &str) -> (r: Option<QueryShape>)
    ensures
        r == shape_tag(s@),
{
    if str_eq(s, "node") {
        Some(QueryShape::Node)
    } else if str_eq(s, "edge") {
        Some(QueryShape::Edge)
    } else if str_eq(s, "node_edge") {
        Some(QueryShape::NodeEdge)
    } else {
        None
    }
}

/// The field a wire key names.
pub fn field_from_name(s: &str) -> (r: Option<QueryField>)
    ensures
        r == field_of_name(s@),
{
    if str_eq(s, "node.id") {
        Some(QueryField::NodeId)
    } else if str_eq(s, "node.uri") {
        Some(QueryField::NodeURI)
    } else if str_eq(s, "node.data") {
        Some(QueryField::NodeData)
    } else if str_eq(s, "node.updated_at") {
        Some(QueryField::NodeUpdatedAt)
    } else if str_eq(s, "node.created_at") {
        Some(QueryField::NodeCreatedAt)
    } else if str_eq(s, "edge.id") {
        Some(QueryField::EdgeId)
    } else if str_eq(s, "edge.from_node_id") {
        Some(QueryField::EdgeFromNodeId)
    } else if str_eq(s, "edge.to_node_id") {
        Some(QueryField::EdgeToNodeId)
    } else if str_eq(s, "edge.uri") {
        Some(QueryField::EdgeURI)
    } else if str_eq(s, "edge.data") {
        Some(QueryField::EdgeData)
    } else if str_eq(s, "edge.updated_at") {
        Some(QueryField::EdgeUpdatedAt)
    } else if str_eq(s, "edge.created_at") {
        Some(QueryField::EdgeCreatedAt)
    } else if str_eq(s, "from_node.id") {
        Some(QueryField::NodeEdgeFromNodeId)
    } else if str_eq(s, "from_node.uri") {
        Some(QueryField::NodeEdgeFromNodeURI)
    } else if str_eq(s, "from_node.data") {
        Some(QueryField::NodeEdgeFromNodeData)
    } else if str_eq(s, "from_node.updated_at") {
        Some(QueryField::NodeEdgeFromNodeUpdatedAt)
    } else if str_eq(s, "from_node.created_at") {
        Some(QueryField::NodeEdgeFromNodeCreatedAt)
    } else if str_eq(s, "to_node.id") {
        Some(QueryField::NodeEdgeToNodeId)
    } else if str_eq(s, "to_node.uri") {
        Some(QueryField::NodeEdgeToNodeURI)
    } else if str_eq(s, "to_node.data") {
        Some(QueryField::NodeEdgeToNodeData)
    } else if str_eq(s, "to_node.updated_at") {
        Some(QueryField::NodeEdgeToNodeUpdatedAt)
    } else if str_eq(s, "to_node.created_at") {
        Some(QueryField::NodeEdgeToNodeCreatedAt)
    } else {
        None
    }
}

/// The comparison operator a single-expression key names, wrapping `sub`.
fn unary_op_of_key(key: &str, sub: QueryExpr, m: Ghost<JsonVal>) -> (r: QueryOp)
    requires
        is_op_name(key@),
        !is_list_op_name(key@),
        expr_matches(sub, m@),
    ensures
        op_matches(r, key@, m@),
{
    proof {
        reveal_strlit("eq");
        reveal_strlit("neq");
        reveal_strlit("gt");
        reveal_strlit("lt");
        reveal_strlit("gte");
        reveal_strlit("lte");
        reveal_strlit("like");
        reveal_strlit("in");
        reveal_strlit("and");
        reveal_strlit("or");
        reveal_strlit("not");
    }
    let b = Box::new(sub);
    if str_eq(key, "eq") {
        QueryOp::Eq(b)
    } else if str_eq(key, "neq") {
        QueryOp::Neq(b)
    } else if str_eq(key, "gt") {
        QueryOp::Gt(b)
    } else if str_eq(key, "lt") {
        QueryOp::Lt(b)
    } else if str_eq(key, "gte") {
        QueryOp::Gte(b)
    } else if str_eq(key, "lte") {
        QueryOp::Lte(b)
    } else if str_eq(key, "like") {
        QueryOp::Like(b)
    } else {
        QueryOp::Not(b)
    }
}

/// The list operator a list key names, wrapping the converted operands.
fn list_op_of_key(key: &str, es: Vec<QueryExpr>, m: Ghost<JsonVal>) -> (r: QueryOp)
    requires
        is_list_op_name(key@),
        m@ matches JsonVal::Arr(ms) && list_matches(es@, ms),
    ensures
        op_matches(r, key@, m@),
{
    proof {
        reveal_strlit("eq");
        reveal_strlit("neq");
        reveal_strlit("gt");
        reveal_strlit("lt");
        reveal_strlit("gte");
        reveal_strlit("lte");
        reveal_strlit("like");
        reveal_strlit("in");
        reveal_strlit("and");
        reveal_strlit("or");
        reveal_strlit("not");
    }
    if str_eq(key, "in") {
        QueryOp::In(es)
    } else if str_eq(key, "and") {
        QueryOp::And(es)
    } else {
        QueryOp::Or(es)
    }
}

/// Convert a document to the expression it denotes.
pub fn expr_of_json(v: &JsonValue) -> (r: Result<QueryExpr, DecodeError>)
    ensures
        r is Ok <==> wire_expr_ok(v@),
        r matches Ok(e) ==> expr_matches(e, v@),
    decreases depth_val(v@), 1int,
{
    match v {
        JsonValue::Null => {
            proof {
                assert(value_matches(QueryValue::Null, v@));
            }
            Ok(QueryExpr::Value(QueryValue::Null))
        },
        JsonValue::Bool(b) => {
            proof {
                assert(v@ == JsonVal::Bool(*b));
                assert(value_matches(QueryValue::Bool(*b), v@));
            }
            Ok(QueryExpr::Value(QueryValue::Bool(*b)))
        },
        JsonValue::Int(i) => {
            proof {
                assert(v@ == JsonVal::Int(*i as int));
                assert(value_matches(QueryValue::Number(*i), v@));
            }
            Ok(QueryExpr::Value(QueryValue::Number(*i)))
        },
        JsonValue::Str(s) => {
            let copy = s.clone();
            proof {
                assert(v@ == JsonVal::Str(s@));
                assert(value_matches(QueryValue::String(copy), v@));
            }
            Ok(QueryExpr::Value(QueryValue::String(copy)))
        },
        JsonValue::Arr(_) => Err(DecodeError::UnexpectedShape),
        JsonValue::Obj(kvs) => {
            proof {
                lemma_obj_view(kvs@);
            }
            let single_op = kvs.len() == 1 && {
                let key = kvs[0].0.as_str();
                str_eq(key, "eq") || str_eq(key, "neq") || str_eq(key, "gt") || str_eq(key, "lt")
                    || str_eq(key, "gte") || str_eq(key, "lte") || str_eq(key, "like") || str_eq(
                    key,
                    "in",
                ) || str_eq(key, "and") || str_eq(key, "or") || str_eq(key, "not")
            };
            if single_op {
                let key = kvs[0].0.as_str();
                let operand = &kvs[0].1;
                proof {
                    reveal_strlit("eq");
                    reveal_strlit("neq");
                    reveal_strlit("gt");
                    reveal_strlit("lt");
                    reveal_strlit("gte");
                    reveal_strlit("lte");
                    reveal_strlit("like");
                    reveal_strlit("in");
                    reveal_strlit("and");
                    reveal_strlit("or");
                    reveal_strlit("not");
                    lemma_obj_view(kvs@);
                    lemma_depth_obj(obj_view(kvs@));
                    assert(obj_view(kvs@)[0] == (kvs@[0].0@, kvs@[0].1@));
                    assert(depth_val(operand@) <= depth_obj(obj_view(kvs@)));
                    assert(depth_val(v@) == 1 + depth_obj(obj_view(kvs@)));
                }
                if str_eq(key, "in") || str_eq(key, "and") || str_eq(key, "or") {
                    match operand {
                        JsonValue::Arr(ms) => {
                            proof {
                                lemma_arr_view(ms@);
                                lemma_depth_arr(arr_view(ms@));
                                assert(operand@ == JsonVal::Arr(arr_view(ms@)));
                            }
                            match list_of_json(ms, Ghost(depth_val(v@))) {
                                Err(e) => Err(e),
                                Ok(es) => {
                                    let op = list_op_of_key(key, es, Ghost(obj_view(kvs@)[0].1));
                                    Ok(QueryExpr::Op(op))
                                },
                            }
                        },
                        _ => Err(DecodeError::UnexpectedShape),
                    }
                } else {
                    match expr_of_json(operand) {
                        Err(e) => Err(e),
                        Ok(sub) => {
                            let op = unary_op_of_key(key, sub, Ghost(obj_view(kvs@)[0].1));
                            Ok(QueryExpr::Op(op))
                        },
                    }
                }
            } else {
                match data_of_json(kvs, Ghost(depth_val(v@))) {
                    Err(e) => Err(e),
                    Ok(entries) => Ok(QueryExpr::Data(entries)),
                }
            }
        },
    }
}

/// Convert the elements of a list operand.
fn list_of_json(ms: &Vec<JsonValue>, bound: Ghost<nat>) -> (r: Result<Vec<QueryExpr>, DecodeError>)
    requires
        depth_arr(arr_view(ms@)) < bound@,
    ensures
        r is Ok <==> wire_list_ok(arr_view(ms@)),
        r matches Ok(es) ==> list_matches(es@, arr_view(ms@)),
    decreases bound@, 0int,
{
    let ghost view = arr_view(ms@);
    let mut out: Vec<QueryExpr> = Vec::new();
    let n = ms.len();
    let mut i: usize = 0;
    proof {
        lemma_arr_view(ms@);
        lemma_wire_list_ok_iff(view);
    }
    while i < n
        invariant
            view == arr_view(ms@),
            depth_arr(view) < bound@,
            view.len() == ms@.len(),
            forall|j: int| 0 <= j < ms@.len() ==> #[trigger] view[j] == ms@[j]@,
            n == ms@.len(),
            i <= n,
            out@.len() == i,
            forall|j: int| 0 <= j < i ==> wire_expr_ok(#[trigger] view[j]),
            forall|j: int| 0 <= j < i ==> expr_matches(#[trigger] out@[j], view[j]),
        decreases n - i,
    {
        proof {
            lemma_depth_arr(view);
            assert(depth_val(view[i as int]) <= depth_arr(view));
        }
        match expr_of_json(&ms[i]) {
            Err(e) => {
                proof {
                    lemma_wire_list_ok_iff(view);
                    assert(!wire_expr_ok(view[i as int]));
                }
                return Err(e);
            },
            Ok(e) => {
                out.push(e);
            },
        }
        i += 1;
    }
    proof {
        lemma_wire_list_ok_iff(view);
    }
    Ok(out)
}

/// Convert the entries of a nested-payload object.
fn data_of_json(kvs: &Vec<(String, JsonValue)>, bound: Ghost<nat>) -> (r: Result<
    Vec<(String, QueryExpr)>,
    DecodeError,
>)
    requires
        depth_obj(obj_view(kvs@)) < bound@,
    ensures
        r is Ok <==> data_entries_ok(obj_view(kvs@)),
        r matches Ok(entries) ==> entries@.len() == kvs@.len() && (forall|i: int|
            0 <= i < kvs@.len() ==> (#[trigger] entries@[i]).0@ == obj_view(kvs@)[i].0
                && expr_matches(entries@[i].1, obj_view(kvs@)[i].1)),
    decreases bound@, 0int,
{
    let ghost view = obj_view(kvs@);
    let mut out: Vec<(String, QueryExpr)> = Vec::new();
    let n = kvs.len();
    let mut i: usize = 0;
    proof {
        lemma_obj_view(kvs@);
    }
    while i < n
        invariant
            view == obj_view(kvs@),
            depth_obj(view) < bound@,
            view.len() == kvs@.len(),
            forall|j: int| 0 <= j < kvs@.len() ==> #[trigger] view[j] == (kvs@[j].0@, kvs@[j].1@),
            n == kvs@.len(),
            i <= n,
            out@.len() == i,
            forall|j: int| 0 <= j < i ==> wire_expr_ok((#[trigger] view[j]).1),
            forall|j: int|
                0 <= j < i ==> (#[trigger] out@[j]).0@ == view[j].0 && expr_matches(
                    out@[j].1,
                    view[j].1,
                ),
        decreases n - i,
    {
        proof {
            lemma_depth_obj(view);
            assert(depth_val(view[i as int].1) <= depth_obj(view));
        }
        let entry = &kvs[i];
        match expr_of_json(&entry.1) {
            Err(e) => {
                proof {
                    lemma_data_entries_ok_iff(view);
                    assert(!wire_expr_ok(view[i as int].1));
                }
                return Err(e);
            },
            Ok(e) => {
                out.push((entry.0.clone(), e));
            },
        }
        i += 1;
    }
    proof {
        lemma_data_entries_ok_iff(view);
    }
    Ok(out)
}

/// Read a query from its wire document: the `type` key, required exactly
/// once, names the shape; every other key names a field and maps to an
/// expression, in document order.
pub fn query_from_json(v: &JsonValue) -> (r: Result<Query, DecodeError>)
    ensures
        r is Ok <==> wire_query_ok(v@),
        r matches Ok(q) ==> query_matches(q, v@),
{
    match v {
        JsonValue::Obj(kvs) => {
            proof {
                lemma_obj_view(kvs@);
            }
            let ghost view = obj_view(kvs@);
            let mut shape: Option<QueryShape> = None;
            let mut entries: Vec<(QueryField, QueryExpr)> = Vec::new();
            let n = kvs.len();
            let mut i: usize = 0;
            proof {
                assert(view.subrange(0, 0) =~= Seq::<(Seq<char>, JsonVal)>::empty());
            }
            while i < n
                invariant
                    v@ == JsonVal::Obj(view),
                    view == obj_view(kvs@),
                    view.len() == kvs@.len(),
                    forall|j: int|
                        0 <= j < kvs@.len() ==> #[trigger] view[j] == (kvs@[j].0@, kvs@[j].1@),
                    n == kvs@.len(),
                    i <= n,
                    match shape {
                        None => type_count(view.subrange(0, i as int)) == 0,
                        Some(sh) => {
                            &&& type_count(view.subrange(0, i as int)) == 1
                            &&& (type_value(view.subrange(0, i as int)) matches Some(tv)
                                && tv matches JsonVal::Str(t) && shape_tag(t) == Some(sh))
                        },
                    },
                    wire_entries_ok(without_type(view.subrange(0, i as int))),
                    entries_match(entries@, without_type(view.subrange(0, i as int))),
                decreases n - i,
            {
                let ghost pre = view.subrange(0, i as int);
                let ghost post = view.subrange(0, i + 1);
                proof {
                    assert(post.drop_last() =~= pre);
                    assert(post.last() == view[i as int]);
                }
                let entry = &kvs[i];
                if str_eq(entry.0.as_str(), "type") {
                    if shape.is_some() {
                        proof {
                            lemma_type_split(view, i + 1);
                            assert(type_count(post) == 2);
                            assert(type_count(view) >= 2);
                        }
                        return Err(DecodeError::UnexpectedShape);
                    }
                    let tag_shape = match &entry.1 {
                        JsonValue::Str(s) => shape_from_tag(s.as_str()),
                        _ => None,
                    };
                    match tag_shape {
                        Some(sh) => {
                            shape = Some(sh);
                            proof {
                                assert(type_count(post) == 1);
                                assert(type_value(post) == Some(view[i as int].1));
                                assert(without_type(post) =~= without_type(pre));
                            }
                        },
                        None => {
                            proof {
                                lemma_type_split(view, i + 1);
                                let rest = view.subrange(i + 1, view.len() as int);
                                if type_count(rest) > 0 {
                                    assert(type_count(view) >= 2);
                                } else {
                                    assert(type_count(post) == 1);
                                    assert(type_value(view) == type_value(post));
                                    assert(type_value(view) == Some(view[i as int].1));
                                }
                            }
                            return Err(DecodeError::UnexpectedShape);
                        },
                    }
                } else {
                    let ghost wt_pre = without_type(pre);
                    proof {
                        assert(without_type(post) == wt_pre.push(view[i as int]));
                        lemma_type_split(view, i + 1);
                        assert(without_type(view) == without_type(post) + without_type(
                            view.subrange(i + 1, view.len() as int),
                        ));
                        assert(without_type(view)[wt_pre.len() as int] == view[i as int]);
                    }
                    let field = match field_from_name(entry.0.as_str()) {
                        Some(f) => f,
                        None => {
                            proof {
                                lemma_wire_entries_ok_iff(without_type(view));
                                assert(field_of_name(view[i as int].0) is None);
                                assert(!wire_entries_ok(without_type(view)));
                            }
                            return Err(DecodeError::UnexpectedShape);
                        },
                    };
                    match expr_of_json(&entry.1) {
                        Err(e) => {
                            proof {
                                lemma_wire_entries_ok_iff(without_type(view));
                                assert(!wire_expr_ok(view[i as int].1));
                                assert(!wire_entries_ok(without_type(view)));
                            }
                            return Err(e);
                        },
                        Ok(expr) => {
                            entries.push((field, expr));
                            proof {
                                lemma_wire_entries_ok_iff(wt_pre);
                                lemma_wire_entries_ok_iff(without_type(post));
                                assert(forall|j: int|
                                    0 <= j < wt_pre.len() ==> #[trigger] without_type(post)[j]
                                        == wt_pre[j]);
                                assert(without_type(post)[wt_pre.len() as int]
                                    == view[i as int]);
                            }
                        },
                    }
                }
                i += 1;
            }
            proof {
                assert(view.subrange(0, n as int) =~= view);
            }
            match shape {
                Some(sh) => Ok(Query { shape: sh, entries }),
                None => Err(DecodeError::UnexpectedShape),
            }
        },
        _ => Err(DecodeError::UnexpectedShape),
    }
}

/// The expression has a wire form: no column references, and no
/// single-entry payload object whose key reads as an operator.
pub open spec fn wire_writable_expr(e: QueryExpr) -> bool
    decreases e, 0int,
{
    match e {
        QueryExpr::Value(_) => true,
        QueryExpr::Field(_) => false,
        QueryExpr::Op(op) => wire_writable_op(op),
        QueryExpr::Data(entries) => {
            &&& (entries@.len() == 1 ==> !is_op_name(entries@[0].0@))
            &&& wire_writable_entries(entries@)
        },
    }
}

pub open spec fn wire_writable_op(op: QueryOp) -> bool
    decreases op, 1int,
{
    match op {
        QueryOp::Eq(e) => wire_writable_expr(*e),
        QueryOp::Neq(e) => wire_writable_expr(*e),
        QueryOp::Gt(e) => wire_writable_expr(*e),
        QueryOp::Lt(e) => wire_writable_expr(*e),
        QueryOp::Gte(e) => wire_writable_expr(*e),
        QueryOp::Lte(e) => wire_writable_expr(*e),
        QueryOp::Like(e) => wire_writable_expr(*e),
        QueryOp::In(es) => wire_writable_list(es@),
        QueryOp::And(es) => wire_writable_list(es@),
        QueryOp::Or(es) => wire_writable_list(es@),
        QueryOp::Not(e) => wire_writable_expr(*e),
    }
}

pub open spec fn wire_writable_list(es: Seq<QueryExpr>) -> bool
    decreases es, 2int,
{
    if es.len() == 0 {
        true
    } else {
        wire_writable_expr(es[0]) && wire_writable_list(es.drop_first())
    }
}

pub open spec fn wire_writable_entries(entries: Seq<(String, QueryExpr)>) -> bool
    decreases entries, 2int,
{
    if entries.len() == 0 {
        true
    } else {
        wire_writable_expr(entries[0].1) && wire_writable_entries(entries.drop_first())
    }
}

/// Every mapping entry's expression has a wire form.
pub open spec fn wire_writable_conds(entries: Seq<(QueryField, QueryExpr)>) -> bool
    decreases entries, 3int,
{
    if entries.len() == 0 {
        true
    } else {
        wire_writable_expr(entries[0].1) && wire_writable_conds(entries.drop_first())
    }
}

proof fn lemma_wire_writable_list_iff(es: Seq<QueryExpr>)
    ensures
        wire_writable_list(es) <==> (forall|i: int|
            0 <= i < es.len() ==> wire_writable_expr(#[trigger] es[i])),
    decreases es,
{
    if es.len() > 0 {
        lemma_wire_writable_list_iff(es.drop_first());
        assert(forall|j: int|
            0 <= j < es.drop_first().len() ==> #[trigger] es.drop_first()[j] == es[j + 1]);
        if wire_writable_list(es) {
            assert forall|i: int|
                0 <= i < es.len() implies wire_writable_expr(#[trigger] es[i]) by {
                if i > 0 {
                    assert(es[i] == es.drop_first()[i - 1]);
                    assert(wire_writable_expr(es.drop_first()[i - 1]));
                }
            }
        }
        if forall|i: int| 0 <= i < es.len() ==> wire_writable_expr(#[trigger] es[i]) {
            assert forall|j: int|
                0 <= j < es.drop_first().len() implies wire_writable_expr(
                #[trigger] es.drop_first()[j],
            ) by {
                assert(es.drop_first()[j] == es[j + 1]);
            }
        }
    }
}

proof fn lemma_wire_writable_entries_iff(entries: Seq<(String, QueryExpr)>)
    ensures
        wire_writable_entries(entries) <==> (forall|i: int|
            0 <= i < entries.len() ==> wire_writable_expr((#[trigger] entries[i]).1)),
    decreases entries,
{
    if entries.len() > 0 {
        lemma_wire_writable_entries_iff(entries.drop_first());
        assert(forall|j: int|
            0 <= j < entries.drop_first().len() ==> #[trigger] entries.drop_first()[j] == entries[j
                + 1]);
        if wire_writable_entries(entries) {
            assert forall|i: int|
                0 <= i < entries.len() implies wire_writable_expr((#[trigger] entries[i]).1) by {
                if i > 0 {
                    assert(entries[i] == entries.drop_first()[i - 1]);
                    assert(wire_writable_expr(entries.drop_first()[i - 1].1));
                }
            }
        }
        if forall|i: int|
            0 <= i < entries.len() ==> wire_writable_expr((#[trigger] entries[i]).1) {
            assert forall|j: int|
                0 <= j < entries.drop_first().len() implies wire_writable_expr(
                (#[trigger] entries.drop_first()[j]).1,
            ) by {
                assert(entries.drop_first()[j] == entries[j + 1]);
            }
        }
    }
}

/// Which operator names take a list operand, with every name's length and
/// first character in view.
proof fn lemma_op_name_kinds()
    ensures
        !is_list_op_name("eq"@),
        !is_list_op_name("neq"@),
        !is_list_op_name("gt"@),
        !is_list_op_name("lt"@),
        !is_list_op_name("gte"@),
        !is_list_op_name("lte"@),
        !is_list_op_name("like"@),
        !is_list_op_name("not"@),
        is_list_op_name("in"@),
        is_list_op_name("and"@),
        is_list_op_name("or"@),
        is_op_name("eq"@),
        is_op_name("neq"@),
        is_op_name("gt"@),
        is_op_name("lt"@),
        is_op_name("gte"@),
        is_op_name("lte"@),
        is_op_name("like"@),
        is_op_name("in"@),
        is_op_name("and"@),
        is_op_name("or"@),
        is_op_name("not"@),
{
    reveal_strlit("eq");
    reveal_strlit("neq");
    reveal_strlit("gt");
    reveal_strlit("lt");
    reveal_strlit("gte");
    reveal_strlit("lte");
    reveal_strlit("like");
    reveal_strlit("in");
    reveal_strlit("and");
    reveal_strlit("or");
    reveal_strlit("not");
    assert("eq"@.len() == 2);
    assert("neq"@.len() == 3);
    assert("gt"@.len() == 2);
    assert("lt"@.len() == 2);
    assert("gte"@.len() == 3);
    assert("lte"@.len() == 3);
    assert("like"@.len() == 4);
    assert("in"@.len() == 2);
    assert("and"@.len() == 3);
    assert("or"@.len() == 2);
    assert("not"@.len() == 3);
    assert("eq"@[0] == 'e');
    assert("neq"@[0] == 'n');
    assert("gt"@[0] == 'g');
    assert("lt"@[0] == 'l');
    assert("gte"@[0] == 'g');
    assert("lte"@[0] == 'l');
    assert("like"@[0] == 'l');
    assert("in"@[0] == 'i');
    assert("and"@[0] == 'a');
    assert("or"@[0] == 'o');
    assert("not"@[0] == 'n');
}

/// The shape each tag reads back as, with the tags' distinguishing facts
/// in view.
proof fn lemma_shape_tags()
    ensures
        shape_tag("node"@) == Some(QueryShape::Node),
        shape_tag("edge"@) == Some(QueryShape::Edge),
        shape_tag("node_edge"@) == Some(QueryShape::NodeEdge),
{
    reveal_strlit("node");
    reveal_strlit("edge");
    reveal_strlit("node_edge");
    assert("node"@.len() == 4);
    assert("edge"@.len() == 4);
    assert("node_edge"@.len() == 9);
    assert("node"@[0] == 'n');
    assert("edge"@[0] == 'e');
}

/// In a singleton object built around an operator key, the wrapped
/// operator document is exactly that entry.
proof fn wrapped_op_facts(out: &JsonValue, name: Seq<char>)
    requires
        out matches JsonValue::Obj(kvs) && kvs@.len() == 1 && kvs@[0].0@ == name,
    ensures
        out@ matches JsonVal::Obj(view) && view.len() == 1 && view[0].0 == name && view[0].1
            == (out->Obj_0)@[0].1@,
{
    match out {
        JsonValue::Obj(kvs) => {
            lemma_obj_view(kvs@);
            assert(obj_view(kvs@)[0] == (kvs@[0].0@, kvs@[0].1@));
        },
        _ => {},
    }
}

/// The literal document of a literal operand.
fn value_to_json(v: &QueryValue) -> (r: JsonValue)
    ensures
        value_matches(*v, r@),
        !(r@ is Arr),
        !(r@ is Obj),
{
    match v {
        QueryValue::Null => JsonValue::Null,
        QueryValue::Bool(b) => JsonValue::Bool(*b),
        QueryValue::String(s) => JsonValue::Str(s.clone()),
        QueryValue::Number(n) => JsonValue::Int(*n),
    }
}

/// Write an expression as the document that reads back as that
/// expression; `None` exactly where the expression has no wire form.
pub fn expr_to_json(e: &QueryExpr) -> (r: Option<JsonValue>)
    ensures
        r is Some <==> wire_writable_expr(*e),
        r matches Some(j) ==> expr_matches(*e, j@) && wire_expr_ok(j@),
    decreases expr_depth(*e), 1int,
{
    match e {
        QueryExpr::Value(v) => {
            let j = value_to_json(v);
            proof {
                assert(*e == QueryExpr::Value(*v));
                assert(expr_matches(*e, j@));
            }
            Some(j)
        },
        QueryExpr::Field(_) => None,
        QueryExpr::Op(op) => {
            match op {
                QueryOp::Eq(sub) => {
                    match expr_to_json(&**sub) {
                        None => None,
                        Some(j) => {
                            let ghost jv = j@;
                            let out = JsonValue::Obj(vec![(String::from_str("eq"), j)]);
                            proof {
                                lemma_op_name_kinds();
                                wrapped_op_facts(&out, "eq"@);
                                assert(*op == QueryOp::Eq(*sub));
                                assert(op_matches(*op, "eq"@, jv));
                            }
                            Some(out)
                        },
                    }
                },
                QueryOp::Neq(sub) => {
                    match expr_to_json(&**sub) {
                        None => None,
                        Some(j) => {
                            let ghost jv = j@;
                            let out = JsonValue::Obj(vec![(String::from_str("neq"), j)]);
                            proof {
                                lemma_op_name_kinds();
                                wrapped_op_facts(&out, "neq"@);
                                assert(*op == QueryOp::Neq(*sub));
                                assert(op_matches(*op, "neq"@, jv));
                            }
                            Some(out)
                        },
                    }
                },
                QueryOp::Gt(sub) => {
                    match expr_to_json(&**sub) {
                        None => None,
                        Some(j) => {
                            let ghost jv = j@;
                            let out = JsonValue::Obj(vec![(String::from_str("gt"), j)]);
                            proof {
                                lemma_op_name_kinds();
                                wrapped_op_facts(&out, "gt"@);
                                assert(*op == QueryOp::Gt(*sub));
                                assert(op_matches(*op, "gt"@, jv));
                            }
                            Some(out)
                        },
                    }
                },
                QueryOp::Lt(sub) => {
                    match expr_to_json(&**sub) {
                        None => None,
                        Some(j) => {
                            let ghost jv = j@;
                            let out = JsonValue::Obj(vec![(String::from_str("lt"), j)]);
                            proof {
                                lemma_op_name_kinds();
                                wrapped_op_facts(&out, "lt"@);
                                assert(*op == QueryOp::Lt(*sub));
                                assert(op_matches(*op, "lt"@, jv));
                            }
                            Some(out)
                        },
                    }
                },
                QueryOp::Gte(sub) => {
                    match expr_to_json(&**sub) {
                        None => None,
                        Some(j) => {
                            let ghost jv = j@;
                            let out = JsonValue::Obj(vec![(String::from_str("gte"), j)]);
                            proof {
                                lemma_op_name_kinds();
                                wrapped_op_facts(&out, "gte"@);
                                assert(*op == QueryOp::Gte(*sub));
                                assert(op_matches(*op, "gte"@, jv));
                            }
                            Some(out)
                        },
                    }
                },
                QueryOp::Lte(sub) => {
                    match expr_to_json(&**sub) {
                        None => None,
                        Some(j) => {
                            let ghost jv = j@;
                            let out = JsonValue::Obj(vec![(String::from_str("lte"), j)]);
                            proof {
                                lemma_op_name_kinds();
                                wrapped_op_facts(&out, "lte"@);
                                assert(*op == QueryOp::Lte(*sub));
                                assert(op_matches(*op, "lte"@, jv));
                            }
                            Some(out)
                        },
                    }
                },
                QueryOp::Like(sub) => {
                    match expr_to_json(&**sub) {
                        None => None,
                        Some(j) => {
                            let ghost jv = j@;
                            let out = JsonValue::Obj(vec![(String::from_str("like"), j)]);
                            proof {
                                lemma_op_name_kinds();
                                wrapped_op_facts(&out, "like"@);
                                assert(*op == QueryOp::Like(*sub));
                                assert(op_matches(*op, "like"@, jv));
                            }
                            Some(out)
                        },
                    }
                },
                QueryOp::Not(sub) => {
                    match expr_to_json(&**sub) {
                        None => None,
                        Some(j) => {
                            let ghost jv = j@;
                            let out = JsonValue::Obj(vec![(String::from_str("not"), j)]);
                            proof {
                                lemma_op_name_kinds();
                                wrapped_op_facts(&out, "not"@);
                                assert(*op == QueryOp::Not(*sub));
                                assert(op_matches(*op, "not"@, jv));
                            }
                            Some(out)
                        },
                    }
                },
                QueryOp::In(es) => {
                    proof {
                        assert(expr_depth(*e) == 1 + list_depth(es@));
                    }
                    match list_to_json(es, Ghost(expr_depth(*e))) {
                        None => None,
                        Some(js) => {
                            let arr = JsonValue::Arr(js);
                            let ghost av = arr@;
                            let out = JsonValue::Obj(vec![(String::from_str("in"), arr)]);
                            proof {
                                lemma_op_name_kinds();
                                wrapped_op_facts(&out, "in"@);
                                assert(av matches JsonVal::Arr(ms) && list_matches(
                                    (*op)->In_0@,
                                    ms,
                                ));
                                assert(op_matches(*op, "in"@, av));
                            }
                            Some(out)
                        },
                    }
                },
                QueryOp::And(es) => {
                    proof {
                        assert(expr_depth(*e) == 1 + list_depth(es@));
                    }
                    match list_to_json(es, Ghost(expr_depth(*e))) {
                        None => None,
                        Some(js) => {
                            let arr = JsonValue::Arr(js);
                            let ghost av = arr@;
                            let out = JsonValue::Obj(vec![(String::from_str("and"), arr)]);
                            proof {
                                lemma_op_name_kinds();
                                wrapped_op_facts(&out, "and"@);
                                assert(av matches JsonVal::Arr(ms) && list_matches(
                                    (*op)->And_0@,
                                    ms,
                                ));
                                assert(op_matches(*op, "and"@, av));
                            }
                            Some(out)
                        },
                    }
                },
                QueryOp::Or(es) => {
                    proof {
                        assert(expr_depth(*e) == 1 + list_depth(es@));
                    }
                    match list_to_json(es, Ghost(expr_depth(*e))) {
                        None => None,
                        Some(js) => {
                            let arr = JsonValue::Arr(js);
                            let ghost av = arr@;
                            let out = JsonValue::Obj(vec![(String::from_str("or"), arr)]);
                            proof {
                                lemma_op_name_kinds();
                                wrapped_op_facts(&out, "or"@);
                                assert(av matches JsonVal::Arr(ms) && list_matches(
                                    (*op)->Or_0@,
                                    ms,
                                ));
                                assert(op_matches(*op, "or"@, av));
                            }
                            Some(out)
                        },
                    }
                },
            }
        },
        QueryExpr::Data(entries) => {
            let single_op = entries.len() == 1 && {
                let key = entries[0].0.as_str();
                str_eq(key, "eq") || str_eq(key, "neq") || str_eq(key, "gt") || str_eq(key, "lt")
                    || str_eq(key, "gte") || str_eq(key, "lte") || str_eq(key, "like") || str_eq(
                    key,
                    "in",
                ) || str_eq(key, "and") || str_eq(key, "or") || str_eq(key, "not")
            };
            if single_op {
                // reads back as an operator, not as this payload path
                None
            } else {
                proof {
                    assert(expr_depth(*e) == 1 + data_depth(entries@));
                }
                match data_to_json(entries, Ghost(expr_depth(*e))) {
                    None => None,
                    Some(kvs) => {
                        let out = JsonValue::Obj(kvs);
                        proof {
                            match &out {
                                JsonValue::Obj(okvs) => {
                                    lemma_obj_view(okvs@);
                                    let view = obj_view(okvs@);
                                    lemma_data_entries_ok_iff(view);
                                    assert forall|j: int| 0 <= j < view.len() implies wire_expr_ok(
                                        (#[trigger] view[j]).1,
                                    ) by {
                                        assert(expr_matches(entries@[j].1, view[j].1));
                                    }
                                },
                                _ => {},
                            }
                        }
                        Some(out)
                    },
                }
            }
        },
    }
}

/// Write each list operand.
fn list_to_json(es: &Vec<QueryExpr>, bound: Ghost<nat>) -> (r: Option<Vec<JsonValue>>)
    requires
        list_depth(es@) < bound@,
    ensures
        r is Some <==> wire_writable_list(es@),
        r matches Some(js) ==> list_matches(es@, arr_view(js@)) && wire_list_ok(arr_view(js@)),
    decreases bound@, 0int,
{
    let mut out: Vec<JsonValue> = Vec::new();
    let n = es.len();
    let mut i: usize = 0;
    while i < n
        invariant
            list_depth(es@) < bound@,
            n == es@.len(),
            i <= n,
            out@.len() == i,
            arr_view(out@).len() == i,
            forall|j: int| 0 <= j < i ==> wire_writable_expr(#[trigger] es@[j]),
            forall|j: int|
                0 <= j < i ==> expr_matches(#[trigger] es@[j], arr_view(out@)[j]) && wire_expr_ok(
                    arr_view(out@)[j],
                ),
        decreases n - i,
    {
        proof {
            lemma_list_depth(es@);
            assert(expr_depth(es@[i as int]) <= list_depth(es@));
        }
        match expr_to_json(&es[i]) {
            None => {
                proof {
                    lemma_wire_writable_list_iff(es@);
                    assert(!wire_writable_expr(es@[i as int]));
                }
                return None;
            },
            Some(j) => {
                let ghost out_old = out@;
                out.push(j);
                proof {
                    assert(out@.drop_last() =~= out_old);
                    assert(arr_view(out@) == arr_view(out_old).push(out@.last()@));
                    lemma_arr_view(out@);
                }
            },
        }
        i += 1;
    }
    proof {
        lemma_wire_writable_list_iff(es@);
        lemma_wire_list_ok_iff(arr_view(out@));
        lemma_arr_view(out@);
        assert forall|j: int| 0 <= j < arr_view(out@).len() implies wire_expr_ok(
            #[trigger] arr_view(out@)[j],
        ) by {
            assert(expr_matches(es@[j], arr_view(out@)[j]));
        }
    }
    Some(out)
}

/// Write each payload entry.
fn data_to_json(entries: &Vec<(String, QueryExpr)>, bound: Ghost<nat>) -> (r: Option<
    Vec<(String, JsonValue)>,
>)
    requires
        data_depth(entries@) < bound@,
    ensures
        r is Some <==> wire_writable_entries(entries@),
        r matches Some(kvs) ==> kvs@.len() == entries@.len() && (forall|i: int|
            0 <= i < entries@.len() ==> (#[trigger] obj_view(kvs@)[i]).0 == entries@[i].0@
                && expr_matches(entries@[i].1, obj_view(kvs@)[i].1) && wire_expr_ok(
                obj_view(kvs@)[i].1,
            )),
    decreases bound@, 0int,
{
    let mut out: Vec<(String, JsonValue)> = Vec::new();
    let n = entries.len();
    let mut i: usize = 0;
    while i < n
        invariant
            data_depth(entries@) < bound@,
            n == entries@.len(),
            i <= n,
            out@.len() == i,
            obj_view(out@).len() == i,
            forall|j: int| 0 <= j < i ==> wire_writable_expr((#[trigger] entries@[j]).1),
            forall|j: int|
                0 <= j < i ==> (#[trigger] obj_view(out@)[j]).0 == entries@[j].0@ && expr_matches(
                    entries@[j].1,
                    obj_view(out@)[j].1,
                ) && wire_expr_ok(obj_view(out@)[j].1),
        decreases n - i,
    {
        proof {
            lemma_data_depth(entries@);
            assert(expr_depth(entries@[i as int].1) <= data_depth(entries@));
        }
        let entry = &entries[i];
        match expr_to_json(&entry.1) {
            None => {
                proof {
                    lemma_wire_writable_entries_iff(entries@);
                    assert(!wire_writable_expr(entries@[i as int].1));
                }
                return None;
            },
            Some(j) => {
                let ghost out_old = out@;
                out.push((entry.0.clone(), j));
                proof {
                    assert(out@.drop_last() =~= out_old);
                    assert(obj_view(out@) == obj_view(out_old).push(
                        (out@.last().0@, out@.last().1@),
                    ));
                    lemma_obj_view(out@);
                }
            },
        }
        i += 1;
    }
    proof {
        lemma_wire_writable_entries_iff(entries@);
    }
    Some(out)
}

/// When only the first entry carries the type tag, the tag bookkeeping is
/// exactly that entry, and the remaining entries are the rest in order.
proof fn lemma_single_type_head(kvs: Seq<(Seq<char>, JsonVal)>)
    requires
        kvs.len() >= 1,
        kvs[0].0 == "type"@,
        forall|j: int| 1 <= j < kvs.len() ==> (#[trigger] kvs[j]).0 != "type"@,
    ensures
        type_count(kvs) == 1,
        type_value(kvs) == Some(kvs[0].1),
        without_type(kvs) == kvs.drop_first(),
    decreases kvs,
{
    if kvs.len() == 1 {
        assert(kvs.drop_last().len() == 0);
        assert(kvs.last() == kvs[0]);
        assert(type_count(kvs) == type_count(kvs.drop_last()) + 1);
        assert(type_count(kvs.drop_last()) == 0);
        assert(type_value(kvs) == Some(kvs[0].1));
        assert(without_type(kvs) == without_type(kvs.drop_last()));
        assert(without_type(kvs.drop_last()) == Seq::<(Seq<char>, JsonVal)>::empty());
        assert(kvs.drop_first() =~= Seq::<(Seq<char>, JsonVal)>::empty());
    } else {
        assert(kvs.drop_last()[0] == kvs[0]);
        assert(forall|j: int|
            1 <= j < kvs.drop_last().len() ==> (#[trigger] kvs.drop_last()[j]).0 == kvs[j].0);
        lemma_single_type_head(kvs.drop_last());
        assert(kvs.last().0 != "type"@);
        assert(type_count(kvs) == type_count(kvs.drop_last()));
        assert(type_value(kvs) == type_value(kvs.drop_last()));
        assert(without_type(kvs) == without_type(kvs.drop_last()).push(kvs.last()));
        assert(kvs.drop_last().drop_first().push(kvs.last()) =~= kvs.drop_first());
    }
}

/// Write a query as its tagged wire document: the type tag first, then
/// each mapping entry under its field name, in order. `None` exactly where
/// some entry's expression has no wire form; the written document reads
/// back as this query.
pub fn query_to_json(q: &Query) -> (r: Option<JsonValue>)
    ensures
        r is Some <==> wire_writable_conds(q.entries@),
        r matches Some(j) ==> wire_query_ok(j@) && query_matches(*q, j@),
{
    let tag = match q.shape {
        QueryShape::Node => "node",
        QueryShape::Edge => "edge",
        QueryShape::NodeEdge => "node_edge",
    };
    let mut kvs: Vec<(String, JsonValue)> = Vec::new();
    kvs.push((String::from_str("type"), JsonValue::Str(String::from_str(tag))));
    proof {
        lemma_shape_tags();
        lemma_obj_view(kvs@);
    }
    let n = q.entries.len();
    let mut i: usize = 0;
    while i < n
        invariant
            n == q.entries@.len(),
            i <= n,
            kvs@.len() == 1 + i,
            obj_view(kvs@).len() == 1 + i,
            obj_view(kvs@)[0].0 == "type"@,
            obj_view(kvs@)[0].1 matches JsonVal::Str(t) && shape_tag(t) == Some(q.shape),
            forall|j: int| 0 <= j < i ==> wire_writable_expr((#[trigger] q.entries@[j]).1),
            forall|j: int|
                1 <= j < 1 + i ==> (#[trigger] obj_view(kvs@)[j]).0 == field_name(
                    q.entries@[j - 1].0,
                ) && expr_matches(q.entries@[j - 1].1, obj_view(kvs@)[j].1) && wire_expr_ok(
                    obj_view(kvs@)[j].1,
                ),
        decreases n - i,
    {
        let entry = &q.entries[i];
        match expr_to_json(&entry.1) {
            None => {
                proof {
                    lemma_writable_conds_iff(q.entries@);
                    assert(!wire_writable_expr(q.entries@[i as int].1));
                }
                return None;
            },
            Some(j) => {
                let ghost kvs_old = kvs@;
                kvs.push((String::from_str(entry.0.name()), j));
                proof {
                    assert(kvs@.drop_last() =~= kvs_old);
                    assert(obj_view(kvs@) == obj_view(kvs_old).push(
                        (kvs@.last().0@, kvs@.last().1@),
                    ));
                    lemma_obj_view(kvs@);
                }
            },
        }
        i += 1;
    }
    let out = JsonValue::Obj(kvs);
    proof {
        lemma_writable_conds_iff(q.entries@);
        match &out {
            JsonValue::Obj(okvs) => {
                lemma_obj_view(okvs@);
                let view = obj_view(okvs@);
                assert forall|j: int| 1 <= j < view.len() implies (#[trigger] view[j]).0
                    != "type"@ by {
                    lemma_field_name_reads_back(q.entries@[j - 1].0);
                }
                lemma_single_type_head(view);
                lemma_wire_entries_ok_iff(view.drop_first());
                assert forall|j: int|
                    0 <= j < view.drop_first().len() implies field_of_name(
                    (#[trigger] view.drop_first()[j]).0,
                ) == Some(q.entries@[j].0) && wire_expr_ok(view.drop_first()[j].1)
                    && expr_matches(q.entries@[j].1, view.drop_first()[j].1) by {
                    assert(view.drop_first()[j] == view[j + 1]);
                    lemma_field_name_reads_back(q.entries@[j].0);
                }
            },
            _ => {},
        }
    }
    Some(out)
}

proof fn lemma_writable_conds_iff(entries: Seq<(QueryField, QueryExpr)>)
    ensures
        wire_writable_conds(entries) <==> (forall|i: int|
            0 <= i < entries.len() ==> wire_writable_expr((#[trigger] entries[i]).1)),
    decreases entries,
{
    if entries.len() > 0 {
        lemma_writable_conds_iff(entries.drop_first());
        assert(forall|j: int|
            0 <= j < entries.drop_first().len() ==> #[trigger] entries.drop_first()[j] == entries[j
                + 1]);
        if wire_writable_conds(entries) {
            assert forall|i: int|
                0 <= i < entries.len() implies wire_writable_expr((#[trigger] entries[i]).1) by {
                if i > 0 {
                    assert(entries[i] == entries.drop_first()[i - 1]);
                    assert(wire_writable_expr(entries.drop_first()[i - 1].1));
                }
            }
        }
        if forall|i: int|
            0 <= i < entries.len() ==> wire_writable_expr((#[trigger] entries[i]).1) {
            assert forall|j: int|
                0 <= j < entries.drop_first().len() implies wire_writable_expr(
                (#[trigger] entries.drop_first()[j]).1,
            ) by {
                assert(entries.drop_first()[j] == entries[j + 1]);
            }
        }
    }
}

} // verus!
