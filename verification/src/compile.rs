//! The compiler: lowering a query to SQL text with bound parameters.
//!
//! Literal operands compile to `?` placeholders and are collected, in
//! rendering order, into a parameter list; caller-supplied values never
//! appear in the statement text.

use crate::errors::QueryError;
use crate::query::{field_name, Query, QueryExpr, QueryField, QueryOp, QueryShape, QueryValue};
use vstd::prelude::*;

verus! {

/// The canonical SELECT for the node shape.
pub const NODES_BASE_SQL: &'static str = "SELECT node.* FROM nodes node";

/// The canonical SELECT for the edge shape.
pub const EDGES_BASE_SQL: &'static str = "SELECT edge.* FROM edges edge";

/// The canonical three-way join for the node-edge shape, re-aliased to the
/// `from_node_*` / `to_node_*` / `edge_*` row naming.
pub const NODE_EDGES_BASE_SQL: &'static str =
    "SELECT from_node.id as from_node_id, from_node.uri as from_node_uri, from_node.data as from_node_data, from_node.created_at as from_node_created_at, from_node.updated_at as from_node_updated_at, to_node.id as to_node_id, to_node.uri as to_node_uri, to_node.data as to_node_data, to_node.created_at as to_node_created_at, to_node.updated_at as to_node_updated_at, edge.id as edge_id, edge.uri as edge_uri, edge.data as edge_data, edge.created_at as edge_created_at, edge.updated_at as edge_updated_at FROM edges edge JOIN nodes from_node ON from_node.id = edge.from_node_id JOIN nodes to_node ON to_node.id = edge.to_node_id";

/// The base statement of a shape.
pub open spec fn shape_base(sh: QueryShape) -> Seq<char> {
    match sh {
        QueryShape::Node => NODES_BASE_SQL@,
        QueryShape::Edge => EDGES_BASE_SQL@,
        QueryShape::NodeEdge => NODE_EDGES_BASE_SQL@,
    }
}

/// One JSON-path extraction applied to the enclosing field.
pub open spec fn extract_field(field: Seq<char>, key: Seq<char>) -> Seq<char> {
    "json_extract("@ + field + ",'$."@ + key + "')"@
}

/// The text an expression compiles to against an enclosing field. A literal
/// renders as a `?` placeholder.
pub open spec fn expr_sql(field: Seq<char>, e: QueryExpr) -> Seq<char>
    decreases e, 0int,
{
    match e {
        QueryExpr::Value(_) => "?"@,
        QueryExpr::Field(f) => field_name(f),
        QueryExpr::Op(op) => op_sql(field, op),
        QueryExpr::Data(entries) => data_sql(field, entries@),
    }
}

/// The text an operator compiles to.
pub open spec fn op_sql(field: Seq<char>, op: QueryOp) -> Seq<char>
    decreases op, 1int,
{
    match op {
        QueryOp::Eq(e) => field + " = "@ + expr_sql(field, *e),
        QueryOp::Neq(e) => field + " != "@ + expr_sql(field, *e),
        QueryOp::Gt(e) => field + " > "@ + expr_sql(field, *e),
        QueryOp::Lt(e) => field + " < "@ + expr_sql(field, *e),
        QueryOp::Gte(e) => field + " >= "@ + expr_sql(field, *e),
        QueryOp::Lte(e) => field + " <= "@ + expr_sql(field, *e),
        QueryOp::Like(e) => field + " LIKE "@ + expr_sql(field, *e),
        QueryOp::In(es) => field + " IN ("@ + list_sql(field, es@, ", "@) + ")"@,
        QueryOp::And(es) => " ("@ + list_sql(field, es@, " AND "@) + ")"@,
        QueryOp::Or(es) => " ("@ + list_sql(field, es@, " OR "@) + ")"@,
        QueryOp::Not(e) => " NOT "@ + expr_sql(field, *e),
    }
}

/// Operand texts joined by a separator.
pub open spec fn list_sql(field: Seq<char>, es: Seq<QueryExpr>, sep: Seq<char>) -> Seq<char>
    decreases es, 2int,
{
    if es.len() == 0 {
        Seq::empty()
    } else if es.len() == 1 {
        expr_sql(field, es[0])
    } else {
        list_sql(field, es.drop_last(), sep) + sep + expr_sql(field, es.last())
    }
}

/// Nested-payload entries, each against its extraction expression, joined
/// by AND.
pub open spec fn data_sql(field: Seq<char>, entries: Seq<(String, QueryExpr)>) -> Seq<char>
    decreases entries, 2int,
{
    if entries.len() == 0 {
        Seq::empty()
    } else if entries.len() == 1 {
        expr_sql(extract_field(field, entries[0].0@), entries[0].1)
    } else {
        data_sql(field, entries.drop_last()) + " AND "@ + expr_sql(
            extract_field(field, entries.last().0@),
            entries.last().1,
        )
    }
}

/// The literals an expression binds, in rendering order.
pub open spec fn expr_params(e: QueryExpr) -> Seq<QueryValue>
    decreases e, 0int,
{
    match e {
        QueryExpr::Value(v) => seq![v],
        QueryExpr::Field(_) => Seq::empty(),
        QueryExpr::Op(op) => op_params(op),
        QueryExpr::Data(entries) => data_params(entries@),
    }
}

pub open spec fn op_params(op: QueryOp) -> Seq<QueryValue>
    decreases op, 1int,
{
    match op {
        QueryOp::Eq(e) => expr_params(*e),
        QueryOp::Neq(e) => expr_params(*e),
        QueryOp::Gt(e) => expr_params(*e),
        QueryOp::Lt(e) => expr_params(*e),
        QueryOp::Gte(e) => expr_params(*e),
        QueryOp::Lte(e) => expr_params(*e),
        QueryOp::Like(e) => expr_params(*e),
        QueryOp::In(es) => list_params(es@),
        QueryOp::And(es) => list_params(es@),
        QueryOp::Or(es) => list_params(es@),
        QueryOp::Not(e) => expr_params(*e),
    }
}

pub open spec fn list_params(es: Seq<QueryExpr>) -> Seq<QueryValue>
    decreases es, 2int,
{
    if es.len() == 0 {
        Seq::empty()
    } else {
        list_params(es.drop_last()) + expr_params(es.last())
    }
}

pub open spec fn data_params(entries: Seq<(String, QueryExpr)>) -> Seq<QueryValue>
    decreases entries, 2int,
{
    if entries.len() == 0 {
        Seq::empty()
    } else {
        data_params(entries.drop_last()) + expr_params(entries.last().1)
    }
}

/// The text one mapping entry compiles to.
pub open spec fn entry_sql(p: (QueryField, QueryExpr)) -> Seq<char> {
    expr_sql(field_name(p.0), p.1)
}

/// The AND-joined condition texts of a mapping.
pub open spec fn conds_list(entries: Seq<(QueryField, QueryExpr)>) -> Seq<char>
    decreases entries,
{
    if entries.len() == 0 {
        Seq::empty()
    } else if entries.len() == 1 {
        entry_sql(entries[0])
    } else {
        conds_list(entries.drop_last()) + " AND "@ + entry_sql(entries.last())
    }
}

/// The WHERE clause of a mapping: empty for an empty mapping.
pub open spec fn conds_sql(entries: Seq<(QueryField, QueryExpr)>) -> Seq<char> {
    if entries.len() == 0 {
        Seq::empty()
    } else {
        " WHERE "@ + conds_list(entries)
    }
}

/// The literals a mapping binds, in rendering order.
pub open spec fn conds_params(entries: Seq<(QueryField, QueryExpr)>) -> Seq<QueryValue>
    decreases entries,
{
    if entries.len() == 0 {
        Seq::empty()
    } else {
        conds_params(entries.drop_last()) + expr_params(entries.last().1)
    }
}

/// The full statement a query compiles to.
pub open spec fn query_sql(q: Query) -> Seq<char> {
    shape_base(q.shape) + conds_sql(q.entries@)
}

/// The parameters a query binds.
pub open spec fn query_params(q: Query) -> Seq<QueryValue> {
    conds_params(q.entries@)
}

/// Structural depth of an expression, the compiler's recursion measure.
pub open spec fn expr_depth(e: QueryExpr) -> nat
    decreases e, 0int,
{
    match e {
        QueryExpr::Value(_) => 1,
        QueryExpr::Field(_) => 1,
        QueryExpr::Op(op) => 1 + op_depth(op),
        QueryExpr::Data(entries) => 1 + data_depth(entries@),
    }
}

pub open spec fn op_depth(op: QueryOp) -> nat
    decreases op, 1int,
{
    match op {
        QueryOp::Eq(e) => expr_depth(*e),
        QueryOp::Neq(e) => expr_depth(*e),
        QueryOp::Gt(e) => expr_depth(*e),
        QueryOp::Lt(e) => expr_depth(*e),
        QueryOp::Gte(e) => expr_depth(*e),
        QueryOp::Lte(e) => expr_depth(*e),
        QueryOp::Like(e) => expr_depth(*e),
        QueryOp::In(es) => list_depth(es@),
        QueryOp::And(es) => list_depth(es@),
        QueryOp::Or(es) => list_depth(es@),
        QueryOp::Not(e) => expr_depth(*e),
    }
}

pub open spec fn list_depth(es: Seq<QueryExpr>) -> nat
    decreases es, 2int,
{
    if es.len() == 0 {
        0
    } else {
        let d0 = expr_depth(es[0]);
        let dr = list_depth(es.drop_first());
        if d0 >= dr {
            d0
        } else {
            dr
        }
    }
}

pub open spec fn data_depth(entries: Seq<(String, QueryExpr)>) -> nat
    decreases entries, 2int,
{
    if entries.len() == 0 {
        0
    } else {
        let d0 = expr_depth(entries[0].1);
        let dr = data_depth(entries.drop_first());
        if d0 >= dr {
            d0
        } else {
            dr
        }
    }
}

pub(crate) proof fn lemma_list_depth(es: Seq<QueryExpr>)
    ensures
        forall|i: int| 0 <= i < es.len() ==> expr_depth(#[trigger] es[i]) <= list_depth(es),
    decreases es,
{
    if es.len() > 0 {
        lemma_list_depth(es.drop_first());
        assert forall|i: int|
            0 <= i < es.len() implies expr_depth(#[trigger] es[i]) <= list_depth(es) by {
            if i > 0 {
                assert(es[i] == es.drop_first()[i - 1]);
                assert(expr_depth(es.drop_first()[i - 1]) <= list_depth(es.drop_first()));
            }
        }
    }
}

pub(crate) proof fn lemma_data_depth(entries: Seq<(String, QueryExpr)>)
    ensures
        forall|i: int|
            0 <= i < entries.len() ==> expr_depth((#[trigger] entries[i]).1) <= data_depth(
                entries,
            ),
    decreases entries,
{
    if entries.len() > 0 {
        lemma_data_depth(entries.drop_first());
        assert forall|i: int|
            0 <= i < entries.len() implies expr_depth((#[trigger] entries[i]).1) <= data_depth(
            entries,
        ) by {
            if i > 0 {
                assert(entries[i] == entries.drop_first()[i - 1]);
                assert(expr_depth(entries.drop_first()[i - 1].1) <= data_depth(
                    entries.drop_first(),
                ));
            }
        }
    }
}

/// Append the compiled text of `e` and collect its parameters.
fn compile_expr(field: &str, e: &QueryExpr, out: &mut String, params: &mut Vec<QueryValue>)
    ensures
        final(out)@ == old(out)@ + expr_sql(field@, *e),
        final(params)@ == old(params)@ + expr_params(*e),
    decreases expr_depth(*e), 0int,
{
    match e {
        QueryExpr::Value(v) => {
            out.append("?");
            params.push(v.duplicate());
            proof {
                assert(params@ =~= old(params)@ + expr_params(*e));
            }
        },
        QueryExpr::Field(f) => {
            out.append(f.name());
            proof {
                assert(params@ =~= old(params)@ + expr_params(*e));
            }
        },
        QueryExpr::Op(op) => {
            match op {
                QueryOp::Eq(sub) => {
                    out.append(field);
                    out.append(" = ");
                    compile_expr(field, &**sub, out, params);
                },
                QueryOp::Neq(sub) => {
                    out.append(field);
                    out.append(" != ");
                    compile_expr(field, &**sub, out, params);
                },
                QueryOp::Gt(sub) => {
                    out.append(field);
                    out.append(" > ");
                    compile_expr(field, &**sub, out, params);
                },
                QueryOp::Lt(sub) => {
                    out.append(field);
                    out.append(" < ");
                    compile_expr(field, &**sub, out, params);
                },
                QueryOp::Gte(sub) => {
                    out.append(field);
                    out.append(" >= ");
                    compile_expr(field, &**sub, out, params);
                },
                QueryOp::Lte(sub) => {
                    out.append(field);
                    out.append(" <= ");
                    compile_expr(field, &**sub, out, params);
                },
                QueryOp::Like(sub) => {
                    out.append(field);
                    out.append(" LIKE ");
                    compile_expr(field, &**sub, out, params);
                },
                QueryOp::In(es) => {
                    out.append(field);
                    out.append(" IN (");
                    proof {
                        assert(expr_depth(*e) == 1 + list_depth(es@));
                    }
                    compile_list(field, es, ", ", out, params);
                    out.append(")");
                },
                QueryOp::And(es) => {
                    out.append(" (");
                    proof {
                        assert(expr_depth(*e) == 1 + list_depth(es@));
                    }
                    compile_list(field, es, " AND ", out, params);
                    out.append(")");
                },
                QueryOp::Or(es) => {
                    out.append(" (");
                    proof {
                        assert(expr_depth(*e) == 1 + list_depth(es@));
                    }
                    compile_list(field, es, " OR ", out, params);
                    out.append(")");
                },
                QueryOp::Not(sub) => {
                    out.append(" NOT ");
                    compile_expr(field, &**sub, out, params);
                },
            }
        },
        QueryExpr::Data(entries) => {
            proof {
                assert(expr_depth(*e) == 1 + data_depth(entries@));
            }
            compile_data(field, entries, out, params);
        },
    }
}

/// Append operand texts joined by `sep` and collect their parameters.
fn compile_list(
    field: &str,
    es: &Vec<QueryExpr>,
    sep: &str,
    out: &mut String,
    params: &mut Vec<QueryValue>,
)
    ensures
        final(out)@ == old(out)@ + list_sql(field@, es@, sep@),
        final(params)@ == old(params)@ + list_params(es@),
    decreases list_depth(es@), 1int,
{
    let ghost start = out@;
    let ghost pstart = params@;
    let n = es.len();
    let mut i: usize = 0;
    proof {
        assert(es@.subrange(0, 0) =~= Seq::<QueryExpr>::empty());
    }
    while i < n
        invariant
            n == es@.len(),
            i <= n,
            out@ == start + list_sql(field@, es@.subrange(0, i as int), sep@),
            params@ == pstart + list_params(es@.subrange(0, i as int)),
        decreases n - i,
    {
        if i > 0 {
            out.append(sep);
        }
        proof {
            lemma_list_depth(es@);
        }
        let ghost out_prev = out@;
        let ghost params_prev = params@;
        compile_expr(field, &es[i], out, params);
        proof {
            let pre = es@.subrange(0, i as int);
            let post = es@.subrange(0, i + 1);
            assert(post.drop_last() =~= pre);
            assert(post.last() == es@[i as int]);
            if i == 0 {
                assert(post[0] == es@[0]);
                assert(list_sql(field@, post, sep@) == expr_sql(field@, es@[0]));
                assert(out@ =~= start + list_sql(field@, post, sep@));
            } else {
                assert(post.len() >= 2);
                assert(list_sql(field@, post, sep@) == list_sql(field@, pre, sep@) + sep@
                    + expr_sql(field@, es@[i as int]));
                assert(out@ =~= start + list_sql(field@, post, sep@));
            }
            assert(list_params(post) == list_params(pre) + expr_params(es@[i as int]));
            assert(params@ =~= pstart + list_params(post));
        }
        i += 1;
    }
    proof {
        assert(es@.subrange(0, n as int) =~= es@);
    }
}

/// Append nested-payload entries joined by AND and collect their
/// parameters. Each entry's key composes one more JSON-path extraction onto
/// the enclosing field.
fn compile_data(
    field: &str,
    entries: &Vec<(String, QueryExpr)>,
    out: &mut String,
    params: &mut Vec<QueryValue>,
)
    ensures
        final(out)@ == old(out)@ + data_sql(field@, entries@),
        final(params)@ == old(params)@ + data_params(entries@),
    decreases data_depth(entries@), 1int,
{
    let ghost start = out@;
    let ghost pstart = params@;
    let n = entries.len();
    let mut i: usize = 0;
    proof {
        assert(entries@.subrange(0, 0) =~= Seq::<(String, QueryExpr)>::empty());
    }
    while i < n
        invariant
            n == entries@.len(),
            i <= n,
            out@ == start + data_sql(field@, entries@.subrange(0, i as int)),
            params@ == pstart + data_params(entries@.subrange(0, i as int)),
        decreases n - i,
    {
        if i > 0 {
            out.append(" AND ");
        }
        let entry = &entries[i];
        let mut ef = String::from_str("json_extract(");
        ef.append(field);
        ef.append(",'$.");
        ef.append(entry.0.as_str());
        ef.append("')");
        proof {
            assert(ef@ =~= extract_field(field@, entries@[i as int].0@));
            lemma_data_depth(entries@);
        }
        compile_expr(ef.as_str(), &entry.1, out, params);
        proof {
            let pre = entries@.subrange(0, i as int);
            let post = entries@.subrange(0, i + 1);
            assert(post.drop_last() =~= pre);
            assert(post.last() == entries@[i as int]);
            if i == 0 {
                assert(post[0] == entries@[0]);
                assert(data_sql(field@, post) == expr_sql(
                    extract_field(field@, entries@[0].0@),
                    entries@[0].1,
                ));
                assert(out@ =~= start + data_sql(field@, post));
            } else {
                assert(post.len() >= 2);
                assert(data_sql(field@, post) == data_sql(field@, pre) + " AND "@ + expr_sql(
                    extract_field(field@, entries@[i as int].0@),
                    entries@[i as int].1,
                ));
                assert(out@ =~= start + data_sql(field@, post));
            }
            assert(data_params(post) == data_params(pre) + expr_params(entries@[i as int].1));
            assert(params@ =~= pstart + data_params(post));
        }
        i += 1;
    }
    proof {
        assert(entries@.subrange(0, n as int) =~= entries@);
    }
}

/// Append the mapping's WHERE clause to `base` and collect the bound
/// parameters: nothing for an empty mapping, else ` WHERE ` and the
/// AND-joined entry conditions.
pub fn query_condition_builder(base: &str, entries: &Vec<(QueryField, QueryExpr)>) -> (r: (
    String,
    Vec<QueryValue>,
))
    ensures
        r.0@ == base@ + conds_sql(entries@),
        r.1@ == conds_params(entries@),
{
    let mut out = String::from_str(base);
    let mut params: Vec<QueryValue> = Vec::new();
    let n = entries.len();
    let mut i: usize = 0;
    proof {
        assert(entries@.subrange(0, 0) =~= Seq::<(QueryField, QueryExpr)>::empty());
        assert(out@ =~= base@ + conds_sql(entries@.subrange(0, 0)));
    }
    while i < n
        invariant
            n == entries@.len(),
            i <= n,
            out@ == base@ + conds_sql(entries@.subrange(0, i as int)),
            params@ == conds_params(entries@.subrange(0, i as int)),
        decreases n - i,
    {
        if i == 0 {
            out.append(" WHERE ");
        } else {
            out.append(" AND ");
        }
        let entry = &entries[i];
        let fname = entry.0.name();
        compile_expr(fname, &entry.1, &mut out, &mut params);
        proof {
            let pre = entries@.subrange(0, i as int);
            let post = entries@.subrange(0, i + 1);
            assert(post.drop_last() =~= pre);
            assert(post.last() == entries@[i as int]);
            if i == 0 {
                assert(post[0] == entries@[0]);
                assert(conds_list(post) == entry_sql(entries@[0]));
                assert(out@ =~= base@ + conds_sql(post));
            } else {
                assert(post.len() >= 2);
                assert(conds_list(post) == conds_list(pre) + " AND "@ + entry_sql(
                    entries@[i as int],
                ));
                assert(out@ =~= base@ + conds_sql(post));
            }
            assert(conds_params(post) == conds_params(pre) + expr_params(entries@[i as int].1));
            assert(params@ =~= conds_params(post));
        }
        i += 1;
    }
    proof {
        assert(entries@.subrange(0, n as int) =~= entries@);
    }
    (out, params)
}

/// Compile a query: the canonical base statement of its shape, then the
/// WHERE clause of its mapping; the bound parameters come alongside.
pub fn query_builder(query: &Query) -> (r: (String, Vec<QueryValue>))
    ensures
        r.0@ == query_sql(*query),
        r.1@ == query_params(*query),
{
    match query.shape {
        QueryShape::Node => query_condition_builder(NODES_BASE_SQL, &query.entries),
        QueryShape::Edge => query_condition_builder(EDGES_BASE_SQL, &query.entries),
        QueryShape::NodeEdge => query_condition_builder(NODE_EDGES_BASE_SQL, &query.entries),
    }
}

impl Query {
    /// The condition fragment alone: empty text for an empty mapping, else
    /// ` WHERE ` and the AND-joined entry conditions.
    pub fn sql(&self) -> (r: String)
        ensures
            r@ == conds_sql(self.entries@),
    {
        let (text, _) = query_condition_builder("", &self.entries);
        proof {
            reveal_strlit("");
            assert(""@ + conds_sql(self.entries@) =~= conds_sql(self.entries@));
        }
        text
    }

    /// The parameters the condition fragment binds, in rendering order.
    pub fn params(&self) -> (r: Vec<QueryValue>)
        ensures
            r@ == conds_params(self.entries@),
    {
        let (_, params) = query_condition_builder("", &self.entries);
        params
    }

    /// The node-shaped statement, if this query has the node shape.
    pub fn nodes_sql(&self) -> (r: Result<String, QueryError>)
        ensures
            r is Ok <==> self.shape == QueryShape::Node,
            r matches Ok(s) ==> s@ == NODES_BASE_SQL@ + conds_sql(self.entries@),
            r matches Err(e) ==> e == QueryError::InvalidQueryType,
    {
        if self.shape == QueryShape::Node {
            let (text, _) = query_condition_builder(NODES_BASE_SQL, &self.entries);
            Ok(text)
        } else {
            Err(QueryError::InvalidQueryType)
        }
    }

    /// The edge-shaped statement, if this query has the edge shape.
    pub fn edges_sql(&self) -> (r: Result<String, QueryError>)
        ensures
            r is Ok <==> self.shape == QueryShape::Edge,
            r matches Ok(s) ==> s@ == EDGES_BASE_SQL@ + conds_sql(self.entries@),
            r matches Err(e) ==> e == QueryError::InvalidQueryType,
    {
        if self.shape == QueryShape::Edge {
            let (text, _) = query_condition_builder(EDGES_BASE_SQL, &self.entries);
            Ok(text)
        } else {
            Err(QueryError::InvalidQueryType)
        }
    }

    /// The node-edge join statement, if this query has the node-edge shape.
    pub fn node_edges_sql(&self) -> (r: Result<String, QueryError>)
        ensures
            r is Ok <==> self.shape == QueryShape::NodeEdge,
            r matches Ok(s) ==> s@ == NODE_EDGES_BASE_SQL@ + conds_sql(self.entries@),
            r matches Err(e) ==> e == QueryError::InvalidQueryType,
    {
        if self.shape == QueryShape::NodeEdge {
            let (text, _) = query_condition_builder(NODE_EDGES_BASE_SQL, &self.entries);
            Ok(text)
        } else {
            Err(QueryError::InvalidQueryType)
        }
    }
}

/// A query with an empty mapping compiles to its shape's base statement
/// alone: no WHERE clause, no parameters, so it selects all rows of that
/// shape.
pub proof fn lemma_empty_query(q: Query)
    requires
        q.entries@.len() == 0,
    ensures
        query_sql(q) == shape_base(q.shape),
        query_params(q) == Seq::<QueryValue>::empty(),
{
    assert(shape_base(q.shape) + conds_sql(q.entries@) =~= shape_base(q.shape));
}

/// `e` is a single-key nested-payload chain through `keys` ending in
/// `inner`.
pub open spec fn is_chain(e: QueryExpr, keys: Seq<String>, inner: QueryExpr) -> bool
    decreases keys.len(),
{
    if keys.len() == 0 {
        e == inner
    } else {
        match e {
            QueryExpr::Data(entries) => {
                &&& entries@.len() == 1
                &&& entries@[0].0 == keys[0]
                &&& is_chain(entries@[0].1, keys.drop_first(), inner)
            },
            _ => false,
        }
    }
}

/// `keys.len()` JSON-path extractions composed onto `field`, innermost
/// first.
pub open spec fn extract_chain(field: Seq<char>, keys: Seq<String>) -> Seq<char>
    decreases keys.len(),
{
    if keys.len() == 0 {
        field
    } else {
        extract_chain(extract_field(field, keys[0]@), keys.drop_first())
    }
}

/// Nesting depth compiles to repeated extraction: a single-key payload
/// chain through N keys compiles exactly as its innermost expression does
/// against N composed JSON-path extractions of the enclosing field.
pub proof fn lemma_data_nesting(field: Seq<char>, e: QueryExpr, keys: Seq<String>, inner: QueryExpr)
    requires
        is_chain(e, keys, inner),
    ensures
        expr_sql(field, e) == expr_sql(extract_chain(field, keys), inner),
    decreases keys.len(),
{
    if keys.len() > 0 {
        match e {
            QueryExpr::Data(entries) => {
                assert(expr_sql(field, e) == data_sql(field, entries@));
                assert(data_sql(field, entries@) == expr_sql(
                    extract_field(field, entries@[0].0@),
                    entries@[0].1,
                ));
                lemma_data_nesting(
                    extract_field(field, keys[0]@),
                    entries@[0].1,
                    keys.drop_first(),
                    inner,
                );
            },
            _ => {},
        }
    }
}

/// The total length of the operand texts of a list.
pub open spec fn list_texts_len(field: Seq<char>, es: Seq<QueryExpr>) -> nat
    decreases es,
{
    if es.len() == 0 {
        0
    } else {
        list_texts_len(field, es.drop_last()) + expr_sql(field, es.last()).len()
    }
}

proof fn lemma_list_sql_len(field: Seq<char>, es: Seq<QueryExpr>, sep: Seq<char>)
    requires
        es.len() >= 1,
    ensures
        list_sql(field, es, sep).len() == list_texts_len(field, es) + (es.len() - 1) * sep.len(),
    decreases es,
{
    if es.len() == 1 {
        assert(list_texts_len(field, es) == list_texts_len(field, es.drop_last()) + expr_sql(
            field,
            es.last(),
        ).len());
        assert(list_texts_len(field, es.drop_last()) == 0);
    } else {
        lemma_list_sql_len(field, es.drop_last(), sep);
        assert((es.len() - 1) * sep.len() == (es.drop_last().len() - 1) * sep.len()
            + sep.len()) by (nonlinear_arith)
            requires
                es.len() >= 2,
                es.drop_last().len() == es.len() - 1,
        ;
    }
}

/// A boolean combinator compiles to a parenthesized list of its operand
/// texts joined by the connective: with k operands the list carries exactly
/// k − 1 connectives, so its length is the operands' lengths plus k − 1
/// times the connective's.
pub proof fn lemma_and_compiles_to_joined_list(field: Seq<char>, es: Vec<QueryExpr>)
    requires
        es@.len() >= 1,
    ensures
        op_sql(field, QueryOp::And(es)) == " ("@ + list_sql(field, es@, " AND "@) + ")"@,
        list_sql(field, es@, " AND "@).len() == list_texts_len(field, es@) + (es@.len() - 1) * " AND "@.len(),
{
    lemma_list_sql_len(field, es@, " AND "@);
}

/// The same shape for OR: a parenthesized list with k − 1 connectives.
pub proof fn lemma_or_compiles_to_joined_list(field: Seq<char>, es: Vec<QueryExpr>)
    requires
        es@.len() >= 1,
    ensures
        op_sql(field, QueryOp::Or(es)) == " ("@ + list_sql(field, es@, " OR "@) + ")"@,
        list_sql(field, es@, " OR "@).len() == list_texts_len(field, es@) + (es@.len() - 1) * " OR "@.len(),
{
    lemma_list_sql_len(field, es@, " OR "@);
}

} // verus!
