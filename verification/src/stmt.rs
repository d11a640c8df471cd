//! Statements for the per-entity writes, and the verified planning of each
//! write: what text goes to the store and what values are bound. The store
//! executes them and hands rows back; row assembly lives in the model.

use crate::compile::NODE_EDGES_BASE_SQL;
use crate::encode::{encode, spec_encode};
use crate::model::Node;
use crate::numbers::{i64_to_string, int_chars};
use crate::value::JsonValue;
use vstd::prelude::*;

verus! {

pub const CREATE_NODE_SQL: &'static str =
    "INSERT INTO nodes (uri, data) VALUES ($1, $2) RETURNING *;";

pub const DELETE_NODE_SQL: &'static str = "DELETE FROM nodes WHERE id = $1 RETURNING *;";

pub const DELETE_NODES_BY_URI_SQL: &'static str = "DELETE FROM nodes WHERE uri = $1 RETURNING *;";

pub const UPDATE_NODE_SQL: &'static str =
    "UPDATE nodes SET data = $1, updated_at = unixepoch() WHERE id = $2 RETURNING *;";

pub const CREATE_EDGE_SQL: &'static str =
    "INSERT INTO edges (from_node_id, to_node_id, uri, data) VALUES ($1, $2, $3, $4) RETURNING *;";

pub const DELETE_EDGE_SQL: &'static str = "DELETE FROM edges WHERE id = $1 RETURNING *;";

pub const DELETE_EDGES_BY_URI_SQL: &'static str = "DELETE FROM edges WHERE uri = $1 RETURNING *;";

pub const UPDATE_EDGE_SQL: &'static str =
    "UPDATE edges SET data = $1, updated_at = unixepoch() WHERE id = $2 RETURNING *;";

/// The comma-joined decimal texts of an id list.
pub open spec fn ids_list(ids: Seq<i64>) -> Seq<char>
    decreases ids,
{
    if ids.len() == 0 {
        Seq::empty()
    } else if ids.len() == 1 {
        int_chars(ids[0] as int)
    } else {
        ids_list(ids.drop_last()) + ","@ + int_chars(ids.last() as int)
    }
}

/// The comma-joined decimal texts of the given ids.
fn ids_join(ids: &Vec<i64>) -> (s: String)
    ensures
        s@ == ids_list(ids@),
{
    let mut out = String::new();
    let n = ids.len();
    let mut i: usize = 0;
    proof {
        assert(ids@.subrange(0, 0) =~= Seq::<i64>::empty());
    }
    while i < n
        invariant
            n == ids@.len(),
            i <= n,
            out@ == ids_list(ids@.subrange(0, i as int)),
        decreases n - i,
    {
        if i > 0 {
            out.append(",");
        }
        let t = i64_to_string(ids[i]);
        out.append(t.as_str());
        proof {
            let pre = ids@.subrange(0, i as int);
            let post = ids@.subrange(0, i + 1);
            assert(post.drop_last() =~= pre);
            assert(post.last() == ids@[i as int]);
            if i == 0 {
                assert(post[0] == ids@[0]);
                assert(ids_list(post) == int_chars(ids@[0] as int));
                assert(out@ =~= ids_list(post));
            } else {
                assert(post.len() >= 2);
                assert(ids_list(post) == ids_list(pre) + ","@ + int_chars(ids@[i as int] as int));
                assert(out@ =~= ids_list(post));
            }
        }
        i += 1;
    }
    proof {
        assert(ids@.subrange(0, n as int) =~= ids@);
    }
    out
}

/// The batch-delete statement for exactly the given node ids: ids absent
/// from the store simply match no row, so they are no error and appear in
/// no returned row.
pub fn delete_nodes_sql(ids: &Vec<i64>) -> (s: String)
    ensures
        s@ == "DELETE FROM nodes WHERE id in ("@ + ids_list(ids@) + ") RETURNING *;"@,
{
    let mut out = String::from_str("DELETE FROM nodes WHERE id in (");
    let joined = ids_join(ids);
    out.append(joined.as_str());
    out.append(") RETURNING *;");
    out
}

/// The batch-delete statement for exactly the given edge ids.
pub fn delete_edges_sql(ids: &Vec<i64>) -> (s: String)
    ensures
        s@ == "DELETE FROM edges WHERE id in ("@ + ids_list(ids@) + ") RETURNING *;"@,
{
    let mut out = String::from_str("DELETE FROM edges WHERE id in (");
    let joined = ids_join(ids);
    out.append(joined.as_str());
    out.append(") RETURNING *;");
    out
}

/// What a node insert binds: the label and the encoded payload text.
#[derive(Debug)]
pub struct NodeInsert {
    pub uri: String,
    pub data_json: String,
}

/// What an edge insert binds: the two endpoint ids, the label, and the
/// encoded payload text if there is a payload.
#[derive(Debug)]
pub struct EdgeInsert {
    pub from_node_id: i64,
    pub to_node_id: i64,
    pub uri: String,
    pub data_json: Option<String>,
}

/// Plan a node insert: encode the payload and carry the label through.
pub fn plan_create_node(uri: &str, data: &JsonValue) -> (p: NodeInsert)
    ensures
        p.uri@ == uri@,
        p.data_json@ == spec_encode(data@),
{
    NodeInsert { uri: String::from_str(uri), data_json: encode(data) }
}

/// Plan an edge insert by endpoint ids; the optional payload is encoded if
/// present.
pub fn plan_create_edge_with_ids(
    from_node_id: i64,
    to_node_id: i64,
    uri: &str,
    data: &Option<JsonValue>,
) -> (p: EdgeInsert)
    ensures
        p.from_node_id == from_node_id,
        p.to_node_id == to_node_id,
        p.uri@ == uri@,
        data is None ==> p.data_json is None,
        data matches Some(v) ==> p.data_json matches Some(t) && t@ == spec_encode(v@),
{
    let data_json = match data {
        Some(v) => Some(encode(v)),
        None => None,
    };
    EdgeInsert {
        from_node_id,
        to_node_id,
        uri: String::from_str(uri),
        data_json,
    }
}

/// Plan an edge insert between two nodes: the planned endpoint ids are
/// exactly the two nodes' assigned ids.
pub fn plan_create_edge(from_node: &Node, to_node: &Node, uri: &str, data: &Option<JsonValue>) -> (p:
    EdgeInsert)
    ensures
        p.from_node_id == from_node.id,
        p.to_node_id == to_node.id,
        p.uri@ == uri@,
        data is None ==> p.data_json is None,
        data matches Some(v) ==> p.data_json matches Some(t) && t@ == spec_encode(v@),
{
    plan_create_edge_with_ids(from_node.id, to_node.id, uri, data)
}

/// Plan a payload update: the encoded replacement text.
pub fn plan_update(data: &JsonValue) -> (t: String)
    ensures
        t@ == spec_encode(data@),
{
    encode(data)
}

/// The join filtered to edges that touch one node at either end. The
/// predicate algebra binds a boolean combinator's operands to one field,
/// so this cross-field OR is fixed statement text.
pub fn related_by_node_id_sql() -> (s: String)
    ensures
        s@ == NODE_EDGES_BASE_SQL@ + " WHERE from_node.id = $1 OR to_node.id = $1"@,
{
    let mut out = String::from_str(NODE_EDGES_BASE_SQL);
    out.append(" WHERE from_node.id = $1 OR to_node.id = $1");
    out
}

/// The same either-end filter, further restricted to one edge label.
pub fn related_by_node_id_and_edge_uri_sql() -> (s: String)
    ensures
        s@ == NODE_EDGES_BASE_SQL@
            + " WHERE (from_node.id = $1 OR to_node.id = $1) AND edge.uri = $2"@,
{
    let mut out = String::from_str(NODE_EDGES_BASE_SQL);
    out.append(" WHERE (from_node.id = $1 OR to_node.id = $1) AND edge.uri = $2");
    out
}

} // verus!
