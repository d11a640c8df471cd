//! The entity model: nodes, edges, and the derived node-edge aggregate,
//! with the verified assembly of each from its stored row.

use crate::decode::{decode, spec_decode_err, spec_parse};
use crate::errors::DecodeError;
use crate::rows::{EdgeRow, NodeEdgeRow, NodeRow};
use crate::value::JsonValue;
use vstd::prelude::*;

verus! {

/// A labeled entity with a structured payload. Timestamps are epoch
/// seconds, as stored.
#[derive(Debug, PartialEq)]
pub struct Node {
    pub id: i64,
    pub uri: String,
    pub data: JsonValue,
    pub updated_at: i64,
    pub created_at: i64,
}

/// A labeled, directed relationship between two nodes, with an optional
/// structured payload.
#[derive(Debug, PartialEq)]
pub struct Edge {
    pub id: i64,
    pub from_node_id: i64,
    pub to_node_id: i64,
    pub uri: String,
    pub data: Option<JsonValue>,
    pub updated_at: i64,
    pub created_at: i64,
}

/// A read-only join of an edge and its two endpoint nodes; produced only
/// by queries, never persisted.
#[derive(Debug, PartialEq)]
pub struct NodeEdge {
    pub from_node: Node,
    pub to_node: Node,
    pub edge: Edge,
}

/// The stored payload of a node row decodes.
pub open spec fn node_row_decodes(row: NodeRow) -> bool {
    spec_parse(row.data@) is Some
}

/// The decode error a node row reports; meaningful only when its payload
/// fails.
pub open spec fn node_row_err(row: NodeRow) -> DecodeError
    recommends
        !node_row_decodes(row),
{
    spec_decode_err(row.data@)
}

/// `n` is the faithful assembly of `row`.
pub open spec fn node_of_row(n: Node, row: NodeRow) -> bool {
    &&& n.id == row.id
    &&& n.uri@ == row.uri@
    &&& Some(n.data@) == spec_parse(row.data@)
    &&& n.updated_at == row.updated_at
    &&& n.created_at == row.created_at
}

/// The stored payload of an edge row decodes, if there is one.
pub open spec fn edge_row_decodes(row: EdgeRow) -> bool {
    row.data matches Some(t) ==> spec_parse(t@) is Some
}

/// The decode error an edge row reports; meaningful only when its payload
/// fails.
pub open spec fn edge_row_err(row: EdgeRow) -> DecodeError
    recommends
        !edge_row_decodes(row),
{
    match row.data {
        Some(t) => spec_decode_err(t@),
        None => DecodeError::UnexpectedEnd,
    }
}

/// `e` is the faithful assembly of `row`.
pub open spec fn edge_of_row(e: Edge, row: EdgeRow) -> bool {
    &&& e.id == row.id
    &&& e.from_node_id == row.from_node_id
    &&& e.to_node_id == row.to_node_id
    &&& e.uri@ == row.uri@
    &&& (row.data is None ==> e.data is None)
    &&& (row.data matches Some(t) ==> e.data matches Some(v) && Some(v@) == spec_parse(t@))
    &&& e.updated_at == row.updated_at
    &&& e.created_at == row.created_at
}

/// All three stored payloads of a join row decode.
pub open spec fn node_edge_row_decodes(row: NodeEdgeRow) -> bool {
    &&& spec_parse(row.from_node_data@) is Some
    &&& spec_parse(row.to_node_data@) is Some
    &&& (row.edge_data matches Some(t) ==> spec_parse(t@) is Some)
}

/// The first decode error among a join row's payloads, in assembly order;
/// meaningful only when some payload fails.
pub open spec fn node_edge_row_err(row: NodeEdgeRow) -> DecodeError
    recommends
        !node_edge_row_decodes(row),
{
    if spec_parse(row.from_node_data@) is None {
        spec_decode_err(row.from_node_data@)
    } else if spec_parse(row.to_node_data@) is None {
        spec_decode_err(row.to_node_data@)
    } else {
        match row.edge_data {
            Some(t) => spec_decode_err(t@),
            None => DecodeError::UnexpectedEnd,
        }
    }
}

/// `ne` is the faithful assembly of `row`: both endpoint nodes, and the
/// edge carrying exactly the row's endpoint ids.
pub open spec fn node_edge_of_row(ne: NodeEdge, row: NodeEdgeRow) -> bool {
    &&& ne.from_node.id == row.from_node_id
    &&& ne.from_node.uri@ == row.from_node_uri@
    &&& Some(ne.from_node.data@) == spec_parse(row.from_node_data@)
    &&& ne.from_node.updated_at == row.from_node_updated_at
    &&& ne.from_node.created_at == row.from_node_created_at
    &&& ne.to_node.id == row.to_node_id
    &&& ne.to_node.uri@ == row.to_node_uri@
    &&& Some(ne.to_node.data@) == spec_parse(row.to_node_data@)
    &&& ne.to_node.updated_at == row.to_node_updated_at
    &&& ne.to_node.created_at == row.to_node_created_at
    &&& ne.edge.id == row.edge_id
    &&& ne.edge.from_node_id == row.from_node_id
    &&& ne.edge.to_node_id == row.to_node_id
    &&& ne.edge.uri@ == row.edge_uri@
    &&& (row.edge_data is None ==> ne.edge.data is None)
    &&& (row.edge_data matches Some(t) ==> ne.edge.data matches Some(v) && Some(v@) == spec_parse(
        t@,
    ))
    &&& ne.edge.updated_at == row.edge_updated_at
    &&& ne.edge.created_at == row.edge_created_at
}

impl Node {
    /// Assemble a node from its stored row, decoding the payload; a
    /// payload that does not decode fails the whole assembly.
    pub fn from_row(row: &NodeRow) -> (r: Result<Node, DecodeError>)
        ensures
            r is Ok <==> node_row_decodes(*row),
            r matches Ok(n) ==> node_of_row(n, *row),
            r matches Err(e) ==> e == node_row_err(*row),
    {
        match decode(row.data.as_str()) {
            Ok(v) => Ok(
                Node {
                    id: row.id,
                    uri: row.uri.clone(),
                    data: v,
                    updated_at: row.updated_at,
                    created_at: row.created_at,
                },
            ),
            Err(e) => Err(e),
        }
    }

    /// Assemble a node from the row a write returned, keeping the payload
    /// value that was written rather than re-decoding its text.
    pub fn with_data(row: &NodeRow, data: JsonValue) -> (n: Node)
        ensures
            n.id == row.id,
            n.uri@ == row.uri@,
            n.data == data,
            n.updated_at == row.updated_at,
            n.created_at == row.created_at,
    {
        Node {
            id: row.id,
            uri: row.uri.clone(),
            data,
            updated_at: row.updated_at,
            created_at: row.created_at,
        }
    }
}

impl Edge {
    /// Assemble an edge from its stored row, decoding the payload if one
    /// is stored.
    pub fn from_row(row: &EdgeRow) -> (r: Result<Edge, DecodeError>)
        ensures
            r is Ok <==> edge_row_decodes(*row),
            r matches Ok(e) ==> edge_of_row(e, *row),
            r matches Err(er) ==> er == edge_row_err(*row),
    {
        let data = match &row.data {
            Some(text) => {
                match decode(text.as_str()) {
                    Ok(v) => Some(v),
                    Err(e) => {
                        return Err(e);
                    },
                }
            },
            None => None,
        };
        Ok(
            Edge {
                id: row.id,
                from_node_id: row.from_node_id,
                to_node_id: row.to_node_id,
                uri: row.uri.clone(),
                data,
                updated_at: row.updated_at,
                created_at: row.created_at,
            },
        )
    }

    /// Assemble an edge from the row a write returned, keeping the payload
    /// value that was written. The endpoint ids are exactly the row's.
    pub fn with_data(row: &EdgeRow, data: Option<JsonValue>) -> (e: Edge)
        ensures
            e.id == row.id,
            e.from_node_id == row.from_node_id,
            e.to_node_id == row.to_node_id,
            e.uri@ == row.uri@,
            e.data == data,
            e.updated_at == row.updated_at,
            e.created_at == row.created_at,
    {
        Edge {
            id: row.id,
            from_node_id: row.from_node_id,
            to_node_id: row.to_node_id,
            uri: row.uri.clone(),
            data,
            updated_at: row.updated_at,
            created_at: row.created_at,
        }
    }
}

impl NodeEdge {
    /// Assemble the join aggregate from one join row: two independently
    /// decoded node payloads and one optional edge payload; any failure
    /// fails the whole row.
    pub fn from_row(row: &NodeEdgeRow) -> (r: Result<NodeEdge, DecodeError>)
        ensures
            r is Ok <==> node_edge_row_decodes(*row),
            r matches Ok(ne) ==> node_edge_of_row(ne, *row),
            r matches Err(e) ==> e == node_edge_row_err(*row),
    {
        let from_data = match decode(row.from_node_data.as_str()) {
            Ok(v) => v,
            Err(e) => {
                return Err(e);
            },
        };
        let to_data = match decode(row.to_node_data.as_str()) {
            Ok(v) => v,
            Err(e) => {
                return Err(e);
            },
        };
        let edge_data = match &row.edge_data {
            Some(text) => {
                match decode(text.as_str()) {
                    Ok(v) => Some(v),
                    Err(e) => {
                        return Err(e);
                    },
                }
            },
            None => None,
        };
        Ok(
            NodeEdge {
                from_node: Node {
                    id: row.from_node_id,
                    uri: row.from_node_uri.clone(),
                    data: from_data,
                    updated_at: row.from_node_updated_at,
                    created_at: row.from_node_created_at,
                },
                to_node: Node {
                    id: row.to_node_id,
                    uri: row.to_node_uri.clone(),
                    data: to_data,
                    updated_at: row.to_node_updated_at,
                    created_at: row.to_node_created_at,
                },
                edge: Edge {
                    id: row.edge_id,
                    from_node_id: row.from_node_id,
                    to_node_id: row.to_node_id,
                    uri: row.edge_uri.clone(),
                    data: edge_data,
                    updated_at: row.edge_updated_at,
                    created_at: row.edge_created_at,
                },
            },
        )
    }
}

/// Assemble every node row, in order; the first payload that does not
/// decode fails the batch.
pub fn nodes_from_rows(rows: &Vec<NodeRow>) -> (r: Result<Vec<Node>, DecodeError>)
    ensures
        r is Ok <==> (forall|i: int| 0 <= i < rows@.len() ==> node_row_decodes(#[trigger] rows@[i])),
        r matches Ok(v) ==> v@.len() == rows@.len() && (forall|i: int|
            0 <= i < rows@.len() ==> node_of_row(#[trigger] v@[i], rows@[i])),
        r matches Err(e) ==> exists|k: int|
            {
                &&& 0 <= k < rows@.len()
                &&& !node_row_decodes(#[trigger] rows@[k])
                &&& (forall|j: int| 0 <= j < k ==> node_row_decodes(#[trigger] rows@[j]))
                &&& e == node_row_err(rows@[k])
            },
{
    let mut out: Vec<Node> = Vec::new();
    let n = rows.len();
    let mut i: usize = 0;
    while i < n
        invariant
            n == rows@.len(),
            i <= n,
            out@.len() == i,
            forall|j: int| 0 <= j < i ==> node_row_decodes(#[trigger] rows@[j]),
            forall|j: int| 0 <= j < i ==> node_of_row(#[trigger] out@[j], rows@[j]),
        decreases n - i,
    {
        match Node::from_row(&rows[i]) {
            Ok(node) => {
                out.push(node);
            },
            Err(e) => {
                proof {
                    assert(!node_row_decodes(rows@[i as int]) && e == node_row_err(
                        rows@[i as int],
                    ));
                }
                return Err(e);
            },
        }
        i += 1;
    }
    Ok(out)
}

/// Assemble every edge row, in order; the first payload that does not
/// decode fails the batch.
pub fn edges_from_rows(rows: &Vec<EdgeRow>) -> (r: Result<Vec<Edge>, DecodeError>)
    ensures
        r is Ok <==> (forall|i: int| 0 <= i < rows@.len() ==> edge_row_decodes(#[trigger] rows@[i])),
        r matches Ok(v) ==> v@.len() == rows@.len() && (forall|i: int|
            0 <= i < rows@.len() ==> edge_of_row(#[trigger] v@[i], rows@[i])),
        r matches Err(e) ==> exists|k: int|
            {
                &&& 0 <= k < rows@.len()
                &&& !edge_row_decodes(#[trigger] rows@[k])
                &&& (forall|j: int| 0 <= j < k ==> edge_row_decodes(#[trigger] rows@[j]))
                &&& e == edge_row_err(rows@[k])
            },
{
    let mut out: Vec<Edge> = Vec::new();
    let n = rows.len();
    let mut i: usize = 0;
    while i < n
        invariant
            n == rows@.len(),
            i <= n,
            out@.len() == i,
            forall|j: int| 0 <= j < i ==> edge_row_decodes(#[trigger] rows@[j]),
            forall|j: int| 0 <= j < i ==> edge_of_row(#[trigger] out@[j], rows@[j]),
        decreases n - i,
    {
        match Edge::from_row(&rows[i]) {
            Ok(edge) => {
                out.push(edge);
            },
            Err(e) => {
                proof {
                    assert(!edge_row_decodes(rows@[i as int]) && e == edge_row_err(
                        rows@[i as int],
                    ));
                }
                return Err(e);
            },
        }
        i += 1;
    }
    Ok(out)
}

/// Assemble every join row, in order; the first payload that does not
/// decode fails the batch.
pub fn node_edge_rows_to_model(rows: &Vec<NodeEdgeRow>) -> (r: Result<Vec<NodeEdge>, DecodeError>)
    ensures
        r is Ok <==> (forall|i: int|
            0 <= i < rows@.len() ==> node_edge_row_decodes(#[trigger] rows@[i])),
        r matches Ok(v) ==> v@.len() == rows@.len() && (forall|i: int|
            0 <= i < rows@.len() ==> node_edge_of_row(#[trigger] v@[i], rows@[i])),
        r matches Err(e) ==> exists|k: int|
            {
                &&& 0 <= k < rows@.len()
                &&& !node_edge_row_decodes(#[trigger] rows@[k])
                &&& (forall|j: int| 0 <= j < k ==> node_edge_row_decodes(#[trigger] rows@[j]))
                &&& e == node_edge_row_err(rows@[k])
            },
{
    let mut out: Vec<NodeEdge> = Vec::new();
    let n = rows.len();
    let mut i: usize = 0;
    while i < n
        invariant
            n == rows@.len(),
            i <= n,
            out@.len() == i,
            forall|j: int| 0 <= j < i ==> node_edge_row_decodes(#[trigger] rows@[j]),
            forall|j: int| 0 <= j < i ==> node_edge_of_row(#[trigger] out@[j], rows@[j]),
        decreases n - i,
    {
        match NodeEdge::from_row(&rows[i]) {
            Ok(ne) => {
                out.push(ne);
            },
            Err(e) => {
                proof {
                    assert(!node_edge_row_decodes(rows@[i as int]) && e == node_edge_row_err(
                        rows@[i as int],
                    ));
                }
                return Err(e);
            },
        }
        i += 1;
    }
    Ok(out)
}

} // verus!
