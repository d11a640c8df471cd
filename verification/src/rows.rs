//! Raw stored rows, as the relational store returns them: payloads still
//! JSON text, timestamps epoch seconds.

use vstd::prelude::*;

verus! {

/// A stored node row.
#[derive(Debug)]
pub struct NodeRow {
    pub id: i64,
    pub uri: String,
    pub data: String,
    pub updated_at: i64,
    pub created_at: i64,
}

/// A stored edge row.
#[derive(Debug)]
pub struct EdgeRow {
    pub id: i64,
    pub from_node_id: i64,
    pub to_node_id: i64,
    pub uri: String,
    pub data: Option<String>,
    pub updated_at: i64,
    pub created_at: i64,
}

/// One row of the node-edge join: both endpoint nodes and the edge,
/// re-aliased to flat columns.
#[derive(Debug)]
pub struct NodeEdgeRow {
    pub from_node_id: i64,
    pub from_node_uri: String,
    pub from_node_data: String,
    pub from_node_updated_at: i64,
    pub from_node_created_at: i64,
    pub to_node_id: i64,
    pub to_node_uri: String,
    pub to_node_data: String,
    pub to_node_updated_at: i64,
    pub to_node_created_at: i64,
    pub edge_id: i64,
    pub edge_uri: String,
    pub edge_data: Option<String>,
    pub edge_updated_at: i64,
    pub edge_created_at: i64,
}

} // verus!
