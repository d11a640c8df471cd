//! A typed hypergraph on top of a relational store: labeled nodes and labeled
//! directed edges, each carrying a structured JSON payload, together with a
//! small predicate algebra that compiles to parameterized SQL.
//!
//! The payload codec, the entity model's row assembly, the predicate algebra
//! and its compiler are verified; executing statements against a store is the
//! caller's side of the boundary.

pub mod compile;
pub mod decode;
pub mod encode;
pub mod errors;
pub mod model;
pub mod numbers;
pub mod query;
pub mod roundtrip;
pub mod rows;
pub mod stmt;
mod strutil;
pub mod value;
pub mod wire;

pub use compile::{
    query_builder, query_condition_builder, EDGES_BASE_SQL, NODES_BASE_SQL, NODE_EDGES_BASE_SQL,
};
pub use decode::decode;
pub use encode::encode;
pub use errors::{DecodeError, QueryError};
pub use model::{edges_from_rows, node_edge_rows_to_model, nodes_from_rows, Edge, Node, NodeEdge};
pub use query::{Query, QueryExpr, QueryField, QueryOp, QueryShape, QueryValue};
pub use rows::{EdgeRow, NodeEdgeRow, NodeRow};
pub use stmt::{
    delete_edges_sql, delete_nodes_sql, plan_create_edge, plan_create_edge_with_ids,
    plan_create_node, plan_update, related_by_node_id_and_edge_uri_sql, related_by_node_id_sql,
    EdgeInsert, NodeInsert, CREATE_EDGE_SQL, CREATE_NODE_SQL,
    DELETE_EDGES_BY_URI_SQL, DELETE_EDGE_SQL, DELETE_NODES_BY_URI_SQL, DELETE_NODE_SQL,
    UPDATE_EDGE_SQL, UPDATE_NODE_SQL,
};
pub use value::{JsonValue, MAX_JSON_DEPTH};
pub use wire::{expr_of_json, expr_to_json, field_from_name, query_from_json, query_to_json};
