//! The predicate algebra: query shapes, addressable fields, literals,
//! operators and expressions, and the exact text each field and literal
//! renders to.

use crate::numbers::{i64_to_string, int_chars};
use vstd::prelude::*;

verus! {

/// The selection shape of a query: which canonical SELECT it compiles to.
#[derive(Debug, Clone, Copy, PartialEq, Eq, Structural)]
pub enum QueryShape {
    Node,
    Edge,
    NodeEdge,
}

/// An addressable column, namespaced by its role in the query's shape.
#[derive(Debug, Clone, Copy, PartialEq, Eq, Structural)]
pub enum QueryField {
    NodeId,
    NodeURI,
    NodeData,
    NodeUpdatedAt,
    NodeCreatedAt,
    EdgeId,
    EdgeFromNodeId,
    EdgeToNodeId,
    EdgeURI,
    EdgeData,
    EdgeUpdatedAt,
    EdgeCreatedAt,
    NodeEdgeFromNodeId,
    NodeEdgeFromNodeURI,
    NodeEdgeFromNodeData,
    NodeEdgeFromNodeUpdatedAt,
    NodeEdgeFromNodeCreatedAt,
    NodeEdgeToNodeId,
    NodeEdgeToNodeURI,
    NodeEdgeToNodeData,
    NodeEdgeToNodeUpdatedAt,
    NodeEdgeToNodeCreatedAt,
}

/// A literal operand: null, boolean, text, or integer.
#[derive(Debug, PartialEq)]
pub enum QueryValue {
    Null,
    Bool(bool),
    String(String),
    Number(i64),
}

/// An expression evaluated against an enclosing field.
#[derive(Debug, PartialEq)]
pub enum QueryExpr {
    Value(QueryValue),
    Field(QueryField),
    Op(QueryOp),
    Data(Vec<(String, QueryExpr)>),
}

/// A comparison or boolean combinator. All operands of a combinator are
/// evaluated against the same enclosing field; the algebra cannot express
/// cross-field boolean logic below the top level.
#[derive(Debug, PartialEq)]
pub enum QueryOp {
    Eq(Box<QueryExpr>),
    Neq(Box<QueryExpr>),
    Gt(Box<QueryExpr>),
    Lt(Box<QueryExpr>),
    Gte(Box<QueryExpr>),
    Lte(Box<QueryExpr>),
    Like(Box<QueryExpr>),
    In(Vec<QueryExpr>),
    And(Vec<QueryExpr>),
    Or(Vec<QueryExpr>),
    Not(Box<QueryExpr>),
}

/// A query: a shape and a field-to-expression mapping whose entries are
/// conjoined. Entries keep their insertion order, so compilation is
/// deterministic.
#[derive(Debug)]
pub struct Query {
    pub shape: QueryShape,
    pub entries: Vec<(QueryField, QueryExpr)>,
}

/// The qualified column name of a field.
pub open spec fn field_name(f: QueryField) -> Seq<char> {
    match f {
        QueryField::NodeId => "node.id"@,
        QueryField::NodeURI => "node.uri"@,
        QueryField::NodeData => "node.data"@,
        QueryField::NodeUpdatedAt => "node.updated_at"@,
        QueryField::NodeCreatedAt => "node.created_at"@,
        QueryField::EdgeId => "edge.id"@,
        QueryField::EdgeFromNodeId => "edge.from_node_id"@,
        QueryField::EdgeToNodeId => "edge.to_node_id"@,
        QueryField::EdgeURI => "edge.uri"@,
        QueryField::EdgeData => "edge.data"@,
        QueryField::EdgeUpdatedAt => "edge.updated_at"@,
        QueryField::EdgeCreatedAt => "edge.created_at"@,
        QueryField::NodeEdgeFromNodeId => "from_node.id"@,
        QueryField::NodeEdgeFromNodeURI => "from_node.uri"@,
        QueryField::NodeEdgeFromNodeData => "from_node.data"@,
        QueryField::NodeEdgeFromNodeUpdatedAt => "from_node.updated_at"@,
        QueryField::NodeEdgeFromNodeCreatedAt => "from_node.created_at"@,
        QueryField::NodeEdgeToNodeId => "to_node.id"@,
        QueryField::NodeEdgeToNodeURI => "to_node.uri"@,
        QueryField::NodeEdgeToNodeData => "to_node.data"@,
        QueryField::NodeEdgeToNodeUpdatedAt => "to_node.updated_at"@,
        QueryField::NodeEdgeToNodeCreatedAt => "to_node.created_at"@,
    }
}

impl QueryField {
    /// The qualified column name this field renders to.
    pub fn name(&self) -> (r: &'static str)
        ensures
            r@ == field_name(*self),
    {
        match self {
            QueryField::NodeId => "node.id",
            QueryField::NodeURI => "node.uri",
            QueryField::NodeData => "node.data",
            QueryField::NodeUpdatedAt => "node.updated_at",
            QueryField::NodeCreatedAt => "node.created_at",
            QueryField::EdgeId => "edge.id",
            QueryField::EdgeFromNodeId => "edge.from_node_id",
            QueryField::EdgeToNodeId => "edge.to_node_id",
            QueryField::EdgeURI => "edge.uri",
            QueryField::EdgeData => "edge.data",
            QueryField::EdgeUpdatedAt => "edge.updated_at",
            QueryField::EdgeCreatedAt => "edge.created_at",
            QueryField::NodeEdgeFromNodeId => "from_node.id",
            QueryField::NodeEdgeFromNodeURI => "from_node.uri",
            QueryField::NodeEdgeFromNodeData => "from_node.data",
            QueryField::NodeEdgeFromNodeUpdatedAt => "from_node.updated_at",
            QueryField::NodeEdgeFromNodeCreatedAt => "from_node.created_at",
            QueryField::NodeEdgeToNodeId => "to_node.id",
            QueryField::NodeEdgeToNodeURI => "to_node.uri",
            QueryField::NodeEdgeToNodeData => "to_node.data",
            QueryField::NodeEdgeToNodeUpdatedAt => "to_node.updated_at",
            QueryField::NodeEdgeToNodeCreatedAt => "to_node.created_at",
        }
    }
}

/// The inline SQL text of a literal. The compiler binds literals as
/// parameters instead of interpolating them; this rendering is for
/// display and diagnostics.
pub open spec fn value_sql(v: QueryValue) -> Seq<char> {
    match v {
        QueryValue::Null => "NULL"@,
        QueryValue::Bool(b) => if b {
            "true"@
        } else {
            "false"@
        },
        QueryValue::String(s) => "'"@ + s@ + "'"@,
        QueryValue::Number(n) => int_chars(n as int),
    }
}

impl QueryValue {
    /// Render this literal as inline SQL text. Text literals are wrapped in
    /// single quotes without escaping, which is why the compiler binds
    /// parameters instead of interpolating.
    pub fn into_sql(&self) -> (r: String)
        ensures
            r@ == value_sql(*self),
    {
        match self {
            QueryValue::Null => String::from_str("NULL"),
            QueryValue::Bool(b) => {
                if *b {
                    String::from_str("true")
                } else {
                    String::from_str("false")
                }
            },
            QueryValue::String(s) => {
                let mut out = String::from_str("'");
                out.append(s.as_str());
                out.append("'");
                out
            },
            QueryValue::Number(n) => i64_to_string(*n),
        }
    }

    /// A structurally identical copy.
    pub fn duplicate(&self) -> (r: QueryValue)
        ensures
            r == *self,
    {
        match self {
            QueryValue::Null => QueryValue::Null,
            QueryValue::Bool(b) => QueryValue::Bool(*b),
            QueryValue::String(s) => QueryValue::String(s.clone()),
            QueryValue::Number(n) => QueryValue::Number(*n),
        }
    }
}

} // verus!
