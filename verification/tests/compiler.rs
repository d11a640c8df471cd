//! Compiler behavior: base statements, WHERE clauses, placeholders and
//! parameter order, operators, and shape checking.

use hypergraphsql::{
    query_builder, Query, QueryError, QueryExpr, QueryField, QueryOp, QueryShape, QueryValue,
    EDGES_BASE_SQL, NODES_BASE_SQL, NODE_EDGES_BASE_SQL,
};

fn eq_str(v: &str) -> QueryExpr {
    QueryExpr::Op(QueryOp::Eq(Box::new(QueryExpr::Value(QueryValue::String(v.to_string())))))
}

fn eq_num(n: i64) -> QueryExpr {
    QueryExpr::Op(QueryOp::Eq(Box::new(QueryExpr::Value(QueryValue::Number(n)))))
}

#[test]
fn empty_mapping_compiles_to_bare_select() {
    for shape in [QueryShape::Node, QueryShape::Edge, QueryShape::NodeEdge] {
        let q = Query { shape, entries: vec![] };
        let (sql, params) = query_builder(&q);
        let base = match shape {
            QueryShape::Node => NODES_BASE_SQL,
            QueryShape::Edge => EDGES_BASE_SQL,
            QueryShape::NodeEdge => NODE_EDGES_BASE_SQL,
        };
        assert_eq!(sql, base);
        assert!(!sql.contains("WHERE"));
        assert_eq!(params.len(), 0);
    }
}

#[test]
fn base_statements_name_their_tables() {
    assert_eq!(NODES_BASE_SQL, "SELECT node.* FROM nodes node");
    assert_eq!(EDGES_BASE_SQL, "SELECT edge.* FROM edges edge");
    assert!(NODE_EDGES_BASE_SQL.starts_with("SELECT from_node.id as from_node_id"));
    assert!(NODE_EDGES_BASE_SQL.ends_with("JOIN nodes to_node ON to_node.id = edge.to_node_id"));
}

#[test]
fn example_node_edge_query() {
    let q = Query {
        shape: QueryShape::NodeEdge,
        entries: vec![
            (QueryField::NodeEdgeFromNodeURI, eq_str("user")),
            (
                QueryField::NodeEdgeFromNodeData,
                QueryExpr::Data(vec![("info.name".to_string(), eq_str("a"))]),
            ),
        ],
    };
    let (sql, params) = query_builder(&q);
    let expected_where = " WHERE from_node.uri = ? AND json_extract(from_node.data,'$.info.name') = ?";
    assert_eq!(sql, format!("{}{}", NODE_EDGES_BASE_SQL, expected_where));
    assert_eq!(
        params,
        vec![
            QueryValue::String("user".to_string()),
            QueryValue::String("a".to_string()),
        ]
    );
}

#[test]
fn and_with_three_operands_has_two_connectives() {
    let q = Query {
        shape: QueryShape::Node,
        entries: vec![(
            QueryField::NodeId,
            QueryExpr::Op(QueryOp::And(vec![eq_num(1), eq_num(2), eq_num(3)])),
        )],
    };
    let (sql, params) = query_builder(&q);
    assert_eq!(
        sql,
        format!(
            "{} WHERE  (node.id = ? AND node.id = ? AND node.id = ?)",
            NODES_BASE_SQL
        )
    );
    assert_eq!(sql.matches(" AND ").count(), 2);
    assert_eq!(params.len(), 3);
}

#[test]
fn or_with_two_operands_has_one_connective() {
    let q = Query {
        shape: QueryShape::Node,
        entries: vec![(
            QueryField::NodeURI,
            QueryExpr::Op(QueryOp::Or(vec![eq_str("a"), eq_str("b")])),
        )],
    };
    let (sql, _) = query_builder(&q);
    assert_eq!(
        sql,
        format!("{} WHERE  (node.uri = ? OR node.uri = ?)", NODES_BASE_SQL)
    );
    assert_eq!(sql.matches(" OR ").count(), 1);
}

#[test]
fn data_nesting_composes_extractions() {
    let chain = QueryExpr::Data(vec![(
        "a".to_string(),
        QueryExpr::Data(vec![(
            "b".to_string(),
            QueryExpr::Data(vec![("c".to_string(), eq_num(5))]),
        )]),
    )]);
    let q = Query { shape: QueryShape::Node, entries: vec![(QueryField::NodeData, chain)] };
    let (sql, params) = query_builder(&q);
    assert_eq!(
        sql,
        format!(
            "{} WHERE json_extract(json_extract(json_extract(node.data,'$.a'),'$.b'),'$.c') = ?",
            NODES_BASE_SQL
        )
    );
    assert_eq!(sql.matches("json_extract(").count(), 3);
    assert_eq!(params, vec![QueryValue::Number(5)]);
}

#[test]
fn data_with_sibling_keys_conjoins() {
    let q = Query {
        shape: QueryShape::Node,
        entries: vec![(
            QueryField::NodeData,
            QueryExpr::Data(vec![
                ("x".to_string(), eq_num(1)),
                ("y".to_string(), eq_num(2)),
            ]),
        )],
    };
    let (sql, _) = query_builder(&q);
    assert_eq!(
        sql,
        format!(
            "{} WHERE json_extract(node.data,'$.x') = ? AND json_extract(node.data,'$.y') = ?",
            NODES_BASE_SQL
        )
    );
}

#[test]
fn comparison_membership_and_negation() {
    let q = Query {
        shape: QueryShape::Edge,
        entries: vec![
            (
                QueryField::EdgeURI,
                QueryExpr::Op(QueryOp::In(vec![
                    QueryExpr::Value(QueryValue::String("follows".to_string())),
                    QueryExpr::Value(QueryValue::String("likes".to_string())),
                ])),
            ),
            (
                QueryField::EdgeUpdatedAt,
                QueryExpr::Op(QueryOp::Gte(Box::new(QueryExpr::Field(
                    QueryField::EdgeCreatedAt,
                )))),
            ),
            (
                QueryField::EdgeData,
                QueryExpr::Op(QueryOp::Not(Box::new(QueryExpr::Op(QueryOp::Like(
                    Box::new(QueryExpr::Value(QueryValue::String("%x%".to_string()))),
                ))))),
            ),
        ],
    };
    let (sql, params) = query_builder(&q);
    let expected = format!(
        "{} WHERE edge.uri IN (?, ?) AND edge.updated_at >= edge.created_at AND  NOT edge.data LIKE ?",
        EDGES_BASE_SQL
    );
    assert_eq!(sql, expected);
    assert_eq!(params.len(), 3);
}

#[test]
fn shape_specific_statements_check_the_shape() {
    let node_q = Query { shape: QueryShape::Node, entries: vec![] };
    assert_eq!(node_q.nodes_sql().unwrap(), NODES_BASE_SQL);
    assert_eq!(node_q.edges_sql(), Err(QueryError::InvalidQueryType));
    assert_eq!(node_q.node_edges_sql(), Err(QueryError::InvalidQueryType));
    let edge_q = Query { shape: QueryShape::Edge, entries: vec![] };
    assert_eq!(edge_q.edges_sql().unwrap(), EDGES_BASE_SQL);
    assert_eq!(edge_q.nodes_sql(), Err(QueryError::InvalidQueryType));
}

#[test]
fn condition_fragment_and_params() {
    let q = Query {
        shape: QueryShape::Node,
        entries: vec![(QueryField::NodeURI, eq_str("user"))],
    };
    assert_eq!(q.sql(), " WHERE node.uri = ?");
    assert_eq!(q.params(), vec![QueryValue::String("user".to_string())]);
    let empty = Query { shape: QueryShape::Node, entries: vec![] };
    assert_eq!(empty.sql(), "");
    assert_eq!(empty.params(), vec![]);
}

#[test]
fn inline_literal_rendering() {
    assert_eq!(QueryValue::Null.into_sql(), "NULL");
    assert_eq!(QueryValue::Bool(true).into_sql(), "true");
    assert_eq!(QueryValue::Bool(false).into_sql(), "false");
    assert_eq!(QueryValue::String("user".to_string()).into_sql(), "'user'");
    assert_eq!(QueryValue::Number(-3).into_sql(), "-3");
}

#[test]
fn field_names_are_qualified_columns() {
    assert_eq!(QueryField::NodeId.name(), "node.id");
    assert_eq!(QueryField::EdgeFromNodeId.name(), "edge.from_node_id");
    assert_eq!(QueryField::NodeEdgeFromNodeData.name(), "from_node.data");
    assert_eq!(QueryField::NodeEdgeToNodeUpdatedAt.name(), "to_node.updated_at");
}
