//! The wire format: queries read from tagged JSON documents, and the SQL
//! they then compile to.

use hypergraphsql::{
    decode, encode, expr_to_json, query_builder, query_from_json, query_to_json, DecodeError,
    Query, QueryExpr, QueryField, QueryOp, QueryShape, QueryValue, NODE_EDGES_BASE_SQL,
};

fn parse_query(text: &str) -> Result<Query, DecodeError> {
    query_from_json(&decode(text).expect("document is valid JSON"))
}

#[test]
fn example_document_compiles_to_the_join() {
    let q = parse_query(
        "{\"type\":\"node_edge\",\"from_node.uri\":{\"eq\":\"user\"},\"from_node.data\":{\"info.name\":{\"eq\":\"a\"}}}",
    )
    .expect("well-formed query document");
    assert_eq!(q.shape, QueryShape::NodeEdge);
    assert_eq!(q.entries.len(), 2);
    let (sql, params) = query_builder(&q);
    assert_eq!(
        sql,
        format!(
            "{} WHERE from_node.uri = ? AND json_extract(from_node.data,'$.info.name') = ?",
            NODE_EDGES_BASE_SQL
        )
    );
    assert_eq!(
        params,
        vec![
            QueryValue::String("user".to_string()),
            QueryValue::String("a".to_string()),
        ]
    );
}

#[test]
fn literals_and_operators_read_back() {
    let q = parse_query(
        "{\"type\":\"node\",\"node.id\":{\"in\":[1,2]},\"node.uri\":{\"not\":{\"eq\":null}},\"node.data\":{\"flag\":{\"eq\":true}}}",
    )
    .expect("well-formed query document");
    assert_eq!(q.shape, QueryShape::Node);
    let (sql, params) = query_builder(&q);
    assert!(sql.contains("node.id IN (?, ?)"));
    assert!(sql.contains(" NOT node.uri = ?"));
    assert!(sql.contains("json_extract(node.data,'$.flag') = ?"));
    assert_eq!(
        params,
        vec![
            QueryValue::Number(1),
            QueryValue::Number(2),
            QueryValue::Null,
            QueryValue::Bool(true),
        ]
    );
}

#[test]
fn type_tag_is_required_exactly_once() {
    assert!(parse_query("{\"node.uri\":{\"eq\":\"user\"}}").is_err());
    assert!(matches!(
        parse_query("{\"type\":\"node\",\"type\":\"edge\"}"),
        Err(DecodeError::UnexpectedShape)
    ));
    assert!(parse_query("{\"type\":\"nodes\"}").is_err());
    assert!(parse_query("{\"type\":3}").is_err());
    assert!(parse_query("{\"type\":\"edge\"}").is_ok());
    assert!(parse_query("[]").is_err());
}

#[test]
fn unknown_fields_and_bad_operands_are_rejected() {
    assert!(parse_query("{\"type\":\"node\",\"nodes.uri\":{\"eq\":\"user\"}}").is_err());
    assert!(parse_query("{\"type\":\"node\",\"node.uri\":[1]}").is_err());
    assert!(parse_query("{\"type\":\"node\",\"node.id\":{\"in\":3}}").is_err());
    assert!(parse_query("{\"type\":\"node\",\"node.id\":{\"eq\":[1]}}").is_err());
}

#[test]
fn multi_key_operator_object_is_a_payload_path() {
    // a single-key object whose key is not an operator, and any multi-key
    // object, read as nested payload path segments
    let q = parse_query("{\"type\":\"node\",\"node.data\":{\"eq\":{\"eq\":1},\"x\":{\"eq\":2}}}")
        .expect("payload paths may use operator-like names");
    let (sql, _) = query_builder(&q);
    assert!(sql.contains("json_extract(node.data,'$.eq')"));
    assert!(sql.contains("json_extract(node.data,'$.x') = ?"));
}

fn eq_value(v: QueryValue) -> QueryExpr {
    QueryExpr::Op(QueryOp::Eq(Box::new(QueryExpr::Value(v))))
}

#[test]
fn written_documents_read_back_as_the_same_query() {
    let q = Query {
        shape: QueryShape::NodeEdge,
        entries: vec![
            (QueryField::NodeEdgeFromNodeURI, eq_value(QueryValue::String("user".to_string()))),
            (
                QueryField::NodeEdgeFromNodeData,
                QueryExpr::Data(vec![(
                    "info.name".to_string(),
                    eq_value(QueryValue::String("a".to_string())),
                )]),
            ),
            (
                QueryField::EdgeURI,
                QueryExpr::Op(QueryOp::In(vec![
                    QueryExpr::Value(QueryValue::String("follows".to_string())),
                    QueryExpr::Value(QueryValue::Null),
                ])),
            ),
        ],
    };
    let (sql, params) = query_builder(&q);
    let doc = query_to_json(&q).expect("every entry has a wire form");
    // through the codec and back
    let text = encode(&doc);
    let reread = query_from_json(&decode(&text).expect("valid JSON")).expect("reads back");
    let (sql2, params2) = query_builder(&reread);
    assert_eq!(sql2, sql);
    assert_eq!(params2, params);
    assert_eq!(reread.shape, q.shape);
    assert_eq!(reread.entries.len(), q.entries.len());
}

#[test]
fn expressions_without_a_wire_form_are_refused() {
    // a column reference reads back as a text literal, so it has no wire form
    assert!(expr_to_json(&QueryExpr::Field(QueryField::NodeId)).is_none());
    // a single-entry payload object under an operator-like key reads back
    // as that operator
    assert!(expr_to_json(&QueryExpr::Data(vec![(
        "eq".to_string(),
        QueryExpr::Value(QueryValue::Number(1)),
    )]))
    .is_none());
    // the same key is fine beside a second entry
    assert!(expr_to_json(&QueryExpr::Data(vec![
        ("eq".to_string(), QueryExpr::Value(QueryValue::Number(1))),
        ("x".to_string(), QueryExpr::Value(QueryValue::Number(2))),
    ]))
    .is_some());
}
