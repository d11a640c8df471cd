//! Entity model behavior: row assembly, batch assembly, write planning,
//! and the batch-delete statements.

use hypergraphsql::{
    delete_edges_sql, delete_nodes_sql, edges_from_rows, node_edge_rows_to_model, nodes_from_rows,
    plan_create_edge, plan_create_node, plan_update, DecodeError, Edge, EdgeRow, JsonValue, Node,
    NodeEdgeRow, NodeRow,
};

fn user_payload(name: &str) -> JsonValue {
    JsonValue::Obj(vec![(
        "info".to_string(),
        JsonValue::Obj(vec![("name".to_string(), JsonValue::Str(name.to_string()))]),
    )])
}

fn node_row(id: i64, uri: &str, data: &str) -> NodeRow {
    NodeRow {
        id,
        uri: uri.to_string(),
        data: data.to_string(),
        updated_at: 1700000000,
        created_at: 1600000000,
    }
}

#[test]
fn node_row_assembles() {
    let row = node_row(1, "user", "{\"info\":{\"name\":\"a\"}}");
    let node = Node::from_row(&row).expect("payload decodes");
    assert_eq!(node.id, 1);
    assert_eq!(node.uri, "user");
    assert_eq!(node.data, user_payload("a"));
    assert_eq!(node.updated_at, 1700000000);
    assert_eq!(node.created_at, 1600000000);
}

#[test]
fn node_row_with_bad_payload_is_a_decode_error() {
    let row = node_row(1, "user", "not json at all");
    assert!(Node::from_row(&row).is_err());
}

#[test]
fn edge_row_payload_is_optional() {
    let row = EdgeRow {
        id: 9,
        from_node_id: 1,
        to_node_id: 2,
        uri: "follows".to_string(),
        data: None,
        updated_at: 5,
        created_at: 4,
    };
    let edge = Edge::from_row(&row).expect("no payload to decode");
    assert_eq!(edge.data, None);
    assert_eq!(edge.from_node_id, 1);
    assert_eq!(edge.to_node_id, 2);
    let bad = EdgeRow { data: Some("{broken".to_string()), ..row };
    assert!(Edge::from_row(&bad).is_err());
}

#[test]
fn node_edge_row_assembles_both_endpoints() {
    let row = NodeEdgeRow {
        from_node_id: 1,
        from_node_uri: "user".to_string(),
        from_node_data: "{\"info\":{\"name\":\"a\"}}".to_string(),
        from_node_updated_at: 11,
        from_node_created_at: 10,
        to_node_id: 2,
        to_node_uri: "user".to_string(),
        to_node_data: "{\"info\":{\"name\":\"b\"}}".to_string(),
        to_node_updated_at: 21,
        to_node_created_at: 20,
        edge_id: 7,
        edge_uri: "follows".to_string(),
        edge_data: None,
        edge_updated_at: 31,
        edge_created_at: 30,
    };
    let items = node_edge_rows_to_model(&vec![row]).expect("payloads decode");
    assert_eq!(items.len(), 1);
    let ne = &items[0];
    assert_eq!(ne.from_node.id, 1);
    assert_eq!(ne.from_node.data, user_payload("a"));
    assert_eq!(ne.to_node.id, 2);
    assert_eq!(ne.to_node.data, user_payload("b"));
    assert_eq!(ne.edge.id, 7);
    assert_eq!(ne.edge.from_node_id, 1);
    assert_eq!(ne.edge.to_node_id, 2);
    assert_eq!(ne.edge.uri, "follows");
    assert_eq!(ne.edge.data, None);
}

#[test]
fn batch_assembly_keeps_order_and_fails_on_first_bad_row() {
    let rows = vec![
        node_row(1, "user", "{\"info\":{\"name\":\"a\"}}"),
        node_row(2, "user", "{\"info\":{\"name\":\"b\"}}"),
    ];
    let nodes = nodes_from_rows(&rows).expect("all decode");
    assert_eq!(nodes.len(), 2);
    assert_eq!(nodes[0].id, 1);
    assert_eq!(nodes[1].id, 2);
    let mixed = vec![
        node_row(1, "user", "{}"),
        node_row(2, "user", "oops"),
    ];
    assert!(nodes_from_rows(&mixed).is_err());
    // the error is the first failing row's: row 1 fails with an unexpected
    // character, row 2 would fail with an unexpected end
    let two_bad = vec![
        node_row(1, "user", "{}"),
        node_row(2, "user", "oops"),
        node_row(3, "user", ""),
    ];
    assert_eq!(nodes_from_rows(&two_bad).unwrap_err(), DecodeError::UnexpectedChar);
    let end_first = vec![node_row(1, "user", ""), node_row(2, "user", "oops")];
    assert_eq!(nodes_from_rows(&end_first).unwrap_err(), DecodeError::UnexpectedEnd);
    let edge_rows: Vec<EdgeRow> = vec![];
    assert_eq!(edges_from_rows(&edge_rows).unwrap().len(), 0);
}

#[test]
fn batch_delete_statements_list_exactly_the_ids() {
    assert_eq!(
        delete_nodes_sql(&vec![1, 2, 3]),
        "DELETE FROM nodes WHERE id in (1,2,3) RETURNING *;"
    );
    assert_eq!(
        delete_nodes_sql(&vec![42]),
        "DELETE FROM nodes WHERE id in (42) RETURNING *;"
    );
    assert_eq!(
        delete_edges_sql(&vec![-1, 7]),
        "DELETE FROM edges WHERE id in (-1,7) RETURNING *;"
    );
}

#[test]
fn create_plans_carry_label_and_encoded_payload() {
    let plan = plan_create_node("user", &user_payload("a"));
    assert_eq!(plan.uri, "user");
    assert_eq!(plan.data_json, "{\"info\":{\"name\":\"a\"}}");
    let control = plan_create_node("note", &JsonValue::Str("a\nb".to_string()));
    assert_eq!(control.data_json, "\"a\\nb\"");
}

#[test]
fn edge_plan_uses_exactly_the_nodes_assigned_ids() {
    let from = Node {
        id: 11,
        uri: "user".to_string(),
        data: user_payload("a"),
        updated_at: 0,
        created_at: 0,
    };
    let to = Node {
        id: 22,
        uri: "user".to_string(),
        data: user_payload("b"),
        updated_at: 0,
        created_at: 0,
    };
    let plan = plan_create_edge(&from, &to, "follows", &None);
    assert_eq!(plan.from_node_id, 11);
    assert_eq!(plan.to_node_id, 22);
    assert_eq!(plan.uri, "follows");
    assert_eq!(plan.data_json, None);
    let with_payload = plan_create_edge(&from, &to, "follows", &Some(JsonValue::Int(3)));
    assert_eq!(with_payload.data_json, Some("3".to_string()));
}

#[test]
fn update_plan_is_the_encoded_replacement() {
    assert_eq!(plan_update(&user_payload("z")), "{\"info\":{\"name\":\"z\"}}");
    assert_eq!(plan_update(&JsonValue::Str("\u{0}".to_string())), "\"\\u0000\"");
}
