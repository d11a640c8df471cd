//! End-to-end scenarios against an in-memory relational store: create
//! nodes and edges, query the join, delete by id set, and surface decode
//! failures.

use hypergraphsql::{
    decode, delete_nodes_sql, node_edge_rows_to_model, nodes_from_rows, plan_create_edge,
    plan_create_node, query_builder, query_from_json, JsonValue, Node, NodeEdgeRow, NodeRow,
    QueryValue, CREATE_EDGE_SQL, CREATE_NODE_SQL,
};
use sqlx::Row;

const NODE_USER_URI: &str = "user";
const EDGE_FOLLOWS_URI: &str = "follows";

fn user_payload(name: &str) -> JsonValue {
    JsonValue::Obj(vec![(
        "info".to_string(),
        JsonValue::Obj(vec![("name".to_string(), JsonValue::Str(name.to_string()))]),
    )])
}

fn user_name(data: &JsonValue) -> &str {
    match data {
        JsonValue::Obj(kvs) => match &kvs[0].1 {
            JsonValue::Obj(inner) => match &inner[0].1 {
                JsonValue::Str(s) => s,
                _ => panic!("payload shape"),
            },
            _ => panic!("payload shape"),
        },
        _ => panic!("payload shape"),
    }
}

async fn open_store() -> sqlx::SqlitePool {
    let pool = sqlx::sqlite::SqlitePoolOptions::new()
        .max_connections(1)
        .connect_with(
            sqlx::sqlite::SqliteConnectOptions::new()
                .in_memory(true)
                .foreign_keys(true),
        )
        .await
        .expect("open in-memory store");
    sqlx::query(
        "CREATE TABLE nodes (id INTEGER PRIMARY KEY AUTOINCREMENT, uri TEXT NOT NULL, data TEXT, created_at INTEGER NOT NULL DEFAULT (unixepoch()), updated_at INTEGER NOT NULL DEFAULT (unixepoch()));",
    )
    .execute(&pool)
    .await
    .expect("create nodes table");
    sqlx::query(
        "CREATE TABLE edges (id INTEGER PRIMARY KEY AUTOINCREMENT, from_node_id INTEGER NOT NULL REFERENCES nodes(id) ON DELETE CASCADE, to_node_id INTEGER NOT NULL REFERENCES nodes(id) ON DELETE CASCADE, uri TEXT NOT NULL, data TEXT, created_at INTEGER NOT NULL DEFAULT (unixepoch()), updated_at INTEGER NOT NULL DEFAULT (unixepoch()));",
    )
    .execute(&pool)
    .await
    .expect("create edges table");
    pool
}

fn node_row_from(row: &sqlx::sqlite::SqliteRow) -> NodeRow {
    NodeRow {
        id: row.get("id"),
        uri: row.get("uri"),
        data: row.get("data"),
        updated_at: row.get("updated_at"),
        created_at: row.get("created_at"),
    }
}

async fn create_node(pool: &sqlx::SqlitePool, uri: &str, data: JsonValue) -> Node {
    let plan = plan_create_node(uri, &data);
    let row = sqlx::query(CREATE_NODE_SQL)
        .bind(plan.uri)
        .bind(plan.data_json)
        .fetch_one(pool)
        .await
        .expect("insert node");
    Node::with_data(&node_row_from(&row), data)
}

async fn create_edge(
    pool: &sqlx::SqlitePool,
    from: &Node,
    to: &Node,
    uri: &str,
    data: Option<JsonValue>,
) -> i64 {
    let plan = plan_create_edge(from, to, uri, &data);
    let row = sqlx::query(CREATE_EDGE_SQL)
        .bind(plan.from_node_id)
        .bind(plan.to_node_id)
        .bind(plan.uri)
        .bind(plan.data_json)
        .fetch_one(pool)
        .await
        .expect("insert edge");
    row.get("id")
}

fn bind_params<'q>(
    query: sqlx::query::Query<'q, sqlx::Sqlite, sqlx::sqlite::SqliteArguments>,
    params: Vec<QueryValue>,
) -> sqlx::query::Query<'q, sqlx::Sqlite, sqlx::sqlite::SqliteArguments> {
    let mut q = query;
    for p in params {
        q = match p {
            QueryValue::Null => q.bind(None::<String>),
            QueryValue::Bool(b) => q.bind(b),
            QueryValue::String(s) => q.bind(s),
            QueryValue::Number(n) => q.bind(n),
        };
    }
    q
}

fn node_edge_row_from(row: &sqlx::sqlite::SqliteRow) -> NodeEdgeRow {
    NodeEdgeRow {
        from_node_id: row.get("from_node_id"),
        from_node_uri: row.get("from_node_uri"),
        from_node_data: row.get("from_node_data"),
        from_node_updated_at: row.get("from_node_updated_at"),
        from_node_created_at: row.get("from_node_created_at"),
        to_node_id: row.get("to_node_id"),
        to_node_uri: row.get("to_node_uri"),
        to_node_data: row.get("to_node_data"),
        to_node_updated_at: row.get("to_node_updated_at"),
        to_node_created_at: row.get("to_node_created_at"),
        edge_id: row.get("edge_id"),
        edge_uri: row.get("edge_uri"),
        edge_data: row.get("edge_data"),
        edge_updated_at: row.get("edge_updated_at"),
        edge_created_at: row.get("edge_created_at"),
    }
}

fn runtime() -> tokio::runtime::Runtime {
    tokio::runtime::Builder::new_current_thread()
        .enable_all()
        .build()
        .expect("build runtime")
}

#[test]
fn test_query() {
    runtime().block_on(async {
        let pool = open_store().await;
        let user_a = create_node(&pool, NODE_USER_URI, user_payload("a")).await;
        let user_b = create_node(&pool, NODE_USER_URI, user_payload("b")).await;
        assert_eq!(user_a.id, 1);
        assert_eq!(user_b.id, 2);
        create_edge(&pool, &user_a, &user_b, EDGE_FOLLOWS_URI, None).await;

        let query_json =
            "{\"type\":\"node_edge\",\"from_node.uri\":{\"eq\":\"user\"},\"from_node.data\":{\"info.name\":{\"eq\":\"a\"}}}";
        let query = query_from_json(&decode(query_json).expect("valid JSON"))
            .expect("failed to parse Query JSON");
        let (sql, params) = query_builder(&query);
        println!("{}", sql);
        let raw_rows = bind_params(sqlx::query(sqlx::AssertSqlSafe(sql.as_str())), params)
            .fetch_all(&pool)
            .await
            .expect("run join query");
        let rows: Vec<NodeEdgeRow> = raw_rows.iter().map(node_edge_row_from).collect();
        let related = node_edge_rows_to_model(&rows).expect("payloads decode");

        assert_eq!(related.len(), 1);
        let node_edge = related.get(0).unwrap();
        assert_eq!(user_name(&node_edge.from_node.data), "a");
        assert_eq!(user_name(&node_edge.to_node.data), "b");

        let delete_sql = delete_nodes_sql(&vec![user_a.id, user_b.id]);
        let raw_deleted = sqlx::query(sqlx::AssertSqlSafe(delete_sql.as_str()))
            .fetch_all(&pool)
            .await
            .expect("delete nodes");
        let deleted_rows: Vec<NodeRow> = raw_deleted.iter().map(node_row_from).collect();
        let deleted = nodes_from_rows(&deleted_rows).expect("payloads decode");
        assert_eq!(deleted.len(), 2);
    });
}

#[test]
fn deleting_an_id_set_removes_exactly_the_existing_subset() {
    runtime().block_on(async {
        let pool = open_store().await;
        let n1 = create_node(&pool, NODE_USER_URI, user_payload("a")).await;
        let n2 = create_node(&pool, NODE_USER_URI, user_payload("b")).await;

        // ids 2 and 99 requested; only 2 exists
        let sql = delete_nodes_sql(&vec![n2.id, 99]);
        let raw = sqlx::query(sqlx::AssertSqlSafe(sql.as_str())).fetch_all(&pool).await.expect("delete");
        let rows: Vec<NodeRow> = raw.iter().map(node_row_from).collect();
        let removed = nodes_from_rows(&rows).expect("payloads decode");
        assert_eq!(removed.len(), 1);
        assert_eq!(removed[0].id, n2.id);
        assert_eq!(removed[0].uri, NODE_USER_URI);
        assert_eq!(user_name(&removed[0].data), "b");

        // deleting the same set again removes nothing and is no error
        let raw_again = sqlx::query(sqlx::AssertSqlSafe(sql.as_str())).fetch_all(&pool).await.expect("delete again");
        assert_eq!(raw_again.len(), 0);

        // the other node is untouched
        let left = sqlx::query("SELECT * FROM nodes;")
            .fetch_all(&pool)
            .await
            .expect("select");
        assert_eq!(left.len(), 1);
        assert_eq!(node_row_from(&left[0]).id, n1.id);
    });
}

#[test]
fn payload_with_control_characters_round_trips_through_the_store() {
    runtime().block_on(async {
        let pool = open_store().await;
        let payload = || {
            JsonValue::Obj(vec![(
                "note".to_string(),
                JsonValue::Str("line one\nline two\twith\u{1}controls".to_string()),
            )])
        };
        create_node(&pool, "memo", payload()).await;
        let raw = sqlx::query("SELECT * FROM nodes;")
            .fetch_all(&pool)
            .await
            .expect("select");
        let row = node_row_from(&raw[0]);
        assert!(row.data.contains("\\n"));
        assert!(row.data.contains("\\u0001"));
        let node = Node::from_row(&row).expect("stored text decodes");
        assert_eq!(node.data, payload());
    });
}

#[test]
fn stored_text_that_does_not_decode_is_a_decode_error() {
    runtime().block_on(async {
        let pool = open_store().await;
        sqlx::query("INSERT INTO nodes (uri, data) VALUES ('user', 'not valid json');")
            .execute(&pool)
            .await
            .expect("insert raw row");
        let raw = sqlx::query("SELECT * FROM nodes;")
            .fetch_all(&pool)
            .await
            .expect("select");
        let rows: Vec<NodeRow> = raw.iter().map(node_row_from).collect();
        assert!(Node::from_row(&rows[0]).is_err());
        assert!(nodes_from_rows(&rows).is_err());
    });
}

#[test]
fn created_edge_references_exactly_the_endpoint_nodes() {
    runtime().block_on(async {
        let pool = open_store().await;
        let a = create_node(&pool, NODE_USER_URI, user_payload("a")).await;
        let b = create_node(&pool, NODE_USER_URI, user_payload("b")).await;
        create_edge(&pool, &a, &b, EDGE_FOLLOWS_URI, Some(JsonValue::Int(1))).await;
        let raw = sqlx::query("SELECT * FROM edges;")
            .fetch_all(&pool)
            .await
            .expect("select edges");
        assert_eq!(raw.len(), 1);
        let from_id: i64 = raw[0].get("from_node_id");
        let to_id: i64 = raw[0].get("to_node_id");
        assert_eq!(from_id, a.id);
        assert_eq!(to_id, b.id);
    });
}
