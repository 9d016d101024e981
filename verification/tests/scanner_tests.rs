use lineage_lite::dbt::{model_name_from_path, DbtScanner};
use lineage_lite::lineage::extract_column_lineage;
use lineage_lite::node::{EdgeRelation, LineageEdge, NodeId, TransformKind};
use lineage_lite::python::{looks_like_table_name, python_node_name, PythonScanner};
use lineage_lite::scanner::{ScanOrchestrator, ScanResult, Scanner};
use lineage_lite::sql::{extract_columns_from_sql, SqlScanner};
use lineage_lite::pattern::byte_offset_to_line;

fn scan_dbt(sql: &str) -> Vec<LineageEdge> {
    let scanner = DbtScanner;
    scanner.scan_file("models/staging/stg_orders.sql", sql).expect("scan failed")
}

fn scan_py(py: &str) -> Vec<LineageEdge> {
    let scanner = PythonScanner;
    scanner.scan_file("etl/sync_job.py", py).expect("scan failed")
}

fn scan_sql(sql: &str) -> Vec<LineageEdge> {
    let scanner = SqlScanner;
    scanner.scan_file("test.sql", sql).expect("SQL parse failed")
}

#[test]
fn test_ref_single() {
    let edges = scan_dbt("SELECT * FROM {{ ref('raw_orders') }}");
    assert_eq!(edges.len(), 1);
    assert_eq!(edges[0].source, NodeId::from("raw_orders"));
    assert_eq!(edges[0].target.0, "stg_orders");
    assert_eq!(edges[0].relation, EdgeRelation::DbtRef);
}

#[test]
fn test_ref_double_quotes() {
    let edges = scan_dbt(r#"SELECT * FROM {{ ref("raw_orders") }}"#);
    assert_eq!(edges.len(), 1);
    assert_eq!(edges[0].source, NodeId::from("raw_orders"));
}

#[test]
fn test_multiple_refs() {
    let edges = scan_dbt(
        "SELECT o.*, p.amount \
         FROM {{ ref('stg_orders') }} o \
         JOIN {{ ref('stg_payments') }} p ON o.id = p.order_id",
    );
    assert_eq!(edges.len(), 2);
    let sources: Vec<_> = edges.iter().map(|e| e.source.0.as_str()).collect();
    assert!(sources.contains(&"stg_orders"));
    assert!(sources.contains(&"stg_payments"));
}

#[test]
fn test_source() {
    let edges = scan_dbt("SELECT * FROM {{ source('raw', 'orders') }}");
    assert_eq!(edges.len(), 1);
    assert_eq!(edges[0].source, NodeId::from("raw.orders"));
    assert_eq!(edges[0].relation, EdgeRelation::DbtSource);
}

#[test]
fn test_mixed_ref_and_source() {
    let edges = scan_dbt(
        "SELECT * FROM {{ source('raw', 'orders') }} o \
         JOIN {{ ref('dim_users') }} u ON o.user_id = u.id",
    );
    assert_eq!(edges.len(), 2);
}

#[test]
fn test_no_jinja_returns_empty() {
    let edges = scan_dbt("SELECT * FROM raw.orders");
    assert!(edges.is_empty());
}

#[test]
fn test_line_numbers() {
    let edges = scan_dbt("-- comment\nSELECT * FROM {{ ref('raw_orders') }}");
    assert_eq!(edges[0].line_number, Some(2));
}

#[test]
fn test_pandas_read_sql() {
    let edges = scan_py(r#"df = pd.read_sql("raw.events", con=engine)"#);
    assert_eq!(edges.len(), 1);
    assert_eq!(edges[0].source, NodeId::from("raw.events"));
    assert_eq!(edges[0].target.0, "etl/sync_job");
}

#[test]
fn test_pandas_to_sql() {
    let edges = scan_py(r#"df.to_sql("staging.events", con=engine, if_exists="replace")"#);
    assert_eq!(edges.len(), 1);
    assert_eq!(edges[0].source.0, "etl/sync_job");
    assert_eq!(edges[0].target, NodeId::from("staging.events"));
}

#[test]
fn test_spark_save_as_table() {
    let edges = scan_py(r#"df.write.mode("overwrite").saveAsTable("mart.orders")"#);
    assert_eq!(edges.len(), 1);
    assert_eq!(edges[0].target, NodeId::from("mart.orders"));
}

#[test]
fn test_spark_table_read() {
    let edges = scan_py(r#"df = spark.table("raw.events")"#);
    assert_eq!(edges.len(), 1);
    assert_eq!(edges[0].source, NodeId::from("raw.events"));
}

#[test]
fn test_spark_insert_into() {
    let edges = scan_py(r#"df.write.insertInto("staging.events")"#);
    assert_eq!(edges.len(), 1);
    assert_eq!(edges[0].target, NodeId::from("staging.events"));
}

#[test]
fn test_full_etl_script() {
    let script = r#"
import pandas as pd
from sqlalchemy import create_engine

engine = create_engine("postgresql://...")

# Read
orders = pd.read_sql("raw.orders", con=engine)
payments = pd.read_sql("raw.payments", con=engine)

# Transform
merged = orders.merge(payments, on="order_id")

# Write
merged.to_sql("staging.order_payments", con=engine, if_exists="replace")
"#;
    let edges = scan_py(script);
    assert_eq!(edges.len(), 3);

    let sources: Vec<_> = edges
        .iter()
        .filter(|e| e.target.0 == "etl/sync_job")
        .map(|e| e.source.0.as_str())
        .collect();
    assert!(sources.contains(&"raw.orders"));
    assert!(sources.contains(&"raw.payments"));

    let sinks: Vec<_> = edges
        .iter()
        .filter(|e| e.source.0 == "etl/sync_job")
        .map(|e| e.target.0.as_str())
        .collect();
    assert!(sinks.contains(&"staging.order_payments"));
}

#[test]
fn test_no_matches() {
    let edges = scan_py("print('hello world')");
    assert!(edges.is_empty());
}

#[test]
fn test_read_sql_query() {
    let edges = scan_py(r#"df = pd.read_sql_query("raw.analytics", engine)"#);
    assert_eq!(edges.len(), 1);
    assert_eq!(edges[0].source, NodeId::from("raw.analytics"));
}

#[test]
fn test_simple_select() {
    let edges = scan_sql("SELECT * FROM raw.orders;");
    assert!(edges.is_empty());
}

#[test]
fn test_create_table_as_select() {
    let edges = scan_sql("CREATE TABLE stg.orders AS SELECT * FROM raw.orders;");
    assert_eq!(edges.len(), 1);
    assert_eq!(edges[0].source, NodeId::from("raw.orders"));
    assert_eq!(edges[0].target, NodeId::from("stg.orders"));
    assert_eq!(edges[0].relation, EdgeRelation::CreateTableAs);
}

#[test]
fn test_create_table_as_with_join() {
    let edges = scan_sql(
        "CREATE TABLE mart.orders AS \
         SELECT o.*, p.amount \
         FROM raw.orders o \
         JOIN raw.payments p ON o.id = p.order_id;",
    );
    assert_eq!(edges.len(), 2);
    let sources: Vec<_> = edges.iter().map(|e| e.source.0.as_str()).collect();
    assert!(sources.contains(&"raw.orders"));
    assert!(sources.contains(&"raw.payments"));
}

#[test]
fn test_insert_into_select() {
    let edges = scan_sql("INSERT INTO staging.events SELECT * FROM raw.events;");
    assert_eq!(edges.len(), 1);
    assert_eq!(edges[0].source, NodeId::from("raw.events"));
    assert_eq!(edges[0].target, NodeId::from("staging.events"));
    assert_eq!(edges[0].relation, EdgeRelation::InsertInto);
}

#[test]
fn test_create_view() {
    let edges = scan_sql(
        "CREATE VIEW analytics.daily_orders AS \
         SELECT date, count(*) FROM raw.orders GROUP BY date;",
    );
    assert_eq!(edges.len(), 1);
    assert_eq!(edges[0].source, NodeId::from("raw.orders"));
    assert_eq!(edges[0].target, NodeId::from("analytics.daily_orders"));
}

#[test]
fn test_cte_not_treated_as_source() {
    let edges = scan_sql(
        "CREATE TABLE mart.summary AS \
         WITH recent AS (SELECT * FROM raw.orders WHERE date > '2024-01-01') \
         SELECT * FROM recent JOIN raw.users ON recent.user_id = raw.users.id;",
    );
    let sources: Vec<_> = edges.iter().map(|e| e.source.0.as_str()).collect();
    assert!(sources.contains(&"raw.orders"));
    assert!(sources.contains(&"raw.users"));
    assert!(!sources.contains(&"recent"));
}

#[test]
fn test_subquery() {
    let edges = scan_sql(
        "CREATE TABLE mart.high_value AS \
         SELECT * FROM (SELECT * FROM raw.orders WHERE amount > 100) sub;",
    );
    assert_eq!(edges.len(), 1);
    assert_eq!(edges[0].source, NodeId::from("raw.orders"));
}

#[test]
fn test_union() {
    let edges = scan_sql(
        "CREATE TABLE combined.events AS \
         SELECT * FROM raw.web_events \
         UNION ALL \
         SELECT * FROM raw.mobile_events;",
    );
    assert_eq!(edges.len(), 2);
    let sources: Vec<_> = edges.iter().map(|e| e.source.0.as_str()).collect();
    assert!(sources.contains(&"raw.web_events"));
    assert!(sources.contains(&"raw.mobile_events"));
}

#[test]
fn test_multiple_statements() {
    let edges = scan_sql(
        "CREATE TABLE stg.a AS SELECT * FROM raw.x;\n\
         INSERT INTO stg.b SELECT * FROM raw.y;",
    );
    assert_eq!(edges.len(), 2);
}

#[test]
fn test_column_extraction_ctas() {
    let cols = extract_columns_from_sql(
        "CREATE TABLE mart.orders AS SELECT id, amount, user_name FROM raw.orders;",
    );
    let mart_cols = cols.get("mart.orders").unwrap();
    assert_eq!(mart_cols, &["id", "amount", "user_name"]);
}

#[test]
fn test_column_extraction_with_alias() {
    let cols = extract_columns_from_sql(
        "CREATE VIEW v AS SELECT o.id, sum(amount) AS total FROM orders o GROUP BY o.id;",
    );
    let v_cols = cols.get("v").unwrap();
    assert!(v_cols.contains(&"id".to_string()));
    assert!(v_cols.contains(&"total".to_string()));
}

#[test]
fn test_column_extraction_star_returns_empty() {
    let cols = extract_columns_from_sql("CREATE TABLE t AS SELECT * FROM raw.orders;");
    assert!(cols.get("t").is_none() || cols.get("t").unwrap().is_empty());
}

#[test]
fn test_insert_with_join() {
    let edges = scan_sql(
        "INSERT INTO mart.orders \
         SELECT o.*, u.name \
         FROM stg.orders o \
         JOIN stg.users u ON o.user_id = u.id;",
    );
    assert_eq!(edges.len(), 2);
    assert!(edges.iter().all(|e| e.target == NodeId::from("mart.orders")));
}

#[test]
fn test_col_lineage_direct() {
    let lineage = extract_column_lineage(
        "CREATE TABLE stg.orders AS SELECT id AS order_id, amount FROM raw.orders;",
    );
    assert_eq!(lineage.len(), 2);

    let order_id = lineage.iter().find(|c| c.target_column == "order_id").unwrap();
    assert_eq!(order_id.transform, TransformKind::Direct);
    assert_eq!(order_id.source_columns.len(), 1);
    assert_eq!(order_id.source_columns[0].column, "id");

    let amount = lineage.iter().find(|c| c.target_column == "amount").unwrap();
    assert_eq!(amount.transform, TransformKind::Direct);
}

#[test]
fn test_col_lineage_aggregation() {
    let lineage = extract_column_lineage(
        "CREATE TABLE mart.summary AS \
         SELECT user_id, SUM(amount) AS total, COUNT(DISTINCT order_id) AS cnt \
         FROM raw.orders GROUP BY user_id;",
    );
    assert_eq!(lineage.len(), 3);

    let total = lineage.iter().find(|c| c.target_column == "total").unwrap();
    assert!(matches!(total.transform, TransformKind::Aggregation(ref f) if f == "SUM"));
    assert_eq!(total.source_columns[0].column, "amount");

    let cnt = lineage.iter().find(|c| c.target_column == "cnt").unwrap();
    assert!(matches!(cnt.transform, TransformKind::Aggregation(ref f) if f == "COUNT"));
}

#[test]
fn test_col_lineage_expression() {
    let lineage = extract_column_lineage("CREATE TABLE t AS SELECT a + b AS total FROM raw.x;");
    let total = lineage.iter().find(|c| c.target_column == "total").unwrap();
    assert_eq!(total.transform, TransformKind::Expression);
    assert_eq!(total.source_columns.len(), 2);
}

#[test]
fn test_col_lineage_case_when() {
    let lineage = extract_column_lineage(
        "CREATE TABLE t AS \
         SELECT CASE WHEN status = 'active' THEN amount ELSE 0 END AS val \
         FROM raw.orders;",
    );
    let val = lineage.iter().find(|c| c.target_column == "val").unwrap();
    assert_eq!(val.transform, TransformKind::Expression);
    assert!(val.source_columns.iter().any(|s| s.column == "status"));
    assert!(val.source_columns.iter().any(|s| s.column == "amount"));
}

#[test]
fn test_col_lineage_alias_resolution() {
    let lineage = extract_column_lineage(
        "CREATE TABLE mart.orders AS \
         SELECT o.id AS order_id, p.amount \
         FROM raw.orders o \
         JOIN raw.payments p ON o.id = p.order_id;",
    );
    let order_id = lineage.iter().find(|c| c.target_column == "order_id").unwrap();
    assert_eq!(order_id.source_columns[0].table.as_deref(), Some("raw.orders"));
    assert_eq!(order_id.source_columns[0].column, "id");

    let amount = lineage.iter().find(|c| c.target_column == "amount").unwrap();
    assert_eq!(amount.source_columns[0].table.as_deref(), Some("raw.payments"));
}

#[test]
fn test_col_lineage_constant() {
    let lineage = extract_column_lineage("CREATE TABLE t AS SELECT 'order' AS revenue_type FROM raw.x;");
    let rt = lineage.iter().find(|c| c.target_column == "revenue_type").unwrap();
    assert_eq!(rt.transform, TransformKind::Constant);
    assert!(rt.source_columns.is_empty());
}

#[test]
fn templated_sql_is_left_to_dbt() {
    let content = "CREATE TABLE a.b AS SELECT x FROM {{ ref('c') }};";
    assert!(scan_sql(content).is_empty());
    assert!(extract_columns_from_sql(content).get("a.b").is_none());
    assert!(extract_column_lineage(content).is_empty());
    assert_eq!(scan_dbt(content).len(), 1);
}

#[test]
fn unparsable_sql_gives_nothing() {
    assert!(scan_sql("THIS IS NOT SQL (((").is_empty());
    assert!(extract_column_lineage("THIS IS NOT SQL (((").is_empty());
}

#[test]
fn model_and_job_names_from_paths() {
    assert_eq!(model_name_from_path("models/marts/fct_orders.sql"), "fct_orders");
    assert_eq!(python_node_name("etl/jobs/load.py"), "etl/jobs/load");
    assert!(looks_like_table_name("raw.events"));
    assert!(!looks_like_table_name("SELECT * FROM x"));
}

#[test]
fn byte_offsets_map_to_lines() {
    assert_eq!(byte_offset_to_line("a\nb\nc", 0), Some(1));
    assert_eq!(byte_offset_to_line("a\nb\nc", 2), Some(2));
    assert_eq!(byte_offset_to_line("a\nb\nc", 4), Some(3));
}

#[test]
fn orchestrator_dispatches_by_extension() {
    let orch = ScanOrchestrator::default_scanners();
    assert_eq!(orch.find_scanners("sql"), vec![0, 1]);
    assert_eq!(orch.find_scanners("SQL"), vec![0, 1]);
    assert_eq!(orch.find_scanners("py"), vec![2]);
    assert!(orch.find_scanners("txt").is_empty());
    assert!(orch.handles_extension("Py"));
    assert!(!orch.handles_extension("md"));
}

#[test]
fn scan_source_accumulates_results() {
    let orch = ScanOrchestrator::default_scanners();
    let mut result = ScanResult::empty("project");
    orch.scan_source(&mut result, "models/stg_orders.sql", "sql", "SELECT * FROM {{ ref('raw_orders') }}").unwrap();
    orch.scan_source(
        &mut result,
        "sql/mart.sql",
        "sql",
        "CREATE TABLE mart.orders AS SELECT id, amount FROM raw.orders;",
    )
    .unwrap();
    orch.scan_source(&mut result, "README.md", "md", "# nothing").unwrap();
    orch.scan_source(&mut result, "etl/job.py", "py", r#"df.to_sql("staging.events")"#).unwrap();
    assert_eq!(result.files_scanned, 3);
    assert_eq!(result.edges.len(), 3);
    assert_eq!(result.edges[0].relation, EdgeRelation::DbtRef);
    assert_eq!(result.edges[1].relation, EdgeRelation::CreateTableAs);
    assert_eq!(result.edges[2].target.0, "staging.events");
    assert_eq!(result.column_map.get("mart.orders").unwrap(), &["id", "amount"]);
    assert_eq!(result.col_lineage.len(), 2);
    assert_eq!(result.root, "project");
}

#[test]
fn scan_source_appends_columns_of_a_table() {
    let orch = ScanOrchestrator::default_scanners();
    let mut result = ScanResult::empty(".");
    orch.scan_source(&mut result, "a.sql", "sql", "CREATE TABLE t AS SELECT a FROM x;").unwrap();
    orch.scan_source(&mut result, "b.sql", "sql", "CREATE TABLE t AS SELECT b FROM y;").unwrap();
    assert_eq!(result.column_map.get("t").unwrap(), &["a", "b"]);
}

#[test]
fn function_names_are_compared_in_upper_case() {
    let lineage = extract_column_lineage(
        "CREATE TABLE t AS SELECT sum(amount) AS total, lag(amount, 1) OVER (ORDER BY d) AS prev, upper(name) AS n FROM raw.x;",
    );
    let total = lineage.iter().find(|c| c.target_column == "total").unwrap();
    assert_eq!(total.transform, TransformKind::Aggregation("SUM".to_string()));
    let prev = lineage.iter().find(|c| c.target_column == "prev").unwrap();
    assert_eq!(prev.transform, TransformKind::Window("LAG".to_string()));
    let n = lineage.iter().find(|c| c.target_column == "n").unwrap();
    assert_eq!(n.transform, TransformKind::Expression);
    assert_eq!(n.source_columns[0].column, "name");
}

#[test]
fn cte_chain_leaves_only_the_real_table() {
    let edges = scan_sql(
        "CREATE TABLE mart.t AS \
         WITH paid_orders AS (SELECT * FROM raw.orders), \
         final_cte AS (SELECT * FROM paid_orders) \
         SELECT * FROM final_cte;",
    );
    assert_eq!(edges.len(), 1);
    assert_eq!(edges[0].source, NodeId::from("raw.orders"));
    assert_eq!(edges[0].target, NodeId::from("mart.t"));
    assert_eq!(edges[0].relation, EdgeRelation::CreateTableAs);
}

#[test]
fn cte_names_stay_internal_in_subqueries() {
    let edges = scan_sql(
        "CREATE VIEW v AS \
         WITH a AS (SELECT * FROM raw.t) \
         SELECT * FROM (SELECT * FROM a) s JOIN raw.u ON s.id = raw.u.id;",
    );
    let sources: Vec<_> = edges.iter().map(|e| e.source.0.as_str()).collect();
    assert_eq!(sources, vec!["raw.t", "raw.u"]);
}

#[test]
fn col_lineage_follows_aliases_through_ctes() {
    let lineage = extract_column_lineage(
        "CREATE TABLE mart.order_summary AS \
         WITH paid_orders AS (SELECT order_id, user_id, amount FROM raw.orders), \
         users AS (SELECT id, email FROM raw.users) \
         SELECT p.order_id, u.email, p.amount \
         FROM paid_orders p JOIN users u ON p.user_id = u.id;",
    );
    assert_eq!(lineage.len(), 3);
    let expected = [
        ("order_id", "raw.orders", "order_id"),
        ("email", "raw.users", "email"),
        ("amount", "raw.orders", "amount"),
    ];
    for (col, table, source) in expected {
        let l = lineage.iter().find(|c| c.target_column == col).unwrap();
        assert_eq!(l.target_table, "mart.order_summary");
        assert_eq!(l.transform, TransformKind::Direct);
        assert_eq!(l.source_columns.len(), 1);
        assert_eq!(l.source_columns[0].table.as_deref(), Some(table));
        assert_eq!(l.source_columns[0].column, source);
    }
}

#[test]
fn col_lineage_reads_unqualified_columns_from_the_only_table() {
    let lineage = extract_column_lineage("CREATE TABLE stg.orders AS SELECT id AS order_id FROM raw.orders;");
    assert_eq!(lineage[0].source_columns[0].table.as_deref(), Some("raw.orders"));
    assert_eq!(lineage[0].source_columns[0].column, "id");
    let joined = extract_column_lineage(
        "CREATE TABLE t AS SELECT id FROM raw.a JOIN raw.b ON raw.a.k = raw.b.k;",
    );
    assert_eq!(joined[0].source_columns[0].table, None);
}

#[test]
fn col_lineage_keeps_the_transform_of_a_cte_column() {
    let lineage = extract_column_lineage(
        "CREATE TABLE mart.s AS \
         WITH totals AS (SELECT user_id, SUM(amount) AS total FROM raw.orders GROUP BY user_id) \
         SELECT t.user_id, t.total, t.missing FROM totals t;",
    );
    let total = lineage.iter().find(|c| c.target_column == "total").unwrap();
    assert_eq!(total.transform, TransformKind::Aggregation("SUM".to_string()));
    assert_eq!(total.source_columns[0].table.as_deref(), Some("raw.orders"));
    assert_eq!(total.source_columns[0].column, "amount");
    let user = lineage.iter().find(|c| c.target_column == "user_id").unwrap();
    assert_eq!(user.source_columns[0].table.as_deref(), Some("raw.orders"));
    let missing = lineage.iter().find(|c| c.target_column == "missing").unwrap();
    assert_eq!(missing.source_columns[0].table.as_deref(), Some("totals"));
    assert_eq!(missing.transform, TransformKind::Direct);
}
