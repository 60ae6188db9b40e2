use llmperf::db::{create_table_sql, insert_columns, insert_sql};
use llmperf::metrics::models::MetricCounts;

#[test]
fn insert_statement_binds_every_column_in_order() {
    let cols = insert_columns();
    assert_eq!(cols.len(), 15 + 7 * 11);
    assert_eq!(cols[0], "timestamp");
    assert_eq!(cols[14], "cache_hit_rate");
    assert_eq!(cols[15], "itl_ms_mean");
    assert_eq!(cols[18], "itl_ms_min");
    assert_eq!(cols[91], "output_tokens_p99");
    let sql = insert_sql();
    let expected_params: Vec<String> = (1..=92).map(|i| format!("${i}")).collect();
    let expected = format!(
        "INSERT INTO benchmark_results ({}) VALUES ({})",
        cols.join(", "),
        expected_params.join(", ")
    );
    assert_eq!(sql, expected);
}

#[test]
fn create_statement_types_token_extremes_as_integers() {
    let sql = create_table_sql();
    assert!(sql.starts_with("CREATE TABLE IF NOT EXISTS benchmark_results (id BIGSERIAL PRIMARY KEY, timestamp BIGINT NOT NULL, model TEXT NOT NULL"));
    assert!(sql.ends_with("output_tokens_p99 DOUBLE PRECISION NOT NULL)"));
    assert!(sql.contains(", input_tokens_min BIGINT NOT NULL, input_tokens_max BIGINT NOT NULL, "));
    assert!(sql.contains(", output_tokens_max BIGINT NOT NULL, "));
    assert!(sql.contains(", itl_ms_min DOUBLE PRECISION NOT NULL, "));
    assert!(sql.contains("finish_reason_length BIGINT NOT NULL DEFAULT 0, error_code_frequency JSONB NOT NULL"));
    assert!(!sql.contains("cache_hit_rate"));
    assert_eq!(sql.matches(" NOT NULL").count(), 14 + 77);
}

#[test]
fn finished_turn_total_is_input_plus_output() {
    let mut m = MetricCounts::for_turn(10, 20, 0);
    m.number_total_tokens = 999;
    m.cached_tokens = Some(4);
    m.recompute_total();
    assert_eq!(m.number_total_tokens, 30);
    assert_eq!(m.cached_tokens, Some(4));
    assert_eq!(m.number_input_tokens, 10);
}
