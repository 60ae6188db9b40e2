//! The results table: its columns and the SQL statements that create and
//! fill it.

use vstd::prelude::*;
use crate::args::strings_view;
use crate::text::{concat_str, decimal, u64_to_decimal};

verus! {

/// The measured quantities that each get a column per statistic.
pub open spec fn stat_prefixes() -> Seq<Seq<char>> {
    seq![
        "itl_ms"@,
        "ttft_s"@,
        "e2e_latency_s"@,
        "prefill_tps"@,
        "decode_tps"@,
        "input_tokens"@,
        "output_tokens"@,
    ]
}

/// The statistics kept of each quantity, in column order.
pub open spec fn stat_suffixes() -> Seq<Seq<char>> {
    seq![
        "mean"@,
        "median"@,
        "stddev"@,
        "min"@,
        "max"@,
        "p25"@,
        "p50"@,
        "p75"@,
        "p90"@,
        "p95"@,
        "p99"@,
    ]
}

/// `<quantity>_<statistic>`.
pub open spec fn stat_column(p: int, q: int) -> Seq<char> {
    stat_prefixes()[p] + "_"@ + stat_suffixes()[q]
}

/// The SQL type of a statistic column: the minimum and maximum of a token
/// count are integers, everything else is a float.
pub open spec fn stat_type(p: int, q: int) -> Seq<char> {
    if p >= 5 && (q == 3 || q == 4) {
        "BIGINT"@
    } else {
        "DOUBLE PRECISION"@
    }
}

/// A statistic column's name, or its definition in `CREATE TABLE`.
pub open spec fn stat_entry(p: int, q: int, with_types: bool) -> Seq<char> {
    if with_types {
        stat_column(p, q) + " "@ + stat_type(p, q) + " NOT NULL"@
    } else {
        stat_column(p, q)
    }
}

/// Every statistic column, quantity by quantity.
pub open spec fn stat_entries(with_types: bool) -> Seq<Seq<char>> {
    Seq::new(77, |i: int| stat_entry(i / 11, i % 11, with_types))
}

/// The columns of the run itself, in the order they are inserted.
pub open spec fn base_insert_columns() -> Seq<Seq<char>> {
    seq![
        "timestamp"@,
        "model"@,
        "num_concurrent_requests"@,
        "mean_input_tokens"@,
        "mean_output_tokens"@,
        "args"@,
        "finish_reason_stop"@,
        "finish_reason_length"@,
        "error_code_frequency"@,
        "number_errors"@,
        "num_requests_started"@,
        "num_completed_requests"@,
        "num_completed_requests_per_min"@,
        "error_rate"@,
        "cache_hit_rate"@,
    ]
}

/// The definitions of the run's own columns in `CREATE TABLE`.
pub open spec fn base_definitions() -> Seq<Seq<char>> {
    seq![
        "id BIGSERIAL PRIMARY KEY"@,
        "timestamp BIGINT NOT NULL"@,
        "model TEXT NOT NULL"@,
        "num_concurrent_requests BIGINT NOT NULL"@,
        "mean_input_tokens BIGINT NOT NULL"@,
        "mean_output_tokens BIGINT NOT NULL"@,
        "args JSONB NOT NULL"@,
        "finish_reason_stop BIGINT NOT NULL DEFAULT 0"@,
        "finish_reason_length BIGINT NOT NULL DEFAULT 0"@,
        "error_code_frequency JSONB NOT NULL"@,
        "number_errors BIGINT NOT NULL"@,
        "num_requests_started BIGINT NOT NULL"@,
        "num_completed_requests BIGINT NOT NULL"@,
        "num_completed_requests_per_min DOUBLE PRECISION NOT NULL"@,
        "error_rate DOUBLE PRECISION NOT NULL"@,
    ]
}

/// The items one after another with `sep` between each two.
pub open spec fn join(items: Seq<Seq<char>>, sep: Seq<char>) -> Seq<char>
    decreases items.len(),
{
    if items.len() == 0 {
        seq![]
    } else if items.len() == 1 {
        items[0]
    } else {
        join(items.drop_last(), sep) + sep + items.last()
    }
}

/// The bind parameters `$1` to `$n`.
pub open spec fn placeholders(n: nat) -> Seq<Seq<char>> {
    Seq::new(n, |i: int| "$"@ + decimal((i + 1) as nat))
}

/// Every inserted column, in bind order.
pub open spec fn spec_insert_columns() -> Seq<Seq<char>> {
    base_insert_columns() + stat_entries(false)
}

pub open spec fn spec_insert_sql() -> Seq<char> {
    let cols = spec_insert_columns();
    "INSERT INTO benchmark_results ("@ + join(cols, ", "@) + ") VALUES ("@ + join(
        placeholders(cols.len()),
        ", "@,
    ) + ")"@
}

pub open spec fn spec_create_table_sql() -> Seq<char> {
    "CREATE TABLE IF NOT EXISTS benchmark_results ("@ + join(
        base_definitions() + stat_entries(true),
        ", "@,
    ) + ")"@
}

fn stat_prefix(p: usize) -> (s: &'static str)
    requires
        p < 7,
    ensures
        s@ == stat_prefixes()[p as int],
{
    match p {
        0 => "itl_ms",
        1 => "ttft_s",
        2 => "e2e_latency_s",
        3 => "prefill_tps",
        4 => "decode_tps",
        5 => "input_tokens",
        _ => "output_tokens",
    }
}

fn stat_suffix(q: usize) -> (s: &'static str)
    requires
        q < 11,
    ensures
        s@ == stat_suffixes()[q as int],
{
    match q {
        0 => "mean",
        1 => "median",
        2 => "stddev",
        3 => "min",
        4 => "max",
        5 => "p25",
        6 => "p50",
        7 => "p75",
        8 => "p90",
        9 => "p95",
        _ => "p99",
    }
}

/// Appends every statistic column's name, or definition, to `out`.
fn push_stat_entries(out: &mut Vec<String>, with_types: bool)
    ensures
        strings_view(final(out)@) == strings_view(old(out)@) + stat_entries(with_types),
{
    let ghost start = strings_view(out@);
    let mut p: usize = 0;
    while p < 7
        invariant
            p <= 7,
            strings_view(out@) =~= start + stat_entries(with_types).take(p * 11),
        decreases 7 - p,
    {
        let mut q: usize = 0;
        while q < 11
            invariant
                p < 7,
                q <= 11,
                strings_view(out@) =~= start + stat_entries(with_types).take(p * 11 + q),
            decreases 11 - q,
        {
            let mut c = concat_str(stat_prefix(p), "_");
            c.append(stat_suffix(q));
            if with_types {
                if p >= 5 && (q == 3 || q == 4) {
                    c.append(" BIGINT NOT NULL");
                } else {
                    c.append(" DOUBLE PRECISION NOT NULL");
                }
            }
            proof {
                let k = p * 11 + q;
                assert(k / 11 == p as int && k % 11 == q as int) by (nonlinear_arith)
                    requires
                        k == p * 11 + q,
                        q < 11,
                ;
                reveal_strlit(" BIGINT NOT NULL");
                reveal_strlit(" DOUBLE PRECISION NOT NULL");
                reveal_strlit(" NOT NULL");
                reveal_strlit(" ");
                reveal_strlit("BIGINT");
                reveal_strlit("DOUBLE PRECISION");
                assert(c@ =~= stat_entry(p as int, q as int, with_types));
                assert(stat_entries(with_types).take(k + 1) =~= stat_entries(with_types).take(
                    k,
                ).push(c@));
            }
            let ghost before = out@;
            out.push(c);
            assert(strings_view(out@) =~= strings_view(before).push(out@.last()@));
            q = q + 1;
        }
        p = p + 1;
    }
    assert(stat_entries(with_types).take(77) =~= stat_entries(with_types));
}

/// The items joined with `sep`.
fn join_strings(items: &Vec<String>, sep: &str) -> (r: String)
    ensures
        r@ == join(strings_view(items@), sep@),
{
    let mut r = String::new();
    let mut i: usize = 0;
    while i < items.len()
        invariant
            i <= items@.len(),
            r@ == join(strings_view(items@.take(i as int)), sep@),
        decreases items@.len() - i,
    {
        let ghost prev = strings_view(items@.take(i as int));
        let ghost next = strings_view(items@.take(i + 1));
        assert(next.drop_last() =~= prev);
        assert(next.last() == items@[i as int]@);
        if i > 0 {
            r.append(sep);
        } else {
            assert(r@ =~= Seq::<char>::empty());
        }
        r.append(items[i].as_str());
        assert(r@ =~= join(next, sep@));
        i = i + 1;
    }
    assert(items@.take(i as int) =~= items@);
    r
}

/// The bind parameters `$1` to `$n`.
fn placeholder_list(n: usize) -> (r: Vec<String>)
    requires
        n < u64::MAX,
    ensures
        strings_view(r@) == placeholders(n as nat),
{
    let mut r: Vec<String> = Vec::new();
    let mut j: usize = 0;
    while j < n
        invariant
            j <= n,
            n < u64::MAX,
            strings_view(r@) =~= placeholders(j as nat),
        decreases n - j,
    {
        let mut s = "$".to_owned();
        s.append(u64_to_decimal(j as u64 + 1).as_str());
        let ghost before = r@;
        r.push(s);
        assert(strings_view(r@) =~= strings_view(before).push(r@.last()@));
        j = j + 1;
    }
    r
}

/// The inserted columns, in the order their values are bound.
pub fn insert_columns() -> (r: Vec<String>)
    ensures
        strings_view(r@) == spec_insert_columns(),
{
    let mut r: Vec<String> = Vec::new();
    r.push("timestamp".to_owned());
    r.push("model".to_owned());
    r.push("num_concurrent_requests".to_owned());
    r.push("mean_input_tokens".to_owned());
    r.push("mean_output_tokens".to_owned());
    r.push("args".to_owned());
    r.push("finish_reason_stop".to_owned());
    r.push("finish_reason_length".to_owned());
    r.push("error_code_frequency".to_owned());
    r.push("number_errors".to_owned());
    r.push("num_requests_started".to_owned());
    r.push("num_completed_requests".to_owned());
    r.push("num_completed_requests_per_min".to_owned());
    r.push("error_rate".to_owned());
    r.push("cache_hit_rate".to_owned());
    assert(strings_view(r@) =~= base_insert_columns());
    push_stat_entries(&mut r, false);
    r
}

/// The statement that inserts one run: every column of
/// [`insert_columns`], bound to `$1`, `$2`, ... in that order.
pub fn insert_sql() -> (s: String)
    ensures
        s@ == spec_insert_sql(),
{
    let cols = insert_columns();
    let n = cols.len();
    let params = placeholder_list(n);
    let mut s = "INSERT INTO benchmark_results (".to_owned();
    s.append(join_strings(&cols, ", ").as_str());
    s.append(") VALUES (");
    s.append(join_strings(&params, ", ").as_str());
    s.append(")");
    s
}

/// The statement that creates the results table when it does not exist.
pub fn create_table_sql() -> (s: String)
    ensures
        s@ == spec_create_table_sql(),
{
    let mut defs: Vec<String> = Vec::new();
    defs.push("id BIGSERIAL PRIMARY KEY".to_owned());
    defs.push("timestamp BIGINT NOT NULL".to_owned());
    defs.push("model TEXT NOT NULL".to_owned());
    defs.push("num_concurrent_requests BIGINT NOT NULL".to_owned());
    defs.push("mean_input_tokens BIGINT NOT NULL".to_owned());
    defs.push("mean_output_tokens BIGINT NOT NULL".to_owned());
    defs.push("args JSONB NOT NULL".to_owned());
    defs.push("finish_reason_stop BIGINT NOT NULL DEFAULT 0".to_owned());
    defs.push("finish_reason_length BIGINT NOT NULL DEFAULT 0".to_owned());
    defs.push("error_code_frequency JSONB NOT NULL".to_owned());
    defs.push("number_errors BIGINT NOT NULL".to_owned());
    defs.push("num_requests_started BIGINT NOT NULL".to_owned());
    defs.push("num_completed_requests BIGINT NOT NULL".to_owned());
    defs.push("num_completed_requests_per_min DOUBLE PRECISION NOT NULL".to_owned());
    defs.push("error_rate DOUBLE PRECISION NOT NULL".to_owned());
    assert(strings_view(defs@) =~= base_definitions());
    push_stat_entries(&mut defs, true);
    let mut s = "CREATE TABLE IF NOT EXISTS benchmark_results (".to_owned();
    s.append(join_strings(&defs, ", ").as_str());
    s.append(")");
    s
}

} // verus!
