use pql::aggregation::{AstNode, GroupByAttr};
use pql::error::PqlError;
use pql::names::NameMap;
use pql::number::Rational;
use pql::policy::{PolicyMap, PrivacyPolicy};
use pql::process::{Column, NumberColumn, ProcessStatement, StringColumn};
use pql::resolve::{replace_tables, ProcessMap, SplitMap};
use pql::sensitivity::{sensitivity_composition, table_sensitivity, ColumnInfo, TableSensitivity};
use pql::split::SplitStatement;

fn whole(n: i128) -> Rational {
    Rational::from_int(n)
}

fn split(camera: &str, begin: u64, end: u64, chunk_ms: u64, into: &str) -> SplitStatement {
    SplitStatement {
        camera_name: camera.to_string(),
        start_time: begin,
        end_time: end,
        chunk_length_ms: chunk_ms,
        output_name: into.to_string(),
    }
}

fn text_col(name: &str) -> Column {
    Column::String(StringColumn { name: name.to_string(), default: String::from("null") })
}

fn num_col(name: &str) -> Column {
    Column::Number(NumberColumn { name: name.to_string(), default: whole(0) })
}

fn process(input: &str, maxrow: u64, schema: Vec<Column>, into: &str) -> ProcessStatement {
    ProcessStatement {
        input_name: input.to_string(),
        model_name: String::from("yolov3"),
        chunk_timeout_ms: 1000,
        maxrow,
        schema,
        output_table_name: into.to_string(),
    }
}

fn statements(
    splits: Vec<SplitStatement>,
    processes: Vec<ProcessStatement>,
) -> (SplitMap, ProcessMap) {
    let mut s = NameMap::new();
    for x in splits {
        s.insert(x.output_name.clone(), x);
    }
    let mut p = NameMap::new();
    for x in processes {
        p.insert(x.output_table_name.clone(), x);
    }
    (s, p)
}

// SPLIT cam1 BEGIN 0 END 0 BY TIME 5sec INTO chunks1;
// PROCESS chunks1 ... PRODUCING 10 ROWS WITH SCHEMA (plate:STRING=null, speed:NUMBER=0) INTO table1;
fn table_one() -> (Vec<SplitStatement>, Vec<ProcessStatement>) {
    (
        vec![split("cam1", 0, 0, 5000, "chunks1")],
        vec![process("chunks1", 10, vec![text_col("plate"), num_col("speed")], "table1")],
    )
}

// SPLIT cam2 BEGIN 0 END 0 BY TIME 1sec INTO chunks2;
// PROCESS chunks2 ... PRODUCING 2 ROWS WITH SCHEMA (plate:STRING=null, speed:NUMBER=0) INTO table2;
fn table_two() -> (Vec<SplitStatement>, Vec<ProcessStatement>) {
    (
        vec![split("cam2", 0, 0, 1000, "chunks2")],
        vec![process("chunks2", 2, vec![text_col("plate"), num_col("speed")], "table2")],
    )
}

// SPLIT auburn BEGIN 0 END 43200 BY TIME 30sec INTO auburn_chunks;
// PROCESS auburn_chunks ... PRODUCING 1 ROWS WITH SCHEMA (ppl:NUMBER=0) INTO auburnPpl;
fn table_fig5() -> (Vec<SplitStatement>, Vec<ProcessStatement>) {
    (
        vec![split("auburn", 0, 43200, 30000, "auburn_chunks")],
        vec![process("auburn_chunks", 1, vec![num_col("ppl")], "auburnPpl")],
    )
}

fn table_porto() -> (Vec<SplitStatement>, Vec<ProcessStatement>) {
    (
        vec![
            split("porto10", 0, 31536000, 15000, "chunks10"),
            split("porto27", 0, 31536000, 15000, "chunks27"),
        ],
        vec![
            process("chunks10", 3, vec![text_col("plate")], "table10"),
            process("chunks27", 3, vec![text_col("plate")], "table27"),
        ],
    )
}

fn both(
    a: (Vec<SplitStatement>, Vec<ProcessStatement>),
    b: (Vec<SplitStatement>, Vec<ProcessStatement>),
) -> (Vec<SplitStatement>, Vec<ProcessStatement>) {
    let (mut s, mut p) = a;
    s.extend(b.0);
    p.extend(b.1);
    (s, p)
}

fn static_policy(k: u64, rho: u64) -> PrivacyPolicy {
    PrivacyPolicy::Static { k_segments: k, epsilon: whole(1), rho_ms: rho }
}

fn policies() -> PolicyMap {
    let mut m = NameMap::new();
    m.insert(String::from("cam1"), static_policy(1, 30_000));
    m.insert(String::from("cam2"), static_policy(1, 30_000));
    m.insert(String::from("auburn"), static_policy(1, 49_000));
    m
}

fn policies_porto() -> PolicyMap {
    let mut m = NameMap::new();
    m.insert(String::from("porto10"), static_policy(1, 45_000));
    m.insert(String::from("porto27"), static_policy(1, 195_000));
    m
}

fn names(ns: &[&str]) -> AstNode {
    AstNode::TableNames(ns.iter().map(|n| n.to_string()).collect())
}

fn agg(function: &str, inner: &str, range: Option<(i128, i128)>, alias: &str) -> AstNode {
    AstNode::Aggregation {
        function: function.to_string(),
        inner: inner.to_string(),
        range: range.map(|(l, u)| (whole(l), whole(u))),
        alias: alias.to_string(),
    }
}

fn col(name: &str) -> AstNode {
    AstNode::Column(name.to_string())
}

fn select(exprs: Vec<AstNode>, from: AstNode, qualifiers: Vec<AstNode>) -> AstNode {
    AstNode::Select { exprs, from: Box::new(from), qualifiers }
}

fn union(tables: Vec<AstNode>, on: &str) -> AstNode {
    AstNode::Union { tables, on: Box::new(col(on)) }
}

fn intersect(tables: Vec<AstNode>, on: &str) -> AstNode {
    AstNode::Intersect { tables, on: Box::new(col(on)) }
}

fn equijoin(tables: Vec<AstNode>, on: &str) -> AstNode {
    AstNode::Equijoin { tables, on: Box::new(col(on)) }
}

fn group_by(attrs: Vec<GroupByAttr>) -> AstNode {
    AstNode::GroupBy { attrs }
}

fn bin_day(column: &str) -> GroupByAttr {
    GroupByAttr::Bin { column: column.to_string(), size: 86_400_000, alias: String::from("day") }
}

fn by_col(name: &str) -> GroupByAttr {
    GroupByAttr::Column(name.to_string())
}

fn analyse(
    tables: (Vec<SplitStatement>, Vec<ProcessStatement>),
    policies: &PolicyMap,
    query: AstNode,
) -> Result<TableSensitivity, PqlError> {
    let (s, p) = statements(tables.0, tables.1);
    let bound = replace_tables(&s, &p, query)?;
    sensitivity_composition(&bound, policies)
}

fn value(r: &Rational) -> f64 {
    r.num as f64 / r.den as f64
}

// The release sensitivity of the one output column: a released bound as it
// stands, a range as its width times the rows that one individual accounts for.
fn release_sensitivity(res: &TableSensitivity, column: &str) -> f64 {
    match res.column(column).expect("no such column") {
        ColumnInfo::Release(x) => value(&x),
        ColumnInfo::Range(l, u) => (value(&u) - value(&l)) * res.rows() as f64,
        other => panic!("not bounded: {:?}", other),
    }
}

fn check_result(
    tables: (Vec<SplitStatement>, Vec<ProcessStatement>),
    policies: PolicyMap,
    query: AstNode,
    column: &str,
    expected: f64,
) {
    let res = analyse(tables, &policies, query).unwrap();
    assert_eq!(res.columns().len(), 1);
    assert_eq!(release_sensitivity(&res, column), expected);
}

#[test]
fn simple_count() {
    // SELECT count(plate) FROM table1;
    let q = select(vec![agg("count", "plate", None, "count(plate)")], names(&["table1"]), vec![]);
    check_result(table_one(), policies(), q, "count(plate)", 70.0);
}

#[test]
fn simple_sum() {
    // SELECT sum(speed,l=0,u=10) FROM table1;
    let q = select(
        vec![agg("sum", "speed", Some((0, 10)), "sum(speed,l=0,u=10)")],
        names(&["table1"]),
        vec![],
    );
    check_result(table_one(), policies(), q, "sum(speed,l=0,u=10)", 700.0);
}

#[test]
fn simple_union() {
    // SELECT count(plate) FROM (table1 UNION table2 ON plate);
    let q = select(
        vec![agg("count", "plate", None, "count(plate)")],
        union(vec![names(&["table1"]), names(&["table2"])], "plate"),
        vec![],
    );
    check_result(both(table_one(), table_two()), policies(), q, "count(plate)", 132.0);
}

#[test]
fn simple_window() {
    // SELECT sum(ppl,l=0,u=6) FROM auburnPpl WITH WINDOW 2 hrs ;
    let q = select(
        vec![agg("sum", "ppl", Some((0, 6)), "sum(ppl,l=0,u=6)")],
        names(&["auburnPpl"]),
        vec![AstNode::DurationMs(7_200_000)],
    );
    check_result(table_fig5(), policies(), q, "sum(ppl,l=0,u=6)", 18.0);
}

#[test]
fn porto_union() {
    // SELECT mean(avg_shift) FROM
    //   (SELECT mean(shift) as avg_shift FROM
    //     (SELECT plate,day,USER_shift(chunk,l=0,u=16) as shift FROM
    //       (table10 UNION table27 ON plate) GROUP BY plate,bin(chunk,day))
    //   GROUP BY plate LIMIT 300);
    let inner = select(
        vec![
            col("plate"),
            col("day"),
            AstNode::UserF {
                function: String::from("USER_shift"),
                column: String::from("chunk"),
                range: Some((whole(0), whole(16))),
                alias: String::from("shift"),
            },
        ],
        union(vec![names(&["table10"]), names(&["table27"])], "plate"),
        vec![group_by(vec![by_col("plate"), bin_day("chunk")])],
    );
    let middle = select(
        vec![agg("mean", "shift", None, "avg_shift")],
        inner,
        vec![group_by(vec![by_col("plate")]), AstNode::Limit { rows: 300 }],
    );
    let q = select(vec![agg("mean", "avg_shift", None, "mean(avg_shift)")], middle, vec![]);
    let res = analyse(table_porto(), &policies_porto(), q).unwrap();
    // rows: 3 * (1 + 3) + 3 * (1 + 13) = 54; 16 * 54 / 300, then over 365 days.
    assert_eq!(res.rows(), 54);
    assert_eq!(res.size_constraint(), Some(365));
    assert_eq!(
        res.column("mean(avg_shift)"),
        Some(ColumnInfo::Release(Rational { num: 864, den: 300 * 365 }))
    );
}

#[test]
fn porto_intersection() {
    // SELECT mean(perday) FROM
    //   (SELECT day,count(plate) as perday FROM
    //     (table10 INTERSECT table27 ON plate) GROUP BY plate,bin(chunk,day));
    let inner = select(
        vec![col("day"), agg("count", "plate", None, "perday")],
        intersect(vec![names(&["table10"]), names(&["table27"])], "plate"),
        vec![group_by(vec![by_col("plate"), bin_day("chunk")])],
    );
    let q = select(vec![agg("mean", "perday", None, "mean(perday)")], inner, vec![]);
    let res = analyse(table_porto(), &policies_porto(), q).unwrap();
    assert_eq!(res.rows(), 1);
    assert_eq!(release_sensitivity(&res, "mean(perday)"), 54.0 / 365.0);
}

#[test]
fn porto_argmax() {
    // SELECT argmax(table) FROM
    //   (SELECT table,mean(perday) FROM
    //     (SELECT table,day,count(plate) as perday FROM
    //       (table10 UNION table27 ON plate) GROUP BY table,bin(chunk,day)));
    let inner = select(
        vec![col("table"), col("day"), agg("count", "plate", None, "perday")],
        union(vec![names(&["table10"]), names(&["table27"])], "plate"),
        vec![group_by(vec![by_col("table"), bin_day("chunk")])],
    );
    let middle = select(vec![col("table"), agg("mean", "perday", None, "mean(perday)")], inner, vec![]);
    let q = select(vec![agg("argmax", "table", None, "argmax(table)")], middle, vec![]);
    // No table has a column named `table`.
    assert_eq!(
        analyse(table_porto(), &policies_porto(), q).unwrap_err(),
        PqlError::UnknownColumn(String::from("table"))
    );
}

#[test]
fn table_rows_follow_policy() {
    let (s, p) = table_one();
    assert_eq!(table_sensitivity(&s[0], &p[0], &policies()), Ok(70));
    let (s, p) = table_two();
    assert_eq!(table_sensitivity(&s[0], &p[0], &policies()), Ok(62));
    // rho is a whole number of chunks: 1 + 30000 / 5000 = 7 chunks, 2 segments.
    let mut m = NameMap::new();
    m.insert(String::from("cam1"), static_policy(2, 30_000));
    let (s, p) = table_one();
    assert_eq!(table_sensitivity(&s[0], &p[0], &m), Ok(140));
    // rho not a whole number: 1 + ceil(30001 / 5000) = 8.
    let mut m = NameMap::new();
    m.insert(String::from("cam1"), static_policy(1, 30_001));
    assert_eq!(table_sensitivity(&s[0], &p[0], &m), Ok(80));
}

#[test]
fn table_without_policy_fails() {
    let (s, p) = table_one();
    assert_eq!(
        table_sensitivity(&s[0], &p[0], &policies_porto()),
        Err(PqlError::UnknownPolicy(String::from("cam1")))
    );
}

#[test]
fn mask_policy_fails() {
    let mut m = NameMap::new();
    m.insert(String::from("cam1"), PrivacyPolicy::Mask {});
    let (s, p) = table_one();
    assert_eq!(table_sensitivity(&s[0], &p[0], &m), Err(PqlError::MaskPolicyNotImplemented));
}

#[test]
fn zero_chunk_length_fails() {
    let s = split("cam1", 0, 10, 0, "chunks1");
    let (_, p) = table_one();
    assert_eq!(
        table_sensitivity(&s, &p[0], &policies()),
        Err(PqlError::InvalidSplit(String::from("chunks1")))
    );
}

#[test]
fn huge_row_bound_overflows() {
    let mut m = NameMap::new();
    m.insert(String::from("cam1"), static_policy(u64::MAX, 30_000));
    let (s, p) = table_one();
    assert_eq!(table_sensitivity(&s[0], &p[0], &m), Err(PqlError::Overflow));
}

#[test]
fn end_before_start_fails() {
    let tables = (
        vec![split("cam1", 10, 5, 5000, "chunks1")],
        vec![process("chunks1", 10, vec![text_col("plate")], "table1")],
    );
    let q = select(vec![agg("count", "plate", None, "c")], names(&["table1"]), vec![]);
    assert_eq!(
        analyse(tables, &policies(), q).unwrap_err(),
        PqlError::InvalidSplit(String::from("chunks1"))
    );
}

#[test]
fn table_leaf_columns_and_size() {
    let tables = (
        vec![split("cam1", 0, 10, 3000, "chunks1")],
        vec![process("chunks1", 10, vec![text_col("plate"), num_col("speed")], "table1")],
    );
    let q = select(vec![col("table1.plate"), col("table1.speed"), col("chunk")], names(&["table1"]), vec![]);
    let res = analyse(tables, &policies(), q).unwrap();
    // 1 + 30000 / 3000 = 11 chunks.
    assert_eq!(res.rows(), 10 * 11);
    // ceil(10 * 1000 / 3000) = 4 chunks.
    assert_eq!(res.size_constraint(), Some(4));
    assert_eq!(res.column("table1.plate"), Some(ColumnInfo::Nan));
    assert_eq!(res.column("table1.speed"), Some(ColumnInfo::Unbound));
    assert_eq!(res.column("chunk"), Some(ColumnInfo::Range(whole(0), whole(10_000))));
}

#[test]
fn count_collapses_rows_whatever_the_column() {
    let q = select(
        vec![agg("count", "speed", Some((3, 4)), "n"), agg("sum", "speed", Some((0, 1)), "s")],
        names(&["table1"]),
        vec![],
    );
    let res = analyse(table_one(), &policies(), q).unwrap();
    assert_eq!(res.rows(), 1);
    assert_eq!(res.column("n"), Some(ColumnInfo::Range(whole(0), whole(70))));
    // A sum still counts the rows of the base table.
    assert_eq!(res.column("s"), Some(ColumnInfo::Release(whole(70))));
}

#[test]
fn sum_without_clamp_is_unbound() {
    let q = select(vec![agg("sum", "speed", None, "s")], names(&["table1"]), vec![]);
    let res = analyse(table_one(), &policies(), q).unwrap();
    assert_eq!(res.column("s"), Some(ColumnInfo::Unbound));
}

#[test]
fn function_names_ignore_case() {
    let q = select(vec![agg("SuM", "speed", Some((0, 10)), "s")], names(&["table1"]), vec![]);
    let res = analyse(table_one(), &policies(), q).unwrap();
    assert_eq!(res.column("s"), Some(ColumnInfo::Release(whole(700))));
}

#[test]
fn var_and_stddev_fail_distinctly() {
    for f in ["var", "stddev", "VAR"] {
        let q = select(vec![agg(f, "speed", Some((0, 10)), "x")], names(&["table1"]), vec![]);
        assert_eq!(
            analyse(table_one(), &policies(), q).unwrap_err(),
            PqlError::UnimplementedAggregation(f.to_string())
        );
    }
    let q = select(vec![agg("median", "speed", None, "x")], names(&["table1"]), vec![]);
    assert_eq!(
        analyse(table_one(), &policies(), q).unwrap_err(),
        PqlError::UnsupportedAggregation(String::from("median"))
    );
}

#[test]
fn mean_divides_by_size_constraint() {
    // auburn: rows 3, size constraint ceil(43200 * 1000 / 30000) = 1440.
    let q = select(vec![agg("mean", "ppl", Some((0, 6)), "m")], names(&["auburnPpl"]), vec![]);
    let res = analyse(table_fig5(), &policies(), q).unwrap();
    assert_eq!(res.size_constraint(), Some(1440));
    assert_eq!(res.column("m"), Some(ColumnInfo::Release(Rational { num: 18, den: 1440 })));
    // A limit overrides the size constraint.
    let q = select(
        vec![agg("mean", "ppl", Some((0, 6)), "m")],
        names(&["auburnPpl"]),
        vec![AstNode::Limit { rows: 9 }],
    );
    let res = analyse(table_fig5(), &policies(), q).unwrap();
    assert_eq!(release_sensitivity(&res, "m"), 2.0);
    // An unbound column gives an unbound mean.
    let q = select(vec![agg("mean", "auburnPpl.ppl", None, "m")], names(&["auburnPpl"]), vec![]);
    let res = analyse(table_fig5(), &policies(), q).unwrap();
    assert_eq!(res.column("m"), Some(ColumnInfo::Unbound));
}

#[test]
fn equijoin_keeps_no_size() {
    let q = select(
        vec![agg("mean", "x", Some((0, 6)), "m")],
        equijoin(vec![names(&["table1"]), names(&["table2"])], "plate"),
        vec![],
    );
    let res = analyse(both(table_one(), table_two()), &policies(), q).unwrap();
    assert_eq!(res.rows(), 132);
    assert_eq!(res.size_constraint(), Some(0));
    assert_eq!(res.column("m"), Some(ColumnInfo::Unbound));
}

#[test]
fn intersect_keeps_largest_size() {
    let tables = (
        vec![split("cam1", 0, 10, 5000, "chunks1"), split("cam2", 0, 10, 1000, "chunks2")],
        vec![
            process("chunks1", 10, vec![text_col("plate")], "table1"),
            process("chunks2", 2, vec![text_col("plate")], "table2"),
        ],
    );
    let q = select(
        vec![col("table1.plate"), col("table2.plate")],
        intersect(vec![names(&["table1"]), names(&["table2"])], "plate"),
        vec![],
    );
    let res = analyse(tables, &policies(), q).unwrap();
    assert_eq!(res.rows(), 132);
    assert_eq!(res.size_constraint(), Some(10));
}

#[test]
fn union_rows_do_not_shrink() {
    let one = select(vec![agg("count", "plate", None, "c")], names(&["table1"]), vec![]);
    let two = select(vec![agg("count", "plate", None, "c")], names(&["table2"]), vec![]);
    let u = select(
        vec![agg("count", "plate", None, "c")],
        union(vec![names(&["table1"]), names(&["table2"])], "plate"),
        vec![],
    );
    let tables = || both(table_one(), table_two());
    let a = analyse(tables(), &policies(), one).unwrap();
    let b = analyse(tables(), &policies(), two).unwrap();
    let c = analyse(tables(), &policies(), u).unwrap();
    assert!(release_sensitivity(&c, "c") >= release_sensitivity(&a, "c"));
    assert!(release_sensitivity(&c, "c") >= release_sensitivity(&b, "c"));
    assert_eq!(release_sensitivity(&c, "c"), 132.0);
}

#[test]
fn bin_on_non_range_fails() {
    let q = select(
        vec![col("day")],
        names(&["table1"]),
        vec![group_by(vec![bin_day("table1.plate")])],
    );
    assert_eq!(
        analyse(table_one(), &policies(), q).unwrap_err(),
        PqlError::BinOnNonRange(String::from("table1.plate"))
    );
}

#[test]
fn bin_of_zero_width_fails() {
    let q = select(
        vec![col("day")],
        names(&["table1"]),
        vec![group_by(vec![GroupByAttr::Bin {
            column: String::from("chunk"),
            size: 0,
            alias: String::from("day"),
        }])],
    );
    assert_eq!(
        analyse(table_one(), &policies(), q).unwrap_err(),
        PqlError::InvalidBinSize(String::from("day"))
    );
}

#[test]
fn bin_sets_buckets_and_size() {
    // 31536000 s is 365 days.
    let q = select(
        vec![col("day")],
        names(&["table10"]),
        vec![group_by(vec![bin_day("chunk")])],
    );
    let res = analyse(table_porto(), &policies_porto(), q).unwrap();
    assert_eq!(res.size_constraint(), Some(365));
    assert_eq!(
        res.column("day"),
        Some(ColumnInfo::Range(whole(0), Rational { num: 31_536_000_000, den: 86_400_000 }))
    );
}

#[test]
fn group_by_column_needs_every_table() {
    // Both tables have `plate`: grouping by it makes it a column.
    let q = select(
        vec![col("plate")],
        union(vec![names(&["table1"]), names(&["table2"])], "plate"),
        vec![group_by(vec![by_col("plate")])],
    );
    let res = analyse(both(table_one(), table_two()), &policies(), q).unwrap();
    assert_eq!(res.column("plate"), Some(ColumnInfo::Nan));
    // Only table1 has `lane`: grouping by it adds nothing.
    let tables = (
        vec![split("cam1", 0, 0, 5000, "chunks1"), split("cam2", 0, 0, 1000, "chunks2")],
        vec![
            process("chunks1", 10, vec![text_col("lane")], "table1"),
            process("chunks2", 2, vec![text_col("plate")], "table2"),
        ],
    );
    let q = select(
        vec![col("lane")],
        union(vec![names(&["table1"]), names(&["table2"])], "plate"),
        vec![group_by(vec![by_col("lane")])],
    );
    assert_eq!(
        analyse(tables, &policies(), q).unwrap_err(),
        PqlError::UnknownColumn(String::from("lane"))
    );
}

#[test]
fn unknown_column_fails() {
    let q = select(vec![col("speed")], names(&["table1"]), vec![]);
    assert_eq!(
        analyse(table_one(), &policies(), q).unwrap_err(),
        PqlError::UnknownColumn(String::from("speed"))
    );
}

#[test]
fn user_function_uses_its_clamp() {
    let q = select(
        vec![
            AstNode::UserF {
                function: String::from("f"),
                column: String::from("speed"),
                range: Some((whole(1), whole(2))),
                alias: String::from("a"),
            },
            AstNode::UserF {
                function: String::from("g"),
                column: String::from("speed"),
                range: None,
                alias: String::from("b"),
            },
        ],
        names(&["table1"]),
        vec![],
    );
    let res = analyse(table_one(), &policies(), q).unwrap();
    assert_eq!(res.column("a"), Some(ColumnInfo::Range(whole(1), whole(2))));
    assert_eq!(res.column("b"), Some(ColumnInfo::Unbound));
}

#[test]
fn unsupported_parts_fail() {
    let q = select(
        vec![col("chunk")],
        names(&["table1"]),
        vec![AstNode::Where { predicate: Box::new(col("x")) }],
    );
    assert_eq!(analyse(table_one(), &policies(), q).unwrap_err(), PqlError::UnsupportedQualifier);
    let q = select(vec![AstNode::Value(whole(1))], names(&["table1"]), vec![]);
    assert_eq!(analyse(table_one(), &policies(), q).unwrap_err(), PqlError::UnsupportedExpression);
    // A tree whose table names were never bound.
    let q = select(vec![col("chunk")], names(&["table1"]), vec![]);
    assert_eq!(sensitivity_composition(&q, &policies()).unwrap_err(), PqlError::UnsupportedNode);
    assert_eq!(
        sensitivity_composition(&AstNode::Tables(vec![]), &policies()).unwrap_err(),
        PqlError::EmptyTableList
    );
}

#[test]
fn analysis_is_repeatable() {
    let q = select(
        vec![agg("sum", "speed", Some((0, 10)), "s"), agg("count", "plate", None, "c")],
        union(vec![names(&["table1"]), names(&["table2"])], "plate"),
        vec![],
    );
    let (s, p) = {
        let t = both(table_one(), table_two());
        statements(t.0, t.1)
    };
    let bound = replace_tables(&s, &p, q).unwrap();
    let first = sensitivity_composition(&bound, &policies()).unwrap();
    let second = sensitivity_composition(&bound, &policies()).unwrap();
    assert_eq!(first.rows(), second.rows());
    assert_eq!(first.size_constraint(), second.size_constraint());
    assert_eq!(first.column("s"), second.column("s"));
    assert_eq!(first.column("c"), second.column("c"));
    assert_eq!(first.column("s"), Some(ColumnInfo::Release(whole(1320))));
}

#[test]
fn window_sets_size_from_chunk_range() {
    // 43200 s of video in windows of 2 hours: 6 windows; rows stay 3.
    let q = select(
        vec![agg("mean", "ppl", Some((0, 6)), "m"), agg("sum", "ppl", Some((0, 6)), "s")],
        names(&["auburnPpl"]),
        vec![AstNode::DurationMs(7_200_000)],
    );
    let res = analyse(table_fig5(), &policies(), q).unwrap();
    assert_eq!(res.rows(), 3);
    assert_eq!(res.column("s"), Some(ColumnInfo::Release(whole(18))));
    assert_eq!(res.column("m"), Some(ColumnInfo::Release(Rational { num: 18, den: 6 })));
    // Without a chunk range (after a select that drops it) the window changes nothing.
    let inner = select(vec![col("auburnPpl.ppl")], names(&["auburnPpl"]), vec![]);
    let q = select(vec![agg("mean", "auburnPpl.ppl", Some((0, 6)), "m")], inner, vec![AstNode::DurationMs(7_200_000)]);
    let res = analyse(table_fig5(), &policies(), q).unwrap();
    assert_eq!(res.column("m"), Some(ColumnInfo::Release(Rational { num: 18, den: 1440 })));
}
