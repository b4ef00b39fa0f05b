//! Sensitivity of query trees: how much one individual can change what a
//! tree releases.
use vstd::prelude::*;
use crate::aggregation::{aggregation_kind, kind_of_function, AggregationKind, AstNode, GroupByAttr};
use crate::error::PqlError;
use crate::names::NameMap;
use crate::number::{div_spec, floor_clamped, mul_spec, sub_spec, Rational};
use crate::policy::PrivacyPolicy;
use crate::process::{Column, ProcessStatement};
use crate::resolve::combined_tables;
use crate::split::SplitStatement;
use crate::text::{chars_of, column_part, has_dot, join, same_chars, split_qualified, table_part};

verus! {

/// What is known of the values of a column.
#[derive(Debug, Clone, Copy, PartialEq, Eq, Structural)]
pub enum ColumnInfo {
    /// The column is released, and one individual changes it by at most this much.
    Release(Rational),
    /// Every value of the column lies in `[low, high]`.
    Range(Rational, Rational),
    /// The column is not numeric.
    Nan,
    /// The column is numeric, with no known bound.
    Unbound,
}

/// Column bounds by column name.
pub type ColumnMap = NameMap<ColumnInfo>;

/// The sensitivity of a table.
#[derive(Debug)]
pub struct TableSensitivity {
    rows: u64,
    columns: ColumnMap,
    size_constraint: Option<u64>,
}

/// What a [`TableSensitivity`] states.
pub struct SensitivityView {
    /// The most rows of the table that one individual can account for.
    pub rows: u64,
    /// What is known of each column.
    pub columns: Map<Seq<char>, ColumnInfo>,
    /// A bound on the number of rows of the table, if one is known.
    pub size_constraint: Option<u64>,
}

impl View for TableSensitivity {
    type V = SensitivityView;

    closed spec fn view(&self) -> SensitivityView {
        SensitivityView {
            rows: self.rows,
            columns: self.columns@,
            size_constraint: self.size_constraint,
        }
    }
}

/// `ceil(a / b)`, for `b > 0`.
pub open spec fn ceil_div(a: int, b: int) -> int {
    (a + b - 1) / b
}

/// The integer `n` as a rational.
pub open spec fn int_value(n: int) -> Rational {
    Rational { num: n as i128, den: 1 }
}

/// The most rows that one individual can account for in the table produced by
/// `split` and `process`: `maxrow * k_segments * (1 + ceil(rho_ms / chunk_length_ms))`
/// under the camera's static policy.
pub open spec fn rows_bound(
    split: SplitStatement,
    process: ProcessStatement,
    policies: Map<Seq<char>, PrivacyPolicy>,
) -> Result<u64, PqlError> {
    if !policies.contains_key(split.camera_name@) {
        Err(PqlError::UnknownPolicy(split.camera_name))
    } else {
        match policies[split.camera_name@] {
            PrivacyPolicy::Static { k_segments, rho_ms, .. } => {
                if split.chunk_length_ms == 0 {
                    Err(PqlError::InvalidSplit(split.output_name))
                } else {
                    let chunks = 1 + ceil_div(rho_ms as int, split.chunk_length_ms as int);
                    let rows = process.maxrow * k_segments * chunks;
                    if rows <= u64::MAX {
                        Ok(rows as u64)
                    } else {
                        Err(PqlError::Overflow)
                    }
                }
            },
            PrivacyPolicy::Mask {  } => Err(PqlError::MaskPolicyNotImplemented),
        }
    }
}

/// The name under which a schema column of `table` is known: `table.column`
/// for text and numeric columns, the bare name for fixed ones.
pub open spec fn column_key(table: Seq<char>, c: Column) -> Seq<char> {
    match c {
        Column::String(sc) => table + "."@ + sc.name@,
        Column::Number(nc) => table + "."@ + nc.name@,
        Column::Fixed(fc) => fc.name@,
    }
}

/// What is known of a schema column before any query: nothing of text, no
/// bound on numbers, and a fixed time range in milliseconds.
pub open spec fn column_bound(c: Column) -> ColumnInfo {
    match c {
        Column::String(_) => ColumnInfo::Nan,
        Column::Number(_) => ColumnInfo::Unbound,
        Column::Fixed(fc) => ColumnInfo::Range(
            int_value(fc.range.0 * 1000),
            int_value(fc.range.1 * 1000),
        ),
    }
}

/// The columns of a table with the given schema; a later column overrides an
/// earlier one of the same name.
pub open spec fn schema_columns(table: Seq<char>, schema: Seq<Column>) -> Map<Seq<char>, ColumnInfo>
    decreases schema.len(),
{
    if schema.len() == 0 {
        Map::empty()
    } else {
        schema_columns(table, schema.drop_last()).insert(
            column_key(table, schema.last()),
            column_bound(schema.last()),
        )
    }
}

/// The sensitivity of the table produced by `split` and `process`.
pub open spec fn leaf_sensitivity(
    split: SplitStatement,
    process: ProcessStatement,
    policies: Map<Seq<char>, PrivacyPolicy>,
) -> Result<SensitivityView, PqlError> {
    match rows_bound(split, process, policies) {
        Err(e) => Err(e),
        Ok(rows) => {
            if split.end_time < split.start_time {
                Err(PqlError::InvalidSplit(split.output_name))
            } else {
                let chunks = ceil_div(
                    (split.end_time - split.start_time) * 1000,
                    split.chunk_length_ms as int,
                );
                if chunks <= u64::MAX {
                    Ok(
                        SensitivityView {
                            rows,
                            columns: schema_columns(process.output_table_name@, process.schema@),
                            size_constraint: Some(chunks as u64),
                        },
                    )
                } else {
                    Err(PqlError::Overflow)
                }
            }
        },
    }
}

/// The larger of two optional bounds, where no bound is the smallest.
pub open spec fn max_bound(a: Option<u64>, b: Option<u64>) -> Option<u64> {
    match (a, b) {
        (None, _) => b,
        (_, None) => a,
        (Some(x), Some(y)) => Some(
            if x >= y {
                x
            } else {
                y
            },
        ),
    }
}

/// The start of a combination: no rows, no columns, a size bound of zero.
pub open spec fn empty_sensitivity() -> SensitivityView {
    SensitivityView { rows: 0, columns: Map::empty(), size_constraint: Some(0) }
}

/// Adds the sensitivity `s` of one more table to the combination `acc`: rows
/// add up, columns of `s` override those of `acc`, and, where `keep_size`,
/// the size bound is the larger of the two.
pub open spec fn combine(acc: SensitivityView, s: SensitivityView, keep_size: bool) -> Result<
    SensitivityView,
    PqlError,
> {
    if acc.rows + s.rows > u64::MAX {
        Err(PqlError::Overflow)
    } else {
        Ok(
            SensitivityView {
                rows: (acc.rows + s.rows) as u64,
                columns: acc.columns.union_prefer_right(s.columns),
                size_constraint: if keep_size {
                    max_bound(acc.size_constraint, s.size_constraint)
                } else {
                    acc.size_constraint
                },
            },
        )
    }
}

/// Every table that has qualified columns (`table.column`) has one named
/// `name`: grouping by `name` then adds no privacy cost.
pub open spec fn grouped_everywhere(columns: Map<Seq<char>, ColumnInfo>, name: Seq<char>) -> bool {
    forall|k: Seq<char>|
        #![trigger columns.contains_key(k)]
        columns.contains_key(k) && has_dot(k) ==> exists|k2: Seq<char>|
            #![trigger columns.contains_key(k2)]
            columns.contains_key(k2) && has_dot(k2) && table_part(k2) == table_part(k)
                && column_part(k2) == name
}

/// One attribute of a `GROUP BY`, applied to the base table and to the size
/// bound of the result; `snapshot` holds the base columns as the grouping began.
pub open spec fn group_attr(
    base: SensitivityView,
    ret_size: Option<u64>,
    snapshot: Map<Seq<char>, ColumnInfo>,
    attr: GroupByAttr,
) -> Result<(SensitivityView, Option<u64>), PqlError> {
    match attr {
        GroupByAttr::Column(c) => {
            if grouped_everywhere(snapshot, c@) {
                Ok((SensitivityView { columns: base.columns.insert(c@, ColumnInfo::Nan), ..base }, ret_size))
            } else {
                Ok((base, ret_size))
            }
        },
        GroupByAttr::Bin { column, size, alias } => {
            if base.columns.contains_key(column@) && base.columns[column@] is Range {
                let low = base.columns[column@]->Range_0;
                let high = base.columns[column@]->Range_1;
                match sub_spec(high, low) {
                    None => Err(PqlError::Overflow),
                    Some(span) => {
                        if size == 0 || span.den == 0 {
                            Err(PqlError::InvalidBinSize(alias))
                        } else {
                            match div_spec(span, size) {
                                None => Err(PqlError::Overflow),
                                Some(buckets) => {
                                    let n = floor_clamped(span.num as int, span.den * size);
                                    Ok(
                                        (
                                            SensitivityView {
                                                columns: base.columns.insert(
                                                    alias@,
                                                    ColumnInfo::Range(int_value(0), buckets),
                                                ),
                                                size_constraint: Some(n),
                                                ..base
                                            },
                                            Some(n),
                                        ),
                                    )
                                },
                            }
                        }
                    },
                }
            } else {
                Err(PqlError::BinOnNonRange(column))
            }
        },
    }
}

/// The attributes of a `GROUP BY`, applied in order.
pub open spec fn group_attrs(
    base: SensitivityView,
    ret_size: Option<u64>,
    snapshot: Map<Seq<char>, ColumnInfo>,
    attrs: Seq<GroupByAttr>,
) -> Result<(SensitivityView, Option<u64>), PqlError>
    decreases attrs.len(),
{
    if attrs.len() == 0 {
        Ok((base, ret_size))
    } else {
        match group_attr(base, ret_size, snapshot, attrs[0]) {
            Err(e) => Err(e),
            Ok((b, r)) => group_attrs(b, r, snapshot, attrs.drop_first()),
        }
    }
}

/// A time window of `window` milliseconds over the base table: where the
/// table still has its `chunk` time range `[low, high]` (in milliseconds), its
/// size bound becomes the number of whole windows in that range,
/// `floor((high - low) / window)`. Rows and columns are unchanged, and so is
/// everything where there is no such range or the window is empty.
pub open spec fn window_bound(base: SensitivityView, window: u64) -> Result<SensitivityView, PqlError> {
    if window > 0 && base.columns.contains_key("chunk"@) && base.columns["chunk"@] is Range {
        let low = base.columns["chunk"@]->Range_0;
        let high = base.columns["chunk"@]->Range_1;
        match sub_spec(high, low) {
            None => Err(PqlError::Overflow),
            Some(span) => if span.den == 0 {
                Ok(base)
            } else {
                Ok(
                    SensitivityView {
                        size_constraint: Some(floor_clamped(span.num as int, span.den * window)),
                        ..base
                    },
                )
            },
        }
    } else {
        Ok(base)
    }
}

/// One qualifier of a select, applied to the base table and to the size
/// bound of the result.
pub open spec fn qualify(base: SensitivityView, ret_size: Option<u64>, q: AstNode) -> Result<
    (SensitivityView, Option<u64>),
    PqlError,
> {
    match q {
        AstNode::GroupBy { attrs } => group_attrs(base, ret_size, base.columns, attrs@),
        AstNode::Limit { rows } => Ok((SensitivityView { size_constraint: Some(rows), ..base }, ret_size)),
        AstNode::DurationMs(window) => match window_bound(base, window) {
            Err(e) => Err(e),
            Ok(b) => Ok((b, ret_size)),
        },
        _ => Err(PqlError::UnsupportedQualifier),
    }
}

/// The qualifiers of a select, applied in order.
pub open spec fn qualify_all(base: SensitivityView, ret_size: Option<u64>, qs: Seq<AstNode>) -> Result<
    (SensitivityView, Option<u64>),
    PqlError,
>
    decreases qs.len(),
{
    if qs.len() == 0 {
        Ok((base, ret_size))
    } else {
        match qualify(base, ret_size, qs[0]) {
            Err(e) => Err(e),
            Ok((b, r)) => qualify_all(b, r, qs.drop_first()),
        }
    }
}

/// The bound of a mean over a column whose values are bounded by `work`.
pub open spec fn mean_bound(work: ColumnInfo, rows: u64, size: Option<u64>) -> Result<
    ColumnInfo,
    PqlError,
> {
    match work {
        ColumnInfo::Range(low, high) => match size {
            None => Ok(work),
            Some(sc) => if sc == 0 {
                Ok(ColumnInfo::Unbound)
            } else {
                match sub_spec(high, low) {
                    None => Err(PqlError::Overflow),
                    Some(width) => match mul_spec(width, rows) {
                        None => Err(PqlError::Overflow),
                        Some(total) => match div_spec(total, sc) {
                            None => Err(PqlError::Overflow),
                            Some(v) => Ok(ColumnInfo::Release(v)),
                        },
                    },
                }
            },
        },
        ColumnInfo::Release(r) => match size {
            None => Ok(work),
            Some(sc) => if sc == 0 {
                Ok(ColumnInfo::Unbound)
            } else {
                match div_spec(r, sc) {
                    None => Err(PqlError::Overflow),
                    Some(v) => Ok(ColumnInfo::Release(v)),
                }
            },
        },
        _ => Ok(ColumnInfo::Unbound),
    }
}

/// The bound of a sum over `rows` rows of values clamped to `range`.
pub open spec fn sum_bound(range: Option<(Rational, Rational)>, rows: u64) -> Result<
    ColumnInfo,
    PqlError,
> {
    match range {
        None => Ok(ColumnInfo::Unbound),
        Some((low, high)) => match sub_spec(high, low) {
            None => Err(PqlError::Overflow),
            Some(width) => match mul_spec(width, rows) {
                None => Err(PqlError::Overflow),
                Some(v) => Ok(ColumnInfo::Release(v)),
            },
        },
    }
}

/// `ret` with `info` stored under `name`.
pub open spec fn with_column(ret: SensitivityView, name: Seq<char>, info: ColumnInfo) -> SensitivityView {
    SensitivityView { columns: ret.columns.insert(name, info), ..ret }
}

/// One output expression of a select over `base`, added to the result `ret`.
pub open spec fn select_expr(ret: SensitivityView, base: SensitivityView, e: AstNode) -> Result<
    SensitivityView,
    PqlError,
> {
    match e {
        AstNode::Column(c) => {
            if base.columns.contains_key(c@) {
                Ok(with_column(ret, c@, base.columns[c@]))
            } else {
                Err(PqlError::UnknownColumn(c))
            }
        },
        AstNode::UserF { range, alias, .. } => Ok(
            with_column(
                ret,
                alias@,
                match range {
                    Some((low, high)) => ColumnInfo::Range(low, high),
                    None => ColumnInfo::Unbound,
                },
            ),
        ),
        AstNode::Aggregation { function, inner, range, alias } => match kind_of_function(
            function@,
        ) {
            AggregationKind::Sum => match sum_bound(range, base.rows) {
                Err(e) => Err(e),
                Ok(info) => Ok(with_column(ret, alias@, info)),
            },
            AggregationKind::Mean => {
                let work = match range {
                    Some((low, high)) => ColumnInfo::Range(low, high),
                    None => if base.columns.contains_key(inner@) {
                        base.columns[inner@]
                    } else {
                        ColumnInfo::Unbound
                    },
                };
                match mean_bound(work, base.rows, base.size_constraint) {
                    Err(e) => Err(e),
                    Ok(info) => Ok(with_column(ret, alias@, info)),
                }
            },
            AggregationKind::Count => Ok(
                SensitivityView {
                    rows: 1,
                    ..with_column(
                        ret,
                        alias@,
                        ColumnInfo::Range(int_value(0), int_value(base.rows as int)),
                    )
                },
            ),
            AggregationKind::Var => Err(PqlError::UnimplementedAggregation(function)),
            AggregationKind::Stddev => Err(PqlError::UnimplementedAggregation(function)),
            AggregationKind::Other => Err(PqlError::UnsupportedAggregation(function)),
        },
        _ => Err(PqlError::UnsupportedExpression),
    }
}

/// The output expressions of a select, added in order.
pub open spec fn select_exprs(ret: SensitivityView, base: SensitivityView, es: Seq<AstNode>) -> Result<
    SensitivityView,
    PqlError,
>
    decreases es.len(),
{
    if es.len() == 0 {
        Ok(ret)
    } else {
        match select_expr(ret, base, es[0]) {
            Err(e) => Err(e),
            Ok(r) => select_exprs(r, base, es.drop_first()),
        }
    }
}

/// A select over a table of sensitivity `base`: the qualifiers shape the
/// base, then each expression adds a column to a result that starts with the
/// base's rows, no columns and the base's size bound.
pub open spec fn select_sensitivity(
    base: SensitivityView,
    exprs: Seq<AstNode>,
    qualifiers: Seq<AstNode>,
) -> Result<SensitivityView, PqlError> {
    match qualify_all(base, base.size_constraint, qualifiers) {
        Err(e) => Err(e),
        Ok((b, ret_size)) => select_exprs(
            SensitivityView { rows: base.rows, columns: Map::empty(), size_constraint: ret_size },
            b,
            exprs,
        ),
    }
}

/// The sensitivity of a bound query tree under the given policies.
pub open spec fn composition(node: AstNode, policies: Map<Seq<char>, PrivacyPolicy>) -> Result<
    SensitivityView,
    PqlError,
>
    decreases node, 1nat, 0nat,
{
    match node {
        AstNode::Table(ss, ps) => leaf_sensitivity(ss, ps, policies),
        AstNode::Tables(ts) => {
            if ts@.len() == 0 {
                Err(PqlError::EmptyTableList)
            } else {
                composition(ts@[0], policies)
            }
        },
        AstNode::Intersect { tables, .. } => fold_tables(node, tables@.len(), policies),
        AstNode::Union { tables, .. } => fold_tables(node, tables@.len(), policies),
        AstNode::Equijoin { tables, .. } => fold_tables(node, tables@.len(), policies),
        AstNode::Select { exprs, from, qualifiers } => match composition(*from, policies) {
            Err(e) => Err(e),
            Ok(base) => select_sensitivity(base, exprs@, qualifiers@),
        },
        _ => Err(PqlError::UnsupportedNode),
    }
}

/// The first `n` tables of a combination, combined from an empty start;
/// intersections and unions keep the larger size bound, equi-joins keep none.
pub open spec fn fold_tables(node: AstNode, n: nat, policies: Map<Seq<char>, PrivacyPolicy>) -> Result<
    SensitivityView,
    PqlError,
>
    decreases node, 0nat, n,
{
    match node {
        AstNode::Intersect { tables, .. } => {
            if n == 0 || n > tables@.len() {
                Ok(empty_sensitivity())
            } else {
                match fold_tables(node, (n - 1) as nat, policies) {
                    Err(e) => Err(e),
                    Ok(acc) => match composition(tables@[n - 1], policies) {
                        Err(e) => Err(e),
                        Ok(s) => combine(acc, s, true),
                    },
                }
            }
        },
        AstNode::Union { tables, .. } => {
            if n == 0 || n > tables@.len() {
                Ok(empty_sensitivity())
            } else {
                match fold_tables(node, (n - 1) as nat, policies) {
                    Err(e) => Err(e),
                    Ok(acc) => match composition(tables@[n - 1], policies) {
                        Err(e) => Err(e),
                        Ok(s) => combine(acc, s, true),
                    },
                }
            }
        },
        AstNode::Equijoin { tables, .. } => {
            if n == 0 || n > tables@.len() {
                Ok(empty_sensitivity())
            } else {
                match fold_tables(node, (n - 1) as nat, policies) {
                    Err(e) => Err(e),
                    Ok(acc) => match composition(tables@[n - 1], policies) {
                        Err(e) => Err(e),
                        Ok(s) => combine(acc, s, false),
                    },
                }
            }
        },
        _ => Ok(empty_sensitivity()),
    }
}

/// The sensitivity that a result carries, if any.
pub open spec fn result_view(r: Result<TableSensitivity, PqlError>) -> Result<SensitivityView, PqlError> {
    match r {
        Ok(t) => Ok(t@),
        Err(e) => Err(e),
    }
}

/// A result that, where it succeeds, holds a well-formed sensitivity.
pub open spec fn result_wf(r: Result<TableSensitivity, PqlError>) -> bool {
    r matches Ok(t) ==> t.wf()
}

impl TableSensitivity {
    /// The column map is well formed.
    pub closed spec fn wf(&self) -> bool {
        self.columns.wf()
    }

    /// The start of a combination: no rows, no columns, a size bound of zero.
    pub fn empty() -> (r: TableSensitivity)
        ensures
            r.wf(),
            r@ == empty_sensitivity(),
    {
        TableSensitivity { rows: 0, columns: NameMap::new(), size_constraint: Some(0) }
    }

    /// The most rows that one individual can account for.
    pub fn rows(&self) -> (r: u64)
        ensures
            r == self@.rows,
    {
        self.rows
    }

    /// The bound on the number of rows of the table, if one is known.
    pub fn size_constraint(&self) -> (r: Option<u64>)
        ensures
            r == self@.size_constraint,
    {
        self.size_constraint
    }

    /// What is known of the column `name`, if the table has it.
    pub fn column(&self, name: &str) -> (r: Option<ColumnInfo>)
        requires
            self.wf(),
        ensures
            r.is_some() == self@.columns.contains_key(name@),
            r matches Some(c) ==> c == self@.columns[name@],
    {
        match self.columns.get(name) {
            Some(c) => Some(*c),
            None => None,
        }
    }

    /// The columns by name.
    pub fn columns(&self) -> (r: &ColumnMap)
        requires
            self.wf(),
        ensures
            r.wf(),
            r@ == self@.columns,
    {
        &self.columns
    }
}

/// The most rows that one individual can account for in the table produced
/// by `split_stmt` and `process_stmt`, under the policy of the split's camera:
/// `maxrow * k_segments * (1 + ceil(rho_ms / chunk_length_ms))`.
///
/// Fails where the camera has no policy, where its policy is a mask policy,
/// where the chunk length is zero, and where the bound exceeds `u64`.
pub fn table_sensitivity(
    split_stmt: &SplitStatement,
    process_stmt: &ProcessStatement,
    policies: &NameMap<PrivacyPolicy>,
) -> (r: Result<u64, PqlError>)
    requires
        policies.wf(),
    ensures
        r == rows_bound(*split_stmt, *process_stmt, policies@),
{
    let policy = match policies.get(split_stmt.camera_name.as_str()) {
        Some(p) => p,
        None => {
            return Err(PqlError::UnknownPolicy(split_stmt.camera_name.clone()));
        },
    };
    match policy {
        PrivacyPolicy::Static { k_segments, rho_ms, .. } => {
            if split_stmt.chunk_length_ms == 0 {
                return Err(PqlError::InvalidSplit(split_stmt.output_name.clone()));
            }
            let c = split_stmt.chunk_length_ms as u128;
            let chunks: u128 = 1 + (*rho_ms as u128 + c - 1) / c;
            let m = process_stmt.maxrow as u128;
            let k = *k_segments as u128;
            assert(m * k <= u64::MAX * u64::MAX) by (nonlinear_arith)
                requires
                    m <= u64::MAX,
                    k <= u64::MAX,
            ;
            let per_segment: u128 = m * k;
            match per_segment.checked_mul(chunks) {
                Some(rows) => {
                    if rows <= u64::MAX as u128 {
                        Ok(rows as u64)
                    } else {
                        Err(PqlError::Overflow)
                    }
                },
                None => Err(PqlError::Overflow),
            }
        },
        PrivacyPolicy::Mask {  } => Err(PqlError::MaskPolicyNotImplemented),
    }
}

/// The columns of `table` with the given schema, with their initial bounds.
fn schema_column_map(table: &String, schema: &Vec<Column>) -> (r: ColumnMap)
    ensures
        r.wf(),
        r@ == schema_columns(table@, schema@),
{
    let mut cols: ColumnMap = NameMap::new();
    let mut i: usize = 0;
    assert(schema@.subrange(0, 0) =~= Seq::<Column>::empty());
    while i < schema.len()
        invariant
            cols.wf(),
            0 <= i <= schema@.len(),
            cols@ == schema_columns(table@, schema@.subrange(0, i as int)),
        decreases schema@.len() - i,
    {
        match &schema[i] {
            Column::String(sc) => {
                let key = join(&join(table, "."), sc.name.as_str());
                cols.insert(key, ColumnInfo::Nan);
            },
            Column::Number(nc) => {
                let key = join(&join(table, "."), nc.name.as_str());
                cols.insert(key, ColumnInfo::Unbound);
            },
            Column::Fixed(fc) => {
                let low = Rational::from_int(fc.range.0 as i128 * 1000);
                let high = Rational::from_int(fc.range.1 as i128 * 1000);
                cols.insert(fc.name.clone(), ColumnInfo::Range(low, high));
            },
        }
        proof {
            let next = schema@.subrange(0, i + 1);
            assert(next.drop_last() =~= schema@.subrange(0, i as int));
            assert(next.last() == schema@[i as int]);
        }
        i = i + 1;
    }
    assert(schema@.subrange(0, i as int) =~= schema@);
    cols
}

/// The sensitivity of the table produced by `ss` and `ps`.
fn leaf_exec(ss: &SplitStatement, ps: &ProcessStatement, policies: &NameMap<PrivacyPolicy>) -> (r:
    Result<TableSensitivity, PqlError>)
    requires
        policies.wf(),
    ensures
        result_wf(r),
        result_view(r) == leaf_sensitivity(*ss, *ps, policies@),
{
    let rows = match table_sensitivity(ss, ps, policies) {
        Ok(rows) => rows,
        Err(e) => {
            return Err(e);
        },
    };
    if ss.end_time < ss.start_time {
        return Err(PqlError::InvalidSplit(ss.output_name.clone()));
    }
    let length_ms: u128 = (ss.end_time - ss.start_time) as u128 * 1000;
    let c = ss.chunk_length_ms as u128;
    let chunks: u128 = (length_ms + c - 1) / c;
    if chunks > u64::MAX as u128 {
        return Err(PqlError::Overflow);
    }
    let columns = schema_column_map(&ps.output_table_name, &ps.schema);
    Ok(TableSensitivity { rows, columns, size_constraint: Some(chunks as u64) })
}

/// Whether every table with qualified columns in `columns` has one named `name`.
fn grouped_everywhere_exec(columns: &ColumnMap, name: &str) -> (r: bool)
    requires
        columns.wf(),
    ensures
        r == grouped_everywhere(columns@, name@),
{
    proof {
        columns.lemma_dom();
    }
    let target = chars_of(name);
    let n = columns.len();
    let ghost names = columns.names();
    let mut i: usize = 0;
    while i < n
        invariant
            columns.wf(),
            n == names.len(),
            names == columns.names(),
            target@ == name@,
            0 <= i <= n,
            forall|k: Seq<char>| columns@.contains_key(k) <==> names.contains(k),
            forall|a: int|
                0 <= a < i && has_dot(#[trigger] names[a]) ==> exists|k2: Seq<char>|
                    #![trigger columns@.contains_key(k2)]
                    columns@.contains_key(k2) && has_dot(k2) && table_part(k2) == table_part(
                        names[a],
                    ) && column_part(k2) == name@,
        decreases n - i,
    {
        let (key, _) = columns.entry(i);
        match split_qualified(key.as_str()) {
            None => {},
            Some((table, _)) => {
                let mut found = false;
                let mut j: usize = 0;
                while j < n
                    invariant
                        columns.wf(),
                        n == names.len(),
                        names == columns.names(),
                        target@ == name@,
                        0 <= j <= n,
                        table@ == table_part(names[i as int]),
                        found ==> exists|k2: Seq<char>|
                            #![trigger columns@.contains_key(k2)]
                            columns@.contains_key(k2) && has_dot(k2) && table_part(k2)
                                == table@ && column_part(k2) == name@,
                        !found ==> forall|b: int|
                            0 <= b < j ==> !(has_dot(#[trigger] names[b]) && table_part(names[b])
                                == table@ && column_part(names[b]) == name@),
                    decreases n - j,
                {
                    if !found {
                        let (other, _) = columns.entry(j);
                        match split_qualified(other.as_str()) {
                            None => {},
                            Some((t2, c2)) => {
                                if same_chars(&t2, &table) && same_chars(&c2, &target) {
                                    found = true;
                                }
                            },
                        }
                    }
                    j = j + 1;
                }
                if !found {
                    proof {
                        let k = names[i as int];
                        assert(columns@.contains_key(k));
                        assert forall|k2: Seq<char>|
                            columns@.contains_key(k2) implies !(has_dot(k2) && table_part(k2)
                            == table_part(k) && column_part(k2) == name@) by {
                            assert(names.contains(k2));
                            let b = choose|b: int| 0 <= b < names.len() && names[b] == k2;
                            assert(!(has_dot(names[b]) && table_part(names[b]) == table@
                                && column_part(names[b]) == name@));
                        }
                    }
                    return false;
                }
            },
        }
        i = i + 1;
    }
    proof {
        assert forall|k: Seq<char>| columns@.contains_key(k) && has_dot(k) implies exists|
            k2: Seq<char>,
        |
            #![trigger columns@.contains_key(k2)]
            columns@.contains_key(k2) && has_dot(k2) && table_part(k2) == table_part(k)
                && column_part(k2) == name@ by {
            assert(names.contains(k));
            let a = choose|a: int| 0 <= a < names.len() && names[a] == k;
            assert(has_dot(names[a]));
        }
    }
    true
}

/// `floor(num / (den * size))` held to the range of `u64`, for `den * size > 0`.
fn floor_clamped_exec(num: i128, den: u64, size: u64) -> (r: u64)
    requires
        den > 0,
        size > 0,
    ensures
        r == floor_clamped(num as int, den * size),
{
    if num < 0 {
        return 0;
    }
    let d = den as u128;
    let z = size as u128;
    assert(d * z <= u64::MAX * u64::MAX) by (nonlinear_arith)
        requires
            d <= u64::MAX,
            z <= u64::MAX,
    ;
    assert(d * z > 0) by (nonlinear_arith)
        requires
            d > 0,
            z > 0,
    ;
    let q = num as u128 / (d * z);
    if q > u64::MAX as u128 {
        u64::MAX
    } else {
        q as u64
    }
}

/// The result of a grouping step, as the sensitivity it carries.
pub open spec fn step_view(r: Result<(TableSensitivity, Option<u64>), PqlError>) -> Result<
    (SensitivityView, Option<u64>),
    PqlError,
> {
    match r {
        Ok((t, s)) => Ok((t@, s)),
        Err(e) => Err(e),
    }
}

/// A grouping step that, where it succeeds, holds a well-formed sensitivity.
pub open spec fn step_wf(r: Result<(TableSensitivity, Option<u64>), PqlError>) -> bool {
    r matches Ok((t, _)) ==> t.wf()
}

/// Applies the attributes of a `GROUP BY` to the base table.
fn group_by_exec(base: TableSensitivity, ret_size: Option<u64>, attrs: &Vec<GroupByAttr>) -> (r:
    Result<(TableSensitivity, Option<u64>), PqlError>)
    requires
        base.wf(),
    ensures
        step_wf(r),
        step_view(r) == group_attrs(base@, ret_size, base@.columns, attrs@),
{
    let snapshot = base.columns.duplicate();
    let mut b = base;
    let mut rs = ret_size;
    let mut i: usize = 0;
    assert(attrs@.subrange(0, attrs@.len() as int) =~= attrs@);
    while i < attrs.len()
        invariant
            b.wf(),
            snapshot.wf(),
            snapshot@ == base@.columns,
            0 <= i <= attrs@.len(),
            group_attrs(base@, ret_size, base@.columns, attrs@) == group_attrs(
                b@,
                rs,
                snapshot@,
                attrs@.subrange(i as int, attrs@.len() as int),
            ),
        decreases attrs@.len() - i,
    {
        let ghost rest = attrs@.subrange(i as int, attrs@.len() as int);
        assert(rest[0] == attrs@[i as int]);
        assert(rest.drop_first() =~= attrs@.subrange(i + 1, attrs@.len() as int));
        match &attrs[i] {
            GroupByAttr::Column(c) => {
                if grouped_everywhere_exec(&snapshot, c.as_str()) {
                    b.columns.insert(c.clone(), ColumnInfo::Nan);
                }
            },
            GroupByAttr::Bin { column, size, alias } => {
                let (low, high) = match b.columns.get(column.as_str()) {
                    Some(ColumnInfo::Range(low, high)) => (*low, *high),
                    _ => {
                        return Err(PqlError::BinOnNonRange(column.clone()));
                    },
                };
                let span = match high.checked_sub(&low) {
                    Some(span) => span,
                    None => {
                        return Err(PqlError::Overflow);
                    },
                };
                if *size == 0 || span.den == 0 {
                    return Err(PqlError::InvalidBinSize(alias.clone()));
                }
                let buckets = match span.checked_div_int(*size) {
                    Some(v) => v,
                    None => {
                        return Err(PqlError::Overflow);
                    },
                };
                let n = floor_clamped_exec(span.num, span.den, *size);
                b.columns.insert(alias.clone(), ColumnInfo::Range(Rational::from_int(0), buckets));
                b.size_constraint = Some(n);
                rs = Some(n);
            },
        }
        i = i + 1;
    }
    Ok((b, rs))
}

/// Applies the qualifiers of a select to its base table.
fn qualify_exec(base: TableSensitivity, qualifiers: &Vec<AstNode>) -> (r: Result<
    (TableSensitivity, Option<u64>),
    PqlError,
>)
    requires
        base.wf(),
    ensures
        step_wf(r),
        step_view(r) == qualify_all(base@, base@.size_constraint, qualifiers@),
{
    let mut rs = base.size_constraint;
    let ghost start = base@;
    let mut b = base;
    let mut i: usize = 0;
    assert(qualifiers@.subrange(0, qualifiers@.len() as int) =~= qualifiers@);
    while i < qualifiers.len()
        invariant
            b.wf(),
            start == base@,
            0 <= i <= qualifiers@.len(),
            qualify_all(start, start.size_constraint, qualifiers@) == qualify_all(
                b@,
                rs,
                qualifiers@.subrange(i as int, qualifiers@.len() as int),
            ),
        decreases qualifiers@.len() - i,
    {
        let ghost rest = qualifiers@.subrange(i as int, qualifiers@.len() as int);
        assert(rest[0] == qualifiers@[i as int]);
        assert(rest.drop_first() =~= qualifiers@.subrange(i + 1, qualifiers@.len() as int));
        match &qualifiers[i] {
            AstNode::GroupBy { attrs } => {
                match group_by_exec(b, rs, attrs) {
                    Ok((nb, nr)) => {
                        b = nb;
                        rs = nr;
                    },
                    Err(e) => {
                        return Err(e);
                    },
                }
            },
            AstNode::Limit { rows } => {
                b.size_constraint = Some(*rows);
            },
            AstNode::DurationMs(window) => {
                if *window > 0 {
                    let chunk = b.columns.get("chunk");
                    if let Some(ColumnInfo::Range(low, high)) = chunk {
                        match high.checked_sub(low) {
                            Some(span) => {
                                if span.den != 0 {
                                    b.size_constraint = Some(
                                        floor_clamped_exec(span.num, span.den, *window),
                                    );
                                }
                            },
                            None => {
                                return Err(PqlError::Overflow);
                            },
                        }
                    }
                }
            },
            _ => {
                return Err(PqlError::UnsupportedQualifier);
            },
        }
        i = i + 1;
    }
    Ok((b, rs))
}

/// The bound of a sum over `rows` rows of values clamped to `range`.
fn sum_bound_exec(range: &Option<(Rational, Rational)>, rows: u64) -> (r: Result<ColumnInfo, PqlError>)
    ensures
        r == sum_bound(*range, rows),
{
    match range {
        None => Ok(ColumnInfo::Unbound),
        Some((low, high)) => match high.checked_sub(low) {
            None => Err(PqlError::Overflow),
            Some(width) => match width.checked_mul_int(rows) {
                None => Err(PqlError::Overflow),
                Some(v) => Ok(ColumnInfo::Release(v)),
            },
        },
    }
}

/// The bound of a mean over a column whose values are bounded by `work`.
fn mean_bound_exec(work: ColumnInfo, rows: u64, size: Option<u64>) -> (r: Result<ColumnInfo, PqlError>)
    ensures
        r == mean_bound(work, rows, size),
{
    match work {
        ColumnInfo::Range(low, high) => match size {
            None => Ok(work),
            Some(sc) => {
                if sc == 0 {
                    Ok(ColumnInfo::Unbound)
                } else {
                    match high.checked_sub(&low) {
                        None => Err(PqlError::Overflow),
                        Some(width) => match width.checked_mul_int(rows) {
                            None => Err(PqlError::Overflow),
                            Some(total) => match total.checked_div_int(sc) {
                                None => Err(PqlError::Overflow),
                                Some(v) => Ok(ColumnInfo::Release(v)),
                            },
                        },
                    }
                }
            },
        },
        ColumnInfo::Release(r) => match size {
            None => Ok(work),
            Some(sc) => {
                if sc == 0 {
                    Ok(ColumnInfo::Unbound)
                } else {
                    match r.checked_div_int(sc) {
                        None => Err(PqlError::Overflow),
                        Some(v) => Ok(ColumnInfo::Release(v)),
                    }
                }
            },
        },
        _ => Ok(ColumnInfo::Unbound),
    }
}

/// Adds the output expressions of a select over `base` to the result `ret`.
fn select_exprs_exec(init: TableSensitivity, base: &TableSensitivity, exprs: &Vec<AstNode>) -> (r:
    Result<TableSensitivity, PqlError>)
    requires
        init.wf(),
        base.wf(),
    ensures
        result_wf(r),
        result_view(r) == select_exprs(init@, base@, exprs@),
{
    let ghost start = init@;
    let mut ret = init;
    let mut i: usize = 0;
    assert(exprs@.subrange(0, exprs@.len() as int) =~= exprs@);
    while i < exprs.len()
        invariant
            ret.wf(),
            base.wf(),
            start == init@,
            0 <= i <= exprs@.len(),
            select_exprs(start, base@, exprs@) == select_exprs(
                ret@,
                base@,
                exprs@.subrange(i as int, exprs@.len() as int),
            ),
        decreases exprs@.len() - i,
    {
        let ghost rest = exprs@.subrange(i as int, exprs@.len() as int);
        assert(rest[0] == exprs@[i as int]);
        assert(rest.drop_first() =~= exprs@.subrange(i + 1, exprs@.len() as int));
        match &exprs[i] {
            AstNode::Column(c) => {
                match base.columns.get(c.as_str()) {
                    Some(info) => {
                        ret.columns.insert(c.clone(), *info);
                    },
                    None => {
                        return Err(PqlError::UnknownColumn(c.clone()));
                    },
                }
            },
            AstNode::UserF { range, alias, .. } => {
                let info = match range {
                    Some((low, high)) => ColumnInfo::Range(*low, *high),
                    None => ColumnInfo::Unbound,
                };
                ret.columns.insert(alias.clone(), info);
            },
            AstNode::Aggregation { function, inner, range, alias } => {
                match aggregation_kind(function.as_str()) {
                    AggregationKind::Sum => {
                        match sum_bound_exec(range, base.rows) {
                            Ok(info) => {
                                ret.columns.insert(alias.clone(), info);
                            },
                            Err(e) => {
                                return Err(e);
                            },
                        }
                    },
                    AggregationKind::Mean => {
                        let work = match range {
                            Some((low, high)) => ColumnInfo::Range(*low, *high),
                            None => match base.columns.get(inner.as_str()) {
                                Some(info) => *info,
                                None => ColumnInfo::Unbound,
                            },
                        };
                        match mean_bound_exec(work, base.rows, base.size_constraint) {
                            Ok(info) => {
                                ret.columns.insert(alias.clone(), info);
                            },
                            Err(e) => {
                                return Err(e);
                            },
                        }
                    },
                    AggregationKind::Count => {
                        let info = ColumnInfo::Range(
                            Rational::from_int(0),
                            Rational::from_int(base.rows as i128),
                        );
                        ret.columns.insert(alias.clone(), info);
                        ret.rows = 1;
                    },
                    AggregationKind::Var | AggregationKind::Stddev => {
                        return Err(PqlError::UnimplementedAggregation(function.clone()));
                    },
                    AggregationKind::Other => {
                        return Err(PqlError::UnsupportedAggregation(function.clone()));
                    },
                }
            },
            _ => {
                return Err(PqlError::UnsupportedExpression);
            },
        }
        i = i + 1;
    }
    Ok(ret)
}

/// The sensitivity of a select over a table of sensitivity `base`.
fn select_exec(base: TableSensitivity, exprs: &Vec<AstNode>, qualifiers: &Vec<AstNode>) -> (r:
    Result<TableSensitivity, PqlError>)
    requires
        base.wf(),
    ensures
        result_wf(r),
        result_view(r) == select_sensitivity(base@, exprs@, qualifiers@),
{
    let rows = base.rows;
    match qualify_exec(base, qualifiers) {
        Err(e) => Err(e),
        Ok((b, ret_size)) => {
            let ret = TableSensitivity { rows, columns: NameMap::new(), size_constraint: ret_size };
            select_exprs_exec(ret, &b, exprs)
        },
    }
}

proof fn lemma_fold_error_stable(
    node: AstNode,
    n: nat,
    m: nat,
    policies: Map<Seq<char>, PrivacyPolicy>,
)
    requires
        n <= m <= combined_tables(node).len(),
        fold_tables(node, n, policies) is Err,
    ensures
        fold_tables(node, m, policies) == fold_tables(node, n, policies),
    decreases m,
{
    if n < m {
        lemma_fold_error_stable(node, n, (m - 1) as nat, policies);
    }
}

/// Combines the tables of the combination `whole`, in order.
fn fold_exec(
    tables: &Vec<AstNode>,
    keep_size: bool,
    policies: &NameMap<PrivacyPolicy>,
    whole: Ghost<AstNode>,
) -> (r: Result<TableSensitivity, PqlError>)
    requires
        policies.wf(),
        keep_size == !(whole@ is Equijoin),
        combined_tables(whole@) == tables@,
        whole@ is Intersect || whole@ is Union || whole@ is Equijoin,
    ensures
        result_wf(r),
        result_view(r) == fold_tables(whole@, tables@.len(), policies@),
    decreases whole@, 0nat,
{
    let mut acc = TableSensitivity::empty();
    let mut i: usize = 0;
    while i < tables.len()
        invariant
            policies.wf(),
            combined_tables(whole@) == tables@,
            whole@ is Intersect || whole@ is Union || whole@ is Equijoin,
            keep_size == !(whole@ is Equijoin),
            acc.wf(),
            0 <= i <= tables@.len(),
            fold_tables(whole@, i as nat, policies@) == Ok::<SensitivityView, PqlError>(acc@),
        decreases tables@.len() - i,
    {
        proof {
            assert(decreases_to!(whole@ => tables@[i as int]));
        }
        let s = match sensitivity_composition(&tables[i], policies) {
            Ok(s) => s,
            Err(e) => {
                proof {
                    lemma_fold_error_stable(whole@, (i + 1) as nat, tables@.len(), policies@);
                }
                return Err(e);
            },
        };
        let rows = match acc.rows.checked_add(s.rows) {
            Some(rows) => rows,
            None => {
                proof {
                    lemma_fold_error_stable(whole@, (i + 1) as nat, tables@.len(), policies@);
                }
                return Err(PqlError::Overflow);
            },
        };
        let size_constraint = if keep_size {
            match (acc.size_constraint, s.size_constraint) {
                (None, b) => b,
                (a, None) => a,
                (Some(x), Some(y)) => Some(
                    if x >= y {
                        x
                    } else {
                        y
                    },
                ),
            }
        } else {
            acc.size_constraint
        };
        let mut columns = acc.columns;
        columns.extend(s.columns);
        acc = TableSensitivity { rows, columns, size_constraint };
        i = i + 1;
    }
    Ok(acc)
}

/// The sensitivity of a bound query tree under the given policies: for
/// every column of the result, what one individual can change in it, with
/// the most rows that one individual can account for and a bound on the
/// result's size.
///
/// Fails on a binding error left in the tree (an unknown policy), on a
/// feature that the analysis does not implement (a mask policy, variance,
/// standard deviation, another qualifier, expression or node), on a tree
/// whose shape breaks what binding guarantees (a binned column without a
/// range, an unknown column), and where a bound leaves its integer type.
pub fn sensitivity_composition(node: &AstNode, policies: &NameMap<PrivacyPolicy>) -> (r: Result<
    TableSensitivity,
    PqlError,
>)
    requires
        policies.wf(),
    ensures
        result_wf(r),
        result_view(r) == composition(*node, policies@),
    decreases node, 1nat,
{
    match node {
        AstNode::Table(ss, ps) => leaf_exec(ss, ps, policies),
        AstNode::Tables(ts) => {
            if ts.len() == 0 {
                Err(PqlError::EmptyTableList)
            } else {
                sensitivity_composition(&ts[0], policies)
            }
        },
        AstNode::Intersect { tables, .. } => fold_exec(tables, true, policies, Ghost(*node)),
        AstNode::Union { tables, .. } => fold_exec(tables, true, policies, Ghost(*node)),
        AstNode::Equijoin { tables, .. } => fold_exec(tables, false, policies, Ghost(*node)),
        AstNode::Select { exprs, from, qualifiers } => {
            match sensitivity_composition(from, policies) {
                Err(e) => Err(e),
                Ok(base) => select_exec(base, exprs, qualifiers),
            }
        },
        _ => Err(PqlError::UnsupportedNode),
    }
}

} // verus!
