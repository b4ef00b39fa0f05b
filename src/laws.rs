//! Properties of binding and of the analysis, proved over their specifications.
use vstd::prelude::*;
use crate::aggregation::{kind_of_function, AggregationKind, AstNode, GroupByAttr};
use crate::error::PqlError;
use crate::number::{div_spec, mul_spec, sub_spec};
use crate::policy::PrivacyPolicy;
use crate::process::ProcessStatement;
use crate::resolve::{combined_tables, name_error, names_error, resolve_error, tables_error};
use crate::sensitivity::{
    composition,
    fold_tables,
    group_attr,
    group_attrs,
    mean_bound,
    qualify,
    qualify_all,
    select_expr,
    select_exprs,
    int_value,
    leaf_sensitivity,
    max_bound,
    result_view,
    ColumnInfo,
    SensitivityView,
    TableSensitivity,
};
use crate::split::SplitStatement;

verus! {

/// Analysing the same tree under the same policies twice gives the same
/// sensitivity: the analysis keeps no state between calls.
pub proof fn lemma_composition_deterministic(
    node: AstNode,
    policies: Map<Seq<char>, PrivacyPolicy>,
    first: Result<TableSensitivity, PqlError>,
    second: Result<TableSensitivity, PqlError>,
)
    requires
        result_view(first) == composition(node, policies),
        result_view(second) == composition(node, policies),
    ensures
        result_view(first) == result_view(second),
{
}

/// A `count` over a single table releases the range `[0, rows]`, where `rows`
/// is the table's row bound, whatever the counted column, and collapses the
/// result to a single row.
pub proof fn lemma_count_over_table(
    split: SplitStatement,
    process: ProcessStatement,
    exprs: Vec<AstNode>,
    qualifiers: Vec<AstNode>,
    policies: Map<Seq<char>, PrivacyPolicy>,
)
    requires
        exprs@.len() == 1,
        exprs@[0] is Aggregation,
        kind_of_function(exprs@[0]->Aggregation_function@) == AggregationKind::Count,
        qualifiers@.len() == 0,
        leaf_sensitivity(split, process, policies) is Ok,
    ensures
        ({
            let base = leaf_sensitivity(split, process, policies)->Ok_0;
            let node = AstNode::Select {
                exprs,
                from: Box::new(AstNode::Table(split, process)),
                qualifiers,
            };
            let alias = exprs@[0]->Aggregation_alias@;
            &&& composition(node, policies) is Ok
            &&& composition(node, policies)->Ok_0.rows == 1
            &&& composition(node, policies)->Ok_0.columns == map![
                alias => ColumnInfo::Range(int_value(0), int_value(base.rows as int)),
            ]
        }),
{
    let base = leaf_sensitivity(split, process, policies)->Ok_0;
    let node = AstNode::Select { exprs, from: Box::new(AstNode::Table(split, process)), qualifiers };
    let alias = exprs@[0]->Aggregation_alias@;
    let ret = SensitivityView {
        rows: base.rows,
        columns: Map::empty(),
        size_constraint: base.size_constraint,
    };
    assert(composition(AstNode::Table(split, process), policies) == Ok::<SensitivityView, PqlError>(
        base,
    ));
    assert(qualify_all(base, base.size_constraint, qualifiers@) == Ok::<
        (SensitivityView, Option<u64>),
        PqlError,
    >((base, base.size_constraint)));
    let one = select_expr(ret, base, exprs@[0]);
    assert(one is Ok);
    assert(exprs@.drop_first() =~= Seq::<AstNode>::empty());
    assert(select_exprs(one->Ok_0, base, exprs@.drop_first()) == one);
    assert(select_exprs(ret, base, exprs@) == one);
    assert(one->Ok_0.columns =~= map![
        alias => ColumnInfo::Range(int_value(0), int_value(base.rows as int)),
    ]);
}

proof fn lemma_fold_rows(node: AstNode, policies: Map<Seq<char>, PrivacyPolicy>, i: nat, m: nat)
    requires
        node is Intersect || node is Union || node is Equijoin,
        i < m <= combined_tables(node).len(),
        fold_tables(node, m, policies) is Ok,
    ensures
        composition(combined_tables(node)[i as int], policies) is Ok,
        composition(combined_tables(node)[i as int], policies)->Ok_0.rows <= fold_tables(
            node,
            m,
            policies,
        )->Ok_0.rows,
    decreases m,
{
    let prev = fold_tables(node, (m - 1) as nat, policies);
    assert(prev is Ok);
    if i < m - 1 {
        lemma_fold_rows(node, policies, i, (m - 1) as nat);
    }
}

/// Rows only accumulate under intersection and union: the row bound of the
/// combination is at least that of each table combined.
pub proof fn lemma_combination_rows_cover_each(
    node: AstNode,
    policies: Map<Seq<char>, PrivacyPolicy>,
    i: int,
)
    requires
        node is Intersect || node is Union,
        composition(node, policies) is Ok,
        0 <= i < combined_tables(node).len(),
    ensures
        composition(combined_tables(node)[i], policies) is Ok,
        composition(combined_tables(node)[i], policies)->Ok_0.rows <= composition(
            node,
            policies,
        )->Ok_0.rows,
{
    lemma_fold_rows(node, policies, i as nat, combined_tables(node).len());
}

/// The tree names the table `name` in a table list that binding replaces.
pub open spec fn references(node: AstNode, name: Seq<char>) -> bool
    decreases node,
{
    match node {
        AstNode::TableNames(names) => exists|i: int| 0 <= i < names@.len() && names@[i]@ == name,
        AstNode::Select { from, .. } => references(*from, name),
        AstNode::Intersect { tables, .. } => exists|i: int|
            0 <= i < tables@.len() && references(tables@[i], name),
        AstNode::Union { tables, .. } => exists|i: int|
            0 <= i < tables@.len() && references(tables@[i], name),
        AstNode::Equijoin { tables, .. } => exists|i: int|
            0 <= i < tables@.len() && references(tables@[i], name),
        _ => false,
    }
}

/// Every process statement reads a chunk set that a split statement produces.
pub open spec fn chunk_sets_bound(
    splits: Map<Seq<char>, SplitStatement>,
    procs: Map<Seq<char>, ProcessStatement>,
) -> bool {
    forall|p: Seq<char>| #[trigger] procs.contains_key(p) ==> splits.contains_key(procs[p].input_name@)
}

proof fn lemma_names_error_only_tables(
    names: Seq<String>,
    splits: Map<Seq<char>, SplitStatement>,
    procs: Map<Seq<char>, ProcessStatement>,
)
    requires
        chunk_sets_bound(splits, procs),
    ensures
        names_error(names, splits, procs) is None || names_error(names, splits, procs) is Some
            && names_error(names, splits, procs)->0 is UnknownTable,
    decreases names.len(),
{
    if names.len() > 0 {
        lemma_names_error_only_tables(names.drop_first(), splits, procs);
    }
}

proof fn lemma_names_error_missing(
    names: Seq<String>,
    splits: Map<Seq<char>, SplitStatement>,
    procs: Map<Seq<char>, ProcessStatement>,
    i: int,
)
    requires
        0 <= i < names.len(),
        !procs.contains_key(names[i]@),
    ensures
        names_error(names, splits, procs) is Some,
    decreases names.len(),
{
    if i > 0 && name_error(names[0], splits, procs) is None {
        assert(names.drop_first()[i - 1] == names[i]);
        lemma_names_error_missing(names.drop_first(), splits, procs, i - 1);
    }
}

proof fn lemma_resolve_error_only_tables(
    node: AstNode,
    splits: Map<Seq<char>, SplitStatement>,
    procs: Map<Seq<char>, ProcessStatement>,
)
    requires
        chunk_sets_bound(splits, procs),
    ensures
        resolve_error(node, splits, procs) is None || resolve_error(node, splits, procs) is Some
            && resolve_error(node, splits, procs)->0 is UnknownTable,
    decreases node, 1nat, 0nat,
{
    match node {
        AstNode::TableNames(names) => lemma_names_error_only_tables(names@, splits, procs),
        AstNode::Select { from, .. } => lemma_resolve_error_only_tables(*from, splits, procs),
        AstNode::Intersect { tables, .. } => lemma_tables_error_only_tables(
            node,
            tables@.len(),
            splits,
            procs,
        ),
        AstNode::Union { tables, .. } => lemma_tables_error_only_tables(
            node,
            tables@.len(),
            splits,
            procs,
        ),
        AstNode::Equijoin { tables, .. } => lemma_tables_error_only_tables(
            node,
            tables@.len(),
            splits,
            procs,
        ),
        _ => {},
    }
}

proof fn lemma_tables_error_only_tables(
    node: AstNode,
    n: nat,
    splits: Map<Seq<char>, SplitStatement>,
    procs: Map<Seq<char>, ProcessStatement>,
)
    requires
        chunk_sets_bound(splits, procs),
    ensures
        tables_error(node, n, splits, procs) is None || tables_error(node, n, splits, procs) is Some
            && tables_error(node, n, splits, procs)->0 is UnknownTable,
    decreases node, 0nat, n,
{
    match node {
        AstNode::Intersect { tables, .. } => {
            if 0 < n <= tables@.len() {
                lemma_tables_error_only_tables(node, (n - 1) as nat, splits, procs);
                lemma_resolve_error_only_tables(tables@[n - 1], splits, procs);
            }
        },
        AstNode::Union { tables, .. } => {
            if 0 < n <= tables@.len() {
                lemma_tables_error_only_tables(node, (n - 1) as nat, splits, procs);
                lemma_resolve_error_only_tables(tables@[n - 1], splits, procs);
            }
        },
        AstNode::Equijoin { tables, .. } => {
            if 0 < n <= tables@.len() {
                lemma_tables_error_only_tables(node, (n - 1) as nat, splits, procs);
                lemma_resolve_error_only_tables(tables@[n - 1], splits, procs);
            }
        },
        _ => {},
    }
}

proof fn lemma_tables_error_reaches(
    node: AstNode,
    n: nat,
    i: int,
    splits: Map<Seq<char>, SplitStatement>,
    procs: Map<Seq<char>, ProcessStatement>,
)
    requires
        node is Intersect || node is Union || node is Equijoin,
        0 <= i < n <= combined_tables(node).len(),
        resolve_error(combined_tables(node)[i], splits, procs) is Some,
    ensures
        tables_error(node, n, splits, procs) is Some,
    decreases n,
{
    if i < n - 1 {
        lemma_tables_error_reaches(node, (n - 1) as nat, i, splits, procs);
    }
}

proof fn lemma_missing_table_errs(
    node: AstNode,
    name: Seq<char>,
    splits: Map<Seq<char>, SplitStatement>,
    procs: Map<Seq<char>, ProcessStatement>,
)
    requires
        references(node, name),
        !procs.contains_key(name),
    ensures
        resolve_error(node, splits, procs) is Some,
    decreases node,
{
    match node {
        AstNode::TableNames(names) => {
            let i = choose|i: int| 0 <= i < names@.len() && names@[i]@ == name;
            lemma_names_error_missing(names@, splits, procs, i);
        },
        AstNode::Select { from, .. } => lemma_missing_table_errs(*from, name, splits, procs),
        AstNode::Intersect { tables, .. } => {
            let i = choose|i: int| 0 <= i < tables@.len() && references(tables@[i], name);
            lemma_missing_table_errs(tables@[i], name, splits, procs);
            lemma_tables_error_reaches(node, tables@.len(), i, splits, procs);
        },
        AstNode::Union { tables, .. } => {
            let i = choose|i: int| 0 <= i < tables@.len() && references(tables@[i], name);
            lemma_missing_table_errs(tables@[i], name, splits, procs);
            lemma_tables_error_reaches(node, tables@.len(), i, splits, procs);
        },
        AstNode::Equijoin { tables, .. } => {
            let i = choose|i: int| 0 <= i < tables@.len() && references(tables@[i], name);
            lemma_missing_table_errs(tables@[i], name, splits, procs);
            lemma_tables_error_reaches(node, tables@.len(), i, splits, procs);
        },
        _ => {},
    }
}

/// A query that names a table no process statement produces fails to bind
/// with an unknown-table error, never as an empty table; this holds where
/// every process reads a chunk set that some split produces (otherwise an
/// unknown chunk set may be met first).
pub proof fn lemma_unknown_table_fails(
    node: AstNode,
    name: Seq<char>,
    splits: Map<Seq<char>, SplitStatement>,
    procs: Map<Seq<char>, ProcessStatement>,
)
    requires
        references(node, name),
        !procs.contains_key(name),
        chunk_sets_bound(splits, procs),
    ensures
        resolve_error(node, splits, procs) is Some,
        resolve_error(node, splits, procs)->0 is UnknownTable,
{
    lemma_missing_table_errs(node, name, splits, procs);
    lemma_resolve_error_only_tables(node, splits, procs);
}

/// A clamped `mean` divides the sum-style bound by the table's size bound:
/// over a table of row bound `rows` and size bound `size > 0`, the mean of a
/// column clamped to `[low, high]` releases `(high - low) * rows / size`.
pub proof fn lemma_mean_divides_by_size(
    from: AstNode,
    exprs: Vec<AstNode>,
    qualifiers: Vec<AstNode>,
    policies: Map<Seq<char>, PrivacyPolicy>,
)
    requires
        exprs@.len() == 1,
        exprs@[0] is Aggregation,
        kind_of_function(exprs@[0]->Aggregation_function@) == AggregationKind::Mean,
        exprs@[0]->Aggregation_range is Some,
        qualifiers@.len() == 0,
        composition(from, policies) is Ok,
        composition(from, policies)->Ok_0.size_constraint is Some,
        composition(from, policies)->Ok_0.size_constraint->0 > 0,
    ensures
        ({
            let base = composition(from, policies)->Ok_0;
            let (low, high) = exprs@[0]->Aggregation_range->0;
            let size = base.size_constraint->0;
            let width = sub_spec(high, low);
            let total = mul_spec(width->0, base.rows);
            let released = div_spec(total->0, size);
            let r = composition(AstNode::Select { exprs, from: Box::new(from), qualifiers }, policies);
            width is Some && total is Some && released is Some ==> r is Ok
                && r->Ok_0.columns == map![
                exprs@[0]->Aggregation_alias@ => ColumnInfo::Release(released->0),
            ]
        }),
{
    let base = composition(from, policies)->Ok_0;
    let ret = SensitivityView {
        rows: base.rows,
        columns: Map::empty(),
        size_constraint: base.size_constraint,
    };
    assert(qualify_all(base, base.size_constraint, qualifiers@) == Ok::<
        (SensitivityView, Option<u64>),
        PqlError,
    >((base, base.size_constraint)));
    let one = select_expr(ret, base, exprs@[0]);
    assert(exprs@.drop_first() =~= Seq::<AstNode>::empty());
    if one is Ok {
        assert(select_exprs(one->Ok_0, base, exprs@.drop_first()) == one);
        assert(one->Ok_0.columns =~= map![
            exprs@[0]->Aggregation_alias@ => one->Ok_0.columns[exprs@[0]->Aggregation_alias@],
        ]);
    }
}

/// The column name that an output expression writes.
pub open spec fn expr_key(e: AstNode) -> Seq<char> {
    match e {
        AstNode::Column(c) => c@,
        AstNode::UserF { alias, .. } => alias@,
        AstNode::Aggregation { alias, .. } => alias@,
        _ => Seq::empty(),
    }
}

proof fn lemma_select_exprs_split(
    ret: SensitivityView,
    base: SensitivityView,
    es: Seq<AstNode>,
    j: int,
)
    requires
        0 <= j <= es.len(),
    ensures
        select_exprs(ret, base, es) == match select_exprs(ret, base, es.subrange(0, j)) {
            Ok(r) => select_exprs(r, base, es.subrange(j, es.len() as int)),
            Err(e) => Err(e),
        },
    decreases es.len(),
{
    if j == 0 {
        assert(es.subrange(0, 0) =~= Seq::<AstNode>::empty());
        assert(es.subrange(0, es.len() as int) =~= es);
    } else {
        let pre = es.subrange(0, j);
        assert(pre[0] == es[0]);
        assert(pre.drop_first() =~= es.drop_first().subrange(0, j - 1));
        assert(es.drop_first().subrange(j - 1, es.len() - 1) =~= es.subrange(j, es.len() as int));
        match select_expr(ret, base, es[0]) {
            Ok(r1) => lemma_select_exprs_split(r1, base, es.drop_first(), j - 1),
            Err(_) => {},
        }
    }
}

proof fn lemma_select_exprs_frame(
    ret: SensitivityView,
    base: SensitivityView,
    es: Seq<AstNode>,
    k: Seq<char>,
)
    requires
        select_exprs(ret, base, es) is Ok,
        forall|i: int| 0 <= i < es.len() ==> expr_key(#[trigger] es[i]) != k,
    ensures
        select_exprs(ret, base, es)->Ok_0.columns.contains_key(k) == ret.columns.contains_key(k),
        ret.columns.contains_key(k) ==> select_exprs(ret, base, es)->Ok_0.columns[k]
            == ret.columns[k],
        ret.rows == 1 ==> select_exprs(ret, base, es)->Ok_0.rows == 1,
    decreases es.len(),
{
    if es.len() > 0 {
        let r1 = select_expr(ret, base, es[0])->Ok_0;
        assert(expr_key(es[0]) != k);
        assert forall|i: int| 0 <= i < es.drop_first().len() implies expr_key(
            #[trigger] es.drop_first()[i],
        ) != k by {
            assert(es.drop_first()[i] == es[i + 1]);
        }
        lemma_select_exprs_frame(r1, base, es.drop_first(), k);
    }
}

proof fn lemma_qualify_rows(base: SensitivityView, ret_size: Option<u64>, qs: Seq<AstNode>)
    requires
        qualify_all(base, ret_size, qs) is Ok,
    ensures
        qualify_all(base, ret_size, qs)->Ok_0.0.rows == base.rows,
    decreases qs.len(),
{
    if qs.len() > 0 {
        let (b, r) = qualify(base, ret_size, qs[0])->Ok_0;
        if let AstNode::GroupBy { attrs } = qs[0] {
            lemma_group_rows(base, ret_size, base.columns, attrs@);
        }
        lemma_qualify_rows(b, r, qs.drop_first());
    }
}

proof fn lemma_group_rows(
    base: SensitivityView,
    ret_size: Option<u64>,
    snapshot: Map<Seq<char>, ColumnInfo>,
    attrs: Seq<GroupByAttr>,
)
    requires
        group_attrs(base, ret_size, snapshot, attrs) is Ok,
    ensures
        group_attrs(base, ret_size, snapshot, attrs)->Ok_0.0.rows == base.rows,
    decreases attrs.len(),
{
    if attrs.len() > 0 {
        let (b, r) = group_attr(base, ret_size, snapshot, attrs[0])->Ok_0;
        lemma_group_rows(b, r, snapshot, attrs.drop_first());
    }
}

/// In any select that succeeds, a `count` releases the range `[0, rows]` of
/// the table it reads, whatever the counted column, and the result has one
/// row; this holds of the `count`'s own name unless a later expression of
/// the select writes that name again.
pub proof fn lemma_count_in_select(
    from: AstNode,
    exprs: Vec<AstNode>,
    qualifiers: Vec<AstNode>,
    policies: Map<Seq<char>, PrivacyPolicy>,
    j: int,
)
    requires
        0 <= j < exprs@.len(),
        exprs@[j] is Aggregation,
        kind_of_function(exprs@[j]->Aggregation_function@) == AggregationKind::Count,
        forall|k: int|
            j < k < exprs@.len() ==> expr_key(#[trigger] exprs@[k])
                != exprs@[j]->Aggregation_alias@,
        composition(AstNode::Select { exprs, from: Box::new(from), qualifiers }, policies) is Ok,
    ensures
        composition(from, policies) is Ok,
        ({
            let r = composition(
                AstNode::Select { exprs, from: Box::new(from), qualifiers },
                policies,
            )->Ok_0;
            &&& r.rows == 1
            &&& r.columns.contains_key(exprs@[j]->Aggregation_alias@)
            &&& r.columns[exprs@[j]->Aggregation_alias@] == ColumnInfo::Range(
                int_value(0),
                int_value(composition(from, policies)->Ok_0.rows as int),
            )
        }),
{
    let base = composition(from, policies)->Ok_0;
    let (b, rs) = qualify_all(base, base.size_constraint, qualifiers@)->Ok_0;
    lemma_qualify_rows(base, base.size_constraint, qualifiers@);
    let ret = SensitivityView { rows: base.rows, columns: Map::empty(), size_constraint: rs };
    let es = exprs@;
    lemma_select_exprs_split(ret, b, es, j);
    let r1 = select_exprs(ret, b, es.subrange(0, j))->Ok_0;
    let tail = es.subrange(j, es.len() as int);
    assert(tail[0] == es[j]);
    let r2 = select_expr(r1, b, tail[0])->Ok_0;
    let alias = es[j]->Aggregation_alias@;
    assert forall|i: int| 0 <= i < tail.drop_first().len() implies expr_key(
        #[trigger] tail.drop_first()[i],
    ) != alias by {
        assert(tail.drop_first()[i] == es[j + 1 + i]);
    }
    lemma_select_exprs_frame(r2, b, tail.drop_first(), alias);
}

/// In a select without qualifiers that succeeds, a `mean` releases the
/// bound that `mean_bound` gives for its working range (its clamp, else what
/// the table knows of the column, else no bound), the table's rows and the
/// table's size bound; unless a later expression writes the same name.
pub proof fn lemma_mean_in_select(
    from: AstNode,
    exprs: Vec<AstNode>,
    qualifiers: Vec<AstNode>,
    policies: Map<Seq<char>, PrivacyPolicy>,
    j: int,
)
    requires
        0 <= j < exprs@.len(),
        exprs@[j] is Aggregation,
        kind_of_function(exprs@[j]->Aggregation_function@) == AggregationKind::Mean,
        forall|k: int|
            j < k < exprs@.len() ==> expr_key(#[trigger] exprs@[k])
                != exprs@[j]->Aggregation_alias@,
        qualifiers@.len() == 0,
        composition(AstNode::Select { exprs, from: Box::new(from), qualifiers }, policies) is Ok,
    ensures
        composition(from, policies) is Ok,
        ({
            let base = composition(from, policies)->Ok_0;
            let e = exprs@[j];
            let work = match e->Aggregation_range {
                Some((low, high)) => ColumnInfo::Range(low, high),
                None => if base.columns.contains_key(e->Aggregation_inner@) {
                    base.columns[e->Aggregation_inner@]
                } else {
                    ColumnInfo::Unbound
                },
            };
            let r = composition(
                AstNode::Select { exprs, from: Box::new(from), qualifiers },
                policies,
            )->Ok_0;
            &&& mean_bound(work, base.rows, base.size_constraint) is Ok
            &&& r.columns.contains_key(e->Aggregation_alias@)
            &&& r.columns[e->Aggregation_alias@] == mean_bound(
                work,
                base.rows,
                base.size_constraint,
            )->Ok_0
        }),
{
    let base = composition(from, policies)->Ok_0;
    assert(qualify_all(base, base.size_constraint, qualifiers@) == Ok::<
        (SensitivityView, Option<u64>),
        PqlError,
    >((base, base.size_constraint)));
    let ret = SensitivityView {
        rows: base.rows,
        columns: Map::empty(),
        size_constraint: base.size_constraint,
    };
    let es = exprs@;
    lemma_select_exprs_split(ret, base, es, j);
    let r1 = select_exprs(ret, base, es.subrange(0, j))->Ok_0;
    let tail = es.subrange(j, es.len() as int);
    assert(tail[0] == es[j]);
    let r2 = select_expr(r1, base, tail[0])->Ok_0;
    let alias = es[j]->Aggregation_alias@;
    assert forall|i: int| 0 <= i < tail.drop_first().len() implies expr_key(
        #[trigger] tail.drop_first()[i],
    ) != alias by {
        assert(tail.drop_first()[i] == es[j + 1 + i]);
    }
    lemma_select_exprs_frame(r2, base, tail.drop_first(), alias);
}

/// Variance and standard deviation are not implemented: once the qualifiers
/// and the expressions before it are valid, a `var` or `stddev` makes the
/// select fail with its own error, never with a bound.
pub proof fn lemma_unimplemented_aggregation_in_select(
    from: AstNode,
    exprs: Vec<AstNode>,
    qualifiers: Vec<AstNode>,
    policies: Map<Seq<char>, PrivacyPolicy>,
    j: int,
)
    requires
        0 <= j < exprs@.len(),
        exprs@[j] is Aggregation,
        kind_of_function(exprs@[j]->Aggregation_function@) == AggregationKind::Var
            || kind_of_function(exprs@[j]->Aggregation_function@) == AggregationKind::Stddev,
        composition(from, policies) is Ok,
        ({
            let base = composition(from, policies)->Ok_0;
            let q = qualify_all(base, base.size_constraint, qualifiers@);
            &&& q is Ok
            &&& select_exprs(
                SensitivityView { rows: base.rows, columns: Map::empty(), size_constraint: q->Ok_0.1 },
                q->Ok_0.0,
                exprs@.subrange(0, j),
            ) is Ok
        }),
    ensures
        composition(AstNode::Select { exprs, from: Box::new(from), qualifiers }, policies) == Err::<
            SensitivityView,
            PqlError,
        >(PqlError::UnimplementedAggregation(exprs@[j]->Aggregation_function)),
{
    let base = composition(from, policies)->Ok_0;
    let (b, rs) = qualify_all(base, base.size_constraint, qualifiers@)->Ok_0;
    let ret = SensitivityView { rows: base.rows, columns: Map::empty(), size_constraint: rs };
    let es = exprs@;
    lemma_select_exprs_split(ret, b, es, j);
    let tail = es.subrange(j, es.len() as int);
    assert(tail[0] == es[j]);
}

/// A query that names a table no process statement produces never binds.
pub proof fn lemma_unknown_table_never_binds(
    node: AstNode,
    name: Seq<char>,
    splits: Map<Seq<char>, SplitStatement>,
    procs: Map<Seq<char>, ProcessStatement>,
)
    requires
        references(node, name),
        !procs.contains_key(name),
    ensures
        resolve_error(node, splits, procs) is Some,
{
    lemma_missing_table_errs(node, name, splits, procs);
}

/// The row bounds of a list of table sensitivities, added up.
pub open spec fn rows_total(vs: Seq<SensitivityView>) -> int
    decreases vs.len(),
{
    if vs.len() == 0 {
        0
    } else {
        rows_total(vs.drop_last()) + vs.last().rows
    }
}

/// The columns of a list of table sensitivities, a later table's entry
/// overriding an earlier one's.
pub open spec fn merged_columns(vs: Seq<SensitivityView>) -> Map<Seq<char>, ColumnInfo>
    decreases vs.len(),
{
    if vs.len() == 0 {
        Map::empty()
    } else {
        merged_columns(vs.drop_last()).union_prefer_right(vs.last().columns)
    }
}

/// The largest size bound of a list of table sensitivities, at least zero;
/// a table without a bound does not count.
pub open spec fn largest_size(vs: Seq<SensitivityView>) -> Option<u64>
    decreases vs.len(),
{
    if vs.len() == 0 {
        Some(0)
    } else {
        max_bound(largest_size(vs.drop_last()), vs.last().size_constraint)
    }
}

proof fn lemma_rows_total_prefix(vs: Seq<SensitivityView>, n: int)
    requires
        0 <= n <= vs.len(),
    ensures
        0 <= rows_total(vs.subrange(0, n)) <= rows_total(vs),
    decreases vs.len(),
{
    if vs.len() > 0 {
        if n == vs.len() {
            assert(vs.subrange(0, n) =~= vs);
            lemma_rows_total_prefix(vs.drop_last(), n - 1);
            assert(vs.drop_last().subrange(0, n - 1) =~= vs.drop_last());
        } else {
            lemma_rows_total_prefix(vs.drop_last(), n);
            assert(vs.drop_last().subrange(0, n) =~= vs.subrange(0, n));
            lemma_rows_total_prefix(vs.drop_last(), 0);
            assert(vs.drop_last().subrange(0, 0) =~= vs.subrange(0, 0));
        }
    }
}

proof fn lemma_fold_prefix(
    node: AstNode,
    policies: Map<Seq<char>, PrivacyPolicy>,
    vs: Seq<SensitivityView>,
    n: int,
)
    requires
        node is Intersect || node is Union || node is Equijoin,
        vs.len() == combined_tables(node).len(),
        forall|i: int|
            0 <= i < vs.len() ==> composition(#[trigger] combined_tables(node)[i], policies)
                == Ok::<SensitivityView, PqlError>(vs[i]),
        0 <= n <= vs.len(),
        rows_total(vs) <= u64::MAX,
    ensures
        ({
            let p = vs.subrange(0, n);
            fold_tables(node, n as nat, policies) == Ok::<SensitivityView, PqlError>(
                SensitivityView {
                    rows: rows_total(p) as u64,
                    columns: merged_columns(p),
                    size_constraint: if node is Equijoin {
                        Some(0)
                    } else {
                        largest_size(p)
                    },
                },
            )
        }),
    decreases n,
{
    let p = vs.subrange(0, n);
    if n > 0 {
        lemma_fold_prefix(node, policies, vs, n - 1);
        assert(p.drop_last() =~= vs.subrange(0, n - 1));
        assert(p.last() == vs[n - 1]);
        assert(composition(combined_tables(node)[n - 1], policies) == Ok::<SensitivityView, PqlError>(vs[n - 1]));
        lemma_rows_total_prefix(vs, n);
        lemma_rows_total_prefix(vs, n - 1);
    } else {
        assert(p =~= Seq::<SensitivityView>::empty());
    }
}

/// Under intersection, union and equi-join, row bounds add up and columns
/// merge, a later table's entry overriding an earlier one's; intersection
/// and union keep the largest size bound (at least zero), an equi-join keeps
/// none beyond zero. In particular adding a table never lowers the rows.
pub proof fn lemma_combination(
    node: AstNode,
    policies: Map<Seq<char>, PrivacyPolicy>,
    vs: Seq<SensitivityView>,
)
    requires
        node is Intersect || node is Union || node is Equijoin,
        vs.len() == combined_tables(node).len(),
        forall|i: int|
            0 <= i < vs.len() ==> composition(#[trigger] combined_tables(node)[i], policies)
                == Ok::<SensitivityView, PqlError>(vs[i]),
        rows_total(vs) <= u64::MAX,
    ensures
        composition(node, policies) == Ok::<SensitivityView, PqlError>(
            SensitivityView {
                rows: rows_total(vs) as u64,
                columns: merged_columns(vs),
                size_constraint: if node is Equijoin {
                    Some(0)
                } else {
                    largest_size(vs)
                },
            },
        ),
{
    lemma_fold_prefix(node, policies, vs, vs.len() as int);
    assert(vs.subrange(0, vs.len() as int) =~= vs);
}

} // verus!
