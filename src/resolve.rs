//! Binding of table names to the statements that produce the tables.
use vstd::prelude::*;
use crate::aggregation::AstNode;
use crate::error::PqlError;
use crate::names::NameMap;
use crate::process::{Column, FixedColumn, ProcessStatement};
use crate::split::SplitStatement;

verus! {

/// Split statements by the name of the chunk set they produce.
pub type SplitMap = NameMap<SplitStatement>;

/// Process statements by the name of the table they produce.
pub type ProcessMap = NameMap<ProcessStatement>;

/// `c` is the fixed `chunk` column holding the time range of `ss`.
pub open spec fn is_chunk_column(c: Column, ss: SplitStatement) -> bool {
    c matches Column::Fixed(fc) && fc.name@ == "chunk"@ && fc.range == (ss.start_time, ss.end_time)
}

/// The first binding error of a table name: no process produces the table,
/// or no split produces the chunk set that the process reads.
pub open spec fn name_error(
    name: String,
    splits: Map<Seq<char>, SplitStatement>,
    procs: Map<Seq<char>, ProcessStatement>,
) -> Option<PqlError> {
    if !procs.contains_key(name@) {
        Some(PqlError::UnknownTable(name))
    } else if !splits.contains_key(procs[name@].input_name@) {
        Some(PqlError::UnknownChunkSet(procs[name@].input_name))
    } else {
        None
    }
}

/// The first binding error among table names, in order.
pub open spec fn names_error(
    names: Seq<String>,
    splits: Map<Seq<char>, SplitStatement>,
    procs: Map<Seq<char>, ProcessStatement>,
) -> Option<PqlError>
    decreases names.len(),
{
    if names.len() == 0 {
        None
    } else {
        match name_error(names[0], splits, procs) {
            Some(e) => Some(e),
            None => names_error(names.drop_first(), splits, procs),
        }
    }
}

/// The first binding error in a query tree, in the order in which binding
/// visits it: the `from` of a select, the tables of a combination from first
/// to last, the names of a table list from first to last.
pub open spec fn resolve_error(
    node: AstNode,
    splits: Map<Seq<char>, SplitStatement>,
    procs: Map<Seq<char>, ProcessStatement>,
) -> Option<PqlError>
    decreases node, 1nat, 0nat,
{
    match node {
        AstNode::TableNames(names) => names_error(names@, splits, procs),
        AstNode::Select { from, .. } => resolve_error(*from, splits, procs),
        AstNode::Intersect { tables, .. } => tables_error(node, tables@.len(), splits, procs),
        AstNode::Union { tables, .. } => tables_error(node, tables@.len(), splits, procs),
        AstNode::Equijoin { tables, .. } => tables_error(node, tables@.len(), splits, procs),
        _ => None,
    }
}

/// The first binding error among the first `n` tables of a combination.
pub open spec fn tables_error(
    node: AstNode,
    n: nat,
    splits: Map<Seq<char>, SplitStatement>,
    procs: Map<Seq<char>, ProcessStatement>,
) -> Option<PqlError>
    decreases node, 0nat, n,
{
    match node {
        AstNode::Intersect { tables, .. } => {
            if n == 0 || n > tables@.len() {
                None
            } else {
                match tables_error(node, (n - 1) as nat, splits, procs) {
                    Some(e) => Some(e),
                    None => resolve_error(tables@[n - 1], splits, procs),
                }
            }
        },
        AstNode::Union { tables, .. } => {
            if n == 0 || n > tables@.len() {
                None
            } else {
                match tables_error(node, (n - 1) as nat, splits, procs) {
                    Some(e) => Some(e),
                    None => resolve_error(tables@[n - 1], splits, procs),
                }
            }
        },
        AstNode::Equijoin { tables, .. } => {
            if n == 0 || n > tables@.len() {
                None
            } else {
                match tables_error(node, (n - 1) as nat, splits, procs) {
                    Some(e) => Some(e),
                    None => resolve_error(tables@[n - 1], splits, procs),
                }
            }
        },
        _ => None,
    }
}

/// `t` is the table that the name `name` binds to: the statements that
/// produce it, with the fixed `chunk` column appended to the schema.
pub open spec fn bound_table(
    t: AstNode,
    name: Seq<char>,
    splits: Map<Seq<char>, SplitStatement>,
    procs: Map<Seq<char>, ProcessStatement>,
) -> bool {
    let p = procs[name];
    let s = splits[p.input_name@];
    &&& t matches AstNode::Table(ss, ps)
    &&& ss == s
    &&& ps.input_name == p.input_name
    &&& ps.model_name == p.model_name
    &&& ps.chunk_timeout_ms == p.chunk_timeout_ms
    &&& ps.maxrow == p.maxrow
    &&& ps.output_table_name == p.output_table_name
    &&& ps.schema@.len() == p.schema@.len() + 1
    &&& ps.schema@.drop_last() == p.schema@
    &&& is_chunk_column(ps.schema@.last(), s)
}

/// `new` is `old` with every table list bound: same shape, same expressions
/// and qualifiers, and each name replaced by its bound table.
pub open spec fn resolved_as(
    new: AstNode,
    old: AstNode,
    splits: Map<Seq<char>, SplitStatement>,
    procs: Map<Seq<char>, ProcessStatement>,
) -> bool
    decreases old,
{
    match old {
        AstNode::TableNames(names) => {
            &&& new matches AstNode::Tables(ts)
            &&& ts@.len() == names@.len()
            &&& forall|i: int|
                0 <= i < names@.len() ==> bound_table(ts@[i], names@[i]@, splits, procs)
        },
        AstNode::Select { exprs, from, qualifiers } => {
            &&& new matches AstNode::Select { exprs: e2, from: f2, qualifiers: q2 }
            &&& e2 == exprs
            &&& q2 == qualifiers
            &&& resolved_as(*f2, *from, splits, procs)
        },
        AstNode::Intersect { tables, on } => {
            &&& new matches AstNode::Intersect { tables: t2, on: o2 }
            &&& o2 == on
            &&& t2@.len() == tables@.len()
            &&& forall|i: int|
                0 <= i < tables@.len() ==> resolved_as(t2@[i], tables@[i], splits, procs)
        },
        AstNode::Union { tables, on } => {
            &&& new matches AstNode::Union { tables: t2, on: o2 }
            &&& o2 == on
            &&& t2@.len() == tables@.len()
            &&& forall|i: int|
                0 <= i < tables@.len() ==> resolved_as(t2@[i], tables@[i], splits, procs)
        },
        AstNode::Equijoin { tables, on } => {
            &&& new matches AstNode::Equijoin { tables: t2, on: o2 }
            &&& o2 == on
            &&& t2@.len() == tables@.len()
            &&& forall|i: int|
                0 <= i < tables@.len() ==> resolved_as(t2@[i], tables@[i], splits, procs)
        },
        _ => new == old,
    }
}

proof fn lemma_tables_error_stable(
    node: AstNode,
    n: nat,
    m: nat,
    splits: Map<Seq<char>, SplitStatement>,
    procs: Map<Seq<char>, ProcessStatement>,
)
    requires
        n <= m <= combined_tables(node).len(),
        tables_error(node, n, splits, procs) is Some,
    ensures
        tables_error(node, m, splits, procs) == tables_error(node, n, splits, procs),
    decreases m,
{
    if n < m {
        lemma_tables_error_stable(node, n, (m - 1) as nat, splits, procs);
    }
}

/// Binds each table name to its statements.
fn bind_names(splits: &SplitMap, procs: &ProcessMap, names: &Vec<String>) -> (r: Result<
    Vec<AstNode>,
    PqlError,
>)
    requires
        splits.wf(),
        procs.wf(),
    ensures
        match r {
            Ok(ts) => {
                &&& names_error(names@, splits@, procs@) is None
                &&& ts@.len() == names@.len()
                &&& forall|i: int|
                    0 <= i < names@.len() ==> bound_table(ts@[i], names@[i]@, splits@, procs@)
            },
            Err(e) => names_error(names@, splits@, procs@) == Some(e),
        },
{
    let mut out: Vec<AstNode> = Vec::new();
    let mut i: usize = 0;
    assert(names@.subrange(0, names@.len() as int) =~= names@);
    while i < names.len()
        invariant
            0 <= i <= names@.len(),
            splits.wf(),
            procs.wf(),
            names_error(names@, splits@, procs@) == names_error(
                names@.subrange(i as int, names@.len() as int),
                splits@,
                procs@,
            ),
            out@.len() == i,
            forall|j: int| 0 <= j < i ==> bound_table(out@[j], names@[j]@, splits@, procs@),
        decreases names@.len() - i,
    {
        let ghost rest = names@.subrange(i as int, names@.len() as int);
        assert(rest[0] == names@[i as int]);
        assert(rest.drop_first() =~= names@.subrange(i + 1, names@.len() as int));
        let name = &names[i];
        let p = match procs.get(name.as_str()) {
            Some(p) => p,
            None => {
                return Err(PqlError::UnknownTable(name.clone()));
            },
        };
        let s = match splits.get(p.input_name.as_str()) {
            Some(s) => s,
            None => {
                return Err(PqlError::UnknownChunkSet(p.input_name.clone()));
            },
        };
        let mut ps = p.duplicate();
        let ghost before = ps.schema@;
        ps.schema.push(
            Column::Fixed(FixedColumn { name: "chunk".to_owned(), range: (s.start_time, s.end_time) }),
        );
        assert(ps.schema@.drop_last() =~= before);
        out.push(AstNode::Table(s.duplicate(), ps));
        i = i + 1;
    }
    assert(names@.subrange(i as int, names@.len() as int) =~= Seq::<String>::empty());
    Ok(out)
}

/// Replaces every list of table names in `node` by the tables that the
/// names bind to, each with the fixed `chunk` column appended to its schema.
///
/// Fails on the first name that no process statement produces, or whose
/// process reads a chunk set that no split statement produces.
pub fn replace_tables(split_stmts: &SplitMap, process_stmts: &ProcessMap, node: AstNode) -> (r:
    Result<AstNode, PqlError>)
    requires
        split_stmts.wf(),
        process_stmts.wf(),
    ensures
        match r {
            Ok(n) => {
                &&& resolve_error(node, split_stmts@, process_stmts@) is None
                &&& resolved_as(n, node, split_stmts@, process_stmts@)
            },
            Err(e) => resolve_error(node, split_stmts@, process_stmts@) == Some(e),
        },
    decreases node,
{
    let ghost whole = node;
    match node {
        AstNode::TableNames(names) => {
            match bind_names(split_stmts, process_stmts, &names) {
                Ok(ts) => Ok(AstNode::Tables(ts)),
                Err(e) => Err(e),
            }
        },
        AstNode::Select { exprs, from, qualifiers } => {
            match replace_tables(split_stmts, process_stmts, *from) {
                Ok(f) => Ok(AstNode::Select { exprs, from: Box::new(f), qualifiers }),
                Err(e) => Err(e),
            }
        },
        AstNode::Intersect { tables, on } => {
            match replace_each(split_stmts, process_stmts, tables, Ghost(whole)) {
                Ok(ts) => Ok(AstNode::Intersect { tables: ts, on }),
                Err(e) => Err(e),
            }
        },
        AstNode::Union { tables, on } => {
            match replace_each(split_stmts, process_stmts, tables, Ghost(whole)) {
                Ok(ts) => Ok(AstNode::Union { tables: ts, on }),
                Err(e) => Err(e),
            }
        },
        AstNode::Equijoin { tables, on } => {
            match replace_each(split_stmts, process_stmts, tables, Ghost(whole)) {
                Ok(ts) => Ok(AstNode::Equijoin { tables: ts, on }),
                Err(e) => Err(e),
            }
        },
        other => Ok(other),
    }
}

/// The tables of a combination node, or none for another node.
pub open spec fn combined_tables(node: AstNode) -> Seq<AstNode> {
    match node {
        AstNode::Intersect { tables, .. } => tables@,
        AstNode::Union { tables, .. } => tables@,
        AstNode::Equijoin { tables, .. } => tables@,
        _ => Seq::empty(),
    }
}

/// Binds each table of the combination `whole`, in order.
fn replace_each(
    split_stmts: &SplitMap,
    process_stmts: &ProcessMap,
    tables: Vec<AstNode>,
    whole: Ghost<AstNode>,
) -> (r: Result<Vec<AstNode>, PqlError>)
    requires
        split_stmts.wf(),
        process_stmts.wf(),
        combined_tables(whole@) == tables@,
        whole@ is Intersect || whole@ is Union || whole@ is Equijoin,
    ensures
        match r {
            Ok(ts) => {
                &&& tables_error(whole@, tables@.len(), split_stmts@, process_stmts@) is None
                &&& ts@.len() == tables@.len()
                &&& forall|i: int|
                    0 <= i < tables@.len() ==> resolved_as(
                        ts@[i],
                        tables@[i],
                        split_stmts@,
                        process_stmts@,
                    )
            },
            Err(e) => tables_error(whole@, tables@.len(), split_stmts@, process_stmts@) == Some(e),
        },
    decreases whole@, 0nat,
{
    let ghost all = tables@;
    let count = tables.len();
    let mut rest = tables;
    assert(rest@ =~= all.subrange(0, all.len() as int));
    let mut out: Vec<AstNode> = Vec::new();
    let mut i: usize = 0;
    while rest.len() > 0
        invariant
            split_stmts.wf(),
            process_stmts.wf(),
            combined_tables(whole@) == all,
            whole@ is Intersect || whole@ is Union || whole@ is Equijoin,
            0 <= i <= all.len(),
            all.len() == count,
            all == tables@,
            rest@ == all.subrange(i as int, all.len() as int),
            out@.len() == i,
            tables_error(whole@, i as nat, split_stmts@, process_stmts@) is None,
            forall|j: int|
                0 <= j < i ==> resolved_as(out@[j], all[j], split_stmts@, process_stmts@),
        decreases rest@.len(),
    {
        let t = rest.remove(0);
        assert(t == all[i as int]);
        proof {
            assert(decreases_to!(whole@ => all[i as int]));
        }
        match replace_tables(split_stmts, process_stmts, t) {
            Ok(n) => {
                out.push(n);
            },
            Err(e) => {
                proof {
                    lemma_tables_error_stable(
                        whole@,
                        (i + 1) as nat,
                        all.len(),
                        split_stmts@,
                        process_stmts@,
                    );
                }
                return Err(e);
            },
        }
        i = i + 1;
    }
    Ok(out)
}

/// The split statements by the chunk set each produces; a later statement
/// replaces an earlier one of the same name.
pub open spec fn split_map_of(splits: Seq<SplitStatement>) -> Map<Seq<char>, SplitStatement>
    decreases splits.len(),
{
    if splits.len() == 0 {
        Map::empty()
    } else {
        split_map_of(splits.drop_last()).insert(splits.last().output_name@, splits.last())
    }
}

/// The process statements by the table each produces; a later statement
/// replaces an earlier one of the same name.
pub open spec fn process_map_of(procs: Seq<ProcessStatement>) -> Map<Seq<char>, ProcessStatement>
    decreases procs.len(),
{
    if procs.len() == 0 {
        Map::empty()
    } else {
        process_map_of(procs.drop_last()).insert(procs.last().output_table_name@, procs.last())
    }
}

/// Gathers the statements of a query into maps by name, then binds each
/// select against them, in order.
///
/// Fails with the binding error of the first select that does not bind.
pub fn collect_query(
    splits: Vec<SplitStatement>,
    procs: Vec<ProcessStatement>,
    selects: Vec<AstNode>,
) -> (r: Result<(SplitMap, ProcessMap, Vec<AstNode>), PqlError>)
    ensures
        match r {
            Ok((sm, pm, bound)) => {
                &&& sm.wf()
                &&& pm.wf()
                &&& sm@ == split_map_of(splits@)
                &&& pm@ == process_map_of(procs@)
                &&& bound@.len() == selects@.len()
                &&& forall|i: int|
                    0 <= i < selects@.len() ==> resolve_error(
                        #[trigger] selects@[i],
                        sm@,
                        pm@,
                    ) is None && resolved_as(bound@[i], selects@[i], sm@, pm@)
            },
            Err(e) => exists|j: int|
                0 <= j < selects@.len() && (forall|i: int|
                    0 <= i < j ==> resolve_error(
                        #[trigger] selects@[i],
                        split_map_of(splits@),
                        process_map_of(procs@),
                    ) is None) && resolve_error(
                    selects@[j],
                    split_map_of(splits@),
                    process_map_of(procs@),
                ) == Some(e),
        },
{
    let ghost all_splits = splits@;
    let splits_count = splits.len();
    let mut sm: SplitMap = NameMap::new();
    let mut rest = splits;
    let mut i: usize = 0;
    assert(rest@ =~= all_splits.subrange(0, all_splits.len() as int));
    assert(all_splits.subrange(0, 0) =~= Seq::<SplitStatement>::empty());
    while rest.len() > 0
        invariant
            sm.wf(),
            0 <= i <= all_splits.len(),
            all_splits.len() == splits_count,
            rest@ == all_splits.subrange(i as int, all_splits.len() as int),
            sm@ == split_map_of(all_splits.subrange(0, i as int)),
        decreases rest@.len(),
    {
        let st = rest.remove(0);
        assert(st == all_splits[i as int]);
        let name = st.output_name.clone();
        sm.insert(name, st);
        assert(all_splits.subrange(0, i + 1).drop_last() =~= all_splits.subrange(0, i as int));
        i = i + 1;
    }
    assert(all_splits.subrange(0, i as int) =~= all_splits);
    let ghost all_procs = procs@;
    let procs_count = procs.len();
    let mut pm: ProcessMap = NameMap::new();
    let mut rest = procs;
    let mut i: usize = 0;
    assert(rest@ =~= all_procs.subrange(0, all_procs.len() as int));
    assert(all_procs.subrange(0, 0) =~= Seq::<ProcessStatement>::empty());
    while rest.len() > 0
        invariant
            pm.wf(),
            0 <= i <= all_procs.len(),
            all_procs.len() == procs_count,
            rest@ == all_procs.subrange(i as int, all_procs.len() as int),
            pm@ == process_map_of(all_procs.subrange(0, i as int)),
        decreases rest@.len(),
    {
        let st = rest.remove(0);
        assert(st == all_procs[i as int]);
        let name = st.output_table_name.clone();
        pm.insert(name, st);
        assert(all_procs.subrange(0, i + 1).drop_last() =~= all_procs.subrange(0, i as int));
        i = i + 1;
    }
    assert(all_procs.subrange(0, i as int) =~= all_procs);
    let ghost all_selects = selects@;
    let selects_count = selects.len();
    let mut bound: Vec<AstNode> = Vec::new();
    let mut rest = selects;
    let mut i: usize = 0;
    assert(rest@ =~= all_selects.subrange(0, all_selects.len() as int));
    while rest.len() > 0
        invariant
            sm.wf(),
            pm.wf(),
            sm@ == split_map_of(all_splits),
            pm@ == process_map_of(all_procs),
            all_selects == selects@,
            all_splits == splits@,
            all_procs == procs@,
            0 <= i <= all_selects.len(),
            all_selects.len() == selects_count,
            rest@ == all_selects.subrange(i as int, all_selects.len() as int),
            bound@.len() == i,
            forall|k: int|
                0 <= k < i ==> resolve_error(#[trigger] all_selects[k], sm@, pm@) is None
                    && resolved_as(bound@[k], all_selects[k], sm@, pm@),
        decreases rest@.len(),
    {
        let q = rest.remove(0);
        assert(q == all_selects[i as int]);
        match replace_tables(&sm, &pm, q) {
            Ok(n) => {
                bound.push(n);
            },
            Err(e) => {
                assert(forall|k: int|
                    0 <= k < i ==> resolve_error(#[trigger] all_selects[k], sm@, pm@) is None);
                return Err(e);
            },
        }
        i = i + 1;
    }
    Ok((sm, pm, bound))
}

} // verus!
