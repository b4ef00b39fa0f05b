//! The query tree.
use vstd::prelude::*;
use crate::number::Rational;
use crate::process::ProcessStatement;
use crate::split::SplitStatement;
use crate::text::same_text;

verus! {

/// Comparison and logical operators of a predicate.
#[derive(PartialEq, Eq, Debug, Clone, Copy, Structural)]
pub enum BooleanOp {
    GreaterThan,
    GreaterThanOrEqualTo,
    LessThan,
    LessThanOrEqualTo,
    Equal,
    NotEqual,
    And,
    Or,
    Not,
}

/// Arithmetic operators between expressions.
#[derive(PartialEq, Eq, Debug, Clone, Copy, Structural)]
pub enum ArithmeticOp {
    Plus,
    Minus,
    Multiply,
    Divide,
    Mod,
}

/// One attribute of a `GROUP BY`.
#[derive(PartialEq, Debug, Clone)]
pub enum GroupByAttr {
    /// Group by the values of a column.
    Column(String),
    /// Group a time column into buckets of `size` milliseconds, exposed as
    /// the column `alias`.
    Bin { column: String, size: u64, alias: String },
}

/// A node of a query tree.
#[derive(PartialEq, Debug)]
pub enum AstNode {
    /// `SELECT exprs FROM from qualifiers`.
    Select { exprs: Vec<AstNode>, from: Box<AstNode>, qualifiers: Vec<AstNode> },
    /// The rows common to tables, matched on the column `on`.
    Intersect { tables: Vec<AstNode>, on: Box<AstNode> },
    /// The rows of all tables, merged on the column `on`.
    Union { tables: Vec<AstNode>, on: Box<AstNode> },
    /// The equi-join of tables on the column `on`.
    Equijoin { tables: Vec<AstNode>, on: Box<AstNode> },
    /// An aggregation `function(inner)`, with an optional clamp `(lower, upper)`.
    Aggregation {
        function: String,
        inner: String,
        range: Option<(Rational, Rational)>,
        alias: String,
    },
    /// An opaque user function of a column, with an optional clamp of its result.
    UserF { function: String, column: String, range: Option<(Rational, Rational)>, alias: String },
    /// An arithmetic combination of two expressions.
    AliasExpr { lhs: Box<AstNode>, op: ArithmeticOp, rhs: Box<AstNode>, alias: String },
    /// `GROUP BY attrs`.
    GroupBy { attrs: Vec<GroupByAttr> },
    /// A grouping by an attribute over given keys.
    GroupByWithKeys { attr: String, keys: Vec<String> },
    /// `LIMIT rows`.
    Limit { rows: u64 },
    /// `WHERE predicate`.
    Where { predicate: Box<AstNode> },
    /// A comparison or logical combination.
    Predicate { lhs: Box<AstNode>, op: BooleanOp, rhs: Box<AstNode> },
    /// Names of tables, before they are bound to statements.
    TableNames(Vec<String>),
    /// Tables bound to their statements.
    Tables(Vec<AstNode>),
    /// A table: the split producing its chunks and the process producing its rows.
    Table(SplitStatement, ProcessStatement),
    /// A column name.
    Column(String),
    /// A number.
    Value(Rational),
    /// A duration in milliseconds.
    DurationMs(u64),
}

/// The aggregation functions that the analysis tells apart.
#[derive(PartialEq, Eq, Debug, Clone, Copy, Structural)]
pub enum AggregationKind {
    Sum,
    Mean,
    Count,
    Var,
    Stddev,
    /// Any other function name.
    Other,
}

/// The kind of an aggregation, from its function name in lower case.
pub open spec fn kind_of_lowered(name: Seq<char>) -> AggregationKind {
    if name == "sum"@ {
        AggregationKind::Sum
    } else if name == "mean"@ {
        AggregationKind::Mean
    } else if name == "count"@ {
        AggregationKind::Count
    } else if name == "var"@ {
        AggregationKind::Var
    } else if name == "stddev"@ {
        AggregationKind::Stddev
    } else {
        AggregationKind::Other
    }
}

/// The lower-case form of a text, as `str::to_lowercase` gives it.
pub uninterp spec fn lower_of(s: Seq<char>) -> Seq<char>;

/// The kind of an aggregation, from its function name in any case.
pub open spec fn kind_of_function(name: Seq<char>) -> AggregationKind {
    kind_of_lowered(lower_of(name))
}

/// Relies on `str::to_lowercase`: the result depends on the characters alone.
#[verifier::external_body]
fn lowercase(s: &str) -> (r: String)
    ensures
        r@ == lower_of(s@),
{
    s.to_lowercase()
}

/// The kind of an aggregation whose function name is already in lower case.
pub fn aggregation_kind_lowered(name: &str) -> (k: AggregationKind)
    ensures
        k == kind_of_lowered(name@),
{
    if same_text(name, "sum") {
        AggregationKind::Sum
    } else if same_text(name, "mean") {
        AggregationKind::Mean
    } else if same_text(name, "count") {
        AggregationKind::Count
    } else if same_text(name, "var") {
        AggregationKind::Var
    } else if same_text(name, "stddev") {
        AggregationKind::Stddev
    } else {
        AggregationKind::Other
    }
}

/// The kind of an aggregation, from its function name in any case.
pub fn aggregation_kind(function: &str) -> (k: AggregationKind)
    ensures
        k == kind_of_function(function@),
{
    let lowered = lowercase(function);
    aggregation_kind_lowered(lowered.as_str())
}

/// The operator that a predicate writes as `text`.
pub open spec fn boolean_op_spec(text: Seq<char>) -> Option<BooleanOp> {
    if text == ">"@ {
        Some(BooleanOp::GreaterThan)
    } else if text == ">="@ {
        Some(BooleanOp::GreaterThanOrEqualTo)
    } else if text == "<"@ {
        Some(BooleanOp::LessThan)
    } else if text == "<="@ {
        Some(BooleanOp::LessThanOrEqualTo)
    } else if text == "=="@ {
        Some(BooleanOp::Equal)
    } else if text == "!="@ {
        Some(BooleanOp::NotEqual)
    } else if text == "&&"@ {
        Some(BooleanOp::And)
    } else if text == "||"@ {
        Some(BooleanOp::Or)
    } else {
        None
    }
}

/// The operator that a predicate writes as `text`, if any.
pub fn boolean_op(text: &str) -> (r: Option<BooleanOp>)
    ensures
        r == boolean_op_spec(text@),
{
    if same_text(text, ">") {
        Some(BooleanOp::GreaterThan)
    } else if same_text(text, ">=") {
        Some(BooleanOp::GreaterThanOrEqualTo)
    } else if same_text(text, "<") {
        Some(BooleanOp::LessThan)
    } else if same_text(text, "<=") {
        Some(BooleanOp::LessThanOrEqualTo)
    } else if same_text(text, "==") {
        Some(BooleanOp::Equal)
    } else if same_text(text, "!=") {
        Some(BooleanOp::NotEqual)
    } else if same_text(text, "&&") {
        Some(BooleanOp::And)
    } else if same_text(text, "||") {
        Some(BooleanOp::Or)
    } else {
        None
    }
}

} // verus!
