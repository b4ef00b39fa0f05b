//! How the chunks of a chunk set become the rows of a table.
use vstd::prelude::*;
use crate::number::Rational;

verus! {

/// Runs a model on each chunk of a chunk set; each chunk yields at most
/// `maxrow` rows of the given schema, which form a named table.
#[derive(Debug, PartialEq)]
pub struct ProcessStatement {
    /// The chunk set processed.
    pub input_name: String,
    /// The model run on each chunk.
    pub model_name: String,
    /// Time allowed per chunk, in milliseconds.
    pub chunk_timeout_ms: u64,
    /// The most rows that one chunk may yield.
    pub maxrow: u64,
    /// The columns of each row, in order.
    pub schema: Vec<Column>,
    /// Name of the table produced.
    pub output_table_name: String,
}

/// A text column and the value it takes when the model gives none.
#[derive(Debug, PartialEq, Clone)]
pub struct StringColumn {
    pub name: String,
    pub default: String,
}

/// A numeric column and the value it takes when the model gives none.
#[derive(Debug, PartialEq, Clone)]
pub struct NumberColumn {
    pub name: String,
    pub default: Rational,
}

/// A column whose value is fixed by the chunk a row comes from: the time
/// range `(start, end)` in seconds.
#[derive(Debug, PartialEq)]
pub struct FixedColumn {
    pub name: String,
    pub range: (u64, u64),
}

/// A column of a table's schema.
#[derive(Debug, PartialEq)]
pub enum Column {
    String(StringColumn),
    Number(NumberColumn),
    Fixed(FixedColumn),
}

impl Column {
    /// An equal copy of the column.
    pub fn duplicate(&self) -> (r: Column)
        ensures
            r == *self,
    {
        match self {
            Column::String(c) => Column::String(
                StringColumn { name: c.name.clone(), default: c.default.clone() },
            ),
            Column::Number(c) => Column::Number(NumberColumn { name: c.name.clone(), default: c.default }),
            Column::Fixed(c) => Column::Fixed(FixedColumn { name: c.name.clone(), range: c.range }),
        }
    }
}

impl ProcessStatement {
    /// A copy of the statement: equal fields, and a schema with the same columns.
    pub fn duplicate(&self) -> (r: ProcessStatement)
        ensures
            r.input_name == self.input_name,
            r.model_name == self.model_name,
            r.chunk_timeout_ms == self.chunk_timeout_ms,
            r.maxrow == self.maxrow,
            r.schema@ == self.schema@,
            r.output_table_name == self.output_table_name,
    {
        let mut schema: Vec<Column> = Vec::new();
        let mut i: usize = 0;
        while i < self.schema.len()
            invariant
                0 <= i <= self.schema@.len(),
                schema@ == self.schema@.subrange(0, i as int),
            decreases self.schema@.len() - i,
        {
            schema.push(self.schema[i].duplicate());
            i = i + 1;
            assert(schema@ =~= self.schema@.subrange(0, i as int));
        }
        assert(schema@ =~= self.schema@);
        ProcessStatement {
            input_name: self.input_name.clone(),
            model_name: self.model_name.clone(),
            chunk_timeout_ms: self.chunk_timeout_ms,
            maxrow: self.maxrow,
            schema,
            output_table_name: self.output_table_name.clone(),
        }
    }
}

} // verus!
