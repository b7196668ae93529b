//! The fixed column layout of the persisted value table. The layout is a pure
//! value: it is rebuilt on every request and never mutated, so it is safe to
//! share across concurrent callers.

use vstd::prelude::*;

verus! {

/// Storage type of one column of the value table.
#[derive(Debug, Clone, Copy, PartialEq, Eq)]
pub enum ColumnType {
    Utf8,
    Int64,
    Float64,
}

/// One column of the value table: a name, a storage type, and whether the
/// column admits nulls.
#[derive(Debug, Clone)]
pub struct Column {
    pub name: String,
    pub column_type: ColumnType,
    pub nullable: bool,
}

/// The fixed schema of the value table: exactly four non-nullable columns, in
/// this order — the metric name, the series signature in hexadecimal, the
/// sample timestamp, and the sample value.
pub fn get_value_schema() -> (r: Vec<Column>)
    ensures
        r@.len() == 4,
        r@[0].name@ == "__name__"@ && r@[0].column_type is Utf8 && !r@[0].nullable,
        r@[1].name@ == "__hash__"@ && r@[1].column_type is Utf8 && !r@[1].nullable,
        r@[2].name@ == "_timestamp"@ && r@[2].column_type is Int64 && !r@[2].nullable,
        r@[3].name@ == "value"@ && r@[3].column_type is Float64 && !r@[3].nullable,
{
    let mut schema: Vec<Column> = Vec::new();
    schema.push(Column { name: "__name__".to_owned(), column_type: ColumnType::Utf8, nullable: false });
    schema.push(Column { name: "__hash__".to_owned(), column_type: ColumnType::Utf8, nullable: false });
    schema.push(Column { name: "_timestamp".to_owned(), column_type: ColumnType::Int64, nullable: false });
    schema.push(Column { name: "value".to_owned(), column_type: ColumnType::Float64, nullable: false });
    schema
}

} // verus!
