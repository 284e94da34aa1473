//! Values as the database holds them, and the entry that is made of the
//! rows that a statement gives.

use crate::tesla::expressions::{BasicType, Value, ValueModel};
use crate::tesla::number::{canonical, ieee_from_integer, Number};
use crate::trex::sqlite::{CacheEntry, CacheEntryModel, CacheEntryValue, CacheEntryValueModel};
use vstd::prelude::*;

verus! {

/// A value as the database holds it.
#[derive(Debug)]
pub enum SqlValue {
    /// No value.
    Null,
    /// An integer.
    Integer(i64),
    /// A floating point number.
    Real(Number),
    /// A text.
    Text(String),
    /// Bytes.
    Blob(Vec<u8>),
}

/// What a `SqlValue` holds.
pub enum SqlValueModel {
    Null,
    Integer(i64),
    Real(u64),
    Text(Seq<char>),
    Blob(Seq<u8>),
}

impl DeepView for SqlValue {
    type V = SqlValueModel;

    open spec fn deep_view(&self) -> SqlValueModel {
        match self {
            SqlValue::Null => SqlValueModel::Null,
            SqlValue::Integer(x) => SqlValueModel::Integer(*x),
            SqlValue::Real(x) => SqlValueModel::Real(x@),
            SqlValue::Text(x) => SqlValueModel::Text(x@),
            SqlValue::Blob(x) => SqlValueModel::Blob(x@),
        }
    }
}

/// Why the rows of a statement cannot be read.
#[derive(Clone, Copy, Debug, PartialEq, Eq, Structural)]
pub enum DataError {
    /// A row has not as many columns as the predicate has parameters.
    MissingColumn,
    /// A column holds a value that is not of the type of its parameter.
    WrongColumnType,
    /// An aggregate has given no row.
    MissingRow,
}

/// The kinds of predicates on static data.
#[derive(Clone, Copy, Debug, PartialEq, Eq, Structural)]
pub enum StaticKind {
    /// The first row in a given order.
    Ordered,
    /// Every row.
    Unordered,
    /// An aggregate over the rows.
    Aggregate,
    /// The absence of rows.
    Negation,
}

/// A value as it is bound to a statement: a boolean is the integer one or zero.
pub open spec fn sql_model(value: ValueModel) -> SqlValueModel {
    match value {
        ValueModel::Int(x) => SqlValueModel::Integer(x),
        ValueModel::Float(x) => SqlValueModel::Real(x),
        ValueModel::Bool(x) => SqlValueModel::Integer(if x { 1i64 } else { 0i64 }),
        ValueModel::Str(x) => SqlValueModel::Text(x),
    }
}

/// The value to bind to a statement for a value of the language.
pub fn to_sql_value(value: &Value) -> (sql: SqlValue)
    ensures
        sql.deep_view() == sql_model(value.deep_view()),
{
    match value {
        Value::Int(x) => SqlValue::Integer(*x),
        Value::Float(x) => SqlValue::Real(*x),
        Value::Bool(x) => SqlValue::Integer(if *x { 1 } else { 0 }),
        Value::Str(x) => SqlValue::Text(x.clone()),
    }
}

/// The value of a column, read as the given type: an integer from an
/// integer, a float from a real or from an integer, a boolean from an
/// integer, which is true unless it is zero, and a string from a text.
pub open spec fn column_model(column: SqlValueModel, ty: BasicType) -> Result<
    ValueModel,
    DataError,
> {
    match (ty, column) {
        (BasicType::Int, SqlValueModel::Integer(x)) => Ok(ValueModel::Int(x)),
        (BasicType::Float, SqlValueModel::Real(x)) => Ok(ValueModel::Float(x)),
        (BasicType::Float, SqlValueModel::Integer(x)) => Ok(
            ValueModel::Float(canonical(ieee_from_integer(x))),
        ),
        (BasicType::Bool, SqlValueModel::Integer(x)) => Ok(ValueModel::Bool(x != 0)),
        (BasicType::Str, SqlValueModel::Text(x)) => Ok(ValueModel::Str(x)),
        _ => Err(DataError::WrongColumnType),
    }
}

/// The value of the column of index `i` of a row, read as the given type.
pub open spec fn res_model(row: Seq<SqlValueModel>, i: usize, ty: BasicType) -> Result<
    ValueModel,
    DataError,
> {
    if i >= row.len() {
        Err(DataError::MissingColumn)
    } else {
        column_model(row[i as int], ty)
    }
}

/// A value was read as its model says.
pub open spec fn read_as(result: Result<Value, DataError>, model: Result<ValueModel, DataError>) -> bool {
    match result {
        Ok(value) => model == Ok::<ValueModel, DataError>(value.deep_view()),
        Err(error) => model == Err::<ValueModel, DataError>(error),
    }
}

/// Reads the column of index `i` of a row as a value of the given type.
pub fn get_res(row: &Vec<SqlValue>, i: usize, ty: &BasicType) -> (result: Result<Value, DataError>)
    ensures
        read_as(result, res_model(row.deep_view(), i, *ty)),
{
    if i >= row.len() {
        return Err(DataError::MissingColumn);
    }
    assert(row.deep_view()[i as int] == row@[i as int].deep_view());
    match (ty, &row[i]) {
        (BasicType::Int, SqlValue::Integer(x)) => Ok(Value::Int(*x)),
        (BasicType::Float, SqlValue::Real(x)) => Ok(Value::Float(*x)),
        (BasicType::Float, SqlValue::Integer(x)) => Ok(Value::Float(Number::from_integer(*x))),
        (BasicType::Bool, SqlValue::Integer(x)) => Ok(Value::Bool(*x != 0)),
        (BasicType::Str, SqlValue::Text(x)) => Ok(Value::Str(x.clone())),
        _ => Err(DataError::WrongColumnType),
    }
}

/// The cost of an answer that took the given time, in nanoseconds: the
/// time, or the largest number that there is where the time is not known
/// or too long, and zero where it is below zero.
pub open spec fn cost_model(elapsed: Option<i64>) -> usize {
    match elapsed {
        None => usize::MAX,
        Some(nanoseconds) => if nanoseconds < 0 {
            0
        } else if nanoseconds > usize::MAX {
            usize::MAX
        } else {
            nanoseconds as usize
        },
    }
}

/// The cost of an answer that took the given time.
pub fn cost_of(elapsed: Option<i64>) -> (cost: usize)
    ensures
        cost == cost_model(elapsed),
{
    match elapsed {
        None => usize::MAX,
        Some(nanoseconds) => {
            if nanoseconds < 0 {
                0
            } else if nanoseconds as u64 > usize::MAX as u64 {
                usize::MAX
            } else {
                nanoseconds as usize
            }
        },
    }
}

/// The values of the first `n` parameters, read from a row.
pub open spec fn row_model(row: Seq<SqlValueModel>, types: Seq<BasicType>, n: int) -> Result<
    Seq<ValueModel>,
    DataError,
>
    decreases n,
{
    if n <= 0 {
        Ok(Seq::empty())
    } else {
        match row_model(row, types, n - 1) {
            Err(error) => Err(error),
            Ok(values) => match res_model(row, (n - 1) as usize, types[n - 1]) {
                Err(error) => Err(error),
                Ok(value) => Ok(values.push(value)),
            },
        }
    }
}

/// The values of the first `n` rows, one row after the other.
pub open spec fn rows_model(rows: Seq<Seq<SqlValueModel>>, types: Seq<BasicType>, n: int) -> Result<
    Seq<ValueModel>,
    DataError,
>
    decreases n,
{
    if n <= 0 {
        Ok(Seq::empty())
    } else {
        match rows_model(rows, types, n - 1) {
            Err(error) => Err(error),
            Ok(values) => match row_model(rows[n - 1], types, types.len() as int) {
                Err(error) => Err(error),
                Ok(row) => Ok(values + row),
            },
        }
    }
}

/// The answer that the rows of a statement make.
///
/// A predicate with parameters keeps the values of all the rows, one
/// without keeps their number. An aggregate keeps the first column of its
/// first row, and a negation whether there is a row.
pub open spec fn answer_model(
    kind: StaticKind,
    types: Seq<BasicType>,
    rows: Seq<Seq<SqlValueModel>>,
) -> Result<CacheEntryValueModel, DataError> {
    match kind {
        StaticKind::Ordered | StaticKind::Unordered => if types.len() > 0 {
            match rows_model(rows, types, rows.len() as int) {
                Err(error) => Err(error),
                Ok(values) => Ok(CacheEntryValueModel::Values(types.len() as usize, values)),
            }
        } else {
            Ok(CacheEntryValueModel::Count(rows.len() as usize))
        },
        StaticKind::Aggregate => if rows.len() == 0 {
            Err(DataError::MissingRow)
        } else if types.len() == 0 {
            Err(DataError::MissingColumn)
        } else {
            match res_model(rows[0], 0, types[0]) {
                Err(error) => Err(error),
                Ok(value) => Ok(CacheEntryValueModel::Aggr(value)),
            }
        },
        StaticKind::Negation => Ok(CacheEntryValueModel::Exists(rows.len() > 0)),
    }
}

/// The entry that the rows of a statement make, with its cost.
pub open spec fn entry_model(
    kind: StaticKind,
    types: Seq<BasicType>,
    rows: Seq<Seq<SqlValueModel>>,
    elapsed: Option<i64>,
) -> Result<CacheEntryModel, DataError> {
    match answer_model(kind, types, rows) {
        Err(error) => Err(error),
        Ok(value) => Ok(CacheEntryModel { cost: cost_model(elapsed), value }),
    }
}

/// An error among the first values is the error of the row.
proof fn lemma_row_error(row: Seq<SqlValueModel>, types: Seq<BasicType>, n: int, m: int)
    requires
        0 <= n <= m,
        row_model(row, types, n) is Err,
    ensures
        row_model(row, types, m) == row_model(row, types, n),
    decreases m - n,
{
    if n < m {
        lemma_row_error(row, types, n, m - 1);
    }
}

/// An error among the first rows is the error of the rows.
proof fn lemma_rows_error(rows: Seq<Seq<SqlValueModel>>, types: Seq<BasicType>, n: int, m: int)
    requires
        0 <= n <= m,
        rows_model(rows, types, n) is Err,
    ensures
        rows_model(rows, types, m) == rows_model(rows, types, n),
    decreases m - n,
{
    if n < m {
        lemma_rows_error(rows, types, n, m - 1);
    }
}

fn read_row(row: &Vec<SqlValue>, types: &Vec<BasicType>, values: &mut Vec<Value>) -> (result:
    Result<(), DataError>)
    ensures
        match result {
            Ok(_) => match row_model(row.deep_view(), types@, types.len() as int) {
                Ok(read) => final(values).deep_view() == old(values).deep_view() + read,
                Err(_) => false,
            },
            Err(error) => row_model(row.deep_view(), types@, types.len() as int) == Err::<
                Seq<ValueModel>,
                DataError,
            >(error),
        },
{
    let mut i: usize = 0;
    let ghost start = values.deep_view();
    assert(start + Seq::<ValueModel>::empty() =~= start);
    while i < types.len()
        invariant
            i <= types.len(),
            start == old(values).deep_view(),
            match row_model(row.deep_view(), types@, i as int) {
                Ok(read) => values.deep_view() == start + read,
                Err(_) => false,
            },
        decreases types.len() - i,
    {
        match get_res(row, i, &types[i]) {
            Ok(value) => {
                let ghost before = values.deep_view();
                let ghost read = row_model(row.deep_view(), types@, i as int).unwrap();
                values.push(value);
                assert(values.deep_view() =~= before.push(value.deep_view()));
                assert(start + read.push(value.deep_view()) =~= (start + read).push(
                    value.deep_view(),
                ));
            },
            Err(error) => {
                proof {
                    lemma_row_error(row.deep_view(), types@, i as int + 1, types.len() as int);
                }
                return Err(error);
            },
        }
        i += 1;
    }
    Ok(())
}

/// An entry was made as its model says.
pub open spec fn made_as(
    result: Result<CacheEntry, DataError>,
    model: Result<CacheEntryModel, DataError>,
) -> bool {
    match result {
        Ok(entry) => model == Ok::<CacheEntryModel, DataError>(entry.deep_view()),
        Err(error) => model == Err::<CacheEntryModel, DataError>(error),
    }
}

/// Makes the entry of the rows that a statement has given in the given time.
pub fn build_entry(
    kind: StaticKind,
    types: &Vec<BasicType>,
    rows: &Vec<Vec<SqlValue>>,
    elapsed: Option<i64>,
) -> (result: Result<CacheEntry, DataError>)
    ensures
        made_as(result, entry_model(kind, types@, rows.deep_view(), elapsed)),
{
    let cost = cost_of(elapsed);
    let value = match kind {
        StaticKind::Ordered | StaticKind::Unordered => {
            if types.len() > 0 {
                let mut values: Vec<Value> = Vec::new();
                let mut i: usize = 0;
                assert(values.deep_view() =~= Seq::<ValueModel>::empty());
                while i < rows.len()
                    invariant
                        i <= rows.len(),
                        types.len() > 0,
                        kind == StaticKind::Ordered || kind == StaticKind::Unordered,
                        rows_model(rows.deep_view(), types@, i as int) == Ok::<
                            Seq<ValueModel>,
                            DataError,
                        >(values.deep_view()),
                    decreases rows.len() - i,
                {
                    assert(rows.deep_view()[i as int] == rows@[i as int].deep_view());
                    match read_row(&rows[i], types, &mut values) {
                        Ok(_) => {},
                        Err(error) => {
                            proof {
                                lemma_rows_error(
                                    rows.deep_view(),
                                    types@,
                                    i as int + 1,
                                    rows.len() as int,
                                );
                            }
                            return Err(error);
                        },
                    }
                    i += 1;
                }
                CacheEntryValue::Values(types.len(), values)
            } else {
                CacheEntryValue::Count(rows.len())
            }
        },
        StaticKind::Aggregate => {
            if rows.len() == 0 {
                return Err(DataError::MissingRow);
            }
            if types.len() == 0 {
                return Err(DataError::MissingColumn);
            }
            assert(rows.deep_view()[0] == rows@[0].deep_view());
            match get_res(&rows[0], 0, &types[0]) {
                Ok(value) => CacheEntryValue::Aggr(value),
                Err(error) => {
                    return Err(error);
                },
            }
        },
        StaticKind::Negation => CacheEntryValue::Exists(rows.len() > 0),
    };
    Ok(CacheEntry { cost, value })
}

} // verus!
