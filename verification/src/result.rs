//! Chunks of columns, and what a query hands back.

use crate::scan::{decimal, decimal_text};
use crate::types::{About, Datum, Error, ErrorCode, Failure, LogicalType, Subject, Value};
use crate::vector::{
    datums, flatten_failure, holds_copy, holds_rows, is_flattened, refusal, restored, same_values,
    widened, Vector,
};
use vstd::prelude::*;
use vstd::string::*;

verus! {

/// Columns side by side, each as long as the others.
pub struct Chunk {
    pub columns: Vec<Vector>,
    pub len: usize,
}

/// Why the first of some columns, from `c` on, whose rows cannot be copied out cannot.
pub open spec fn select_failure(columns: Seq<Vector>, at: Seq<usize>, c: nat) -> Option<Failure>
    decreases columns.len() - c,
{
    if c >= columns.len() {
        None
    } else {
        match columns[c as int].copy_failure(at, true) {
            Some(failure) => Some(failure),
            None => select_failure(columns, at, c + 1),
        }
    }
}

/// Whether a chunk is those rows of some columns.
pub open spec fn is_selection(chunk: Chunk, columns: Seq<Vector>, at: Seq<usize>) -> bool {
    &&& chunk.wf()
    &&& chunk.len == at.len()
    &&& chunk.columns@.len() == columns.len()
    &&& forall|c: int|
        0 <= c < columns.len() ==> holds_copy(#[trigger] chunk.columns@[c], columns[c], at, true)
}

/// Why the first of some columns, from `c` on, that cannot be laid out flat cannot.
pub open spec fn flat_failure(columns: Seq<Vector>, c: nat) -> Option<Failure>
    decreases columns.len() - c,
{
    if c >= columns.len() {
        None
    } else {
        match flatten_failure(columns[c as int]) {
            Some(failure) => Some(failure),
            None => flat_failure(columns, c + 1),
        }
    }
}

/// Whether a chunk is some columns, each laid out flat.
pub open spec fn is_flat_chunk(chunk: Chunk, columns: Seq<Vector>, len: int) -> bool {
    &&& chunk.wf()
    &&& chunk.len == len
    &&& chunk.columns@.len() == columns.len()
    &&& forall|c: int|
        0 <= c < columns.len() ==> is_flattened(#[trigger] chunk.columns@[c], columns[c])
            && chunk.columns@[c].ty == columns[c].ty && chunk.columns@[c].written_out()
}

impl Chunk {
    pub open spec fn wf(&self) -> bool {
        forall|c: int|
            0 <= c < self.columns@.len() ==> (#[trigger] self.columns@[c]).wf()
                && self.columns@[c].len == self.len
    }

    /// Whether every value repeated in a column is one its type keeps as it is.
    pub open spec fn at_home(&self) -> bool {
        forall|c: int| 0 <= c < self.columns@.len() ==> (#[trigger] self.columns@[c]).at_home()
    }

    /// What a cell holds, null past the last row.
    pub open spec fn cell(&self, row: int, column: int) -> Datum {
        self.columns@[column].datum(row)
    }

    /// Columns side by side. Columns of different lengths are refused.
    pub fn new(columns: Vec<Vector>) -> (chunk: Result<Chunk, Error>)
        requires
            forall|c: int| 0 <= c < columns@.len() ==> (#[trigger] columns@[c]).wf(),
        ensures
            match chunk {
                Ok(chunk) => chunk.wf() && chunk.columns == columns && (columns@.len() == 0
                    ==> chunk.len == 0),
                Err(error) => error@ == (Failure {
                    code: ErrorCode::Internal,
                    message: "columns of different lengths in one chunk"@,
                    about: About::Nothing,
                }) && exists|c: int|
                    0 <= c < columns@.len() && (#[trigger] columns@[c]).len != columns@[0].len,
            },
    {
        let len: usize = if columns.len() == 0 {
            0
        } else {
            columns[0].len
        };
        let mut c: usize = 0;
        while c < columns.len()
            invariant
                c <= columns@.len(),
                columns@.len() > 0 ==> len == columns@[0].len,
                forall|i: int| 0 <= i < c ==> (#[trigger] columns@[i]).len == len,
            decreases columns.len() - c,
        {
            if columns[c].len != len {
                assert(columns@[c as int].len != columns@[0].len);
                return Err(Error::internal("columns of different lengths in one chunk"));
            }
            c += 1;
        }
        Ok(Chunk { columns, len })
    }

    /// How many rows there are.
    pub fn len(&self) -> (len: usize)
        ensures
            len == self.len,
    {
        self.len
    }

    /// Whether there are no rows.
    pub fn is_empty(&self) -> (empty: bool)
        ensures
            empty == (self.len == 0),
    {
        self.len == 0
    }

    /// How many columns there are.
    pub fn width(&self) -> (width: usize)
        ensures
            width == self.columns@.len(),
    {
        self.columns.len()
    }

    /// The value of a cell, null for a column that is not there.
    pub fn value_at(&self, row: usize, column: usize) -> (value: Value)
        requires
            self.wf(),
        ensures
            value.datum() == if column < self.columns@.len() {
                self.cell(row as int, column as int)
            } else {
                Datum::Null
            },
    {
        if column < self.columns.len() {
            assert(self.columns@[column as int].wf());
            self.columns[column].value_at(row)
        } else {
            Value::Null
        }
    }

    /// The first `width` columns.
    pub fn first_columns(&self, width: usize) -> (chunk: Chunk)
        requires
            self.wf(),
            width <= self.columns@.len(),
        ensures
            chunk.wf(),
            chunk.len == self.len,
            chunk.columns@ == self.columns@.subrange(0, width as int),
    {
        let mut columns: Vec<Vector> = Vec::new();
        let mut c: usize = 0;
        while c < width
            invariant
                c <= width <= self.columns@.len(),
                columns@ == self.columns@.subrange(0, c as int),
            decreases width - c,
        {
            columns.push(self.columns[c].dup());
            assert(columns@ =~= self.columns@.subrange(0, c + 1));
            c += 1;
        }
        assert forall|i: int| 0 <= i < columns@.len() implies (#[trigger] columns@[i]).wf()
            && columns@[i].len == self.len by {
            assert(self.columns@[i].wf());
        }
        Chunk { columns, len: self.len }
    }

    /// The rows at those positions, in that order.
    pub fn select(&self, rows: &[u32]) -> (chunk: Result<Chunk, Error>)
        requires
            self.wf(),
        ensures
            match chunk {
                Ok(chunk) => {
                    &&& select_failure(self.columns@, widened(rows@), 0) is None
                    &&& is_selection(chunk, self.columns@, widened(rows@))
                    &&& self.at_home() ==> forall|c: int|
                        0 <= c < chunk.columns@.len() ==> holds_rows(
                            #[trigger] chunk.columns@[c],
                            self.columns@[c],
                            widened(rows@),
                        )
                },
                Err(error) => select_failure(self.columns@, widened(rows@), 0) == Some(error@),
            },
    {
        let ghost at = widened(rows@);
        let mut columns: Vec<Vector> = Vec::new();
        let mut c: usize = 0;
        while c < self.columns.len()
            invariant
                c <= self.columns@.len(),
                self.wf(),
                at == widened(rows@),
                columns@.len() == c,
                select_failure(self.columns@, at, 0) == select_failure(self.columns@, at, c as nat),
                forall|i: int|
                    0 <= i < c ==> holds_copy(#[trigger] columns@[i], self.columns@[i], at, true),
                self.at_home() ==> forall|i: int|
                    0 <= i < c ==> holds_rows(#[trigger] columns@[i], self.columns@[i], at),
            decreases self.columns.len() - c,
        {
            assert(self.columns@[c as int].wf());
            assert(self.at_home() ==> self.columns@[c as int].at_home());
            match self.columns[c].gather(rows) {
                Ok(column) => columns.push(column),
                Err(error) => return Err(error),
            }
            c += 1;
        }
        let chunk = Chunk { columns, len: rows.len() };
        assert forall|i: int| 0 <= i < columns@.len() implies (#[trigger] columns@[i]).wf()
            && columns@[i].len == rows@.len() by {
            assert(holds_copy(columns@[i], self.columns@[i], at, true));
        }
        Ok(chunk)
    }

    /// The same rows with every column laid out flat.
    pub fn into_flat(self) -> (chunk: Result<Chunk, Error>)
        requires
            self.wf(),
        ensures
            match chunk {
                Ok(chunk) => {
                    &&& flat_failure(self.columns@, 0) is None
                    &&& is_flat_chunk(chunk, self.columns@, self.len as int)
                    &&& self.at_home() ==> forall|c: int|
                        0 <= c < chunk.columns@.len() ==> same_values(
                            #[trigger] chunk.columns@[c],
                            self.columns@[c],
                        )
                },
                Err(error) => flat_failure(self.columns@, 0) == Some(error@),
            },
    {
        let mut columns: Vec<Vector> = Vec::new();
        let mut c: usize = 0;
        while c < self.columns.len()
            invariant
                c <= self.columns@.len(),
                self.wf(),
                columns@.len() == c,
                flat_failure(self.columns@, 0) == flat_failure(self.columns@, c as nat),
                forall|i: int|
                    0 <= i < c ==> is_flattened(#[trigger] columns@[i], self.columns@[i])
                        && columns@[i].wf() && columns@[i].ty == self.columns@[i].ty
                        && columns@[i].len == self.len && columns@[i].written_out(),
                self.at_home() ==> forall|i: int|
                    0 <= i < c ==> same_values(#[trigger] columns@[i], self.columns@[i]),
            decreases self.columns.len() - c,
        {
            assert(self.columns@[c as int].wf());
            assert(self.at_home() ==> self.columns@[c as int].at_home());
            match self.columns[c].flatten() {
                Ok(column) => columns.push(column),
                Err(error) => return Err(error),
            }
            c += 1;
        }
        let chunk = Chunk { columns, len: self.len };
        assert forall|i: int| 0 <= i < columns@.len() implies (#[trigger] columns@[i]).wf()
            && columns@[i].len == self.len by {
            assert(columns@[i].written_out());
        }
        Ok(chunk)
    }
}

/// How many rows the first `count` chunks have.
pub open spec fn rows_in(chunks: Seq<Chunk>, count: nat) -> nat
    decreases count,
{
    if count == 0 {
        0
    } else {
        rows_in(chunks, (count - 1) as nat) + chunks[count - 1].len as nat
    }
}

/// What a query hands back: the columns by name and type, and the rows in chunks.
pub struct QueryResult {
    pub names: Vec<String>,
    pub types: Vec<LogicalType>,
    pub chunks: Vec<Chunk>,
}

impl QueryResult {
    pub open spec fn wf(&self) -> bool {
        &&& self.names@.len() == self.types@.len()
        &&& forall|i: int|
            0 <= i < self.chunks@.len() ==> (#[trigger] self.chunks@[i]).wf()
                && self.chunks@[i].columns@.len() == self.types@.len()
        &&& rows_in(self.chunks@, self.chunks@.len()) <= usize::MAX
    }

    /// The result of a statement that hands back no rows.
    pub fn empty() -> (result: QueryResult)
        ensures
            result.wf(),
            result.names@.len() == 0,
            result.chunks@.len() == 0,
    {
        QueryResult { names: Vec::new(), types: Vec::new(), chunks: Vec::new() }
    }

    /// How many rows there are.
    pub fn len(&self) -> (len: usize)
        requires
            self.wf(),
        ensures
            len == rows_in(self.chunks@, self.chunks@.len()),
    {
        let mut len: usize = 0;
        let mut i: usize = 0;
        while i < self.chunks.len()
            invariant
                i <= self.chunks@.len(),
                self.wf(),
                len == rows_in(self.chunks@, i as nat),
            decreases self.chunks.len() - i,
        {
            proof {
                lemma_rows_grow(self.chunks@, (i + 1) as nat, self.chunks@.len());
            }
            len += self.chunks[i].len;
            i += 1;
        }
        len
    }

    /// How many columns there are.
    pub fn width(&self) -> (width: usize)
        ensures
            width == self.types@.len(),
    {
        self.types.len()
    }

    /// One row of values under those names, each a value its column's type keeps.
    pub fn one_row(names: Vec<String>, types: Vec<LogicalType>, values: Vec<Value>) -> (result:
        Result<QueryResult, Error>)
        requires
            names@.len() == types@.len(),
            values@.len() == types@.len(),
        ensures
            match result {
                Ok(result) => {
                    &&& result.wf()
                    &&& result.names == names
                    &&& result.types == types
                    &&& result.chunks@.len() == 1
                    &&& types@.len() > 0 ==> result.chunks@[0].len == 1
                    &&& forall|c: int|
                        0 <= c < types@.len() ==> result.chunks@[0].cell(0, c) == restored(
                            #[trigger] types@[c],
                            values@[c].datum(),
                        )
                    &&& forall|c: int|
                        0 <= c < types@.len() ==> refusal(
                            #[trigger] types@[c],
                            seq![values@[c].datum()],
                        ) is None
                },
                Err(error) => exists|c: int|
                    {
                        &&& 0 <= c < types@.len()
                        &&& refusal(#[trigger] types@[c], seq![values@[c].datum()]) == Some(error@)
                        &&& forall|b: int|
                            0 <= b < c ==> refusal(#[trigger] types@[b], seq![values@[b].datum()])
                                is None
                    },
            },
    {
        let mut columns: Vec<Vector> = Vec::new();
        let mut c: usize = 0;
        while c < types.len()
            invariant
                c <= types@.len(),
                values@.len() == types@.len(),
                columns@.len() == c,
                forall|i: int|
                    0 <= i < c ==> (#[trigger] columns@[i]).wf() && columns@[i].len == 1
                        && columns@[i].datum(0) == restored(types@[i], values@[i].datum()),
                forall|i: int|
                    0 <= i < c ==> refusal(#[trigger] types@[i], seq![values@[i].datum()]) is None,
            decreases types.len() - c,
        {
            let one = vec![values[c].dup()];
            assert(datums(one@) =~= seq![values@[c as int].datum()]);
            match Vector::from_values(types[c].dup(), one.as_slice()) {
                Ok(column) => {
                    assert(column.datum(0) == restored(types@[c as int], one@[0].datum()));
                    columns.push(column);
                },
                Err(error) => {
                    assert(refusal(types@[c as int], seq![values@[c as int].datum()]) == Some(
                        error@,
                    ));
                    return Err(error);
                },
            }
            c += 1;
        }
        let len: usize = if types.len() > 0 {
            1
        } else {
            0
        };
        let chunk = Chunk { columns, len };
        let chunks = vec![chunk];
        let result = QueryResult { names, types, chunks };
        proof {
            assert(rows_in(chunks@, 0) == 0);
            assert(rows_in(chunks@, 1) == rows_in(chunks@, 0) + chunks@[0].len);
            assert forall|c: int| 0 <= c < types@.len() implies result.chunks@[0].cell(0, c)
                == restored(#[trigger] types@[c], values@[c].datum()) by {
                assert(columns@[c].datum(0) == restored(types@[c], values@[c].datum()));
            }
        }
        Ok(result)
    }
}

proof fn lemma_rows_grow(chunks: Seq<Chunk>, few: nat, many: nat)
    requires
        few <= many <= chunks.len(),
    ensures
        rows_in(chunks, few) <= rows_in(chunks, many),
    decreases many - few,
{
    if few < many {
        lemma_rows_grow(chunks, few, (many - 1) as nat);
    }
}

/// The one cell of a one by one result, and an error for anything else.
pub fn single(result: &QueryResult) -> (value: Result<Value, Error>)
    requires
        result.wf(),
    ensures
        match value {
            Ok(value) => rows_in(result.chunks@, result.chunks@.len()) == 1 && result.types@.len()
                == 1 && exists|i: int|
                0 <= i < result.chunks@.len() && (#[trigger] result.chunks@[i]).len == 1
                    && value.datum() == result.chunks@[i].cell(0, 0),
            Err(error) => (rows_in(result.chunks@, result.chunks@.len()) != 1
                || result.types@.len() != 1) && error@ == (Failure {
                code: ErrorCode::InvalidInput,
                message: "expected one row of one column, got "@ + decimal(
                    rows_in(result.chunks@, result.chunks@.len()),
                ) + " rows of "@ + decimal(result.types@.len()) + " columns"@,
                about: About::Nothing,
            }),
        },
{
    let rows: usize = result.len();
    let width: usize = result.width();
    if rows != 1 || width != 1 {
        let mut message = "expected one row of one column, got ".to_owned();
        let count = decimal_text(rows as u128);
        message.append(count.as_str());
        message.append(" rows of ");
        let wide = decimal_text(width as u128);
        message.append(wide.as_str());
        message.append(" columns");
        return Err(Error { code: ErrorCode::InvalidInput, message, about: Subject::Nothing });
    }
    let mut i: usize = 0;
    while i < result.chunks.len()
        invariant
            i <= result.chunks@.len(),
            result.wf(),
            result.types@.len() == 1,
            rows_in(result.chunks@, i as nat) == 0,
            rows_in(result.chunks@, result.chunks@.len()) == 1,
        decreases result.chunks.len() - i,
    {
        assert(result.chunks@[i as int].wf());
        if result.chunks[i].len > 0 {
            proof {
                lemma_rows_grow(result.chunks@, (i + 1) as nat, result.chunks@.len());
            }
            return Ok(result.chunks[i].value_at(0, 0));
        }
        i += 1;
    }
    Ok(Value::Null)
}

/// The rows of some chunks are the rows of each, added up.
pub proof fn law_rows_add_up(chunks: Seq<Chunk>, count: nat)
    requires
        count < chunks.len(),
    ensures
        rows_in(chunks, 0) == 0,
        rows_in(chunks, count + 1) == rows_in(chunks, count) + chunks[count as int].len,
{
}

/// The rows picked out of some columns are the rows at those places, in the order they were picked in:
/// the cell of a picked row is the cell of the row it was picked from.
pub proof fn law_a_picked_row_is_the_row_it_was_picked_from(
    chunk: Chunk,
    columns: Seq<Vector>,
    at: Seq<usize>,
    row: int,
    c: int,
)
    requires
        is_selection(chunk, columns, at),
        0 <= row < at.len(),
        0 <= c < columns.len(),
        columns[c].wf(),
        columns[c].at_home(),
    ensures
        chunk.len == at.len(),
        chunk.columns@.len() == columns.len(),
        chunk.cell(row, c) == columns[c].datum(at[row] as int),
{
    assert(holds_copy(chunk.columns@[c], columns[c], at, true));
    columns[c].law_a_copy_reads_as_its_rows(at, true, row);
}

/// A chunk laid out flat has the same cells.
pub proof fn law_a_flat_chunk_has_the_same_cells(
    chunk: Chunk,
    columns: Seq<Vector>,
    len: int,
    row: int,
    c: int,
)
    requires
        is_flat_chunk(chunk, columns, len),
        0 <= c < columns.len(),
        0 <= row < columns[c].len,
        columns[c].wf(),
        columns[c].at_home(),
    ensures
        chunk.len == len,
        chunk.columns@.len() == columns.len(),
        chunk.cell(row, c) == columns[c].datum(row),
{
    assert(is_flattened(chunk.columns@[c], columns[c]));
    if !(columns[c].body is Flat) {
        let every = crate::vector::gather::every_row(columns[c].len as nat);
        columns[c].law_a_copy_reads_as_its_rows(every, false, row);
        assert(every[row] == row);
    }
}

} // verus!
