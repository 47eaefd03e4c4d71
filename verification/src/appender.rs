//! Rows appended a value at a time, with no statement in between.
//!
//! A finished row goes into one buffer per column, and every [`VECTOR_SIZE`] rows the buffers become
//! a chunk. The chunks are handed over to be written at a flush, at a close, and on their own once a
//! quarter million rows are waiting, so rows become visible at a flush and not before. A flush that
//! fails throws away what it was writing.

use crate::result::{rows_in, Chunk};
use crate::rows::{all_rows, chunk_rows, lemma_all_rows_len, lemma_pushed};
use crate::types::{About, Datum, Error, ErrorCode, Failure, Field, Value};
use crate::vector::{datums, refusal, restored, Vector, VECTOR_SIZE};
use vstd::prelude::*;
use vstd::slice::*;
use vstd::string::*;

verus! {

/// How many rows wait in chunks before they are written without being asked for.
pub const WAITING: usize = 262_144;

/// Appends rows to one table, a value at a time.
pub struct Appender {
    pub fields: Vec<Field>,
    /// One buffer per column, each holding the values of the rows not yet in a chunk.
    pub columns: Vec<Vec<Value>>,
    /// The column the next value lands in.
    pub next: usize,
    pub chunks: Vec<Chunk>,
    pub waiting: usize,
    pub closed: bool,
}

/// What a value comes to: itself where it is null or needs no cast, and what the cast made of it
/// otherwise.
pub open spec fn cast_datum(value: Value, cast: Option<Result<Value, Error>>) -> Option<Datum> {
    if value.datum() is Null {
        Some(Datum::Null)
    } else {
        match cast {
            None => Some(value.datum()),
            Some(Ok(made)) => Some(made.datum()),
            Some(Err(_)) => None,
        }
    }
}

/// A value with what casting it to its column's type gave, where it needs a cast.
pub type Offered = (Value, Option<Result<Value, Error>>);

/// How many values of a row are taken before one does not cast or there is no column left.
pub open spec fn taken(row: Seq<Offered>, room: int, from: nat) -> nat
    decreases row.len() - from,
{
    if from >= row.len() || from >= room || cast_datum(row[from as int].0, row[from as int].1) is None {
        from
    } else {
        taken(row, room, from + 1)
    }
}

/// What the first `count` values of a row come to.
pub open spec fn made_of(row: Seq<Offered>, count: nat) -> Seq<Datum> {
    Seq::new(
        count,
        |c: int|
            match cast_datum(row[c].0, row[c].1) {
                Some(made) => made,
                None => Datum::Null,
            },
    )
}

/// The refusal of a value past the last column.
pub open spec fn too_many() -> Failure {
    Failure {
        code: ErrorCode::InvalidInput,
        message: "Too many appends for chunk!"@,
        about: About::Nothing,
    }
}

/// The refusal of a row ended too soon.
pub open spec fn ended_too_soon() -> Failure {
    Failure {
        code: ErrorCode::InvalidInput,
        message: "Call to EndRow before all columns have been appended to!"@,
        about: About::Nothing,
    }
}

/// A row as a table of those columns keeps it.
pub open spec fn kept_row(fields: Seq<Field>, row: Seq<Datum>) -> Seq<Datum> {
    Seq::new(fields.len(), |c: int| restored(fields[c].ty, row[c]))
}

/// Why the first column, from `c` on, that cannot be built out of its values cannot.
pub open spec fn first_refusal(
    fields: Seq<Field>,
    columns: Seq<Seq<Datum>>,
    c: nat,
) -> Option<Failure>
    decreases fields.len() - c,
{
    if c >= fields.len() {
        None
    } else {
        match refusal(fields[c as int].ty, columns[c as int]) {
            Some(failure) => Some(failure),
            None => first_refusal(fields, columns, c + 1),
        }
    }
}

impl Appender {
    /// How many finished rows the column buffers hold.
    pub open spec fn finished(&self) -> int {
        if self.fields@.len() == 0 {
            0
        } else if self.next == self.fields@.len() {
            self.columns@.last()@.len() - 1
        } else {
            self.columns@.last()@.len() as int
        }
    }

    pub open spec fn wf(&self) -> bool {
        &&& self.columns@.len() == self.fields@.len()
        &&& self.next <= self.fields@.len()
        &&& 0 <= self.finished() < VECTOR_SIZE
        &&& forall|c: int|
            0 <= c < self.columns@.len() ==> (#[trigger] self.columns@[c])@.len()
                == self.finished() + if c < self.next {
                1int
            } else {
                0
            }
        &&& forall|i: int|
            0 <= i < self.chunks@.len() ==> (#[trigger] self.chunks@[i]).wf()
                && self.chunks@[i].columns@.len() == self.fields@.len()
        &&& self.waiting == rows_in(self.chunks@, self.chunks@.len())
        &&& self.waiting < WAITING
    }

    /// The values of the row being built.
    pub open spec fn started(&self) -> Seq<Datum> {
        Seq::new(self.next as nat, |c: int| self.columns@[c]@[self.finished()].datum())
    }

    /// The finished rows in the column buffers, as the table keeps them.
    pub open spec fn buffered(&self) -> Seq<Seq<Datum>> {
        Seq::new(
            self.finished() as nat,
            |r: int|
                Seq::new(
                    self.fields@.len(),
                    |c: int| restored(self.fields@[c].ty, self.columns@[c]@[r].datum()),
                ),
        )
    }

    /// Every finished row that was not handed over yet, as the table keeps it.
    pub open spec fn rows(&self) -> Seq<Seq<Datum>> {
        all_rows(self.chunks@, self.chunks@.len()) + self.buffered()
    }

    /// The first `finished` values of each column.
    pub open spec fn buffers(&self, finished: int) -> Seq<Seq<Datum>> {
        Seq::new(
            self.fields@.len(),
            |c: int| datums(self.columns@[c]@.subrange(0, finished)),
        )
    }

    /// Why the finished values do not make a chunk, and `None` where they do or there are none.
    pub open spec fn refused(&self) -> Option<Failure> {
        if self.finished() == 0 {
            None
        } else {
            first_refusal(self.fields@, self.buffers(self.finished()), 0)
        }
    }

    /// The same of the finished values with one row of values after them.
    pub open spec fn refused_with(&self, row: Seq<Datum>) -> Option<Failure> {
        let before = self.buffers(self.finished());
        first_refusal(
            self.fields@,
            Seq::new(self.fields@.len(), |c: int| before[c].push(row[c])),
            0,
        )
    }

    /// An appender to a table of those columns, with nothing appended yet.
    pub fn new(fields: Vec<Field>) -> (appender: Appender)
        ensures
            appender.wf(),
            appender.fields == fields,
            appender.rows().len() == 0,
            appender.started().len() == 0,
            !appender.closed,
    {
        let mut columns: Vec<Vec<Value>> = Vec::new();
        let mut at: usize = 0;
        while at < fields.len()
            invariant
                at <= fields@.len(),
                columns@.len() == at,
                forall|c: int| 0 <= c < at ==> (#[trigger] columns@[c])@.len() == 0,
            decreases fields.len() - at,
        {
            columns.push(Vec::new());
            at += 1;
        }
        Appender { fields, columns, next: 0, chunks: Vec::new(), waiting: 0, closed: false }
    }

    /// The table's columns, in the order a row's values are appended.
    pub fn columns(&self) -> (fields: &[Field])
        ensures
            fields@ == self.fields@,
    {
        self.fields.as_slice()
    }

    /// The column the next value is for, and `None` once the row has a value for every column.
    pub fn next_field(&self) -> (field: Option<&Field>)
        requires
            self.wf(),
        ensures
            match field {
                Some(field) => self.next < self.fields@.len() && *field
                    == self.fields@[self.next as int],
                None => self.next == self.fields@.len(),
            },
    {
        if self.next < self.fields.len() {
            Some(&self.fields[self.next])
        } else {
            None
        }
    }

    /// Appends the next value of the row being built. A value that is not of its column's type comes
    /// with what casting it to the type gave.
    pub fn append(&mut self, value: Value, cast: Option<Result<Value, Error>>) -> (done: Result<
        (),
        Error,
    >)
        requires
            old(self).wf(),
        ensures
            final(self).wf(),
            final(self).fields == old(self).fields,
            final(self).closed == old(self).closed,
            final(self).rows() == old(self).rows(),
            final(self).chunks == old(self).chunks,
            final(self).waiting == old(self).waiting,
            final(self).finished() == old(self).finished(),
            forall|c: int|
                0 <= c < old(self).fields@.len() ==> (#[trigger] final(self).columns@[c])@.subrange(
                    0,
                    old(self).finished(),
                ) == old(self).columns@[c]@.subrange(0, old(self).finished()),
            match done {
                Ok(()) => old(self).next < old(self).fields@.len() && (cast_datum(
                    value,
                    cast,
                ) matches Some(made) && final(self).started() == old(self).started().push(made)),
                Err(error) => *final(self) == *old(self) && if old(self).next
                    == old(self).fields@.len() {
                    error@ == too_many()
                } else {
                    !(value.datum() is Null) && cast == Some(Err::<Value, Error>(error))
                },
            },
    {
        if self.next >= self.fields.len() {
            return Err(Error::invalid_input("Too many appends for chunk!"));
        }
        let made = if value.is_null() {
            value
        } else {
            match cast {
                None => value,
                Some(Ok(made)) => made,
                Some(Err(error)) => return Err(error),
            }
        };
        let at: usize = self.next;
        self.columns[at].push(made);
        self.next = at + 1;
        assert(self.finished() == old(self).finished());
        assert(self.started() =~= old(self).started().push(made.datum()));
        assert forall|c: int| 0 <= c < old(self).fields@.len() implies (
        #[trigger] self.columns@[c])@.subrange(0, old(self).finished())
            == old(self).columns@[c]@.subrange(0, old(self).finished()) by {
            assert(self.columns@[c]@.subrange(0, old(self).finished()) =~= old(
                self,
            ).columns@[c]@.subrange(0, old(self).finished()));
        }
        proof {
            let finished = self.finished();
            assert forall|c: int, r: int|
                0 <= c < self.fields@.len() && 0 <= r < finished implies #[trigger] self.columns@[c]@[r]
                == old(self).columns@[c]@[r] by {}
            assert(self.buffered() =~= old(self).buffered()) by {
                assert forall|r: int| 0 <= r < finished implies self.buffered()[r]
                    == old(self).buffered()[r] by {
                    assert(self.buffered()[r] =~= old(self).buffered()[r]);
                }
            }
        }
        Ok(())
    }

    /// Appends the column's default as the next value, or a null for a column with none. The answer
    /// is what evaluating the default gave.
    pub fn append_default(
        &mut self,
        answer: Option<Result<Value, Error>>,
        cast: Option<Result<Value, Error>>,
    ) -> (done: Result<(), Error>)
        requires
            old(self).wf(),
        ensures
            final(self).wf(),
            final(self).fields == old(self).fields,
            final(self).closed == old(self).closed,
            final(self).rows() == old(self).rows(),
            match done {
                Ok(()) => old(self).next < old(self).fields@.len() && match answer {
                    None => final(self).started() == old(self).started().push(Datum::Null),
                    Some(Ok(value)) => cast_datum(value, cast) matches Some(made)
                        && final(self).started() == old(self).started().push(made),
                    Some(Err(_)) => false,
                },
                Err(error) => *final(self) == *old(self) && if old(self).next
                    == old(self).fields@.len() {
                    error@ == too_many()
                } else {
                    match answer {
                        None => false,
                        Some(Ok(value)) => !(value.datum() is Null) && cast == Some(
                            Err::<Value, Error>(error),
                        ),
                        Some(Err(failed)) => error == failed,
                    }
                },
            },
    {
        if self.next >= self.fields.len() {
            return Err(Error::invalid_input("Too many appends for chunk!"));
        }
        match answer {
            None => self.append(Value::Null, None),
            Some(Ok(value)) => self.append(value, cast),
            Some(Err(error)) => Err(error),
        }
    }

    /// The finished rows in the column buffers, as a chunk. Where a column cannot be built out of
    /// them they are thrown away.
    fn seal(&mut self) -> (done: Result<(), Error>)
        requires
            old(self).columns@.len() == old(self).fields@.len(),
            old(self).next <= old(self).fields@.len(),
            0 <= old(self).finished(),
            old(self).waiting + old(self).finished() <= usize::MAX,
            forall|c: int|
                0 <= c < old(self).columns@.len() ==> (#[trigger] old(self).columns@[c])@.len()
                    == old(self).finished() + if c < old(self).next {
                    1int
                } else {
                    0
                },
            forall|i: int|
                0 <= i < old(self).chunks@.len() ==> (#[trigger] old(self).chunks@[i]).wf()
                    && old(self).chunks@[i].columns@.len() == old(self).fields@.len(),
            old(self).waiting == rows_in(old(self).chunks@, old(self).chunks@.len()),
        ensures
            final(self).fields == old(self).fields,
            final(self).closed == old(self).closed,
            final(self).next == old(self).next,
            final(self).columns@.len() == final(self).fields@.len(),
            final(self).finished() == 0,
            forall|c: int|
                0 <= c < final(self).columns@.len() ==> (#[trigger] final(self).columns@[c])@.len()
                    == if c < final(self).next {
                    1int
                } else {
                    0
                },
            forall|i: int|
                0 <= i < final(self).chunks@.len() ==> (#[trigger] final(self).chunks@[i]).wf()
                    && final(self).chunks@[i].columns@.len() == final(self).fields@.len(),
            final(self).waiting == rows_in(final(self).chunks@, final(self).chunks@.len()),
            final(self).started() == old(self).started(),
            match done {
                Ok(()) => old(self).refused() is None && final(self).waiting == old(self).waiting
                    + old(self).finished() && all_rows(
                    final(self).chunks@,
                    final(self).chunks@.len(),
                ) == old(self).rows(),
                Err(error) => final(self).chunks == old(self).chunks && old(self).refused() == Some(
                    error@,
                ),
            },
    {
        let width: usize = self.fields.len();
        let finished: usize = if width == 0 {
            0
        } else if self.next == width {
            self.columns[width - 1].len() - 1
        } else {
            self.columns[width - 1].len()
        };
        if finished == 0 {
            assert(self.buffered() =~= seq![]);
            assert(self.rows() =~= all_rows(self.chunks@, self.chunks@.len()));
            return Ok(());
        }
        let mut vectors: Vec<Vector> = Vec::new();
        let mut rest: Vec<Vec<Value>> = Vec::new();
        let mut failure: Option<Error> = None;
        let mut at: usize = 0;
        while at < width
            invariant
                at <= width,
                width == self.fields@.len(),
                *self == *old(self),
                self.columns@.len() == width,
                self.next <= width,
                finished == self.finished(),
                finished > 0,
                forall|c: int|
                    0 <= c < self.columns@.len() ==> (#[trigger] self.columns@[c])@.len()
                        == self.finished() + if c < self.next {
                        1int
                    } else {
                        0
                    },
                rest@.len() == at,
                forall|c: int|
                    0 <= c < at ==> (#[trigger] rest@[c])@.len() == if c < self.next {
                        1int
                    } else {
                        0
                    },
                forall|c: int|
                    0 <= c < at && c < self.next ==> (#[trigger] rest@[c])@[0].datum()
                        == self.columns@[c]@[finished as int].datum(),
                match failure {
                    None => vectors@.len() == at && self.refused() == first_refusal(
                        self.fields@,
                        self.buffers(finished as int),
                        at as nat,
                    ),
                    Some(error) => self.refused() == Some(error@),
                },
                forall|c: int|
                    0 <= c < vectors@.len() && failure is None ==> {
                        &&& (#[trigger] vectors@[c]).wf()
                        &&& vectors@[c].len == finished
                        &&& forall|r: int|
                            0 <= r < finished ==> #[trigger] vectors@[c].datum(r) == restored(
                                self.fields@[c].ty,
                                self.columns@[c]@[r].datum(),
                            )
                    },
            decreases width - at,
        {
            assert(self.columns@[at as int]@.len() >= finished);
            let values = slice_subrange(self.columns[at].as_slice(), 0, finished);
            assert(datums(values@) =~= self.buffers(finished as int)[at as int]);
            if failure.is_none() {
                match Vector::from_values(self.fields[at].ty.dup(), values) {
                    Ok(vector) => {
                        assert forall|r: int| 0 <= r < finished implies #[trigger] vector.datum(r)
                            == restored(
                            self.fields@[at as int].ty,
                            self.columns@[at as int]@[r].datum(),
                        ) by {
                            assert(values@[r] == self.columns@[at as int]@[r]);
                        }
                        vectors.push(vector);
                    },
                    Err(error) => {
                        failure = Some(error);
                    },
                }
            }
            let mut left: Vec<Value> = Vec::new();
            if at < self.next {
                left.push(self.columns[at][finished].dup());
            }
            rest.push(left);
            at += 1;
        }
        let ghost before = *self;
        self.columns = rest;
        assert(self.started() =~= before.started()) by {
            assert forall|c: int| 0 <= c < self.next implies self.started()[c]
                == before.started()[c] by {
                assert(rest@[c]@[0].datum() == before.columns@[c]@[finished as int].datum());
            }
        }
        if let Some(error) = failure {
            return Err(error);
        }
        assert(forall|c: int| 0 <= c < vectors@.len() ==> (#[trigger] vectors@[c]).wf());
        match Chunk::new(vectors) {
            Ok(chunk) => {
                proof {
                    assert(chunk.columns@[0].len == finished);
                    assert forall|r: int| 0 <= r < finished implies chunk_rows(chunk)[r]
                        == before.buffered()[r] by {
                        assert(chunk_rows(chunk)[r] =~= before.buffered()[r]);
                    }
                    assert(chunk_rows(chunk) =~= before.buffered());
                    lemma_pushed(before.chunks@, chunk);
                    lemma_rows_pushed(before.chunks@, chunk);
                }
                self.chunks.push(chunk);
                self.waiting = self.waiting + finished;
                Ok(())
            },
            Err(error) => {
                assert(false);
                Err(error)
            },
        }
    }

    /// Finishes the row being built. The chunks to write come back once enough rows are waiting.
    pub fn end_row(&mut self) -> (due: Result<Option<Vec<Chunk>>, Error>)
        requires
            old(self).wf(),
        ensures
            final(self).wf(),
            final(self).fields == old(self).fields,
            final(self).closed == old(self).closed,
            ({
                let complete = old(self).next == old(self).fields@.len();
                let width = old(self).fields@.len();
                let ended = if width == 0 {
                    old(self).rows()
                } else {
                    old(self).rows().push(kept_row(old(self).fields@, old(self).started()))
                };
                let full = width > 0 && old(self).finished() + 1 == VECTOR_SIZE;
                let refused = old(self).refused_with(old(self).started());
                match due {
                    Ok(None) => {
                        &&& complete
                        &&& full ==> refused is None
                        &&& final(self).rows() == ended
                        &&& final(self).started().len() == 0
                        &&& !(full && old(self).waiting + VECTOR_SIZE >= WAITING)
                    },
                    Ok(Some(chunks)) => {
                        &&& complete
                        &&& full && old(self).waiting + VECTOR_SIZE >= WAITING
                        &&& refused is None
                        &&& all_rows(chunks@, chunks@.len()) == ended
                        &&& forall|i: int|
                            0 <= i < chunks@.len() ==> (#[trigger] chunks@[i]).wf()
                                && chunks@[i].columns@.len() == width
                        &&& final(self).rows().len() == 0
                        &&& final(self).started().len() == 0
                    },
                    Err(error) => if complete {
                        &&& full
                        &&& final(self).rows() == all_rows(
                            old(self).chunks@,
                            old(self).chunks@.len(),
                        )
                        &&& final(self).started().len() == 0
                        &&& refused == Some(error@)
                    } else {
                        *final(self) == *old(self) && error@ == ended_too_soon()
                    },
                }
            }),
    {
        if self.next != self.fields.len() {
            return Err(
                Error::invalid_input("Call to EndRow before all columns have been appended to!"),
            );
        }
        let ghost before = *self;
        self.next = 0;
        proof {
            if before.fields@.len() > 0 {
                assert(self.finished() == before.finished() + 1);
                let row = kept_row(before.fields@, before.started());
                assert forall|r: int| 0 <= r < self.finished() implies self.buffered()[r]
                    == before.buffered().push(row)[r] by {
                    assert(self.buffered()[r] =~= before.buffered().push(row)[r]);
                }
                assert(self.buffered() =~= before.buffered().push(row));
                assert(self.rows() =~= before.rows().push(row));
            }
        }
        if self.columns.len() > 0 && self.columns[0].len() >= VECTOR_SIZE {
            let ghost ended = *self;
            proof {
                let last = before.started();
                let whole = before.buffers(before.finished());
                let grown = Seq::new(before.fields@.len(), |c: int| whole[c].push(last[c]));
                assert forall|c: int| 0 <= c < before.fields@.len() implies ended.buffers(
                    VECTOR_SIZE as int,
                )[c] == grown[c] by {
                    assert(ended.columns@[c] == before.columns@[c]);
                    assert(ended.buffers(VECTOR_SIZE as int)[c] =~= grown[c]);
                }
                assert(ended.buffers(VECTOR_SIZE as int) =~= grown);
            }
            match self.seal() {
                Ok(()) => {
                    if self.waiting >= WAITING {
                        return Ok(Some(self.hand_over()));
                    }
                    assert(self.buffered() =~= seq![]);
                    assert(self.rows() =~= ended.rows());
                },
                Err(error) => {
                    assert(self.buffered() =~= seq![]);
                    assert(self.rows() =~= all_rows(before.chunks@, before.chunks@.len()));
                    return Err(error);
                },
            }
        }
        Ok(None)
    }

    /// Appends a whole row, one value per column, and finishes it.
    pub fn append_row(&mut self, row: Vec<Offered>) -> (due: Result<Option<Vec<Chunk>>, Error>)
        requires
            old(self).wf(),
        ensures
            final(self).wf(),
            final(self).fields == old(self).fields,
            final(self).closed == old(self).closed,
            ({
                let width = old(self).fields@.len();
                let count = taken(row@, width - old(self).next, 0);
                let values = old(self).started() + made_of(row@, count);
                let complete = count == row@.len() && values.len() == width;
                let ended = if width == 0 {
                    old(self).rows()
                } else {
                    old(self).rows().push(kept_row(old(self).fields@, values))
                };
                let full = width > 0 && old(self).finished() + 1 == VECTOR_SIZE;
                let refused = old(self).refused_with(values);
                match due {
                    Ok(None) => {
                        &&& complete
                        &&& full ==> refused is None
                        &&& final(self).rows() == ended
                        &&& final(self).started().len() == 0
                        &&& !(full && old(self).waiting + VECTOR_SIZE >= WAITING)
                    },
                    Ok(Some(chunks)) => {
                        &&& complete
                        &&& full && old(self).waiting + VECTOR_SIZE >= WAITING
                        &&& refused is None
                        &&& all_rows(chunks@, chunks@.len()) == ended
                        &&& forall|i: int|
                            0 <= i < chunks@.len() ==> (#[trigger] chunks@[i]).wf()
                                && chunks@[i].columns@.len() == width
                        &&& final(self).rows().len() == 0
                        &&& final(self).started().len() == 0
                    },
                    Err(error) => if count < row@.len() {
                        &&& final(self).rows() == old(self).rows()
                        &&& final(self).started() == values
                        &&& if values.len() == width {
                            error@ == too_many()
                        } else {
                            row@[count as int].1 == Some(Err::<Value, Error>(error))
                        }
                    } else if complete {
                        &&& full
                        &&& final(self).rows() == all_rows(
                            old(self).chunks@,
                            old(self).chunks@.len(),
                        )
                        &&& final(self).started().len() == 0
                        &&& refused == Some(error@)
                    } else {
                        &&& final(self).rows() == old(self).rows()
                        &&& final(self).started() == values
                        &&& error@ == ended_too_soon()
                    },
                }
            }),
    {
        let mut left = row;
        let ghost width = self.fields@.len();
        let ghost mut count: nat = 0;
        assert(self.started() =~= old(self).started() + made_of(row@, 0));
        while left.len() > 0
            invariant
                self.wf(),
                width == self.fields@.len(),
                self.fields == old(self).fields,
                self.closed == old(self).closed,
                self.rows() == old(self).rows(),
                self.chunks == old(self).chunks,
                self.waiting == old(self).waiting,
                self.finished() == old(self).finished(),
                forall|c: int|
                    0 <= c < width ==> (#[trigger] self.columns@[c])@.subrange(
                        0,
                        old(self).finished(),
                    ) == old(self).columns@[c]@.subrange(0, old(self).finished()),
                count + left@.len() == row@.len(),
                left@ == row@.subrange(count as int, row@.len() as int),
                self.started() == old(self).started() + made_of(row@, count),
                self.next == old(self).next + count,
                old(self).next + count <= width,
                taken(row@, width - old(self).next, 0) == taken(
                    row@,
                    width - old(self).next,
                    count,
                ),
            decreases left@.len(),
        {
            let (value, cast) = left.remove(0);
            assert(row@[count as int] == (value, cast));
            match self.append(value, cast) {
                Ok(()) => {
                    assert(self.started() =~= old(self).started() + made_of(row@, count + 1));
                    proof {
                        count = count + 1;
                    }
                },
                Err(error) => {
                    return Err(error);
                },
            }
        }
        assert(count == row@.len());
        let ghost ready = *self;
        let due = self.end_row();
        proof {
            if ready.next == width {
                let values = old(self).started() + made_of(row@, count);
                assert(ready.started() =~= values);
                let finished = old(self).finished();
                assert forall|c: int| 0 <= c < width implies ready.buffers(finished)[c]
                    == old(self).buffers(finished)[c] by {
                    assert(ready.columns@[c]@.subrange(0, finished) == old(self).columns@[c]@.subrange(
                        0,
                        finished,
                    ));
                }
                assert(ready.buffers(finished) =~= old(self).buffers(finished));
                assert(ready.refused_with(ready.started()) == old(self).refused_with(values));
            }
        }
        due
    }

    /// Takes the chunks waiting.
    fn hand_over(&mut self) -> (chunks: Vec<Chunk>)
        requires
            old(self).columns@.len() == old(self).fields@.len(),
        ensures
            chunks == old(self).chunks,
            final(self).chunks@.len() == 0,
            final(self).waiting == 0,
            final(self).fields == old(self).fields,
            final(self).columns == old(self).columns,
            final(self).next == old(self).next,
            final(self).closed == old(self).closed,
    {
        let mut chunks: Vec<Chunk> = Vec::new();
        std::mem::swap(&mut self.chunks, &mut chunks);
        self.waiting = 0;
        chunks
    }

    /// Hands over every finished row to be written. A row half built stays where it is.
    ///
    /// Where a column cannot be built out of its values, none of the rows since the last flush are
    /// kept.
    pub fn flush(&mut self) -> (chunks: Result<Vec<Chunk>, Error>)
        requires
            old(self).wf(),
        ensures
            final(self).wf(),
            final(self).fields == old(self).fields,
            final(self).closed == old(self).closed,
            final(self).rows().len() == 0,
            final(self).started() == old(self).started(),
            match chunks {
                Ok(chunks) => old(self).refused() is None && all_rows(chunks@, chunks@.len())
                    == old(self).rows() && forall|i: int|
                    0 <= i < chunks@.len() ==> (#[trigger] chunks@[i]).wf()
                        && chunks@[i].columns@.len() == old(self).fields@.len(),
                Err(error) => old(self).refused() == Some(error@),
            },
    {
        let sealed = self.seal();
        let ghost held = *self;
        let chunks = self.hand_over();
        assert(self.started() =~= held.started());
        match sealed {
            Ok(()) => Ok(chunks),
            Err(error) => Err(error),
        }
    }

    /// Flushes and closes the appender, which a row half built refuses.
    pub fn close(&mut self) -> (chunks: Result<Vec<Chunk>, Error>)
        requires
            old(self).wf(),
        ensures
            final(self).wf(),
            final(self).closed,
            final(self).fields == old(self).fields,
            final(self).started() == old(self).started(),
            match chunks {
                Ok(chunks) => {
                    &&& old(self).next == 0
                    &&& old(self).refused() is None
                    &&& all_rows(chunks@, chunks@.len()) == old(self).rows()
                    &&& final(self).rows().len() == 0
                },
                Err(error) => if old(self).next != 0 {
                    final(self).rows() == old(self).rows() && error@ == (Failure {
                        code: ErrorCode::InvalidInput,
                        message: "Failed to close appender: a row was started and not ended"@,
                        about: About::Nothing,
                    })
                } else {
                    final(self).rows().len() == 0 && old(self).refused() == Some(error@)
                },
            },
    {
        self.closed = true;
        let ghost held = *self;
        assert(held.rows() == old(self).rows());
        assert(held.started() == old(self).started());
        if self.next != 0 {
            return Err(
                Error::invalid_input("Failed to close appender: a row was started and not ended"),
            );
        }
        assert(held.buffers(held.finished()) =~= old(self).buffers(old(self).finished()));
        self.flush()
    }

    /// What an appender that goes away without being closed still hands over: every finished row. A
    /// row half built stays behind, and a failure has nowhere to go and hands over nothing.
    pub fn left_over(&mut self) -> (chunks: Option<Vec<Chunk>>)
        requires
            old(self).wf(),
        ensures
            final(self).wf(),
            final(self).started() == old(self).started(),
            old(self).closed ==> *final(self) == *old(self),
            match chunks {
                Some(chunks) => {
                    &&& !old(self).closed
                    &&& old(self).refused() is None
                    &&& all_rows(chunks@, chunks@.len()) == old(self).rows()
                    &&& final(self).rows().len() == 0
                },
                None => {
                    ||| old(self).closed
                    ||| old(self).refused() is Some
                },
            },
    {
        if self.closed {
            return None;
        }
        match self.flush() {
            Ok(chunks) => Some(chunks),
            Err(_) => None,
        }
    }
}

proof fn lemma_rows_pushed(chunks: Seq<Chunk>, chunk: Chunk)
    ensures
        rows_in(chunks.push(chunk), chunks.len() + 1) == rows_in(chunks, chunks.len()) + chunk.len,
{
    lemma_rows_start(chunks, chunks.push(chunk), chunks.len());
}

proof fn lemma_rows_start(left: Seq<Chunk>, right: Seq<Chunk>, count: nat)
    requires
        count <= left.len(),
        count <= right.len(),
        forall|i: int| 0 <= i < count ==> left[i] == right[i],
    ensures
        rows_in(left, count) == rows_in(right, count),
    decreases count,
{
    if count > 0 {
        lemma_rows_start(left, right, (count - 1) as nat);
    }
}

/// The query that works a column's default out.
pub fn default_sql(default: &str, ty: &str) -> (sql: String)
    ensures
        sql@ == "SELECT CAST(("@ + default@ + ") AS "@ + ty@ + ")"@,
{
    let mut sql = "SELECT CAST((".to_owned();
    sql.append(default);
    sql.append(") AS ");
    sql.append(ty);
    sql.append(")");
    sql
}

/// A null is appended as a null, whatever its cast would say. Any other value is appended as itself
/// where it needs no cast and as what the cast made of it where it does, and one whose cast failed is
/// not appended.
pub proof fn law_a_value_is_cast_unless_it_is_null(value: Value, cast: Option<Result<Value, Error>>)
    ensures
        value.datum() is Null ==> cast_datum(value, cast) == Some(Datum::Null),
        !(value.datum() is Null) && cast is None ==> cast_datum(value, cast) == Some(value.datum()),
        !(value.datum() is Null) && (cast matches Some(Ok(_))) ==> cast_datum(value, cast) == Some(
            (cast->Some_0)->Ok_0.datum(),
        ),
        !(value.datum() is Null) && (cast matches Some(Err(_))) ==> cast_datum(value, cast) is None,
{
}

/// The values of a row are taken from the first on, and only as long as there is a column left and the
/// value casts.
pub proof fn law_values_are_taken_up_to_the_first_that_does_not_go_in(
    row: Seq<Offered>,
    room: int,
    from: nat,
)
    requires
        from <= row.len(),
        from <= room,
    ensures
        from <= taken(row, room, from) <= row.len(),
        taken(row, room, from) <= room,
        forall|i: int|
            from <= i < taken(row, room, from) ==> cast_datum(
                (#[trigger] row[i]).0,
                row[i].1,
            ) is Some,
        taken(row, room, from) < row.len() && taken(row, room, from) < room ==> cast_datum(
            row[taken(row, room, from) as int].0,
            row[taken(row, room, from) as int].1,
        ) is None,
    decreases row.len() - from,
{
    if from < row.len() && from < room && cast_datum(row[from as int].0, row[from as int].1) is Some {
        law_values_are_taken_up_to_the_first_that_does_not_go_in(row, room, from + 1);
    }
}

/// The values of a row land in the columns in the order they were given in, each as it is kept in a
/// column of its type.
pub proof fn law_a_row_is_kept_column_by_column(
    fields: Seq<Field>,
    row: Seq<Offered>,
    count: nat,
    c: int,
)
    requires
        0 <= c < count <= row.len(),
        count == fields.len(),
        cast_datum(row[c].0, row[c].1) is Some,
    ensures
        made_of(row, count).len() == count,
        made_of(row, count)[c] == cast_datum(row[c].0, row[c].1)->Some_0,
        kept_row(fields, made_of(row, count)).len() == fields.len(),
        kept_row(fields, made_of(row, count))[c] == restored(
            fields[c].ty,
            cast_datum(row[c].0, row[c].1)->Some_0,
        ),
{
}

/// Rows are refused exactly where the values of some column are, and as the first such column is.
pub proof fn law_the_first_column_that_is_refused_decides(
    fields: Seq<Field>,
    columns: Seq<Seq<Datum>>,
    c: nat,
)
    ensures
        first_refusal(fields, columns, c) is None ==> forall|i: int|
            c <= i < fields.len() ==> refusal((#[trigger] fields[i]).ty, columns[i]) is None,
        first_refusal(fields, columns, c) is Some ==> exists|i: int|
            c <= i < fields.len() && refusal((#[trigger] fields[i]).ty, columns[i]) == first_refusal(
                fields,
                columns,
                c,
            ) && forall|b: int|
                c <= b < i ==> refusal((#[trigger] fields[b]).ty, columns[b]) is None,
    decreases fields.len() - c,
{
    if c < fields.len() {
        law_the_first_column_that_is_refused_decides(fields, columns, c + 1);
        if refusal(fields[c as int].ty, columns[c as int]) is Some {
            assert(fields[c as int].ty == fields[c as int].ty);
        } else if first_refusal(fields, columns, c) is Some {
            let i = choose|i: int|
                c + 1 <= i < fields.len() && refusal((#[trigger] fields[i]).ty, columns[i])
                    == first_refusal(fields, columns, c + 1) && forall|b: int|
                    c + 1 <= b < i ==> refusal((#[trigger] fields[b]).ty, columns[b]) is None;
            assert(refusal(fields[i].ty, columns[i]) == first_refusal(fields, columns, c));
            assert forall|b: int| c <= b < i implies refusal(
                (#[trigger] fields[b]).ty,
                columns[b],
            ) is None by {}
        }
    }
}

/// The rows an appender holds are those in its chunks and then those in its buffers, a buffered row
/// being the values at its place in every column, each as its column keeps it.
pub proof fn law_a_buffered_row_stands_across_the_columns(appender: Appender, r: int, c: int)
    requires
        appender.wf(),
        0 <= r < appender.finished(),
        0 <= c < appender.fields@.len(),
    ensures
        ({
            let waiting = all_rows(appender.chunks@, appender.chunks@.len()).len();
            &&& appender.rows().len() == waiting + appender.finished()
            &&& appender.rows()[waiting + r].len() == appender.fields@.len()
            &&& appender.rows()[waiting + r][c] == restored(
                appender.fields@[c].ty,
                appender.columns@[c]@[r].datum(),
            )
            &&& appender.buffers(appender.finished())[c][r] == appender.columns@[c]@[r].datum()
        }),
{
}

/// Rows wait in whole chunks of 8192 rows, and never as many as 32 of them.
pub proof fn law_rows_wait_in_chunks(appender: Appender)
    requires
        appender.wf(),
    ensures
        appender.rows().len() < 33 * 8192,
        appender.buffered().len() < 8192,
        appender.waiting < 32 * 8192,
{
    lemma_all_rows_len(appender.chunks@, appender.chunks@.len());
}

/// A value past the last column and a row ended before it are both mistakes in what was given.
pub proof fn law_a_row_of_another_width_is_invalid_input()
    ensures
        too_many().code is InvalidInput,
        ended_too_soon().code is InvalidInput,
{
}

} // verus!
