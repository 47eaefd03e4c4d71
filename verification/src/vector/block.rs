//! A whole column of integers at once, and checking a whole column of storage at once.

use super::read::sequence_value;
use super::{run_of_row, sequence_at, source_row, Body, Vector};
use crate::bits::{
    below, bit_of, code_at, code_in, largest_code, lemma_code_bound, lemma_top_code, top_code,
};
use crate::data::{cell_as, integer_cell, is_narrow_layout, Cell};
use crate::text::TextSource;
use crate::types::{layout_for, Datum, Error, Failure, Value};
use vstd::prelude::*;

verus! {

/// The 64 bit integer a single value is, for the types a column keeps in 64 bits or fewer.
pub open spec fn narrow_constant(value: Datum) -> Option<i64> {
    match value {
        Datum::TinyInt(x) => Some(x as i64),
        Datum::SmallInt(x) => Some(x as i64),
        Datum::Integer(x) => Some(x as i64),
        Datum::Date(x) => Some(x as i64),
        Datum::BigInt(x) => Some(x),
        Datum::Time(x) => Some(x),
        Datum::Timestamp(x) => Some(x),
        _ => None,
    }
}

impl Vector {
    /// Whether the column can be handed over as a block of 64 bit integers.
    pub open spec fn blockable(&self) -> bool
        decreases self,
    {
        match &self.body {
            Body::Flat(data) => is_narrow_layout(data.layout()) && self.len <= data.size(),
            Body::Constant(value) => narrow_constant(value.datum()) is Some,
            Body::Sequence { .. } => true,
            Body::Packed { width, base, .. } => i64::MIN <= *base && *base + top_code(
                *width as nat,
            ) <= i64::MAX,
            Body::Dictionary { codes, values, .. } => values.clear_of_nulls() && values.blockable()
                && forall|i: int| 0 <= i < codes@.len() ==> #[trigger] codes@[i] < values.len,
            _ => false,
        }
    }

    /// What a row of such a block holds, which under a null is whatever the body holds there.
    pub open spec fn block_at(&self, at: int) -> i64
        decreases self,
    {
        match &self.body {
            Body::Flat(data) => match data.cell(at) {
                Cell::Signed(x) => x as i64,
                _ => 0,
            },
            Body::Constant(value) => narrow_constant(value.datum())->Some_0,
            Body::Sequence { start, step } => sequence_at(*start, *step, at),
            Body::Packed { words, width, base, offset } => (*base + code_in(
                words@,
                (*offset + at) * *width,
                *width as nat,
            )) as i64,
            Body::Dictionary { codes, values, .. } => values.block_at(codes@[at] as int),
            _ => 0,
        }
    }

    /// Every signed value in order, widened to `i64`, written into `out`.
    ///
    /// A null writes whatever the body holds under it. `false`, with `out` left empty, for a vector
    /// that cannot be handed over as a block, one whose values may not fit an `i64` among them.
    pub fn signed_block(&self, out: &mut Vec<i64>) -> (done: bool)
        requires
            self.wf(),
        ensures
            done == self.blockable(),
            !done ==> final(out)@.len() == 0,
            done ==> final(out)@.len() == self.len && forall|i: int|
                0 <= i < self.len ==> #[trigger] final(out)@[i] == self.block_at(i),
        decreases self,
    {
        out.clear();
        match &self.body {
            Body::Flat(data) => {
                let done = data.signed_block(self.len, out);
                assert(done ==> forall|i: int|
                    0 <= i < self.len ==> Cell::Signed(#[trigger] out@[0 + i] as int) == data.cell(
                        i,
                    ));
                assert forall|i: int| done && 0 <= i < self.len implies #[trigger] out@[i]
                    == self.block_at(i) by {
                    assert(Cell::Signed(out@[0 + i] as int) == data.cell(i));
                }
                done
            },
            Body::Constant(value) => {
                let held: i64 = match &**value {
                    Value::TinyInt(x) => *x as i64,
                    Value::SmallInt(x) => *x as i64,
                    Value::Integer(x) => *x as i64,
                    Value::Date(x) => *x as i64,
                    Value::BigInt(x) => *x,
                    Value::Time(x) => *x,
                    Value::Timestamp(x) => *x,
                    _ => return false,
                };
                let mut row: usize = 0;
                while row < self.len
                    invariant
                        row <= self.len,
                        out@.len() == row,
                        forall|i: int| 0 <= i < row ==> #[trigger] out@[i] == held,
                    decreases self.len - row,
                {
                    out.push(held);
                    row += 1;
                }
                true
            },
            Body::Sequence { start, step } => {
                let mut row: usize = 0;
                while row < self.len
                    invariant
                        row <= self.len,
                        out@.len() == row,
                        forall|i: int|
                            0 <= i < row ==> #[trigger] out@[i] == sequence_at(*start, *step, i),
                    decreases self.len - row,
                {
                    out.push(sequence_value(*start, *step, row));
                    row += 1;
                }
                true
            },
            Body::Packed { words, width, base, offset } => {
                proof {
                    lemma_top_code(*width);
                }
                let top: i128 = largest_code(*width) as i128;
                if *base < i64::MIN as i128 || *base > i64::MAX as i128 - top {
                    return false;
                }
                let zero: i64 = *base as i64;
                let mut row: usize = 0;
                while row < self.len
                    invariant
                        row <= self.len,
                        zero == *base,
                        1 <= *width <= 63,
                        *base + top_code(*width as nat) <= i64::MAX,
                        out@.len() == row,
                        forall|i: int|
                            0 <= i < row ==> #[trigger] out@[i] == *base + code_in(
                                words@,
                                (*offset + i) * *width,
                                *width as nat,
                            ),
                    decreases self.len - row,
                {
                    let bit: u128 = bit_of(*offset, row, *width);
                    let code: u64 = code_at(words.as_slice(), bit, *width);
                    proof {
                        lemma_top_code(*width);
                    }
                    out.push(zero + code as i64);
                    row += 1;
                }
                true
            },
            Body::Dictionary { codes, values, .. } => {
                let mut entries: Vec<i64> = Vec::new();
                if !values.none_null() || !values.signed_block(&mut entries) {
                    return false;
                }
                if !below(codes.as_slice(), values.len) {
                    return false;
                }
                let mut row: usize = 0;
                while row < codes.len()
                    invariant
                        row <= codes@.len(),
                        entries@.len() == values.len,
                        forall|i: int|
                            0 <= i < values.len ==> #[trigger] entries@[i] == values.block_at(i),
                        forall|i: int| 0 <= i < codes@.len() ==> #[trigger] codes@[i] < values.len,
                        out@.len() == row,
                        forall|i: int|
                            0 <= i < row ==> #[trigger] out@[i] == values.block_at(
                                codes@[i] as int,
                            ),
                    decreases codes.len() - row,
                {
                    assert(codes@[row as int] < values.len);
                    out.push(entries[codes[row] as usize]);
                    row += 1;
                }
                true
            },
            _ => false,
        }
    }

    /// The rows `at` names, read as signed integers, widened and written into `out`.
    ///
    /// `false`, with `out` cleared, for every form but the flat one and for a row past the end.
    pub fn signed_gather(&self, at: &[u32], out: &mut Vec<i64>) -> (done: bool)
        ensures
            done == (self.body matches Body::Flat(data) && is_narrow_layout(data.layout())
                && self.len <= data.size() && forall|i: int|
                0 <= i < at@.len() ==> #[trigger] at@[i] < self.len),
            !done ==> final(out)@.len() == 0,
            done ==> final(out)@.len() == at@.len() && forall|i: int|
                0 <= i < at@.len() ==> #[trigger] final(out)@[i] == self.block_at(at@[i] as int),
    {
        out.clear();
        match &self.body {
            Body::Flat(data) => {
                let done = data.signed_gather(self.len, at, out);
                assert forall|i: int| done && 0 <= i < at@.len() implies #[trigger] out@[i]
                    == self.block_at(at@[i] as int) by {
                    assert(Cell::Signed(out@[0 + i] as int) == data.cell(at@[i] as int));
                }
                done
            },
            _ => false,
        }
    }

    /// The block reader and the row reader agree wherever a row is not null.
    pub proof fn law_block_agrees_with_rows(&self, at: int)
        requires
            self.wf(),
            self.blockable(),
            0 <= at < self.len,
            !self.null_at(at),
        ensures
            self.signed_read(at) == Some(self.block_at(at) as int),
        decreases self,
    {
        match &self.body {
            Body::Packed { words, width, base, offset } => {
                lemma_code_bound(words@, (*offset + at) * *width, *width as nat);
            },
            Body::Dictionary { codes, values, .. } => {
                values.law_block_agrees_with_rows(codes@[at] as int);
            },
            _ => {},
        }
    }

    /// The integer reader and the value reader agree: where a row reads as an integer, its value is
    /// what the type makes of that integer.
    pub proof fn law_signed_agrees_with_value(&self, at: int)
        requires
            self.wf(),
            self.at_home(),
            self.signed_read(at) is Some,
        ensures
            self.datum(at) == cell_as(
                self.ty,
                integer_cell(layout_for(self.ty), self.signed_read(at)->Some_0),
            ),
        decreases self,
    {
        match &self.body {
            Body::Dictionary { codes, values, .. } => {
                values.law_signed_agrees_with_value(codes@[at] as int);
            },
            Body::Runs { ends, values } => {
                values.law_signed_agrees_with_value(run_of_row(ends@, at)->Some_0);
            },
            Body::Gathered { source, rids, offset } => {
                source.law_signed_agrees_with_value(source_row(rids@, *offset + at)->Some_0);
            },
            _ => {},
        }
    }

    /// Whether any value of this vector is read from storage when it is asked for.
    pub(crate) fn reaches_storage(&self) -> (stored: bool)
        ensures
            stored == self.stored(),
        decreases self,
    {
        match &self.body {
            Body::ExternalText { .. } => true,
            Body::Dictionary { values, .. } => values.reaches_storage(),
            Body::Runs { values, .. } => values.reaches_storage(),
            Body::Gathered { source, .. } => source.reaches_storage(),
            Body::Nested { child, .. } => child.reaches_storage(),
            Body::Fields { children } => {
                let mut f: usize = 0;
                while f < children.len()
                    invariant
                        f <= children@.len(),
                        self.body == (Body::Fields { children: *children }),
                        forall|i: int| 0 <= i < f ==> !(#[trigger] children@[i]).stored(),
                    decreases children.len() - f,
                {
                    assert(decreases_to!(*self => self.body->Fields_children@[f as int]));
                    if children[f].reaches_storage() {
                        assert(children@[f as int].stored());
                        return true;
                    }
                    f += 1;
                }
                false
            },
            _ => false,
        }
    }

    /// Whether every value in storage this vector reaches can be read.
    pub open spec fn readable(&self) -> bool
        decreases self,
    {
        match &self.body {
            Body::ExternalText { text } => forall|i: int|
                0 <= i < text.count() ==> (#[trigger] text.reads(i)) is Ok,
            Body::Dictionary { codes, values, .. } => values.stored() ==> forall|i: int|
                0 <= i < codes@.len() ==> values.failure(#[trigger] codes@[i] as int) is None,
            Body::Runs { values, .. } => values.readable(),
            Body::Gathered { source, .. } => source.readable(),
            Body::Nested { child, .. } => child.readable(),
            Body::Fields { children } => forall|f: int|
                0 <= f < children@.len() ==> (#[trigger] children@[f]).readable(),
            _ => true,
        }
    }

    /// Whether a value in storage this vector reaches fails to read so.
    pub open spec fn reads_as(&self, failure: Failure) -> bool
        decreases self,
    {
        match &self.body {
            Body::ExternalText { text } => exists|i: int|
                0 <= i < text.count() && (#[trigger] text.reads(i)) == Err::<
                    Option<Seq<u8>>,
                    Failure,
                >(failure),
            Body::Dictionary { codes, values, .. } => exists|i: int|
                0 <= i < codes@.len() && values.failure(#[trigger] codes@[i] as int) == Some(
                    failure,
                ),
            Body::Runs { values, .. } => values.reads_as(failure),
            Body::Gathered { source, .. } => source.reads_as(failure),
            Body::Nested { child, .. } => child.reads_as(failure),
            Body::Fields { children } => exists|f: int|
                0 <= f < children@.len() && (#[trigger] children@[f]).reads_as(failure),
            _ => false,
        }
    }

    /// Read every storage-backed value reachable through this vector.
    pub fn validate_external(&self) -> (valid: Result<(), Error>)
        requires
            self.wf(),
        ensures
            valid is Ok <==> self.readable(),
            valid matches Err(error) ==> self.reads_as(error@),
        decreases self,
    {
        match &self.body {
            Body::ExternalText { text } => {
                let len: usize = text.len();
                let mut row: usize = 0;
                while row < len
                    invariant
                        row <= len,
                        len == text.count(),
                        self.body == (Body::ExternalText { text: *text }),
                        forall|i: int| 0 <= i < row ==> (#[trigger] text.reads(i)) is Ok,
                    decreases len - row,
                {
                    match text.bytes_at(row) {
                        Ok(_) => {},
                        Err(error) => {
                            assert(text.reads(row as int) is Err);
                            return Err(error);
                        },
                    }
                    row += 1;
                }
                Ok(())
            },
            Body::Dictionary { codes, values, .. } => {
                if values.reaches_storage() {
                    let mut row: usize = 0;
                    while row < codes.len()
                        invariant
                            row <= codes@.len(),
                            values.wf(),
                            values.stored(),
                            self.body matches Body::Dictionary { codes: c, values: v, .. } && c
                                == *codes && v == *values,
                            forall|i: int|
                                0 <= i < row ==> values.failure(
                                    #[trigger] codes@[i] as int,
                                ) is None,
                        decreases codes.len() - row,
                    {
                        match values.try_value_at(codes[row] as usize) {
                            Ok(_) => {},
                            Err(error) => {
                                assert(values.failure(codes@[row as int] as int) is Some);
                                return Err(error);
                            },
                        }
                        row += 1;
                    }
                }
                Ok(())
            },
            Body::Runs { values, .. } => values.validate_external(),
            Body::Gathered { source, .. } => source.validate_external(),
            Body::Nested { child, .. } => child.validate_external(),
            Body::Fields { children } => {
                let mut f: usize = 0;
                while f < children.len()
                    invariant
                        f <= children@.len(),
                        self.body == (Body::Fields { children: *children }),
                        forall|i: int| 0 <= i < children@.len() ==> (#[trigger] children@[i]).wf(),
                        forall|i: int| 0 <= i < f ==> (#[trigger] children@[i]).readable(),
                    decreases children.len() - f,
                {
                    assert(decreases_to!(*self => self.body->Fields_children@[f as int]));
                    match children[f].validate_external() {
                        Ok(()) => {},
                        Err(error) => {
                            assert(!children@[f as int].readable());
                            assert(children@[f as int].reads_as(error@));
                            return Err(error);
                        },
                    }
                    f += 1;
                }
                Ok(())
            },
            _ => Ok(()),
        }
    }

    /// A vector that reads nothing from storage never fails to read.
    pub proof fn lemma_unstored_reads(&self, at: int)
        requires
            self.wf(),
            !self.stored(),
        ensures
            self.failure(at) is None,
        decreases self, 2nat, 0nat,
    {
        if 0 <= at < self.len && self.validity.valid(at) {
            match &self.body {
                Body::Dictionary { codes, values, .. } => {
                    values.lemma_unstored_reads(codes@[at] as int);
                },
                Body::Runs { ends, values } => {
                    if let Some(run) = run_of_row(ends@, at) {
                        values.lemma_unstored_reads(run);
                    }
                },
                Body::Gathered { source, rids, offset } => {
                    if let Some(row) = source_row(rids@, *offset + at) {
                        source.lemma_unstored_reads(row);
                    }
                },
                Body::Nested { entries, child } => {
                    let start = entries@[at].0 as int;
                    let stop = start + entries@[at].1;
                    child.lemma_runs_read(start, stop, true);
                },
                Body::Fields { .. } => {
                    self.lemma_fields_read(at, 0, true);
                },
                _ => {},
            }
        }
    }

    proof fn lemma_runs_read(&self, at: int, stop: int, unstored: bool)
        requires
            self.wf(),
            if unstored {
                !self.stored()
            } else {
                self.readable() && 0 <= at && stop <= self.len
            },
        ensures
            self.run_failure(at, stop) is None,
            self.pair_failure(at, stop) is None,
        decreases self, 3nat, stop - at,
    {
        if at < stop {
            if unstored {
                self.lemma_unstored_reads(at);
            } else {
                self.law_validated_rows_read(at);
            }
            if let Body::Fields { children } = &self.body {
                if children@.len() == 2 {
                    assert(children@[0].wf() && children@[1].wf());
                    if unstored {
                        assert(!children@[0].stored() && !children@[1].stored());
                        children@[0].lemma_unstored_reads(at);
                        children@[1].lemma_unstored_reads(at);
                    } else {
                        assert(children@[0].readable() && children@[1].readable());
                        children@[0].law_validated_rows_read(at);
                        children@[1].law_validated_rows_read(at);
                    }
                }
            }
            self.lemma_runs_read(at + 1, stop, unstored);
        }
    }

    proof fn lemma_fields_read(&self, at: int, f: nat, unstored: bool)
        requires
            self.wf(),
            self.body is Fields,
            0 <= at < self.len,
            if unstored {
                !self.stored()
            } else {
                self.readable()
            },
        ensures
            self.field_failure(at, f) is None,
        decreases
            self,
            1nat,
            match &self.body {
                Body::Fields { children } => children@.len() - f,
                _ => 0,
            },
    {
        if let Body::Fields { children } = &self.body {
            if f < children@.len() {
                assert(children@[f as int].wf());
                if unstored {
                    assert(!children@[f as int].stored());
                    children@[f as int].lemma_unstored_reads(at);
                } else {
                    assert(children@[f as int].readable());
                    children@[f as int].law_validated_rows_read(at);
                }
                self.lemma_fields_read(at, f + 1, unstored);
            }
        }
    }

    /// A vector whose storage was read through without a failure never fails to read a row whose
    /// codes name values.
    pub proof fn law_validated_rows_read(&self, at: int)
        requires
            self.wf(),
            self.readable(),
        ensures
            self.failure(at) is None,
        decreases self, 2nat, 0nat,
    {
        if 0 <= at < self.len && self.validity.valid(at) {
            match &self.body {
                Body::Dictionary { codes, values, .. } => {
                    if values.stored() {
                        assert(values.failure(codes@[at] as int) is None);
                    } else {
                        values.lemma_unstored_reads(codes@[at] as int);
                    }
                },
                Body::Runs { ends, values } => {
                    if let Some(run) = run_of_row(ends@, at) {
                        values.law_validated_rows_read(run);
                    }
                },
                Body::Gathered { source, rids, offset } => {
                    if let Some(row) = source_row(rids@, *offset + at) {
                        source.law_validated_rows_read(row);
                    }
                },
                Body::Nested { entries, child } => {
                    let start = entries@[at].0 as int;
                    let stop = start + entries@[at].1;
                    child.lemma_runs_read(start, stop, false);
                },
                Body::Fields { .. } => {
                    self.lemma_fields_read(at, 0, false);
                },
                _ => {},
            }
        }
    }
}

} // verus!
