//! Rows at given positions, and the same values in flat form.

use super::copy::{form_kept, holds_copy, holds_rows, laid_out};
use super::{Body, Vector};
use crate::bits::{below, code_in, lemma_code_bound, lemma_top_code, top_code, Packed};
use crate::data::{cell_as, copy_of, layout_high, layout_low, Cell, Data};
use crate::types::{layout_for, Datum, Error, Failure, PhysicalType};
use crate::validity::Validity;
use std::sync::Arc;
use vstd::prelude::*;

verus! {

/// The positions a filter handed over, as wide as an index is.
pub open spec fn widened(at: Seq<u32>) -> Seq<usize> {
    Seq::new(at.len(), |i: int| at[i] as usize)
}

fn code_itself(code: u64) -> (same: u64)
    ensures
        same == code,
{
    code
}

fn widen_positions(at: &[u32]) -> (wide: Vec<usize>)
    ensures
        wide@ == widened(at@),
{
    let mut wide: Vec<usize> = Vec::new();
    let mut row: usize = 0;
    while row < at.len()
        invariant
            row <= at@.len(),
            wide@ == widened(at@.subrange(0, row as int)),
        decreases at.len() - row,
    {
        wide.push(at[row] as usize);
        assert(wide@ =~= widened(at@.subrange(0, row + 1)));
        row += 1;
    }
    assert(at@.subrange(0, row as int) =~= at@);
    wide
}

/// The positions of every row in order.
pub open spec fn every_row(len: nat) -> Seq<usize> {
    Seq::new(len, |i: int| i as usize)
}

fn row_positions(len: usize) -> (at: Vec<usize>)
    ensures
        at@ == every_row(len as nat),
{
    let mut at: Vec<usize> = Vec::new();
    let mut row: usize = 0;
    while row < len
        invariant
            row <= len,
            at@ == every_row(row as nat),
        decreases len - row,
    {
        at.push(row);
        assert(at@ =~= every_row((row + 1) as nat));
        row += 1;
    }
    at
}

/// Whether a vector holds the same values as another, row for row.
pub open spec fn same_values(copy: Vector, from: Vector) -> bool {
    &&& copy.wf()
    &&& copy.ty == from.ty
    &&& copy.len == from.len
    &&& forall|i: int| #[trigger] copy.datum(i) == from.datum(i)
}

/// Why a vector cannot be laid out flat, and `None` where it can.
pub open spec fn flatten_failure(from: Vector) -> Option<Failure> {
    if from.body is Flat {
        None
    } else {
        from.copy_failure(every_row(from.len as nat), false)
    }
}

/// What a row of a vector reads as once the vector is laid out flat.
pub open spec fn flat_row(from: Vector, row: int) -> Datum {
    if from.body is Flat || !(0 <= row < from.len) {
        from.datum(row)
    } else {
        from.copied_row(every_row(from.len as nat), false, row)
    }
}

/// Laid out flat, a vector reads row for row as it did, where every value repeated in it is one its
/// type keeps as it is.
pub proof fn law_laid_out_flat_a_row_reads_the_same(from: Vector, row: int)
    requires
        from.wf(),
        from.at_home(),
    ensures
        flat_row(from, row) == from.datum(row),
{
    if !(from.body is Flat) && 0 <= row < from.len {
        from.law_a_copy_reads_as_its_rows(every_row(from.len as nat), false, row);
    }
}

/// Whether a vector is another laid out flat: every row of it written out, and the vector itself
/// where it is flat already.
pub open spec fn is_flattened(flat: Vector, from: Vector) -> bool {
    if from.body is Flat {
        flat == from
    } else {
        &&& holds_copy(flat, from, every_row(from.len as nat), false)
        &&& form_kept(flat, from.root(), from.found(every_row(from.len as nat)), false)
    }
}

proof fn lemma_every_row(copy: Vector, from: Vector)
    requires
        holds_rows(copy, from, every_row(from.len as nat)),
    ensures
        same_values(copy, from),
{
    assert forall|i: int| #[trigger] copy.datum(i) == from.datum(i) by {
        if 0 <= i < from.len {
            assert(every_row(from.len as nat)[i] == i);
        }
    }
}

/// Whether no row is masked out and every position is a row.
pub open spec fn all_there(from: Vector, at: Seq<u32>) -> bool {
    &&& forall|i: int| 0 <= i < from.len ==> #[trigger] from.validity.valid(i)
    &&& forall|i: int| 0 <= i < at.len() ==> #[trigger] at[i] < from.len
}

/// Whether rows are gathered straight out of a run: a flat one of fixed width values with no nulls,
/// every position inside it.
pub open spec fn flat_reaches(from: Vector, at: Seq<u32>) -> bool {
    (from.body matches Body::Flat(data) && !(*data is Empty) && !(*data is Varlen)) && all_there(
        from,
        at,
    )
}

/// Whether rows are unpacked in bulk: out of a packed column of 16, 32 or 64 bit signed integers
/// with no nulls, every position inside it, and both ends of its range inside an `i64`.
pub open spec fn packed_reaches(from: Vector, at: Seq<u32>) -> bool {
    &&& from.body matches Body::Packed { width, base, .. } && i64::MIN <= base && base + top_code(
        width as nat,
    ) <= i64::MAX
    &&& layout_for(from.ty) is Int64 || layout_for(from.ty) is Int32 || layout_for(from.ty) is Int16
    &&& all_there(from, at)
}

/// Whether a vector is written out by its codes: a dictionary with no mask over flat values with
/// none, every code naming one of them.
pub open spec fn codes_reach(from: Vector) -> bool {
    from.validity is AllValid && (from.body matches Body::Dictionary { codes, values, .. }
        && values.validity is AllValid && (values.body matches Body::Flat(data) && !(
    *data is Empty)) && forall|i: int| 0 <= i < codes@.len() ==> #[trigger] codes@[i] < values.len)
}

impl Vector {
    /// The values at the given positions, copied, in a form that does not point back at this
    /// vector, and null where a position is not there.
    pub fn gather(&self, indices: &[u32]) -> (gathered: Result<Vector, Error>)
        requires
            self.wf(),
        ensures
            match gathered {
                Ok(gathered) => {
                    &&& self.copy_failure(widened(indices@), true) is None
                    &&& holds_copy(gathered, *self, widened(indices@), true)
                    &&& self.at_home() ==> holds_rows(gathered, *self, widened(indices@))
                    &&& if self.keeps_dictionary(true) {
                        gathered.body matches Body::Dictionary { stable: true, .. }
                    } else {
                        form_kept(gathered, self.root(), self.found(widened(indices@)), true)
                    }
                },
                Err(error) => self.copy_failure(widened(indices@), true) == Some(error@),
            },
    {
        let wide = widen_positions(indices);
        if let Body::Dictionary { stable, .. } = &self.body {
            if *stable {
                return self.stable_gathered(wide.as_slice());
            }
        }
        if let Some(gathered) = self.unpacked_at(indices) {
            return Ok(gathered);
        }
        if let Some(gathered) = self.flat_at(indices, wide.as_slice()) {
            return Ok(gathered);
        }
        self.copied(wide.as_slice(), true)
    }

    /// A gather off a flat run of fixed width values with no nulls, every position inside it.
    fn flat_at(&self, indices: &[u32], wide: &[usize]) -> (gathered: Option<Vector>)
        requires
            self.wf(),
            wide@ == widened(indices@),
        ensures
            gathered is Some <==> flat_reaches(*self, indices@),
            gathered matches Some(gathered) ==> self.body is Flat && laid_out(gathered)
                && holds_rows(gathered, *self, wide@),
    {
        let data = match &self.body {
            Body::Flat(data) => data,
            _ => return None,
        };
        if self.validity.has_nulls(self.len) || !below(indices, self.len) {
            return None;
        }
        match &**data {
            Data::Empty | Data::Varlen(_) => return None,
            _ => {},
        }
        let gathered = Vector {
            ty: self.ty.dup(),
            len: wide.len(),
            validity: Validity::AllValid,
            body: Body::Flat(Arc::new(copy_of(data, wide))),
        };
        assert forall|j: int| 0 <= j < wide@.len() implies #[trigger] gathered.datum(j)
            == self.datum(wide@[j] as int) by {
            assert(indices@[j] < self.len);
            assert(self.validity.valid(wide@[j] as int));
        }
        Some(gathered)
    }

    /// A packed column's rows at `indices`, unpacked in bulk into a flat column.
    ///
    /// `None` for anything but a packed column with no nulls, every index in range and both ends of
    /// its range inside an `i64`.
    fn unpacked_at(&self, indices: &[u32]) -> (gathered: Option<Vector>)
        requires
            self.wf(),
        ensures
            gathered is Some <==> packed_reaches(*self, indices@),
            gathered matches Some(gathered) ==> self.body is Packed && laid_out(gathered)
                && holds_rows(
                gathered,
                *self,
                widened(indices@),
            ),
    {
        let (words, width, base, offset) = match &self.body {
            Body::Packed { words, width, base, offset } => (words, *width, *base, *offset),
            _ => return None,
        };
        if self.validity.has_nulls(self.len) || !below(indices, self.len) {
            return None;
        }
        let packed = Packed::new(words.as_slice(), width, base, offset);
        proof {
            lemma_top_code(width);
        }
        let top: i128 = packed.ceiling();
        if base < i64::MIN as i128 || base > i64::MAX as i128 || top > i64::MAX as i128 {
            return None;
        }
        let low: i64 = base as i64;
        let codes: Vec<u64> = packed.values_at(indices, code_itself);
        assert forall|j: int| 0 <= j < codes@.len() implies #[trigger] codes@[j] == packed.row_code(
            indices@[j] as int,
        ) && layout_low(layout_for(self.ty)) <= low + codes@[j] <= layout_high(
            layout_for(self.ty),
        ) && codes@[j] <= top_code(width as nat) by {
            lemma_code_bound(words@, (offset + indices@[j]) * width, width as nat);
            assert(call_ensures(
                code_itself,
                (packed.row_code(indices@[j] as int) as u64,),
                codes@[j],
            ));
        }
        let mut data = match self.ty.physical() {
            PhysicalType::Int64 => Data::Int64(Vec::new()),
            PhysicalType::Int32 => Data::Int32(Vec::new()),
            PhysicalType::Int16 => Data::Int16(Vec::new()),
            _ => return None,
        };
        let mut row: usize = 0;
        while row < codes.len()
            invariant
                row <= codes@.len(),
                top_code(width as nat) < 0x8000_0000_0000_0000,
                forall|j: int|
                    0 <= j < codes@.len() ==> layout_low(layout_for(self.ty)) <= low
                        + #[trigger] codes@[j] <= layout_high(layout_for(self.ty)) && codes@[j]
                        <= top_code(width as nat),
                data.wf(),
                data.layout() == layout_for(self.ty),
                data is Int64 || data is Int32 || data is Int16,
                data.size() == row,
                forall|j: int|
                    0 <= j < row ==> #[trigger] data.cell(j) == Cell::Signed(low + codes@[j]),
            decreases codes.len() - row,
        {
            assert(codes@[row as int] <= top_code(width as nat));
            let value: i64 = low + codes[row] as i64;
            let ghost before = data;
            match &mut data {
                Data::Int64(values) => values.push(value),
                Data::Int32(values) => values.push(value as i32),
                Data::Int16(values) => values.push(value as i16),
                _ => {},
            }
            assert forall|j: int| 0 <= j < row + 1 implies #[trigger] data.cell(j) == Cell::Signed(
                low + codes@[j],
            ) by {
                if j < row {
                    assert(data.cell(j) == before.cell(j));
                }
            }
            row += 1;
        }
        let gathered = Vector {
            ty: self.ty.dup(),
            len: indices.len(),
            validity: Validity::AllValid,
            body: Body::Flat(Arc::new(data)),
        };
        assert forall|j: int| 0 <= j < indices@.len() implies #[trigger] gathered.datum(j)
            == self.datum(widened(indices@)[j] as int) by {
            assert(indices@[j] < self.len);
            assert(self.validity.valid(indices@[j] as int));
            lemma_code_bound(words@, (offset + indices@[j]) * width, width as nat);
            assert(packed.row_code(indices@[j] as int) == code_in(
                words@,
                (offset + indices@[j]) * width,
                width as nat,
            ));
            assert(data.cell(j) == Cell::Signed(
                low + packed.row_code(indices@[j] as int),
            ));
        }
        Some(gathered)
    }

    /// A dictionary with no nulls over flat values with none, written out by its codes.
    fn decoded_codes(&self) -> (flat: Option<Vector>)
        requires
            self.wf(),
        ensures
            flat is Some <==> codes_reach(*self),
            flat matches Some(flat) ==> same_values(flat, *self) && laid_out(flat),
    {
        let (codes, values) = match &self.body {
            Body::Dictionary { codes, values, .. } => (codes, values),
            _ => return None,
        };
        match (&self.validity, &values.validity) {
            (Validity::AllValid, Validity::AllValid) => {},
            _ => return None,
        }
        let data = match &values.body {
            Body::Flat(data) => data,
            _ => return None,
        };
        assert(values.wf());
        if let Data::Empty = &**data {
            return None;
        }
        if !below(codes.as_slice(), values.len) {
            return None;
        }
        let at = widen_positions(codes.as_slice());
        let copied = copy_of(data, at.as_slice());
        let flat = Vector {
            ty: self.ty.dup(),
            len: self.len,
            validity: Validity::AllValid,
            body: Body::Flat(Arc::new(copied)),
        };
        assert forall|i: int| #[trigger] flat.datum(i) == self.datum(i) by {
            if 0 <= i < self.len {
                assert(codes@[i] < values.len);
                assert(at@[i] == codes@[i]);
                assert(copied.cell(i) == data.cell(codes@[i] as int));
                assert(values.datum(codes@[i] as int) == cell_as(
                    self.ty,
                    data.cell(codes@[i] as int),
                ));
            }
        }
        Some(flat)
    }

    /// A dictionary written out by its codes is the copy of its rows.
    proof fn lemma_codes_reach(&self, flat: Vector)
        requires
            self.wf(),
            codes_reach(*self),
            same_values(flat, *self),
            laid_out(flat),
        ensures
            flatten_failure(*self) is None,
            is_flattened(flat, *self),
    {
        let at = every_row(self.len as nat);
        let values = self.body->Dictionary_values;
        assert(self.body matches Body::Dictionary { values: held, .. } && held == values);
        assert(values.body is Flat);
        assert(values.at_home());
        assert(self.at_home());
        assert(values.root() == *values && self.root() == *values);
        assert(values.leaf_failure(self.step(at), false) is None);
        assert forall|j: int| 0 <= j < at.len() implies #[trigger] flat.datum(j) == self.copied_row(
            at,
            false,
            j,
        ) by {
            self.law_a_copy_reads_as_its_rows(at, false, j);
            assert(at[j] == j);
        }
    }

    /// The same values in flat form, for a kernel that has a loop over runs.
    ///
    /// A vector that is already flat comes back as it was. A list and a map flatten to themselves
    /// and a struct to a struct of flattened fields.
    pub fn opened(&self) -> (flat: Result<Vector, Error>)
        requires
            self.wf(),
        ensures
            match flat {
                Ok(flat) => {
                    &&& flatten_failure(*self) is None
                    &&& is_flattened(flat, *self)
                    &&& self.at_home() ==> same_values(flat, *self)
                    &&& flat.wf() && flat.ty == self.ty && flat.len == self.len
                    &&& flat.written_out()
                },
                Err(error) => flatten_failure(*self) == Some(error@),
            },
    {
        if let Body::Flat(_) = &self.body {
            return Ok(self.dup());
        }
        if let Some(flat) = self.decoded_codes() {
            proof {
                self.lemma_codes_reach(flat);
            }
            return Ok(flat);
        }
        let at = row_positions(self.len);
        match self.copied(at.as_slice(), false) {
            Ok(flat) => {
                proof {
                    if self.at_home() {
                        lemma_every_row(flat, *self);
                    }
                }
                Ok(flat)
            },
            Err(error) => Err(error),
        }
    }

    /// The same values in flat form.
    pub fn flatten(&self) -> (flat: Result<Vector, Error>)
        requires
            self.wf(),
        ensures
            match flat {
                Ok(flat) => {
                    &&& flatten_failure(*self) is None
                    &&& is_flattened(flat, *self)
                    &&& self.at_home() ==> same_values(flat, *self)
                    &&& flat.wf() && flat.ty == self.ty && flat.len == self.len
                    &&& flat.written_out()
                },
                Err(error) => flatten_failure(*self) == Some(error@),
            },
    {
        self.opened()
    }

    /// The same values in flat form, taking the vector rather than borrowing it.
    pub fn into_flat(self) -> (flat: Result<Vector, Error>)
        requires
            self.wf(),
        ensures
            match flat {
                Ok(flat) => {
                    &&& flatten_failure(self) is None
                    &&& is_flattened(flat, self)
                    &&& self.at_home() ==> same_values(flat, self)
                    &&& flat.wf() && flat.ty == self.ty && flat.len == self.len
                    &&& flat.written_out()
                },
                Err(error) => flatten_failure(self) == Some(error@),
            },
    {
        if let Body::Flat(_) = &self.body {
            return Ok(self);
        }
        self.flatten()
    }
}

} // verus!
