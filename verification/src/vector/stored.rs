//! Reading text where it lies, storage failures included, and reading a whole column at once.

use super::read::{row_of, run_holding};
use super::{run_of_row, source_row, Body, Vector};
use crate::data::{bytes_as, bytes_datum};
use crate::strings::{not_text, not_text_error, read_text, text_of, utf8_complaint};
use crate::text::{
    answers, as_length, boundary, bytes_or_empty, character_count, holds_literal, length_answers,
    search_below, standing, strictly_sorted, unsorted_compare, unsorted_rank, visits, Read, Standing,
    TextSource,
};
use crate::types::{copy_bytes, About, Error, ErrorCode, Failure, LogicalType, Value};
use crate::validity::Validity;
use vstd::prelude::*;
use vstd::utf8::{decode_utf8, valid_utf8};

verus! {

impl Vector {
    /// The value at `index`, preserving storage read and validation failures.
    pub fn try_value_at(&self, index: usize) -> (value: Result<Value, Error>)
        requires
            self.wf(),
        ensures
            match value {
                Ok(value) => self.failure(index as int) is None && value.datum() == self.datum(
                    index as int,
                ),
                Err(error) => self.failure(index as int) == Some(error@),
            },
        decreases self,
    {
        if index >= self.len || !self.validity.is_valid(index) {
            return Ok(Value::Null);
        }
        match &self.body {
            Body::ExternalText { text } => match text.bytes_at(index) {
                Ok(Some(bytes)) => Ok(bytes_as(&self.ty, bytes)),
                Ok(None) => Ok(Value::Null),
                Err(error) => Err(error),
            },
            Body::Dictionary { codes, values, .. } => values.try_value_at(codes[index] as usize),
            Body::Runs { ends, values } => match run_holding(ends.as_slice(), index) {
                Some(run) => values.try_value_at(run),
                None => Ok(Value::Null),
            },
            Body::Gathered { source, rids, offset } => match row_of(
                rids.as_slice(),
                *offset,
                index,
            ) {
                Some(row) => source.try_value_at(row),
                None => Ok(Value::Null),
            },
            Body::Nested { entries, child } => {
                let (start, count): (u32, u32) = entries[index];
                let ghost stop = start + count;
                match &self.ty {
                    LogicalType::Mapping(key, value) => {
                        let mut pairs: Vec<(Value, Value)> = Vec::new();
                        match &child.body {
                            Body::Fields { children } => {
                                assert(child.wf());
                                assert(children@[0].wf() && children@[1].wf());
                                let mut k: u32 = 0;
                                while k < count
                                    invariant
                                        k <= count,
                                        stop == start + count,
                                        start + count <= child.len <= usize::MAX,
                                        index < self.len,
                                        self.validity.valid(index as int),
                                        self.ty is Mapping,
                                        index < entries@.len(),
                                        entries@[index as int] == (start, count),
                                        self.body == (Body::Nested {
                                            entries: *entries,
                                            child: *child,
                                        }),
                                        child.body == (Body::Fields { children: *children }),
                                        children@.len() == 2,
                                        children@[0].wf() && children@[1].wf(),
                                        pairs@.len() == k,
                                        child.pair_failure(start as int, stop)
                                            == child.pair_failure(start + k, stop),
                                        forall|i: int|
                                            0 <= i < k ==> (#[trigger] pairs@[i]).0.datum()
                                                == children@[0].datum(start + i)
                                                && pairs@[i].1.datum() == children@[1].datum(
                                                start + i,
                                            ),
                                    decreases count - k,
                                {
                                    assert(decreases_to!(*self => *(self.body->child)));
                                    assert(decreases_to!(*(self.body->child) => self.body->child.body->Fields_children@[0]));
                                    assert(decreases_to!(*(self.body->child) => self.body->child.body->Fields_children@[1]));
                                    let at: usize = start as usize + k as usize;
                                    assert(self.failure(index as int) == child.pair_failure(
                                        start as int,
                                        stop,
                                    ));
                                    let one = match children[0].try_value_at(at) {
                                        Ok(value) => value,
                                        Err(error) => return Err(error),
                                    };
                                    let other = match children[1].try_value_at(at) {
                                        Ok(value) => value,
                                        Err(error) => return Err(error),
                                    };
                                    pairs.push((one, other));
                                    k += 1;
                                }
                            },
                            _ => {},
                        }
                        let value = Value::Mapping {
                            key: key.dup(),
                            value: value.dup(),
                            entries: pairs,
                        };
                        assert(value.datum()->Mapping_entries =~= self.datum(
                            index as int,
                        )->Mapping_entries);
                        Ok(value)
                    },
                    _ => {
                        let mut values: Vec<Value> = Vec::new();
                        let mut k: u32 = 0;
                        while k < count
                            invariant
                                k <= count,
                                stop == start + count,
                                start + count <= child.len <= usize::MAX,
                                child.wf(),
                                index < self.len,
                                self.validity.valid(index as int),
                                !(self.ty is Mapping),
                                index < entries@.len(),
                                entries@[index as int] == (start, count),
                                self.body == (Body::Nested { entries: *entries, child: *child }),
                                values@.len() == k,
                                child.run_failure(start as int, stop) == child.run_failure(
                                    start + k,
                                    stop,
                                ),
                                forall|i: int|
                                    0 <= i < k ==> (#[trigger] values@[i]).datum() == child.datum(
                                        start + i,
                                    ),
                            decreases count - k,
                        {
                            assert(decreases_to!(*self => *(self.body->child)));
                            let at: usize = start as usize + k as usize;
                            assert(self.failure(index as int) == child.run_failure(
                                start as int,
                                stop,
                            ));
                            match child.try_value_at(at) {
                                Ok(value) => values.push(value),
                                Err(error) => return Err(error),
                            }
                            k += 1;
                        }
                        let value = Value::List { element: child.ty.dup(), values };
                        assert(value.datum()->List_values =~= self.datum(index as int)->List_values);
                        Ok(value)
                    },
                }
            },
            Body::Fields { children } => {
                let mut held: Vec<(String, Value)> = Vec::new();
                if let LogicalType::Struct(fields) = &self.ty {
                    let mut f: usize = 0;
                    while f < children.len()
                        invariant
                            f <= children@.len(),
                            fields@.len() == children@.len(),
                            index < self.len,
                            self.validity.valid(index as int),
                            self.ty == LogicalType::Struct(*fields),
                            self.body == (Body::Fields { children: *children }),
                            forall|i: int|
                                0 <= i < children@.len() ==> (#[trigger] children@[i]).wf(),
                            held@.len() == f,
                            self.failure(index as int) == self.field_failure(
                                index as int,
                                f as nat,
                            ),
                            forall|i: int|
                                0 <= i < f ==> (#[trigger] held@[i]).0@ == fields@[i].name@
                                    && held@[i].1.datum() == children@[i].datum(index as int),
                        decreases children.len() - f,
                    {
                        assert(decreases_to!(*self => self.body->Fields_children@[f as int]));
                        let value = match children[f].try_value_at(index) {
                            Ok(value) => value,
                            Err(error) => return Err(error),
                        };
                        held.push((fields[f].name.clone(), value));
                        f += 1;
                    }
                }
                let value = Value::Struct(held);
                assert(value.datum()->Struct_0 =~= self.datum(index as int)->Struct_0);
                Ok(value)
            },
            _ => Ok(self.value_at(index)),
        }
    }

    /// Variable length bytes at `index`, preserving storage read and validation failures.
    pub fn try_bytes_at(&self, index: usize) -> (bytes: Result<Option<&[u8]>, Error>)
        requires
            self.wf(),
        ensures
            answers(bytes, self.text_read(index as int)),
        decreases self,
    {
        if index >= self.len || !self.validity.is_valid(index) {
            return Ok(None);
        }
        match &self.body {
            Body::Constant(value) => match &**value {
                Value::Varchar(text) => Ok(Some(text.as_str().as_bytes())),
                Value::Blob(bytes) => Ok(Some(bytes.as_slice())),
                _ => Ok(None),
            },
            Body::Dictionary { codes, values, .. } => values.try_bytes_at(codes[index] as usize),
            Body::Runs { ends, values } => match run_holding(ends.as_slice(), index) {
                Some(run) => values.try_bytes_at(run),
                None => Ok(None),
            },
            Body::Gathered { source, rids, offset } => match row_of(
                rids.as_slice(),
                *offset,
                index,
            ) {
                Some(row) => source.try_bytes_at(row),
                None => Ok(None),
            },
            Body::Views { views, arena } => Ok(views[index].bytes_in(arena.as_slice())),
            Body::ExternalText { text } => text.bytes_at(index),
            Body::Flat(data) => Ok(data.bytes_at(index)),
            _ => Ok(None),
        }
    }

    /// The variable length bytes at `index`, borrowed without validating or copying them, and
    /// `None` where reading them fails.
    pub fn bytes_at(&self, index: usize) -> (bytes: Option<&[u8]>)
        requires
            self.wf(),
        ensures
            match bytes {
                Some(bytes) => self.text_read(index as int) == Ok::<Option<Seq<u8>>, Failure>(
                    Some(bytes@),
                ),
                None => !(self.text_read(index as int) matches Ok(Some(_))),
            },
    {
        match self.try_bytes_at(index) {
            Ok(bytes) => bytes,
            Err(_) => None,
        }
    }

    /// The bytes of a row kept in a form that stores text per row.
    pub open spec fn text_lies(&self, at: int) -> Option<Seq<u8>>
        decreases self,
    {
        if !(0 <= at < self.len) || !self.validity.valid(at) {
            None
        } else {
            match &self.body {
                Body::Flat(data) => if data.layout() is Varlen && at < data.size() {
                    Some(data.cell(at)->Bytes_0)
                } else {
                    None
                },
                Body::Dictionary { codes, values, .. } => if at < codes@.len() {
                    values.text_lies(codes@[at] as int)
                } else {
                    None
                },
                Body::Runs { ends, values } => match run_of_row(ends@, at) {
                    Some(run) => values.text_lies(run),
                    None => None,
                },
                Body::Gathered { source, rids, offset } => match source_row(rids@, *offset + at) {
                    Some(row) => source.text_lies(row),
                    None => None,
                },
                Body::Views { views, arena } => if at < views@.len() {
                    views@[at].seen_in(arena@)
                } else {
                    None
                },
                Body::ExternalText { text } => match text.reads(at) {
                    Ok(bytes) => bytes,
                    Err(_) => None,
                },
                _ => None,
            }
        }
    }

    /// The byte reader and the value reader agree: where a row reads as bytes, its value is what the
    /// type makes of them.
    pub proof fn law_bytes_agree_with_value(&self, at: int)
        requires
            self.wf(),
            self.at_home(),
            self.text_read(at) matches Ok(Some(_)),
        ensures
            self.datum(at) == bytes_datum(self.ty, self.text_read(at)->Ok_0->Some_0),
        decreases self,
    {
        broadcast use vstd::utf8::encode_utf8_decode_utf8;
        broadcast use vstd::utf8::encode_utf8_valid_utf8;

        match &self.body {
            Body::Dictionary { codes, values, .. } => {
                values.law_bytes_agree_with_value(codes@[at] as int);
            },
            Body::Runs { ends, values } => {
                values.law_bytes_agree_with_value(run_of_row(ends@, at)->Some_0);
            },
            Body::Gathered { source, rids, offset } => {
                source.law_bytes_agree_with_value(source_row(rids@, *offset + at)->Some_0);
            },
            _ => {},
        }
    }

    /// Text read where it lies is what the byte reader reads.
    pub proof fn law_text_lies_where_bytes_are(&self, at: int)
        requires
            self.wf(),
            self.text_lies(at) is Some,
        ensures
            self.text_read(at) == Ok::<Option<Seq<u8>>, Failure>(self.text_lies(at)),
        decreases self,
    {
        match &self.body {
            Body::Dictionary { codes, values, .. } => {
                values.law_text_lies_where_bytes_are(codes@[at] as int);
            },
            Body::Runs { ends, values } => {
                values.law_text_lies_where_bytes_are(run_of_row(ends@, at)->Some_0);
            },
            Body::Gathered { source, rids, offset } => {
                source.law_text_lies_where_bytes_are(source_row(rids@, *offset + at)->Some_0);
            },
            _ => {},
        }
    }

    /// The text at `index`, borrowed rather than copied.
    ///
    /// `None` for a null, for an index past the end, for a column that is not a varchar, and for the
    /// forms whose text is not stored per position. A caller that gets `None` falls back to
    /// [`Self::value_at`].
    pub fn text_at(&self, index: usize) -> (text: Option<&str>)
        requires
            self.wf(),
        ensures
            match text {
                Some(text) => self.ty is Varchar && (self.text_lies(index as int) matches Some(bytes)
                    && valid_utf8(bytes) && text@ == decode_utf8(bytes)),
                None => !(self.ty is Varchar && (self.text_lies(index as int) matches Some(bytes)
                    && valid_utf8(bytes))),
            },
        decreases self,
    {
        if !matches!(self.ty, LogicalType::Varchar) || index >= self.len
            || !self.validity.is_valid(index) {
            return None;
        }
        match &self.body {
            Body::Flat(data) => data.str_at(index),
            Body::Dictionary { codes, values, .. } => values.text_at(codes[index] as usize),
            Body::Runs { ends, values } => match run_holding(ends.as_slice(), index) {
                Some(run) => values.text_at(run),
                None => None,
            },
            Body::Gathered { source, rids, offset } => match row_of(
                rids.as_slice(),
                *offset,
                index,
            ) {
                Some(row) => source.text_at(row),
                None => None,
            },
            Body::Views { views, arena } => match views[index].bytes_in(arena.as_slice()) {
                Some(bytes) => text_of(bytes),
                None => None,
            },
            Body::ExternalText { text } => match text.bytes_at(index) {
                Ok(Some(bytes)) => text_of(bytes),
                _ => None,
            },
            _ => None,
        }
    }

    /// Text at `index`, preserving storage read, validation and UTF-8 failures.
    pub fn try_text_at(&self, index: usize) -> (text: Result<Option<&str>, Error>)
        requires
            self.wf(),
        ensures
            !(self.ty is Varchar) ==> text matches Ok(None),
            self.ty is Varchar ==> match self.text_read(index as int) {
                Err(failure) => text matches Err(error) && error@ == failure,
                Ok(None) => text matches Ok(None),
                Ok(Some(bytes)) => if valid_utf8(bytes) {
                    text matches Ok(Some(text)) && text@ == decode_utf8(bytes)
                } else {
                    text matches Err(error) && error@ == not_text(utf8_complaint(bytes))
                },
            },
    {
        if !matches!(self.ty, LogicalType::Varchar) {
            return Ok(None);
        }
        match self.try_bytes_at(index) {
            Ok(Some(bytes)) => match read_text(bytes) {
                Ok(text) => Ok(Some(text)),
                Err(complaint) => Err(not_text_error(complaint.as_str())),
            },
            Ok(None) => Ok(None),
            Err(error) => Err(error),
        }
    }

    /// Variable length byte count at `index`, preserving storage failures.
    pub fn try_bytes_len_at(&self, index: usize) -> (len: Result<Option<usize>, Error>)
        requires
            self.wf(),
        ensures
            length_answers(len, self.text_read(index as int)),
        decreases self,
    {
        if index >= self.len || !self.validity.is_valid(index) {
            return Ok(None);
        }
        match &self.body {
            Body::Dictionary { codes, values, .. } => values.try_bytes_len_at(
                codes[index] as usize,
            ),
            Body::Runs { ends, values } => match run_holding(ends.as_slice(), index) {
                Some(run) => values.try_bytes_len_at(run),
                None => Ok(None),
            },
            Body::Gathered { source, rids, offset } => match row_of(
                rids.as_slice(),
                *offset,
                index,
            ) {
                Some(row) => source.try_bytes_len_at(row),
                None => Ok(None),
            },
            Body::ExternalText { text } => text.bytes_len_at(index),
            _ => match self.bytes_at(index) {
                Some(bytes) => Ok(Some(bytes.len())),
                None => Ok(None),
            },
        }
    }

    /// The bytes of the values from `first` up to at most `limit`, and one past the last of them.
    ///
    /// A source decides how much it hands over at a time. Every other form hands over one value and
    /// lets the caller come back.
    pub fn sweep_text(&self, first: usize, limit: usize) -> (swept: Result<
        (usize, Vec<Vec<u8>>),
        Error,
    >)
        requires
            self.wf(),
        ensures
            swept matches Ok((stop, seen)) ==> {
                &&& (first >= limit || first >= self.len) ==> stop == first
                &&& (first < limit && first < self.len) ==> first < stop <= limit && stop <= self.len
                &&& seen@.len() == stop - first
                &&& forall|i: int|
                    0 <= i < seen@.len() ==> (#[trigger] seen@[i])@ == bytes_or_empty(
                        self.text_read(first + i),
                    ) && self.text_read(first + i) is Ok
            },
            swept matches Err(error) ==> exists|i: int|
                first <= i < limit && i < self.len && #[trigger] self.text_read(i) == Err::<
                    Option<Seq<u8>>,
                    Failure,
                >(error@),
    {
        let mut seen: Vec<Vec<u8>> = Vec::new();
        if first >= limit || first >= self.len {
            return Ok((first, seen));
        }
        if let Body::ExternalText { text } = &self.body {
            if let Validity::AllValid = &self.validity {
                assert forall|i: int| 0 <= i < self.len implies #[trigger] self.text_read(i)
                    == text.reads(i) by {}
                match text.sweep(first, limit) {
                    Ok((stop, seen)) => {
                        assert forall|i: int| 0 <= i < seen@.len() implies (
                        #[trigger] seen@[i])@ == bytes_or_empty(self.text_read(first + i))
                            && self.text_read(first + i) is Ok by {
                            assert(self.text_read(first + i) == text.reads(first + i));
                        }
                        return Ok((stop, seen));
                    },
                    Err(error) => {
                        proof {
                            let i = choose|i: int|
                                first <= i < limit && i < text.count() && #[trigger] text.reads(i)
                                    == Err::<Option<Seq<u8>>, Failure>(error@);
                            assert(self.text_read(i) == text.reads(i));
                        }
                        return Err(error);
                    },
                }
            }
        }
        match self.try_bytes_at(first) {
            Ok(Some(bytes)) => seen.push(copy_bytes(bytes)),
            Ok(None) => {
                let none: Vec<u8> = Vec::new();
                assert(none@ =~= Seq::<u8>::empty());
                seen.push(none);
            },
            Err(error) => {
                assert(self.text_read(first as int) == Err::<Option<Seq<u8>>, Failure>(error@));
                return Err(error);
            },
        }
        Ok((first + 1, seen))
    }

    /// A conservative substring test for the payload block holding `first`.
    ///
    /// Only a storage source with all valid values can skip a whole block. Every other form answers
    /// true and lets the ordinary sweep decide its values.
    pub fn text_block_might_contain(&self, first: usize, literal: &[u8]) -> (might: Result<
        bool,
        Error,
    >)
        ensures
            might == Ok::<bool, Error>(false) ==> self.validity is AllValid && (
            self.body matches Body::ExternalText { text } && forall|i: int|
                text.block_of(i) == text.block_of(first as int) ==> !holds_literal(
                    bytes_or_empty(#[trigger] text.reads(i)),
                    literal@,
                )),
            match (self.body, self.validity) {
                (Body::ExternalText { text }, Validity::AllValid) => match might {
                    Ok(might) => text.block_answers(first as int, literal@) == Ok::<bool, Failure>(
                        might,
                    ),
                    Err(error) => text.block_answers(first as int, literal@) == Err::<bool, Failure>(
                        error@,
                    ),
                },
                _ => might == Ok::<bool, Error>(true),
            },
    {
        match (&self.body, &self.validity) {
            (Body::ExternalText { text }, Validity::AllValid) => text.might_contain(first, literal),
            _ => Ok(true),
        }
    }

    /// The values at `indices`, which rise, preserving storage failures.
    pub fn try_values_visited(&self, indices: &[usize]) -> (values: Result<Vec<Value>, Error>)
        requires
            self.wf(),
        ensures
            values matches Ok(values) ==> values@.len() == indices@.len() && forall|j: int|
                0 <= j < indices@.len() ==> (#[trigger] values@[j]).datum() == self.datum(
                    indices@[j] as int,
                ) && self.failure(indices@[j] as int) is None,
            values matches Err(error) ==> exists|j: int|
                0 <= j < indices@.len() && #[trigger] self.failure(indices@[j] as int) == Some(
                    error@,
                ),
    {
        if let Body::ExternalText { text } = &self.body {
            if let Validity::AllValid = &self.validity {
                let seen = match text.visit(indices) {
                    Ok(seen) => seen,
                    Err(error) => {
                        proof {
                            let i = choose|i: int|
                                0 <= i < indices@.len() && indices@[i] < text.count()
                                    && #[trigger] text.reads(indices@[i] as int) == Err::<
                                    Option<Seq<u8>>,
                                    Failure,
                                >(error@);
                            assert(self.failure(indices@[i] as int) == Some(error@));
                        }
                        return Err(error);
                    },
                };
                let mut out: Vec<Value> = Vec::new();
                let mut row: usize = 0;
                while row < indices.len()
                    invariant
                        row <= indices@.len(),
                        out@.len() == row,
                        forall|j: int| 0 <= j < row ==> (#[trigger] out@[j]).datum() is Null,
                    decreases indices.len() - row,
                {
                    out.push(Value::Null);
                    row += 1;
                }
                let mut k: usize = 0;
                while k < seen.len()
                    invariant
                        k <= seen@.len(),
                        self.wf(),
                        self.body == (Body::ExternalText { text: *text }),
                        self.validity is AllValid,
                        out@.len() == indices@.len(),
                        seen@.len() == indices@.len(),
                        forall|n: int|
                            0 <= n < seen@.len() ==> (#[trigger] seen@[n]).0 < indices@.len()
                                && text.reads(indices@[seen@[n].0 as int] as int) is Ok
                                && seen@[n].1@ == bytes_or_empty(
                                text.reads(indices@[seen@[n].0 as int] as int),
                            ),
                        forall|m: int, n: int|
                            0 <= m < n < seen@.len() ==> (#[trigger] seen@[m]).0 != (
                            #[trigger] seen@[n]).0,
                        forall|n: int|
                            0 <= n < k ==> out@[(#[trigger] seen@[n]).0 as int].datum()
                                == self.datum(indices@[seen@[n].0 as int] as int),
                    decreases seen.len() - k,
                {
                    let place: usize = seen[k].0;
                    let ghost before = out@;
                    let value = if indices[place] < self.len {
                        match text.bytes_at(indices[place]) {
                            _ => {},
                        }
                        bytes_as(&self.ty, seen[k].1.as_slice())
                    } else {
                        Value::Null
                    };
                    out.set(place, value);
                    proof {
                        assert forall|n: int| 0 <= n < k + 1 implies out@[(
                        #[trigger] seen@[n]).0 as int].datum() == self.datum(
                            indices@[seen@[n].0 as int] as int,
                        ) by {
                            if n < k {
                                assert(seen@[n].0 != seen@[k as int].0);
                            }
                        }
                    }
                    k += 1;
                }
                proof {
                    assert forall|j: int| 0 <= j < indices@.len() implies (
                    #[trigger] out@[j]).datum() == self.datum(indices@[j] as int)
                        && self.failure(indices@[j] as int) is None by {
                        assert(visits(seen@, j));
                        let n = choose|n: int| 0 <= n < seen@.len() && (#[trigger] seen@[n]).0 == j;
                        assert(out@[seen@[n].0 as int].datum() == self.datum(
                            indices@[seen@[n].0 as int] as int,
                        ));
                    }
                }
                return Ok(out);
            }
        }
        let mut out: Vec<Value> = Vec::new();
        let mut row: usize = 0;
        while row < indices.len()
            invariant
                row <= indices@.len(),
                self.wf(),
                out@.len() == row,
                forall|j: int|
                    0 <= j < row ==> (#[trigger] out@[j]).datum() == self.datum(indices@[j] as int)
                        && self.failure(indices@[j] as int) is None,
            decreases indices.len() - row,
        {
            match self.try_value_at(indices[row]) {
                Ok(value) => out.push(value),
                Err(error) => {
                    assert(self.failure(indices@[row as int] as int) == Some(error@));
                    return Err(error);
                },
            }
            row += 1;
        }
        Ok(out)
    }

    /// What a row's slot reads from the source behind it, a null row's slot included.
    pub open spec fn slot_read(&self, at: int) -> Read {
        match &self.body {
            Body::ExternalText { text } => text.reads(at),
            Body::Dictionary { codes, values, .. } => match &values.body {
                Body::ExternalText { text } => text.reads(codes@[at] as int),
                _ => Ok(None),
            },
            _ => Ok(None),
        }
    }

    /// Whether the text is read from one source, by this vector or by the dictionary under it, and
    /// its rows are as many as the source counts to.
    pub open spec fn reads_source(&self) -> bool {
        self.len <= u32::MAX && match &self.body {
            Body::ExternalText { .. } => true,
            Body::Dictionary { values, .. } => values.body is ExternalText
                && values.validity is AllValid,
            _ => false,
        }
    }

    /// The position in the source each row reads, for a vector that reads one.
    fn source_positions(&self) -> (positions: Option<(&Box<dyn TextSource>, Vec<u32>)>)
        requires
            self.wf(),
        ensures
            positions is Some <==> self.reads_source(),
            positions matches Some((text, at)) ==> at@.len() == self.len && forall|i: int|
                0 <= i < self.len ==> self.slot_read(i) == text.reads(#[trigger] at@[i] as int),
    {
        if self.len as u64 > u32::MAX as u64 {
            return None;
        }
        match &self.body {
            Body::ExternalText { text } => {
                let mut at: Vec<u32> = Vec::new();
                let mut row: usize = 0;
                while row < self.len
                    invariant
                        row <= self.len <= u32::MAX,
                        at@.len() == row,
                        forall|i: int| 0 <= i < row ==> #[trigger] at@[i] == i,
                    decreases self.len - row,
                {
                    at.push(row as u32);
                    row += 1;
                }
                Some((&**text, at))
            },
            Body::Dictionary { codes, values, .. } => match (&values.body, &values.validity) {
                (Body::ExternalText { text }, Validity::AllValid) => {
                    let mut at: Vec<u32> = Vec::new();
                    at.extend_from_slice(codes.as_slice());
                    assert(at@ =~= codes@);
                    Some((&**text, at))
                },
                _ => None,
            },
            _ => None,
        }
    }

    /// The byte length of every row, in one call to whatever holds the text, when that is possible.
    ///
    /// `into` is cleared and given one length per row. `false` for a vector with nulls in it, or one
    /// whose text is not read from a source.
    pub fn try_bytes_lens(&self, into: &mut Vec<i64>) -> (answered: Result<bool, Error>)
        requires
            self.wf(),
        ensures
            answered matches Ok(answered) ==> answered == (self.validity is AllValid
                && self.reads_source()),
            answered == Ok::<bool, Error>(true) ==> final(into)@.len() == self.len && forall|i: int|
                0 <= i < self.len && (#[trigger] self.slot_read(i)) is Ok ==> final(into)@[i]
                    == as_length(bytes_or_empty(self.slot_read(i)).len()),
            answered matches Err(error) ==> exists|i: int|
                0 <= i < self.len && (#[trigger] self.slot_read(i)) == Err::<
                    Option<Seq<u8>>,
                    Failure,
                >(error@),
            !(self.validity is AllValid) ==> final(into)@ == old(into)@,
    {
        if !matches!(self.validity, Validity::AllValid) {
            return Ok(false);
        }
        into.clear();
        match self.source_positions() {
            None => Ok(false),
            Some((text, at)) => match text.bytes_lens_at(at.as_slice(), into) {
                Ok(()) => {
                    assert forall|i: int|
                        0 <= i < self.len && (#[trigger] self.slot_read(i)) is Ok implies into@[i]
                        == as_length(bytes_or_empty(self.slot_read(i)).len()) by {
                        assert(self.slot_read(i) == text.reads(at@[i] as int));
                        assert(into@[0 + i] == as_length(
                            bytes_or_empty(text.reads(at@[i] as int)).len(),
                        ));
                    }
                    Ok(true)
                },
                Err(error) => {
                    proof {
                        let i = choose|i: int|
                            0 <= i < at@.len() && (#[trigger] text.reads(at@[i] as int)) == Err::<
                                Option<Seq<u8>>,
                                Failure,
                            >(error@);
                        assert(self.slot_read(i) == text.reads(at@[i] as int));
                    }
                    Err(error)
                },
            },
        }
    }

    /// The character length of every row, in one call to whatever holds the text, when that is
    /// possible.
    ///
    /// Answers a vector with nulls too, and a null row gets the count of whatever its slot points
    /// at, so the caller masks the nulls itself.
    pub fn try_chars_lens(&self, into: &mut Vec<i64>) -> (answered: Result<bool, Error>)
        requires
            self.wf(),
        ensures
            answered matches Ok(answered) ==> answered == self.reads_source(),
            answered == Ok::<bool, Error>(true) ==> final(into)@.len() == self.len && forall|i: int|
                0 <= i < self.len && (#[trigger] self.slot_read(i)) is Ok ==> final(into)@[i]
                    == as_length(character_count(bytes_or_empty(self.slot_read(i)))),
            answered matches Err(error) ==> exists|i: int|
                0 <= i < self.len && (#[trigger] self.slot_read(i)) == Err::<
                    Option<Seq<u8>>,
                    Failure,
                >(error@),
    {
        into.clear();
        match self.source_positions() {
            None => Ok(false),
            Some((text, at)) => match text.chars_lens_at(at.as_slice(), into) {
                Ok(()) => {
                    assert forall|i: int|
                        0 <= i < self.len && (#[trigger] self.slot_read(i)) is Ok implies into@[i]
                        == as_length(character_count(bytes_or_empty(self.slot_read(i)))) by {
                        assert(self.slot_read(i) == text.reads(at@[i] as int));
                        assert(into@[0 + i] == as_length(
                            character_count(bytes_or_empty(text.reads(at@[i] as int))),
                        ));
                    }
                    Ok(true)
                },
                Err(error) => {
                    proof {
                        let i = choose|i: int|
                            0 <= i < at@.len() && (#[trigger] text.reads(at@[i] as int)) == Err::<
                                Option<Seq<u8>>,
                                Failure,
                            >(error@);
                        assert(self.slot_read(i) == text.reads(at@[i] as int));
                    }
                    Err(error)
                },
            },
        }
    }

    /// The bytes of every row the mask says is there, each with its row, when the text is read from
    /// a source, and `None` when it is not.
    ///
    /// The rows come in whatever order the source reads them in. A null row is left out.
    pub fn try_visit_text(&self) -> (visited: Result<Option<Vec<(usize, Vec<u8>)>>, Error>)
        requires
            self.wf(),
        ensures
            visited matches Ok(visited) ==> (visited is Some <==> self.reads_source()),
            visited matches Ok(Some(seen)) ==> {
                &&& forall|k: int|
                    0 <= k < seen@.len() ==> (#[trigger] seen@[k]).0 < self.len
                        && self.validity.valid(seen@[k].0 as int) && self.slot_read(
                        seen@[k].0 as int,
                    ) is Ok && seen@[k].1@ == bytes_or_empty(self.slot_read(seen@[k].0 as int))
                &&& forall|j: int, k: int|
                    0 <= j < k < seen@.len() ==> (#[trigger] seen@[j]).0 != (#[trigger] seen@[k]).0
                &&& forall|i: int|
                    0 <= i < self.len && #[trigger] self.validity.valid(i) ==> visits(seen@, i)
            },
            visited matches Err(error) ==> exists|i: int|
                0 <= i < self.len && self.validity.valid(i) && (#[trigger] self.slot_read(i))
                    == Err::<Option<Seq<u8>>, Failure>(error@),
    {
        let (text, at) = match self.source_positions() {
            None => return Ok(None),
            Some(found) => found,
        };
        let mut rows: Vec<usize> = Vec::new();
        let mut asked: Vec<u32> = Vec::new();
        let mut row: usize = 0;
        while row < self.len
            invariant
                row <= self.len,
                at@.len() == self.len,
                rows@.len() == asked@.len(),
                forall|n: int|
                    0 <= n < rows@.len() ==> (#[trigger] rows@[n]) < row && self.validity.valid(
                        rows@[n] as int,
                    ) && asked@[n] == at@[rows@[n] as int],
                forall|m: int, n: int|
                    0 <= m < n < rows@.len() ==> #[trigger] rows@[m] < #[trigger] rows@[n],
                forall|i: int|
                    0 <= i < row && #[trigger] self.validity.valid(i) ==> rows@.contains(i as usize),
            decreases self.len - row,
        {
            let ghost before = rows@;
            if self.validity.is_valid(row) {
                rows.push(row);
                asked.push(at[row]);
                assert(rows@[before.len() as int] == row);
            }
            proof {
                assert forall|i: int|
                    0 <= i < row + 1 && #[trigger] self.validity.valid(i) implies rows@.contains(
                    i as usize,
                ) by {
                    if i < row {
                        let n = choose|n: int| 0 <= n < before.len() && before[n] == i as usize;
                        assert(rows@[n] == i as usize);
                    }
                }
            }
            row += 1;
        }
        let seen = match text.visit_at(asked.as_slice()) {
            Ok(seen) => seen,
            Err(error) => {
                proof {
                    let n = choose|n: int|
                        0 <= n < asked@.len() && asked@[n] < text.count() && #[trigger] text.reads(
                            asked@[n] as int,
                        ) == Err::<Option<Seq<u8>>, Failure>(error@);
                    assert(self.slot_read(rows@[n] as int) == text.reads(
                        at@[rows@[n] as int] as int,
                    ));
                }
                return Err(error);
            },
        };
        let mut out: Vec<(usize, Vec<u8>)> = Vec::new();
        let mut k: usize = 0;
        while k < seen.len()
            invariant
                k <= seen@.len(),
                seen@.len() == rows@.len(),
                out@.len() == k,
                forall|n: int|
                    0 <= n < seen@.len() ==> (#[trigger] seen@[n]).0 < rows@.len(),
                forall|n: int|
                    0 <= n < k ==> (#[trigger] out@[n]).0 == rows@[seen@[n].0 as int] && out@[n].1@
                        == seen@[n].1@,
            decreases seen.len() - k,
        {
            out.push((rows[seen[k].0], copy_bytes(seen[k].1.as_slice())));
            k += 1;
        }
        proof {
            assert forall|n: int| 0 <= n < out@.len() implies (#[trigger] out@[n]).0 < self.len
                && self.validity.valid(out@[n].0 as int) && self.slot_read(out@[n].0 as int) is Ok
                && out@[n].1@ == bytes_or_empty(self.slot_read(out@[n].0 as int)) by {
                let place = seen@[n].0 as int;
                assert(rows@[place] < self.len);
                assert(self.slot_read(rows@[place] as int) == text.reads(
                    at@[rows@[place] as int] as int,
                ));
            }
            assert forall|j: int, n: int| 0 <= j < n < out@.len() implies (
            #[trigger] out@[j]).0 != (#[trigger] out@[n]).0 by {
                let left = seen@[j].0 as int;
                let right = seen@[n].0 as int;
                assert(left != right);
                assert(rows@[left] != rows@[right]);
            }
            assert forall|i: int|
                0 <= i < self.len && #[trigger] self.validity.valid(i) implies visits(out@, i) by {
                assert(rows@.contains(i as usize));
                let place = choose|n: int| 0 <= n < rows@.len() && rows@[n] == i as usize;
                assert(visits(seen@, place));
                let n = choose|n: int| 0 <= n < seen@.len() && (#[trigger] seen@[n]).0 == place;
                assert(out@[n].0 == i);
            }
        }
        Ok(Some(out))
    }

    /// How many ranks this vector's values have in sorted order, when whatever holds them knows.
    pub fn ranks(&self) -> (ranks: Option<usize>)
        ensures
            match ranks {
                Some(ranks) => self.body matches Body::ExternalText { text }
                    && text.sorted() matches Some(values) && values.len() == ranks
                    && strictly_sorted(values),
                None => self.body matches Body::ExternalText { text } ==> text.sorted() is None,
            },
    {
        match &self.body {
            Body::ExternalText { text } => text.ranks(),
            _ => None,
        }
    }

    /// How the value at `rank` compares against `wanted`.
    pub fn compare_rank(&self, rank: usize, wanted: &[u8]) -> (order: Result<Standing, Error>)
        ensures
            !(self.body is ExternalText) ==> (order matches Err(error) && error@ == (Failure {
                code: ErrorCode::Internal,
                message: "a vector without a sorted order was asked to compare a rank"@,
                about: About::Nothing,
            })),
            self.body matches Body::ExternalText { text } ==> text.sorted() is None ==> (
            order matches Err(error) && error@ == unsorted_compare()),
            self.body matches Body::ExternalText { text } ==> text.sorted() matches Some(values)
                ==> rank < values.len() ==> match order {
                Ok(order) => text.probe_failure(rank as int, wanted@) is None && order == standing(
                    values[rank as int],
                    wanted@,
                ),
                Err(error) => text.probe_failure(rank as int, wanted@) == Some(error@),
            },
    {
        match &self.body {
            Body::ExternalText { text } => text.compare_rank(rank, wanted),
            _ => Err(
                Error::internal("a vector without a sorted order was asked to compare a rank"),
            ),
        }
    }

    /// Where `wanted` would go in the sorted order.
    pub fn below(&self, ranks: usize, wanted: &[u8]) -> (found: Result<(usize, bool), Error>)
        requires
            self.body matches Body::ExternalText { text } ==> text.sorted() matches Some(values)
                ==> ranks <= values.len() && strictly_sorted(values),
        ensures
            !(self.body is ExternalText) ==> (found matches Err(error) && error@ == (Failure {
                code: ErrorCode::Internal,
                message: "a vector without a sorted order was asked for a boundary"@,
                about: About::Nothing,
            })),
            self.body matches Body::ExternalText { text } ==> match text.sorted() {
                Some(values) => match found {
                    Ok((low, equal)) => boundary(
                        values.subrange(0, ranks as int),
                        wanted@,
                        low as int,
                        equal,
                    ),
                    Err(error) => exists|r: int|
                        0 <= r < ranks && #[trigger] text.probe_failure(r, wanted@) == Some(error@),
                },
                None => if ranks == 0 {
                    found == Ok::<(usize, bool), Error>((0, false))
                } else {
                    found matches Err(error) && error@ == unsorted_compare()
                },
            },
    {
        match &self.body {
            Body::ExternalText { text } => search_below(&***text, ranks, wanted),
            _ => Err(Error::internal("a vector without a sorted order was asked for a boundary")),
        }
    }

    /// The position of the value at `rank`.
    pub fn code_at_rank(&self, rank: usize) -> (code: Result<u32, Error>)
        ensures
            !(self.body is ExternalText) ==> (code matches Err(error) && error@ == (Failure {
                code: ErrorCode::Internal,
                message: "a vector without a sorted order was asked for a rank"@,
                about: About::Nothing,
            })),
            self.body matches Body::ExternalText { text } ==> match text.sorted() {
                Some(values) => rank < values.len() ==> match code {
                    Ok(code) => text.rank_failure(rank as int) is None && code
                        == text.code_of_rank(rank as int) && text.reads(code as int) == Ok::<
                        Option<Seq<u8>>,
                        Failure,
                    >(Some(values[rank as int])),
                    Err(error) => text.rank_failure(rank as int) == Some(error@),
                },
                None => code matches Err(error) && error@ == unsorted_rank(),
            },
    {
        match &self.body {
            Body::ExternalText { text } => text.code_at_rank(rank),
            _ => Err(Error::internal("a vector without a sorted order was asked for a rank")),
        }
    }

    /// The rank of every value, indexed by position.
    pub fn code_ranks(&self) -> (ranks: Option<&[u32]>)
        requires
            self.wf(),
        ensures
            ranks is Some <==> (self.body matches Body::ExternalText { text }
                && text.hands_ranks_over()),
            ranks matches Some(ranks) ==> self.body matches Body::ExternalText { text }
                && text.sorted() matches Some(values) && ranks@.len() == self.len && forall|i: int|
                0 <= i < ranks@.len() ==> (#[trigger] ranks@[i]) < values.len()
                    && text.code_of_rank(ranks@[i] as int) == i,
    {
        match &self.body {
            Body::ExternalText { text } => text.code_ranks(),
            _ => None,
        }
    }
}

} // verus!
