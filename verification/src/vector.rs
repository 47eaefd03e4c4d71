//! The vector: a type, a length, which rows are null, and the values in one of several forms.

use crate::bits::{code_in, top_code};
use crate::data::{
    bytes_datum, cell_as, cell_for, increasing_ends, integer_cell, is_exact_layout, layout_high,
    layout_low, Data,
};
use crate::fsst::{decoded, span_in, SymbolTable};
use crate::strings::StringView;
use crate::text::TextSource;
use crate::types::{
    all_unnamed, layout_for, Datum, Failure, Field, LogicalType, Value,
};
use crate::validity::Validity;
use std::sync::Arc;
use vstd::prelude::*;
use vstd::utf8::encode_utf8;

pub mod block;
pub mod copy;
pub mod cut;
pub mod encode;
pub mod gather;
pub mod laws;
pub mod make;
pub mod pack;
pub mod read;
pub mod size;
pub mod stored;

pub use copy::{form_kept, holds_copy, holds_rows, laid_out};
pub use cut::holds_run;
pub use encode::FSST_PAYS_AT;
pub use gather::{flat_row, flatten_failure, is_flattened, same_values, widened};
pub use make::{datums, law_a_value_of_the_type_is_kept, refusal, restored};

verus! {

/// How many values are in a full vector.
pub const VECTOR_SIZE: usize = 8192;

/// The row id of a row that is not in the source, which reads as null.
pub const NO_ROW: u32 = 0xffff_ffff;

/// What the key field of a map's child struct is called.
pub const MAP_KEY: &'static str = "key";

/// What the value field of a map's child struct is called. See [`MAP_KEY`].
pub const MAP_VALUE: &'static str = "value";

/// Which physical form a vector is in.
#[derive(Debug, Clone, Copy, PartialEq, Eq, Structural)]
#[non_exhaustive]
pub enum Form {
    /// One value per position.
    Flat,
    /// One value, repeated.
    Constant,
    /// A start and a step, computed rather than stored.
    Sequence,
    /// Codes into a smaller vector of distinct values.
    Dictionary,
    /// Integers stored in as many bits as the range of the column needs, offset from a base.
    BitPacked,
    /// Views over an arena the vector shares rather than owns, or over a storage source.
    StringView,
    /// Strings compressed against one symbol table, each row on its own.
    Fsst,
    /// One value per run, with the row each run ends at.
    Rle,
    /// A child vector of every element, and a start and a length per row.
    List,
    /// One child vector per field, each as long as the vector itself.
    Struct,
    /// One row id per row, into a source vector that may be far longer than this one.
    Gathered,
}

/// A type, a length, a validity representation and some data.
pub struct Vector {
    pub ty: LogicalType,
    pub len: usize,
    pub validity: Validity,
    pub body: Body,
}

/// What the vector holds, which is what its form is decided by.
///
/// Everything a body holds is behind a shared handle, so handing a vector on copies no values.
pub enum Body {
    Flat(Arc<Data>),
    Constant(Arc<Value>),
    Sequence { start: i64, step: i64 },
    /// Row `r` is row `codes[r]` of the values, which is where the nulls are.
    Dictionary { codes: Arc<Vec<u32>>, values: Arc<Vector>, stable: bool },
    /// Row `r` is `base` plus the `width` bits starting at bit `(offset + r) * width`.
    Packed { words: Arc<Vec<u64>>, width: u32, base: i128, offset: usize },
    Views { views: Arc<Vec<StringView>>, arena: Arc<Vec<u8>> },
    /// Text owned by a storage source and fetched by position.
    ExternalText { text: Arc<Box<dyn TextSource>> },
    /// Row `r` is what the codes of span `r` decompress to.
    Coded { stream: Arc<Vec<u8>>, spans: Arc<Vec<(u32, u32)>>, table: Arc<SymbolTable> },
    /// One value per run, with the row each run ends at, exclusive and increasing.
    Runs { ends: Arc<Vec<u32>>, values: Arc<Vector> },
    /// Row `r` is a range of the child: a start and a length. A map's child is a struct of two.
    Nested { entries: Arc<Vec<(u32, u32)>>, child: Arc<Vector> },
    /// Row `r` of field `f` is row `r` of child `f`.
    Fields { children: Arc<Vec<Arc<Vector>>> },
    /// Row `r` is row `rids[offset + r]` of `source`, and is null where that is [`NO_ROW`].
    Gathered { source: Arc<Vector>, rids: Arc<Vec<u32>>, offset: usize },
}

/// The first run from `from` on whose end is past `row`.
pub open spec fn run_from(ends: Seq<u32>, row: int, from: nat) -> Option<int>
    decreases ends.len() - from,
{
    if from >= ends.len() {
        None
    } else if ends[from as int] > row {
        Some(from as int)
    } else {
        run_from(ends, row, from + 1)
    }
}

/// Which run holds `row`, given ends that are exclusive and increasing.
pub open spec fn run_of_row(ends: Seq<u32>, row: int) -> Option<int> {
    run_from(ends, row, 0)
}

/// Which source row a gathered row names, and nothing when it names none.
pub open spec fn source_row(rids: Seq<u32>, at: int) -> Option<int> {
    if 0 <= at < rids.len() && rids[at] != NO_ROW {
        Some(rids[at] as int)
    } else {
        None
    }
}

/// A 64 bit sequence at a row, wrapping where it runs off the end of its width.
pub open spec fn sequence_at(start: i64, step: i64, row: int) -> i64 {
    wrap64(start + step * row)
}

/// An integer in the 64 bit word it wraps to.
pub open spec fn wrap64(x: int) -> i64 {
    ((x + 0x8000_0000_0000_0000) % 0x1_0000_0000_0000_0000 - 0x8000_0000_0000_0000) as i64
}

/// The first field from `from` on that has that name.
pub open spec fn find_name(held: Seq<(Seq<char>, Datum)>, name: Seq<char>, from: nat) -> Option<int>
    decreases held.len() - from,
{
    if from >= held.len() {
        None
    } else if held[from as int].0 == name {
        Some(from as int)
    } else {
        find_name(held, name, from + 1)
    }
}

/// Where a struct value keeps the field at `at` of its type: by name, or by place in a tuple.
pub open spec fn picked(fields: Seq<Field>, at: int, held: Seq<(Seq<char>, Datum)>) -> Option<int> {
    if all_unnamed(fields) {
        if at < held.len() {
            Some(at)
        } else {
            None
        }
    } else {
        find_name(held, fields[at].name@, 0)
    }
}

/// Whether a value is one a column of that type hands back as it was put in.
pub open spec fn belongs(ty: LogicalType, value: Datum) -> bool
    decreases ty,
{
    if value is Null {
        true
    } else {
        match ty {
            LogicalType::List(element) => match value {
                Datum::List { element: of, values } => of == *element && forall|i: int|
                    0 <= i < values.len() ==> belongs(*element, #[trigger] values[i]),
                _ => false,
            },
            LogicalType::Struct(fields) => match value {
                Datum::Struct(held) => {
                    &&& held.len() == fields@.len()
                    &&& forall|i: int|
                        0 <= i < fields@.len() ==> (#[trigger] held[i]).0 == fields@[i].name@
                            && picked(fields@, i, held) == Some(i) && belongs(
                            fields@[i].ty,
                            held[i].1,
                        )
                },
                _ => false,
            },
            LogicalType::Mapping(key, of) => match value {
                Datum::Mapping { key: from, value: to, entries } => from == *key && to == *of
                    && forall|i: int|
                    0 <= i < entries.len() ==> belongs(*key, (#[trigger] entries[i]).0) && belongs(
                        *of,
                        entries[i].1,
                    ),
                _ => false,
            },
            _ => {
                &&& !(layout_for(ty) is Empty)
                &&& cell_for(layout_for(ty), value) matches Some(cell) && cell_as(ty, cell) == value
            },
        }
    }
}

impl Vector {
    /// A body that is what the type and the length say it is.
    pub open spec fn wf(&self) -> bool
        decreases self,
    {
        match &self.body {
            Body::Flat(data) => {
                &&& data.wf()
                &&& data.layout() is Empty || (data.layout() == layout_for(self.ty) && data.size()
                    == self.len)
            },
            Body::Constant(_) => true,
            Body::Sequence { .. } => self.ty is BigInt,
            Body::Dictionary { codes, values, .. } => {
                &&& codes@.len() == self.len
                &&& values.wf()
                &&& values.ty == self.ty
            },
            Body::Packed { words, width, base, offset } => {
                &&& 1 <= *width <= 63
                &&& is_exact_layout(layout_for(self.ty))
                &&& layout_low(layout_for(self.ty)) <= *base
                &&& *base + top_code(*width as nat) <= layout_high(layout_for(self.ty))
                &&& *offset + self.len <= usize::MAX
            },
            Body::Views { views, arena } => {
                &&& layout_for(self.ty) is Varlen
                &&& views@.len() == self.len
                &&& forall|i: int|
                    0 <= i < views@.len() ==> (#[trigger] views@[i]).seen_in(arena@) is Some
            },
            Body::ExternalText { text } => {
                &&& layout_for(self.ty) is Varlen
                &&& text.count() == self.len
            },
            Body::Coded { stream, spans, table } => {
                &&& layout_for(self.ty) is Varlen
                &&& spans@.len() == self.len
                &&& table.wf()
                &&& forall|i: int|
                    0 <= i < spans@.len() ==> span_in(stream@, #[trigger] spans@[i]) is Some
            },
            Body::Runs { ends, values } => {
                &&& increasing_ends(ends@)
                &&& ends@.len() == values.len
                &&& self.len == if ends@.len() == 0 {
                    0
                } else {
                    ends@.last() as int
                }
                &&& !(values.body is Runs)
                &&& values.wf()
                &&& values.ty == self.ty
            },
            Body::Nested { entries, child } => {
                &&& entries@.len() == self.len
                &&& forall|i: int|
                    0 <= i < entries@.len() ==> (#[trigger] entries@[i]).0 + entries@[i].1
                        <= child.len
                &&& child.wf()
                &&& match &self.ty {
                    LogicalType::List(element) => child.ty == **element,
                    LogicalType::Mapping(key, value) => child.body matches Body::Fields { children }
                        && children@.len() == 2 && children@[0].ty == **key && children@[1].ty
                        == **value,
                    _ => false,
                }
            },
            Body::Fields { children } => {
                &&& self.ty matches LogicalType::Struct(fields) && fields@.len() == children@.len()
                &&& forall|f: int|
                    0 <= f < children@.len() ==> (#[trigger] children@[f]).wf()
                        && children@[f].len == self.len && children@[f].ty
                        == self.ty->Struct_0@[f].ty
            },
            Body::Gathered { source, rids, offset } => {
                &&& source.wf()
                &&& source.ty == self.ty
                &&& *offset + self.len <= rids@.len()
            },
        }
    }

    /// What row `at` holds, null past the end.
    pub open spec fn datum(&self, at: int) -> Datum
        decreases self,
    {
        if !(0 <= at < self.len) || !self.validity.valid(at) {
            Datum::Null
        } else {
            match &self.body {
                Body::Flat(data) => if at < data.size() {
                    cell_as(self.ty, data.cell(at))
                } else {
                    Datum::Null
                },
                Body::Constant(value) => value.datum(),
                Body::Sequence { start, step } => Datum::BigInt(sequence_at(*start, *step, at)),
                Body::Dictionary { codes, values, .. } => if at < codes@.len() {
                    values.datum(codes@[at] as int)
                } else {
                    Datum::Null
                },
                Body::Packed { words, width, base, offset } => cell_as(
                    self.ty,
                    integer_cell(
                        layout_for(self.ty),
                        *base + code_in(words@, (*offset + at) * *width, *width as nat),
                    ),
                ),
                Body::Views { views, arena } => if at < views@.len() {
                    match views@[at].seen_in(arena@) {
                        Some(bytes) => bytes_datum(self.ty, bytes),
                        None => Datum::Null,
                    }
                } else {
                    Datum::Null
                },
                Body::ExternalText { text } => match text.reads(at) {
                    Ok(Some(bytes)) => bytes_datum(self.ty, bytes),
                    _ => Datum::Null,
                },
                Body::Coded { .. } => match self.decompressed(at) {
                    Some(bytes) => bytes_datum(self.ty, bytes),
                    None => Datum::Null,
                },
                Body::Runs { ends, values } => match run_of_row(ends@, at) {
                    Some(run) => values.datum(run),
                    None => Datum::Null,
                },
                Body::Nested { entries, child } => if at < entries@.len() {
                    let start = entries@[at].0 as int;
                    match &self.ty {
                        LogicalType::Mapping(key, value) => Datum::Mapping {
                            key: **key,
                            value: **value,
                            entries: match &child.body {
                                Body::Fields { children } => if children@.len() == 2 {
                                    Seq::new(
                                        entries@[at].1 as nat,
                                        |k: int|
                                            (
                                                children@[0].datum(start + k),
                                                children@[1].datum(start + k),
                                            ),
                                    )
                                } else {
                                    Seq::empty()
                                },
                                _ => Seq::empty(),
                            },
                        },
                        _ => Datum::List {
                            element: child.ty,
                            values: Seq::new(
                                entries@[at].1 as nat,
                                |k: int| child.datum(start + k),
                            ),
                        },
                    }
                } else {
                    Datum::Null
                },
                Body::Fields { children } => Datum::Struct(
                    Seq::new(
                        children@.len(),
                        |f: int|
                            if 0 <= f < children@.len() {
                                (self.field_name(f), children@[f].datum(at))
                            } else {
                                (Seq::empty(), Datum::Null)
                            },
                    ),
                ),
                Body::Gathered { source, rids, offset } => match source_row(rids@, *offset + at) {
                    Some(row) => source.datum(row),
                    None => Datum::Null,
                },
            }
        }
    }

    /// What the type calls field `f`.
    pub open spec fn field_name(&self, f: int) -> Seq<char> {
        match &self.ty {
            LogicalType::Struct(fields) => fields@[f].name@,
            _ => Seq::empty(),
        }
    }

    /// What the codes of a compressed row stand for.
    pub open spec fn decompressed(&self, at: int) -> Option<Seq<u8>> {
        match &self.body {
            Body::Coded { stream, spans, table } => if at < spans@.len() {
                match span_in(stream@, spans@[at]) {
                    Some(part) => decoded(table.table(), part),
                    None => None,
                }
            } else {
                None
            },
            _ => None,
        }
    }

    /// Whether the row is null, in whichever form the vector is in.
    pub open spec fn null_at(&self, at: int) -> bool
        decreases self,
    {
        if !(0 <= at < self.len) || !self.validity.valid(at) {
            true
        } else {
            match &self.body {
                Body::Dictionary { codes, values, .. } => at >= codes@.len() || values.null_at(
                    codes@[at] as int,
                ),
                Body::Runs { ends, values } => match run_of_row(ends@, at) {
                    Some(run) => values.null_at(run),
                    None => true,
                },
                Body::Gathered { source, rids, offset } => match source_row(rids@, *offset + at) {
                    Some(row) => source.null_at(row),
                    None => true,
                },
                _ => false,
            }
        }
    }

    /// Whether any value of this vector is read from storage when it is asked for.
    pub open spec fn stored(&self) -> bool
        decreases self,
    {
        match &self.body {
            Body::ExternalText { .. } => true,
            Body::Dictionary { values, .. } => values.stored(),
            Body::Runs { values, .. } => values.stored(),
            Body::Gathered { source, .. } => source.stored(),
            Body::Nested { child, .. } => child.stored(),
            Body::Fields { children } => exists|f: int|
                0 <= f < children@.len() && (#[trigger] children@[f]).stored(),
            _ => false,
        }
    }

    /// The bytes of a row of text where it lies, or the failure of reading it.
    pub open spec fn text_read(&self, at: int) -> Result<Option<Seq<u8>>, Failure>
        decreases self,
    {
        if !(0 <= at < self.len) || !self.validity.valid(at) {
            Ok(None)
        } else {
            match &self.body {
                Body::Constant(value) => match value.datum() {
                    Datum::Varchar(text) => Ok(Some(encode_utf8(text))),
                    Datum::Blob(bytes) => Ok(Some(bytes)),
                    _ => Ok(None),
                },
                Body::Dictionary { codes, values, .. } => if at < codes@.len() {
                    values.text_read(codes@[at] as int)
                } else {
                    Ok(None)
                },
                Body::Runs { ends, values } => match run_of_row(ends@, at) {
                    Some(run) => values.text_read(run),
                    None => Ok(None),
                },
                Body::Gathered { source, rids, offset } => match source_row(rids@, *offset + at) {
                    Some(row) => source.text_read(row),
                    None => Ok(None),
                },
                Body::Views { views, arena } => if at < views@.len() {
                    Ok(views@[at].seen_in(arena@))
                } else {
                    Ok(None)
                },
                Body::ExternalText { text } => text.reads(at),
                Body::Flat(data) => if data.layout() is Varlen && at < data.size() {
                    Ok(Some(data.cell(at)->Bytes_0))
                } else {
                    Ok(None)
                },
                _ => Ok(None),
            }
        }
    }

    /// The signed integer of a row where it lies.
    pub open spec fn signed_read(&self, at: int) -> Option<int>
        decreases self,
    {
        if !(0 <= at < self.len) || !self.validity.valid(at) {
            None
        } else {
            match &self.body {
                Body::Flat(data) => if at < data.size() {
                    match data.cell(at) {
                        crate::data::Cell::Signed(x) => Some(x),
                        _ => None,
                    }
                } else {
                    None
                },
                Body::Constant(value) => signed_constant(value.datum()),
                Body::Sequence { start, step } => Some(sequence_at(*start, *step, at) as int),
                Body::Dictionary { codes, values, .. } => if at < codes@.len() {
                    values.signed_read(codes@[at] as int)
                } else {
                    None
                },
                Body::Runs { ends, values } => match run_of_row(ends@, at) {
                    Some(run) => values.signed_read(run),
                    None => None,
                },
                Body::Gathered { source, rids, offset } => match source_row(rids@, *offset + at) {
                    Some(row) => source.signed_read(row),
                    None => None,
                },
                Body::Packed { words, width, base, offset } => Some(
                    *base + code_in(words@, (*offset + at) * *width, *width as nat),
                ),
                _ => None,
            }
        }
    }

    /// The first failure reading a row meets.
    pub open spec fn failure(&self, at: int) -> Option<Failure>
        decreases self, 2nat, 0nat,
    {
        if !(0 <= at < self.len) || !self.validity.valid(at) {
            None
        } else {
            match &self.body {
                Body::ExternalText { text } => match text.reads(at) {
                    Err(failure) => Some(failure),
                    Ok(_) => None,
                },
                Body::Dictionary { codes, values, .. } => if at < codes@.len() {
                    values.failure(codes@[at] as int)
                } else {
                    None
                },
                Body::Runs { ends, values } => match run_of_row(ends@, at) {
                    Some(run) => values.failure(run),
                    None => None,
                },
                Body::Gathered { source, rids, offset } => match source_row(rids@, *offset + at) {
                    Some(row) => source.failure(row),
                    None => None,
                },
                Body::Nested { entries, child } => if at < entries@.len() {
                    let start = entries@[at].0 as int;
                    let stop = start + entries@[at].1;
                    match &self.ty {
                        LogicalType::Mapping(_, _) => match &child.body {
                            Body::Fields { children } => if children@.len() == 2 {
                                child.pair_failure(start, stop)
                            } else {
                                None
                            },
                            _ => None,
                        },
                        _ => child.run_failure(start, stop),
                    }
                } else {
                    None
                },
                Body::Fields { .. } => self.field_failure(at, 0),
                _ => None,
            }
        }
    }

    /// The first failure reading the rows from `at` up to `stop` meets.
    pub open spec fn run_failure(&self, at: int, stop: int) -> Option<Failure>
        decreases self, 3nat, stop - at,
    {
        if at >= stop {
            None
        } else {
            match self.failure(at) {
                Some(failure) => Some(failure),
                None => self.run_failure(at + 1, stop),
            }
        }
    }

    /// The first failure reading the pairs of a map's two columns meets, keys first.
    pub open spec fn pair_failure(&self, at: int, stop: int) -> Option<Failure>
        decreases self, 1nat, stop - at,
    {
        match &self.body {
            Body::Fields { children } => if at >= stop || children@.len() != 2 {
                None
            } else {
                match children@[0].failure(at) {
                    Some(failure) => Some(failure),
                    None => match children@[1].failure(at) {
                        Some(failure) => Some(failure),
                        None => self.pair_failure(at + 1, stop),
                    },
                }
            },
            _ => None,
        }
    }

    /// The first failure reading a struct row's fields from `f` on meets.
    pub open spec fn field_failure(&self, at: int, f: nat) -> Option<Failure>
        decreases
            self,
            1nat,
            match &self.body {
                Body::Fields { children } => children@.len() - f,
                _ => 0,
            },
    {
        match &self.body {
            Body::Fields { children } => if f >= children@.len() {
                None
            } else {
                match children@[f as int].failure(at) {
                    Some(failure) => Some(failure),
                    None => self.field_failure(at, f + 1),
                }
            },
            _ => None,
        }
    }

    /// Whether the values are where a reader of slices finds them: laid out flat, or in the one
    /// form a nested value has, or nowhere because there are none.
    pub open spec fn written_out(&self) -> bool
        decreases self,
    {
        match &self.body {
            Body::Flat(_) => true,
            Body::Nested { .. } => true,
            Body::Fields { children } => forall|f: int|
                0 <= f < children@.len() ==> (#[trigger] children@[f]).written_out(),
            Body::Constant(value) => value.datum() is Null,
            _ => false,
        }
    }

    /// Whether the form is one a gather answers by following it rather than by copying it.
    pub open spec fn points_elsewhere(&self) -> bool {
        self.body is Dictionary || self.body is Runs || self.body is Gathered
    }

    /// The first vector on the way down that points nowhere else.
    pub open spec fn root(&self) -> Vector
        decreases self,
    {
        match &self.body {
            Body::Dictionary { values, .. } => values.root(),
            Body::Runs { values, .. } => values.root(),
            Body::Gathered { source, .. } => source.root(),
            _ => *self,
        }
    }

    /// The first body that points nowhere else is of the same type.
    pub proof fn lemma_root(&self)
        requires
            self.wf(),
        ensures
            self.root().wf(),
            self.root().ty == self.ty,
            !self.root().points_elsewhere(),
        decreases self,
    {
        match &self.body {
            Body::Dictionary { values, .. } => values.lemma_root(),
            Body::Runs { values, .. } => values.lemma_root(),
            Body::Gathered { source, .. } => source.lemma_root(),
            _ => {},
        }
    }

    /// The same vector again, sharing everything it holds.
    pub fn dup(&self) -> (copy: Vector)
        ensures
            copy == *self,
    {
        let body = match &self.body {
            Body::Flat(data) => Body::Flat(data.clone()),
            Body::Constant(value) => Body::Constant(value.clone()),
            Body::Sequence { start, step } => Body::Sequence { start: *start, step: *step },
            Body::Dictionary { codes, values, stable } => Body::Dictionary {
                codes: codes.clone(),
                values: values.clone(),
                stable: *stable,
            },
            Body::Packed { words, width, base, offset } => Body::Packed {
                words: words.clone(),
                width: *width,
                base: *base,
                offset: *offset,
            },
            Body::Views { views, arena } => Body::Views {
                views: views.clone(),
                arena: arena.clone(),
            },
            Body::ExternalText { text } => Body::ExternalText { text: text.clone() },
            Body::Coded { stream, spans, table } => Body::Coded {
                stream: stream.clone(),
                spans: spans.clone(),
                table: table.clone(),
            },
            Body::Runs { ends, values } => Body::Runs {
                ends: ends.clone(),
                values: values.clone(),
            },
            Body::Nested { entries, child } => Body::Nested {
                entries: entries.clone(),
                child: child.clone(),
            },
            Body::Fields { children } => Body::Fields { children: children.clone() },
            Body::Gathered { source, rids, offset } => Body::Gathered {
                source: source.clone(),
                rids: rids.clone(),
                offset: *offset,
            },
        };
        Vector { ty: self.ty.dup(), len: self.len, validity: self.validity.dup(), body }
    }
}

impl Clone for Vector {
    fn clone(&self) -> (copy: Self)
        ensures
            copy == *self,
    {
        self.dup()
    }
}

/// The signed integer a single value is, for the types a column keeps as one.
pub open spec fn signed_constant(value: Datum) -> Option<int> {
    match value {
        Datum::TinyInt(x) => Some(x as int),
        Datum::SmallInt(x) => Some(x as int),
        Datum::Integer(x) => Some(x as int),
        Datum::Date(x) => Some(x as int),
        Datum::BigInt(x) => Some(x as int),
        Datum::Time(x) => Some(x as int),
        Datum::Timestamp(x) => Some(x as int),
        Datum::HugeInt(x) => Some(x as int),
        Datum::Decimal { unscaled, .. } => Some(unscaled as int),
        _ => None,
    }
}

} // verus!
