//! The forms that write a column down more cheaply, and the way into each of them.

use super::make::internal;
use super::{Body, Vector, NO_ROW};
use crate::bits::{below, extent, top_code, words_for, words_needed, PACKED_WIDTH_MAX};
use crate::data::{
    increasing_ends, is_exact_layout, layout_high, layout_low, layout_range, Data,
};
use crate::fsst::{
    encoded, law_decoding_undoes_encoding, row_bytes, span_in, trained, SymbolTable,
};
use crate::scan::{decimal, decimal_text, push_number, signed_decimal, signed_text};
use crate::strings::StringView;
use crate::text::TextSource;
use crate::types::{
    copy_bytes, decimal_layout, layout_for, About, Error, ErrorCode, Failure, LogicalType,
    PhysicalType, Subject,
};
use crate::validity::Validity;
use std::sync::Arc;
use vstd::prelude::*;
use vstd::string::*;

verus! {

/// How much smaller compressing has to be before it is worth a decompression on every read.
pub const FSST_PAYS_AT: usize = 2;

/// Whether codes are all of values that are there.
pub open spec fn codes_inside(codes: Seq<u32>, len: int) -> bool {
    forall|i: int| 0 <= i < codes.len() ==> #[trigger] codes[i] < len
}

/// Whether ids are each of a row that is there, or of none.
pub open spec fn ids_inside(ids: Seq<u32>, from: int, to: int, rows: int) -> bool {
    forall|i: int| from <= i < to ==> (#[trigger] ids[i] == NO_ROW || ids[i] < rows)
}

/// The refusal of a code past the values it points into.
pub open spec fn code_past(highest: u32, values: usize) -> Failure {
    Failure {
        code: ErrorCode::Internal,
        message: "dictionary code "@ + decimal(highest as nat) + " is past the end of a "@
            + decimal(values as nat) + " value dictionary"@,
        about: About::Nothing,
    }
}

/// The refusal of a gather: of rows its ids do not have, or of an id its source does not have.
pub open spec fn gather_refusal(offset: int, end: int, ids: int, rows: int) -> Failure {
    Failure {
        code: ErrorCode::Internal,
        message: if end > usize::MAX {
            "a gather that wraps"@
        } else if end > ids {
            "rows "@ + decimal(offset as nat) + " to "@ + decimal(end as nat)
                + " of a gather over "@ + decimal(ids as nat) + " ids"@
        } else {
            "a gathered row id is past the "@ + decimal(rows as nat) + " rows of its source"@
        },
        about: About::Nothing,
    }
}

/// The refusal of runs.
pub open spec fn runs_refusal(of_runs: bool, ends: int, values: int) -> Failure {
    Failure {
        code: ErrorCode::Internal,
        message: if of_runs {
            "runs of runs, which is two searches to read one row"@
        } else if ends != values {
            decimal(ends as nat) + " runs and "@ + decimal(values as nat)
                + " values to put in them"@
        } else {
            "run ends that do not increase"@
        },
        about: About::Nothing,
    }
}

/// The refusal of packed integers.
pub open spec fn packed_refusal(
    ty: LogicalType,
    words: int,
    width: int,
    base: int,
    len: int,
) -> Failure {
    if !is_exact_layout(layout_for(ty)) {
        of_type(ty, "a {} vector has no integer layout to pack"@)
    } else if width == 0 || width > PACKED_WIDTH_MAX {
        internal("a packed width of "@ + decimal(width as nat) + ", which is outside 1 to 63"@)
    } else if words < words_needed(len, width) {
        internal(
            decimal(words as nat) + " words for "@ + decimal(len as nat) + " values of "@ + decimal(
                width as nat,
            ) + " bits, which needs "@ + decimal(words_needed(len, width) as nat),
        )
    } else {
        of_type(
            ty,
            "packed values from "@ + signed_decimal(base) + " to "@ + signed_decimal(
                base + top_code(width as nat),
            ) + ", which a {} cannot hold"@,
        )
    }
}

/// A refusal that names a type.
pub open spec fn of_type(ty: LogicalType, message: Seq<char>) -> Failure {
    Failure { code: ErrorCode::Internal, message, about: About::Type(ty) }
}

fn refused_type(ty: &LogicalType, message: &str) -> (error: Error)
    ensures
        error@ == of_type(*ty, message@),
{
    Error {
        code: ErrorCode::Internal,
        message: message.to_owned(),
        about: Subject::Type(ty.dup()),
    }
}

impl Vector {
    /// Whether a dictionary is one level deep: what it points at is not a dictionary whose nulls
    /// are all in the values that one points at.
    pub open spec fn shallow(&self) -> bool {
        self.body matches Body::Dictionary { values, .. } ==> !(values.body is Dictionary
            && values.validity is AllValid)
    }

    /// A vector of codes into a smaller vector of distinct values.
    pub fn dictionary(codes: Vec<u32>, values: Vector) -> (vector: Result<Vector, Error>)
        requires
            values.wf(),
        ensures
            vector is Ok <==> codes_inside(codes@, values.len as int),
            vector matches Ok(vector) ==> {
                &&& vector.wf()
                &&& is_dictionary_of(vector, codes@, values, false)
                &&& values.shallow() ==> vector.shallow()
                &&& forall|i: int|
                    0 <= i < codes@.len() ==> #[trigger] vector.datum(i) == values.datum(
                        codes@[i] as int,
                    )
            },
            vector matches Err(error) ==> exists|highest: u32|
                {
                    &&& codes@.contains(highest)
                    &&& forall|i: int| 0 <= i < codes@.len() ==> codes@[i] <= highest
                    &&& error@ == #[trigger] code_past(highest, values.len)
                },
    {
        Vector::dictionary_over(codes, Arc::new(values))
    }

    /// The same, over a set of values somebody else is holding too.
    ///
    /// A dictionary over a dictionary is composed into one level. The one that is not composed past
    /// is one carrying a validity of its own, whose nulls composing would drop.
    pub fn dictionary_over(codes: Vec<u32>, values: Arc<Vector>) -> (vector: Result<Vector, Error>)
        requires
            values.wf(),
        ensures
            vector is Ok <==> codes_inside(codes@, values.len as int),
            vector matches Ok(vector) ==> {
                &&& vector.wf()
                &&& is_dictionary_of(vector, codes@, *values, false)
                &&& values.shallow() ==> vector.shallow()
                &&& forall|i: int|
                    0 <= i < codes@.len() ==> #[trigger] vector.datum(i) == values.datum(
                        codes@[i] as int,
                    )
            },
            vector matches Err(error) ==> exists|highest: u32|
                {
                    &&& codes@.contains(highest)
                    &&& forall|i: int| 0 <= i < codes@.len() ==> codes@[i] <= highest
                    &&& error@ == #[trigger] code_past(highest, values.len)
                },
    {
        if !below(codes.as_slice(), values.len) {
            let highest: u32 = match extent(codes.as_slice()) {
                Some((_, highest)) => highest,
                None => 0,
            };
            let mut message = "dictionary code ".to_owned();
            push_number(&mut message, highest as usize);
            message.append(" is past the end of a ");
            push_number(&mut message, values.len);
            message.append(" value dictionary");
            let error = Error { code: ErrorCode::Internal, message, about: Subject::Nothing };
            assert(error@ == code_past(highest, values.len));
            return Err(error);
        }
        let ghost given = codes@;
        let ghost whole = values;
        let (codes, values) = compose(codes, values);
        let len: usize = codes.len();
        let vector = Vector {
            ty: values.ty.dup(),
            len,
            validity: Validity::AllValid,
            body: Body::Dictionary { codes: Arc::new(codes), values, stable: false },
        };
        assert forall|i: int| 0 <= i < given.len() implies #[trigger] vector.datum(i)
            == whole.datum(given[i] as int) by {
            assert(values.datum(codes@[i] as int) == whole.datum(given[i] as int));
        }
        Ok(vector)
    }

    /// A dictionary whose codes keep the same meaning across every page of its source.
    pub fn stable_dictionary(codes: Vec<u32>, values: Arc<Vector>) -> (vector: Result<
        Vector,
        Error,
    >)
        requires
            values.wf(),
        ensures
            vector is Ok <==> codes_inside(codes@, values.len as int),
            vector matches Ok(vector) ==> {
                &&& vector.wf()
                &&& is_dictionary_of(vector, codes@, *values, true)
                &&& values.shallow() ==> vector.shallow()
                &&& forall|i: int|
                    0 <= i < codes@.len() ==> #[trigger] vector.datum(i) == values.datum(
                        codes@[i] as int,
                    )
            },
            vector matches Err(error) ==> exists|highest: u32|
                {
                    &&& codes@.contains(highest)
                    &&& forall|i: int| 0 <= i < codes@.len() ==> codes@[i] <= highest
                    &&& error@ == #[trigger] code_past(highest, values.len)
                },
    {
        let ghost given = codes@;
        let ghost whole = values;
        match Vector::dictionary_over(codes, values) {
            Ok(vector) => match &vector.body {
                Body::Dictionary { codes, values, .. } => {
                    let stable = Vector {
                        ty: vector.ty.dup(),
                        len: vector.len,
                        validity: Validity::AllValid,
                        body: Body::Dictionary {
                            codes: codes.clone(),
                            values: values.clone(),
                            stable: true,
                        },
                    };
                    assert forall|i: int| 0 <= i < given.len() implies #[trigger] stable.datum(i)
                        == whole.datum(given[i] as int) by {
                        assert(stable.datum(i) == vector.datum(i));
                    }
                    Ok(stable)
                },
                _ => Ok(vector),
            },
            Err(error) => Err(error),
        }
    }

    /// A stable dictionary whose caller already found the largest code while decoding it.
    pub fn stable_dictionary_validated(
        codes: Vec<u32>,
        values: Arc<Vector>,
        highest: Option<u32>,
    ) -> (vector: Result<Vector, Error>)
        requires
            values.wf(),
        ensures
            vector is Err <==> (highest matches Some(code) && code >= values.len),
            vector matches Ok(vector) ==> {
                &&& vector.wf()
                &&& vector == (Vector {
                    ty: values.ty,
                    len: codes@.len() as usize,
                    validity: Validity::AllValid,
                    body: Body::Dictionary { codes: Arc::new(codes), values, stable: true },
                })
                &&& vector.len == codes@.len()
            },
            vector matches Err(error) ==> error@ == (Failure {
                code: ErrorCode::Internal,
                message: "a stable dictionary code is past its value dictionary"@,
                about: About::Nothing,
            }),
    {
        if let Some(code) = highest {
            if code as usize >= values.len {
                return Err(
                    Error::internal("a stable dictionary code is past its value dictionary"),
                );
            }
        }
        Ok(
            Vector {
                ty: values.ty.dup(),
                len: codes.len(),
                validity: Validity::AllValid,
                body: Body::Dictionary { codes: Arc::new(codes), values, stable: true },
            },
        )
    }

    /// One row of `source` per id, without reading any of them.
    ///
    /// An id past the end of the source that is not [`NO_ROW`] is refused.
    pub fn gathered(source: Arc<Vector>, rids: Arc<Vec<u32>>) -> (vector: Result<Vector, Error>)
        requires
            source.wf(),
        ensures
            vector is Ok <==> ids_inside(rids@, 0, rids@.len() as int, source.len as int),
            vector matches Ok(vector) ==> vector.wf() && vector == (Vector {
                ty: source.ty,
                len: rids@.len() as usize,
                validity: Validity::AllValid,
                body: Body::Gathered { source, rids, offset: 0 },
            }) && vector.len == rids@.len(),
            vector matches Err(error) ==> error@ == gather_refusal(
                0,
                rids@.len() as int,
                rids@.len() as int,
                source.len as int,
            ),
    {
        let len: usize = rids.len();
        Vector::gathered_from(source, rids, 0, len)
    }

    /// The same, reading `len` ids starting at `offset`.
    pub fn gathered_from(
        source: Arc<Vector>,
        rids: Arc<Vec<u32>>,
        offset: usize,
        len: usize,
    ) -> (vector: Result<Vector, Error>)
        requires
            source.wf(),
        ensures
            vector is Ok <==> offset + len <= rids@.len() && ids_inside(
                rids@,
                offset as int,
                offset + len,
                source.len as int,
            ),
            vector matches Ok(vector) ==> vector.wf() && vector == (Vector {
                ty: source.ty,
                len,
                validity: Validity::AllValid,
                body: Body::Gathered { source, rids, offset },
            }),
            vector matches Err(error) ==> error@ == gather_refusal(
                offset as int,
                offset + len,
                rids@.len() as int,
                source.len as int,
            ),
    {
        let held: usize = rids.len();
        if len > usize::MAX - offset {
            return Err(Error::internal("a gather that wraps"));
        }
        if offset + len > held {
            let mut message = "rows ".to_owned();
            push_number(&mut message, offset);
            message.append(" to ");
            push_number(&mut message, offset + len);
            message.append(" of a gather over ");
            push_number(&mut message, rids.len());
            message.append(" ids");
            return Err(Error { code: ErrorCode::Internal, message, about: Subject::Nothing });
        }
        let mut row: usize = offset;
        while row < offset + len
            invariant
                offset <= row <= offset + len,
                offset + len <= rids@.len(),
                offset + len <= usize::MAX,
                ids_inside(rids@, offset as int, row as int, source.len as int),
            decreases offset + len - row,
        {
            if rids[row] != NO_ROW && rids[row] as usize >= source.len {
                assert(!(rids@[row as int] == NO_ROW || rids@[row as int] < source.len));
                let mut message = "a gathered row id is past the ".to_owned();
                push_number(&mut message, source.len);
                message.append(" rows of its source");
                return Err(Error { code: ErrorCode::Internal, message, about: Subject::Nothing });
            }
            row += 1;
        }
        Ok(
            Vector {
                ty: source.ty.dup(),
                len,
                validity: Validity::AllValid,
                body: Body::Gathered { source, rids, offset },
            },
        )
    }

    /// A vector of runs, one value each, with the row each run ends at.
    ///
    /// Ends are exclusive and strictly increasing, and there is one value for each of them. Runs of
    /// runs are refused, because they are two searches to read one row.
    pub fn runs(ends: Vec<u32>, values: Vector) -> (vector: Result<Vector, Error>)
        requires
            values.wf(),
        ensures
            vector is Ok <==> !(values.body is Runs) && ends@.len() == values.len
                && increasing_ends(ends@),
            vector matches Ok(vector) ==> {
                &&& vector.wf()
                &&& vector.ty == values.ty
                &&& vector.len == if ends@.len() == 0 {
                    0
                } else {
                    ends@.last() as int
                }
                &&& vector.validity is AllValid
                &&& vector.body == (Body::Runs { ends: Arc::new(ends), values: Arc::new(values) })
            },
            vector matches Err(error) ==> error@ == runs_refusal(
                values.body is Runs,
                ends@.len() as int,
                values.len as int,
            ),
    {
        if let Body::Runs { .. } = &values.body {
            return Err(Error::internal("runs of runs, which is two searches to read one row"));
        }
        if ends.len() != values.len {
            let mut message = decimal_text(ends.len() as u128);
            message.append(" runs and ");
            push_number(&mut message, values.len);
            message.append(" values to put in them");
            return Err(Error { code: ErrorCode::Internal, message, about: Subject::Nothing });
        }
        if !ends_increase(ends.as_slice()) {
            return Err(Error::internal("run ends that do not increase"));
        }
        let len: usize = if ends.len() == 0 {
            0
        } else {
            ends[ends.len() - 1] as usize
        };
        Ok(
            Vector {
                ty: values.ty.dup(),
                len,
                validity: Validity::AllValid,
                body: Body::Runs { ends: Arc::new(ends), values: Arc::new(values) },
            },
        )
    }

    /// A vector of `len` integers packed `width` bits each, every one an offset from `base`.
    ///
    /// The range check is on the two ends of what the codes could say, which is the whole check.
    pub fn packed(ty: LogicalType, words: Vec<u64>, width: u32, base: i128, len: usize) -> (vector:
        Result<Vector, Error>)
        ensures
            vector is Ok <==> is_exact_layout(layout_for(ty)) && 1 <= width <= PACKED_WIDTH_MAX
                && words@.len() >= words_needed(len as int, width as int) && layout_low(
                layout_for(ty),
            ) <= base && base + top_code(width as nat) <= layout_high(layout_for(ty)),
            vector matches Ok(vector) ==> vector.wf() && vector == (Vector {
                ty,
                len,
                validity: Validity::AllValid,
                body: Body::Packed { words: Arc::new(words), width, base, offset: 0 },
            }),
            vector matches Err(error) ==> error@ == packed_refusal(
                ty,
                words@.len() as int,
                width as int,
                base as int,
                len as int,
            ),
    {
        let (low, high): (i128, i128) = match layout_range(&ty) {
            Some(range) => range,
            None => {
                return Err(refused_type(&ty, "a {} vector has no integer layout to pack"));
            },
        };
        if width == 0 || width > PACKED_WIDTH_MAX {
            let mut message = "a packed width of ".to_owned();
            push_number(&mut message, width as usize);
            message.append(", which is outside 1 to 63");
            return Err(Error { code: ErrorCode::Internal, message, about: Subject::Nothing });
        }
        proof {
            crate::bits::lemma_top_code(width);
        }
        let needed: usize = words_for(len, width);
        if words.len() < needed {
            let mut message = decimal_text(words.len() as u128);
            message.append(" words for ");
            push_number(&mut message, len);
            message.append(" values of ");
            push_number(&mut message, width as usize);
            message.append(" bits, which needs ");
            push_number(&mut message, needed);
            return Err(Error { code: ErrorCode::Internal, message, about: Subject::Nothing });
        }
        let span: i128 = crate::bits::largest_code(width) as i128;
        if base < low || base > high - span {
            let mut message = "packed values from ".to_owned();
            let first = signed_text(base);
            message.append(first.as_str());
            message.append(" to ");
            let last = if base < 0 {
                signed_text(base + span)
            } else {
                decimal_text(base as u128 + span as u128)
            };
            message.append(last.as_str());
            message.append(", which a {} cannot hold");
            return Err(Error { code: ErrorCode::Internal, message, about: Subject::Type(ty) });
        }
        Ok(
            Vector {
                ty,
                len,
                validity: Validity::AllValid,
                body: Body::Packed { words: Arc::new(words), width, base, offset: 0 },
            },
        )
    }

    /// A vector of string views over an arena somebody else is holding too.
    ///
    /// Every view is checked against the arena here rather than when a row is read.
    pub fn string_views(ty: LogicalType, views: Vec<StringView>, arena: Arc<Vec<u8>>) -> (vector:
        Result<Vector, Error>)
        ensures
            vector is Ok <==> layout_for(ty) is Varlen && forall|i: int|
                0 <= i < views@.len() ==> (#[trigger] views@[i]).seen_in(arena@) is Some,
            vector matches Ok(vector) ==> vector.wf() && vector == (Vector {
                ty,
                len: views@.len() as usize,
                validity: Validity::AllValid,
                body: Body::Views { views: Arc::new(views), arena },
            }) && vector.len == views@.len(),
            vector matches Err(error) ==> error@ == if layout_for(ty) is Varlen {
                internal("a string view points past the end of its arena"@)
            } else {
                of_type(ty, "a {} vector cannot hold string views"@)
            },
    {
        if ty.physical() != PhysicalType::Varlen {
            return Err(refused_type(&ty, "a {} vector cannot hold string views"));
        }
        let mut row: usize = 0;
        while row < views.len()
            invariant
                row <= views@.len(),
                layout_for(ty) is Varlen,
                forall|i: int|
                    0 <= i < row ==> (#[trigger] views@[i]).seen_in(arena@) is Some,
            decreases views.len() - row,
        {
            if views[row].bytes_in(arena.as_slice()).is_none() {
                assert(views@[row as int].seen_in(arena@) is None);
                return Err(Error::internal("a string view points past the end of its arena"));
            }
            row += 1;
        }
        Ok(
            Vector {
                ty,
                len: views.len(),
                validity: Validity::AllValid,
                body: Body::Views { views: Arc::new(views), arena },
            },
        )
    }

    /// A text vector whose values remain in a storage source until they are read.
    pub fn external_text(ty: LogicalType, source: Arc<Box<dyn TextSource>>) -> (vector: Result<
        Vector,
        Error,
    >)
        ensures
            vector is Ok <==> layout_for(ty) is Varlen,
            vector matches Ok(vector) ==> vector.wf() && vector == (Vector {
                ty,
                len: source.count() as usize,
                validity: Validity::AllValid,
                body: Body::ExternalText { text: source },
            }),
            vector matches Err(error) ==> error@ == of_type(
                ty,
                "a {} vector cannot use an external text source"@,
            ),
    {
        if ty.physical() != PhysicalType::Varlen {
            return Err(refused_type(&ty, "a {} vector cannot use an external text source"));
        }
        let len: usize = source.len();
        Ok(
            Vector {
                ty,
                len,
                validity: Validity::AllValid,
                body: Body::ExternalText { text: source },
            },
        )
    }

    /// The same strings, in a form where a cut of them does not copy the bytes.
    ///
    /// Anything that is not a flat string column comes back as it was.
    pub fn shared_text(self) -> (vector: Result<Vector, Error>)
        requires
            self.wf(),
        ensures
            vector matches Ok(vector) && {
                &&& vector.wf()
                &&& vector.ty == self.ty
                &&& vector.len == self.len
                &&& vector.validity == self.validity
                &&& vector.body is Views <==> (self.body is Views || (
                self.body matches Body::Flat(data) && *data is Varlen))
                &&& !(self.body matches Body::Flat(data) && *data is Varlen) ==> vector == self
                &&& forall|i: int| #[trigger] vector.datum(i) == self.datum(i)
            },
    {
        let (views, arena) = match &self.body {
            Body::Flat(data) => match &**data {
                Data::Varlen(column) => {
                    let mut views: Vec<StringView> = Vec::new();
                    let mut row: usize = 0;
                    while row < column.views.len()
                        invariant
                            row <= column.views@.len(),
                            views@ == column.views@.subrange(0, row as int),
                        decreases column.views.len() - row,
                    {
                        views.push(column.views[row]);
                        assert(views@ =~= column.views@.subrange(0, row + 1));
                        row += 1;
                    }
                    assert(views@ =~= column.views@);
                    (views, copy_bytes(column.arena.as_slice()))
                },
                _ => return Ok(self),
            },
            _ => return Ok(self),
        };
        let vector = Vector {
            ty: self.ty.dup(),
            len: self.len,
            validity: self.validity.dup(),
            body: Body::Views { views: Arc::new(views), arena: Arc::new(arena) },
        };
        assert forall|i: int| #[trigger] vector.datum(i) == self.datum(i) by {
            if 0 <= i < self.len {
                let column = (*self.body->Flat_0)->Varlen_0;
                assert(column.views@[i].seen_in(column.arena@) is Some);
            }
        }
        Ok(vector)
    }

    /// A vector of FSST codes against a table somebody else trained.
    pub fn coded(
        ty: LogicalType,
        codes: Arc<Vec<u8>>,
        spans: Vec<(u32, u32)>,
        table: Arc<SymbolTable>,
    ) -> (vector: Result<Vector, Error>)
        requires
            table.wf(),
        ensures
            vector is Ok <==> layout_for(ty) is Varlen && forall|i: int|
                0 <= i < spans@.len() ==> span_in(codes@, #[trigger] spans@[i]) is Some,
            vector matches Ok(vector) ==> vector.wf() && vector == (Vector {
                ty,
                len: spans@.len() as usize,
                validity: Validity::AllValid,
                body: Body::Coded { stream: codes, spans: Arc::new(spans), table },
            }) && vector.len == spans@.len(),
            vector matches Err(error) ==> error@ == if layout_for(ty) is Varlen {
                internal("an FSST span runs past the end of the codes"@)
            } else {
                of_type(ty, "a {} vector cannot hold FSST codes"@)
            },
    {
        if ty.physical() != PhysicalType::Varlen {
            return Err(refused_type(&ty, "a {} vector cannot hold FSST codes"));
        }
        let mut row: usize = 0;
        while row < spans.len()
            invariant
                row <= spans@.len(),
                layout_for(ty) is Varlen,
                forall|i: int|
                    0 <= i < row ==> span_in(codes@, #[trigger] spans@[i]) is Some,
            decreases spans.len() - row,
        {
            let (from, to): (u32, u32) = spans[row];
            if from > to || to as usize > codes.len() {
                assert(span_in(codes@, spans@[row as int]) is None);
                return Err(Error::internal("an FSST span runs past the end of the codes"));
            }
            row += 1;
        }
        Ok(
            Vector {
                ty,
                len: spans.len(),
                validity: Validity::AllValid,
                body: Body::Coded { stream: codes, spans: Arc::new(spans), table },
            },
        )
    }

    /// The same strings, compressed against a table trained on them, when that halves them.
    pub fn compressed(self) -> (vector: Result<Vector, Error>)
        requires
            self.wf(),
        ensures
            vector matches Ok(vector) && {
                &&& vector.wf()
                &&& vector.ty == self.ty
                &&& vector.len == self.len
                &&& vector.validity == self.validity
                &&& match self.body {
                    Body::Flat(data) => match *data {
                        Data::Varlen(column) => if compression_pays(
                            trained(data_rows(&*data)),
                            data_rows(&*data),
                            self.len as nat,
                        ) {
                            holds_codes(vector, trained(data_rows(&*data)), data_rows(&*data))
                        } else {
                            vector == self
                        },
                        _ => vector == self,
                    },
                    _ => vector == self,
                }
                &&& forall|i: int| #[trigger] vector.datum(i) == self.datum(i)
            },
    {
        let rows = match &self.body {
            Body::Flat(data) => match &**data {
                Data::Varlen(column) => {
                    let mut rows: Vec<Vec<u8>> = Vec::new();
                    let mut row: usize = 0;
                    while row < column.len()
                        invariant
                            row <= column.views@.len(),
                            column.wf(),
                            rows@.len() == row,
                            forall|i: int| 0 <= i < row ==> (#[trigger] rows@[i])@ == column.row(i),
                        decreases column.views@.len() - row,
                    {
                        if let Some(bytes) = column.bytes(row) {
                            rows.push(copy_bytes(bytes));
                        }
                        row += 1;
                    }
                    assert(row_bytes(rows@) =~= data_rows(&**data));
                    rows
                },
                _ => return Ok(self),
            },
            _ => return Ok(self),
        };
        let table = SymbolTable::train(&rows);
        self.compressed_with(table)
    }

    /// The same strings, compressed against a table, when the codes are at most half the bytes the
    /// strings are. A column it declines on comes back as it was.
    pub fn compressed_with(self, table: SymbolTable) -> (vector: Result<Vector, Error>)
        requires
            self.wf(),
            table.wf(),
        ensures
            vector matches Ok(vector) && {
                &&& vector.wf()
                &&& vector.ty == self.ty
                &&& vector.len == self.len
                &&& vector.validity == self.validity
                &&& match self.body {
                    Body::Flat(data) => match *data {
                        Data::Varlen(column) => if compression_pays(
                            table.table(),
                            data_rows(&*data),
                            self.len as nat,
                        ) {
                            &&& vector.body matches Body::Coded { table: held, .. } && *held == table
                            &&& holds_codes(vector, table.table(), data_rows(&*data))
                        } else {
                            vector == self
                        },
                        _ => vector == self,
                    },
                    _ => vector == self,
                }
                &&& forall|i: int| #[trigger] vector.datum(i) == self.datum(i)
            },
    {
        let mut codes: Vec<u8> = Vec::new();
        let mut spans: Vec<(u32, u32)> = Vec::new();
        let ghost mut rows: Seq<Seq<u8>> = Seq::empty();
        match &self.body {
            Body::Flat(data) => match &**data {
                Data::Varlen(column) => {
                    let ghost symbols = table.table();
                    proof {
                        rows = data_rows(&**data);
                    }
                    let mut plain: u64 = 0;
                    let mut wide: bool = false;
                    let mut row: usize = 0;
                    while row < column.len()
                        invariant
                            row <= column.views@.len(),
                            column.wf(),
                            table.wf(),
                            symbols == table.table(),
                            rows.len() == column.views@.len(),
                            forall|i: int| 0 <= i < rows.len() ==> #[trigger] rows[i] == column.row(i),
                            codes@.len() == coded_bytes(symbols, rows, row as nat),
                            wide ==> coded_bytes(symbols, rows, row as nat) > u32::MAX,
                            plain == plain_bytes(rows, row as nat) || (plain == u64::MAX
                                && plain_bytes(rows, row as nat) >= u64::MAX),
                            !wide ==> spans@.len() == row,
                            !wide ==> codes@.len() <= u32::MAX,
                            !wide ==> forall|i: int|
                                0 <= i < row ==> span_in(codes@, #[trigger] spans@[i]) == Some(
                                    encoded(symbols, rows[i]),
                                ),
                        decreases column.views@.len() - row,
                    {
                        if let Some(bytes) = column.bytes(row) {
                            assert(rows[row as int] == bytes@);
                            let from: usize = codes.len();
                            let ghost before = codes@;
                            table.compress(bytes, &mut codes);
                            plain = plain.saturating_add(bytes.len() as u64);
                            if codes.len() as u64 > u32::MAX as u64 {
                                wide = true;
                            }
                            if !wide {
                                let ghost was = spans@;
                                spans.push((from as u32, codes.len() as u32));
                                assert forall|i: int| 0 <= i < row + 1 implies span_in(
                                    codes@,
                                    #[trigger] spans@[i],
                                ) == Some(encoded(symbols, rows[i])) by {
                                    if i < row {
                                        assert(span_in(before, was[i]) == Some(
                                            encoded(symbols, rows[i]),
                                        ));
                                        assert(codes@.subrange(was[i].0 as int, was[i].1 as int)
                                            =~= before.subrange(was[i].0 as int, was[i].1 as int));
                                    } else {
                                        assert(codes@.subrange(from as int, codes@.len() as int)
                                            =~= encoded(symbols, rows[row as int]));
                                    }
                                }
                            }
                        }
                        row += 1;
                    }
                    if wide || (codes.len() as u64) * 2 > plain {
                        return Ok(self);
                    }
                },
                _ => return Ok(self),
            },
            _ => return Ok(self),
        }
        let vector = Vector {
            ty: self.ty.dup(),
            len: self.len,
            validity: self.validity.dup(),
            body: Body::Coded {
                stream: Arc::new(codes),
                spans: Arc::new(spans),
                table: Arc::new(table),
            },
        };
        assert forall|i: int| #[trigger] vector.datum(i) == self.datum(i) by {
            if 0 <= i < self.len {
                assert(span_in(codes@, spans@[i]) == Some(encoded(table.table(), rows[i])));
                law_decoding_undoes_encoding(table.table(), rows[i]);
            }
        }
        Ok(vector)
    }

    /// The same values under a wider decimal type that stores them the same way.
    ///
    /// A decimal is kept as its unscaled integer, so two decimal types with one scale and one
    /// storage width describe the same bits. `None` for a narrower width, a changed scale, a changed
    /// storage width and any form but the flat one.
    pub fn as_wider_decimal(&self, target: &LogicalType) -> (vector: Option<Vector>)
        requires
            self.wf(),
        ensures
            vector is Some <==> self.body is Flat && (self.ty matches LogicalType::Decimal {
                width: from,
                scale: held,
            } && (*target matches LogicalType::Decimal { width: into, scale } && held == scale
                && from <= into && decimal_layout(from) == decimal_layout(into))),
            vector matches Some(vector) ==> vector.wf() && vector == (Vector {
                ty: *target,
                ..*self
            }),
    {
        match (&self.ty, target) {
            (
                LogicalType::Decimal { width: from, scale: held },
                LogicalType::Decimal { width: into, scale },
            ) => {
                if *held != *scale || *from > *into || self.ty.physical() != target.physical() {
                    return None;
                }
                match &self.body {
                    Body::Flat(data) => Some(
                        Vector {
                            ty: target.dup(),
                            len: self.len,
                            validity: self.validity.dup(),
                            body: Body::Flat(data.clone()),
                        },
                    ),
                    _ => None,
                }
            },
            _ => None,
        }
    }

    /// This vector with its payload held as a page, so that copying or cutting it is free.
    ///
    /// Everything a body holds is behind a shared handle already, so it comes back as it was.
    pub fn into_pages(self) -> (vector: Vector)
        ensures
            vector == self,
    {
        self
    }
}

/// The codes of a dictionary body.
pub open spec fn codes_of_body(body: Body) -> Seq<u32> {
    match body {
        Body::Dictionary { codes, .. } => codes@,
        _ => Seq::empty(),
    }
}

/// The codes of one level of dictionary over the values: through the codes of the values, where they
/// are a dictionary whose nulls are all in its own values.
pub open spec fn composed_codes(codes: Seq<u32>, values: Vector) -> Seq<u32> {
    if values.body is Dictionary && values.validity is AllValid {
        Seq::new(codes.len(), |i: int| codes_of_body(values.body)[codes[i] as int])
    } else {
        codes
    }
}

/// What one level of dictionary over the values points at.
pub open spec fn composed_values(values: Vector) -> Vector {
    if values.body is Dictionary && values.validity is AllValid {
        values_of_body(values.body)
    } else {
        values
    }
}

/// Whether a vector is the one level dictionary of codes over values.
pub open spec fn is_dictionary_of(
    vector: Vector,
    codes: Seq<u32>,
    values: Vector,
    is_stable: bool,
) -> bool {
    &&& vector.ty == values.ty
    &&& vector.len == codes.len()
    &&& vector.validity is AllValid
    &&& vector.body matches Body::Dictionary { stable, .. } && stable == is_stable
    &&& codes_of_body(vector.body) == composed_codes(codes, values)
    &&& values_of_body(vector.body) == composed_values(values)
}

/// The values of a dictionary body.
pub open spec fn values_of_body(body: Body) -> Vector {
    match body {
        Body::Dictionary { values, .. } => *values,
        _ => arbitrary(),
    }
}

/// The bytes of every row of a string run.
pub open spec fn data_rows(data: &Data) -> Seq<Seq<u8>> {
    match data {
        Data::Varlen(column) => Seq::new(column.views@.len(), |i: int| column.row(i)),
        _ => Seq::empty(),
    }
}

/// Whether compressing the first `count` rows against a table is worth it: the codes are at most
/// half the bytes, and a span of them can be written down.
pub open spec fn compression_pays(symbols: Seq<Seq<u8>>, rows: Seq<Seq<u8>>, count: nat) -> bool {
    &&& 2 * coded_bytes(symbols, rows, count) <= plain_bytes(rows, count)
    &&& coded_bytes(symbols, rows, count) <= u32::MAX
}

/// Whether a vector holds each row as the codes it comes to against a table of those symbols.
pub open spec fn holds_codes(vector: Vector, symbols: Seq<Seq<u8>>, rows: Seq<Seq<u8>>) -> bool {
    vector.body matches Body::Coded { stream, spans, table } && table.table() == symbols
        && spans@.len() == rows.len() && forall|i: int|
        0 <= i < rows.len() ==> span_in(stream@, #[trigger] spans@[i]) == Some(
            encoded(symbols, rows[i]),
        )
}

/// How many bytes the first `count` rows have.
pub open spec fn plain_bytes(rows: Seq<Seq<u8>>, count: nat) -> nat
    decreases count,
{
    if count == 0 {
        0
    } else {
        plain_bytes(rows, (count - 1) as nat) + rows[count - 1].len()
    }
}

/// How many codes the first `count` rows come to against a table.
pub open spec fn coded_bytes(symbols: Seq<Seq<u8>>, rows: Seq<Seq<u8>>, count: nat) -> nat
    decreases count,
{
    if count == 0 {
        0
    } else {
        coded_bytes(symbols, rows, (count - 1) as nat) + encoded(symbols, rows[count - 1]).len()
    }
}

/// One level of dictionary out of however many levels were handed over.
///
/// A dictionary carrying a validity of its own is one whose nulls live at its level rather than in
/// its values, which composition cannot carry down with it.
fn compose(codes: Vec<u32>, values: Arc<Vector>) -> (composed: (Vec<u32>, Arc<Vector>))
    requires
        values.wf(),
        codes_inside(codes@, values.len as int),
    ensures
        composed.0@ == composed_codes(codes@, *values),
        *composed.1 == composed_values(*values),
        composed.1.wf(),
        composed.1.ty == values.ty,
        forall|i: int|
            0 <= i < codes@.len() ==> composed.1.datum(#[trigger] composed.0@[i] as int)
                == values.datum(codes@[i] as int),
{
    if !matches!(values.validity, Validity::AllValid) {
        return (codes, values);
    }
    match &values.body {
        Body::Dictionary { codes: inner, values: leaf, .. } => {
            let mut composed: Vec<u32> = Vec::new();
            let mut row: usize = 0;
            while row < codes.len()
                invariant
                    row <= codes@.len(),
                    composed@.len() == row,
                    inner@.len() == values.len,
                    codes_inside(codes@, values.len as int),
                    forall|i: int| 0 <= i < row ==> #[trigger] composed@[i] == inner@[codes@[i] as int],
                decreases codes.len() - row,
            {
                assert(codes@[row as int] < values.len);
                composed.push(inner[codes[row] as usize]);
                row += 1;
            }
            assert forall|i: int| 0 <= i < codes@.len() implies leaf.datum(
                #[trigger] composed@[i] as int,
            ) == values.datum(codes@[i] as int) by {
                assert(codes@[i] < values.len);
            }
            assert(composed@ =~= composed_codes(codes@, *values));
            (composed, leaf.clone())
        },
        _ => (codes, values),
    }
}

/// Whether ends are exclusive, strictly increasing and none of them zero.
fn ends_increase(ends: &[u32]) -> (increase: bool)
    ensures
        increase == increasing_ends(ends@),
{
    if ends.len() > 0 && ends[0] == 0 {
        return false;
    }
    let mut run: usize = 1;
    while run < ends.len()
        invariant
            1 <= run,
            ends@.len() > 0 ==> run <= ends@.len(),
            ends@.len() > 0 ==> ends@[0] > 0,
            forall|i: int, j: int|
                0 <= i < j < run && j < ends@.len() ==> #[trigger] ends@[i] < #[trigger] ends@[j],
        decreases ends.len() - run,
    {
        if ends[run - 1] >= ends[run] {
            assert(!(ends@[run - 1] < ends@[run as int]));
            return false;
        }
        run += 1;
    }
    true
}

/// A row of a dictionary is the row of the values its code names, through however many dictionaries
/// the values were.
pub proof fn law_a_dictionary_row_is_the_value_its_code_names(
    vector: Vector,
    codes: Seq<u32>,
    values: Vector,
    stable: bool,
    at: int,
)
    requires
        is_dictionary_of(vector, codes, values, stable),
        values.wf(),
        codes_inside(codes, values.len as int),
        0 <= at < codes.len(),
    ensures
        vector.len == codes.len(),
        vector.ty == values.ty,
        vector.datum(at) == values.datum(codes[at] as int),
{
    assert(codes[at] < values.len);
    if values.body is Dictionary && values.validity is AllValid {
        assert(codes_of_body(vector.body)[at] == codes_of_body(values.body)[codes[at] as int]);
    }
}

/// A compressed row reads back as the bytes that were compressed.
pub proof fn law_a_compressed_row_reads_back(
    vector: Vector,
    symbols: Seq<Seq<u8>>,
    rows: Seq<Seq<u8>>,
    at: int,
)
    requires
        holds_codes(vector, symbols, rows),
        crate::fsst::is_table(symbols),
        0 <= at < rows.len(),
    ensures
        vector.decompressed(at) == Some(rows[at]),
{
    crate::fsst::law_decoding_undoes_encoding(symbols, rows[at]);
    if let Body::Coded { stream, spans, table } = &vector.body {
        assert(span_in(stream@, spans@[at]) == Some(encoded(symbols, rows[at])));
    }
}

/// Compressing pays where the codes of all rows together come to half of their bytes or less.
pub proof fn law_compression_is_weighed_over_all_rows(
    symbols: Seq<Seq<u8>>,
    rows: Seq<Seq<u8>>,
    count: nat,
)
    requires
        count < rows.len(),
    ensures
        plain_bytes(rows, 0) == 0 && coded_bytes(symbols, rows, 0) == 0,
        plain_bytes(rows, count + 1) == plain_bytes(rows, count) + rows[count as int].len(),
        coded_bytes(symbols, rows, count + 1) == coded_bytes(symbols, rows, count) + encoded(
            symbols,
            rows[count as int],
        ).len(),
        compression_pays(symbols, rows, count) ==> coded_bytes(symbols, rows, count)
            + coded_bytes(symbols, rows, count) <= plain_bytes(rows, count),
        coded_bytes(symbols, rows, count) + coded_bytes(symbols, rows, count) <= plain_bytes(
            rows,
            count,
        ) && coded_bytes(symbols, rows, count) <= 0xffff_ffff ==> compression_pays(
            symbols,
            rows,
            count,
        ),
{
}

} // verus!
