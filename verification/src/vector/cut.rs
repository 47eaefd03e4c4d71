//! A contiguous run of a vector, in the form it is already in.


use super::read::{lemma_run_exists, lemma_run_found, run_holding, sequence_value};
use super::{run_of_row, sequence_at, wrap64, Body, Vector};
use crate::data::{increasing_ends, run_of, Data};
use crate::fsst::span_in;
use crate::scan::{decimal, push_number};
use crate::strings::StringColumn;
use crate::text::TextSource;
use crate::types::{About, Error, ErrorCode, Failure, Subject};
use std::sync::Arc;
use vstd::arithmetic::div_mod::*;
use vstd::prelude::*;
use vstd::string::*;

verus! {

/// Whether `cut` holds `len` rows of `from` starting at `at`.
pub open spec fn holds_run(cut: Vector, from: Vector, at: int, len: int) -> bool {
    &&& cut.wf()
    &&& cut.ty == from.ty
    &&& cut.len == len
    &&& forall|i: int| 0 <= i < len ==> #[trigger] cut.datum(i) == from.datum(at + i)
}

fn part<T: Copy>(whole: &Vec<T>, at: usize, end: usize) -> (part: Vec<T>)
    requires
        at <= end <= whole@.len(),
    ensures
        part@ == whole@.subrange(at as int, end as int),
{
    let mut part: Vec<T> = Vec::new();
    let mut row: usize = at;
    while row < end
        invariant
            at <= row <= end <= whole@.len(),
            part@ == whole@.subrange(at as int, row as int),
        decreases end - row,
    {
        part.push(whole[row]);
        assert(part@ =~= whole@.subrange(at as int, row + 1));
        row += 1;
    }
    part
}

proof fn lemma_sequence_moves(start: i64, step: i64, at: int, row: int)
    ensures
        sequence_at(sequence_at(start, step, at), step, row) == sequence_at(start, step, at + row),
{
    let range: int = 0x1_0000_0000_0000_0000;
    let half: int = 0x8000_0000_0000_0000;
    let x = start + step * at;
    let moved = wrap64(x) as int;
    lemma_fundamental_div_mod(x + half, range);
    let turns = (x + half) / range;
    assert(moved == x - range * turns);
    assert(step * (at + row) == step * at + step * row) by (nonlinear_arith);
    let y = moved + step * row + half;
    lemma_mod_multiples_vanish(turns, y, range);
    assert(range * turns + y == start + step * (at + row) + half);
}

/// The refusal of rows from `at` to `end` that a vector of `len` does not have.
pub open spec fn past_the_end(at: int, end: int, len: int) -> Failure {
    Failure {
        code: ErrorCode::Internal,
        message: if end > usize::MAX {
            "a slice that wraps"@
        } else {
            "rows "@ + decimal(at as nat) + " to "@ + decimal(end as nat) + " of a vector of "@
                + decimal(len as nat)
        },
        about: About::Nothing,
    }
}

/// A cut of a cut is a cut of the whole.
pub proof fn law_a_cut_of_a_cut(
    whole: Vector,
    cut: Vector,
    again: Vector,
    at: int,
    len: int,
    within: int,
    rows: int,
)
    requires
        holds_run(cut, whole, at, len),
        holds_run(again, cut, within, rows),
        0 <= within,
        within + rows <= len,
    ensures
        holds_run(again, whole, at + within, rows),
{
    assert forall|i: int| 0 <= i < rows implies #[trigger] again.datum(i) == whole.datum(
        at + within + i,
    ) by {
        assert(cut.datum(within + i) == whole.datum(at + (within + i)));
    }
}

impl Vector {
    /// Why the first row from `at` up to `stop` that cannot be read from storage cannot, whatever
    /// the mask says of it.
    pub open spec fn first_unread(&self, at: int, stop: int) -> Option<Failure>
        decreases stop - at,
    {
        match &self.body {
            Body::ExternalText { text } => if at >= stop {
                None
            } else {
                match text.reads(at) {
                    Err(failure) => Some(failure),
                    Ok(_) => self.first_unread(at + 1, stop),
                }
            },
            _ => None,
        }
    }

    /// Why a range inside a vector cannot be cut out, and `None` where it can: text is read from
    /// storage, under the runs the range touches and in each field in turn, unless the range is the
    /// whole of what holds it.
    pub open spec fn slice_failure(&self, at: int, len: int) -> Option<Failure>
        decreases self, 1nat, 0nat,
    {
        if at == 0 && len == self.len {
            None
        } else {
            match &self.body {
                Body::ExternalText { .. } => self.first_unread(at, at + len),
                Body::Runs { ends, values } => match (
                    run_of_row(ends@, at),
                    run_of_row(ends@, at + len - 1),
                ) {
                    (Some(first), Some(last)) if len > 0 => values.slice_failure(
                        first,
                        last - first + 1,
                    ),
                    _ => None,
                },
                Body::Fields { .. } => self.fields_cut_failure(at, len, 0),
                _ => None,
            }
        }
    }

    /// Why the first of a struct's fields, from `f` on, that a range cannot be cut out of cannot.
    pub open spec fn fields_cut_failure(&self, at: int, len: int, f: nat) -> Option<Failure>
        decreases
            self,
            0nat,
            match &self.body {
                Body::Fields { children } => children@.len() - f,
                _ => 0,
            },
    {
        match &self.body {
            Body::Fields { children } => if f >= children@.len() {
                None
            } else {
                match children@[f as int].slice_failure(at, len) {
                    Some(failure) => Some(failure),
                    None => self.fields_cut_failure(at, len, f + 1),
                }
            },
            _ => None,
        }
    }

    /// A range inside a vector that holds nothing in storage is always cut out.
    pub proof fn law_without_storage_every_cut_succeeds(&self, at: int, len: int)
        requires
            !self.stored(),
        ensures
            self.slice_failure(at, len) is None,
        decreases self, 1nat, 0nat,
    {
        match &self.body {
            Body::Runs { ends, values } => {
                if let (Some(first), Some(last)) = (
                    run_of_row(ends@, at),
                    run_of_row(ends@, at + len - 1),
                ) {
                    values.law_without_storage_every_cut_succeeds(first, last - first + 1);
                }
            },
            Body::Fields { .. } => self.lemma_fields_cut(at, len, 0),
            _ => {},
        }
    }

    proof fn lemma_fields_cut(&self, at: int, len: int, f: nat)
        requires
            !self.stored(),
            self.body is Fields,
        ensures
            self.fields_cut_failure(at, len, f) is None,
        decreases
            self,
            0nat,
            match &self.body {
                Body::Fields { children } => children@.len() - f,
                _ => 0,
            },
    {
        if let Body::Fields { children } = &self.body {
            if f < children@.len() {
                assert(decreases_to!(*self => self.body->Fields_children@[f as int]));
                assert(!children@[f as int].stored());
                children@[f as int].law_without_storage_every_cut_succeeds(at, len);
                self.lemma_fields_cut(at, len, f + 1);
            }
        }
    }
}

/// Whether a body is the cut of another that stays in its form: codes, views, spans and entries cut
/// over what they point into, packed words and row ids kept with their start moved along, and a
/// sequence with its start moved along. What the others hold is said by the rows alone.
pub open spec fn holds_cut(cut: Body, from: Body, at: int, len: int) -> bool {
    match from {
        Body::Constant(value) => cut == Body::Constant(value),
        Body::Sequence { start, step } => cut == (Body::Sequence {
            start: sequence_at(start, step, at),
            step,
        }),
        Body::Dictionary { codes, values, stable } => cut matches Body::Dictionary {
            codes: kept,
            values: under,
            stable: same,
        } && kept@ == codes@.subrange(at, at + len) && under == values && same == stable,
        Body::Packed { words, width, base, offset } => cut == (Body::Packed {
            words,
            width,
            base,
            offset: (offset + at) as usize,
        }) && offset + at <= usize::MAX,
        Body::Gathered { source, rids, offset } => cut == (Body::Gathered {
            source,
            rids,
            offset: (offset + at) as usize,
        }) && offset + at <= usize::MAX,
        Body::Views { views, arena } => cut matches Body::Views { views: kept, arena: under }
            && kept@ == views@.subrange(at, at + len) && under == arena,
        Body::Coded { stream, spans, table } => cut matches Body::Coded {
            stream: codes,
            spans: kept,
            table: under,
        } && kept@ == spans@.subrange(at, at + len) && codes == stream && under == table,
        Body::Nested { entries, child } => cut matches Body::Nested { entries: kept, child: under }
            && kept@ == entries@.subrange(at, at + len) && under == child,
        _ => true,
    }
}

/// A vector is the cut of all its rows.
proof fn lemma_whole_cut(vector: Vector)
    requires
        vector.wf(),
    ensures
        holds_cut(vector.body, vector.body, 0, vector.len as int),
{
    match vector.body {
        Body::Sequence { start, step } => {
            lemma_small_mod((start + 0x8000_0000_0000_0000) as nat, 0x1_0000_0000_0000_0000);
            assert(step * 0 == 0);
            assert(sequence_at(start, step, 0) == start);
        },
        Body::Dictionary { codes, .. } => {
            assert(codes@.subrange(0, vector.len as int) =~= codes@);
        },
        Body::Views { views, .. } => {
            assert(views@.subrange(0, vector.len as int) =~= views@);
        },
        Body::Coded { spans, .. } => {
            assert(spans@.subrange(0, vector.len as int) =~= spans@);
        },
        Body::Nested { entries, .. } => {
            assert(entries@.subrange(0, vector.len as int) =~= entries@);
        },
        _ => {},
    }
}

impl Vector {
    /// A contiguous run of the values, in the form they are already in.
    ///
    /// A dictionary keeps its dictionary and slices its codes, a sequence stays arithmetic with its
    /// start moved along, a constant stays a shorter constant. Text read from storage is read and
    /// comes back flat. An empty cut of runs has no run to keep, and is what an empty gather is.
    pub fn slice(&self, at: usize, len: usize) -> (cut: Result<Vector, Error>)
        requires
            self.wf(),
        ensures
            match cut {
                Ok(cut) => {
                    &&& at + len <= self.len
                    &&& self.slice_failure(at as int, len as int) is None
                    &&& holds_run(cut, *self, at as int, len as int)
                    &&& at == 0 && len == self.len ==> cut == *self
                    &&& !(self.body is ExternalText) && !(self.body is Runs) ==> cut.shape()
                        == self.shape()
                    &&& self.body is Runs && len > 0 ==> cut.body is Runs
                    &&& !(self.body is Runs) ==> !(cut.body is Runs)
                    &&& holds_cut(cut.body, self.body, at as int, len as int)
                },
                Err(error) => if at + len > self.len {
                    error@ == past_the_end(at as int, at + len, self.len as int)
                } else {
                    self.slice_failure(at as int, len as int) == Some(error@)
                },
            },
        decreases self, 1nat,
    {
        if len > usize::MAX - at {
            return Err(Error::internal("a slice that wraps"));
        }
        if at + len > self.len {
            let mut message = "rows ".to_owned();
            push_number(&mut message, at);
            message.append(" to ");
            push_number(&mut message, at + len);
            message.append(" of a vector of ");
            push_number(&mut message, self.len);
            return Err(Error { code: ErrorCode::Internal, message, about: Subject::Nothing });
        }
        let end: usize = at + len;
        if at == 0 && len == self.len {
            proof {
                lemma_whole_cut(*self);
            }
            return Ok(self.dup());
        }
        let validity = self.validity.slice(at, len);
        let ty = self.ty.dup();
        match &self.body {
            Body::Constant(value) => {
                let cut = Vector { ty, len, validity, body: Body::Constant(value.clone()) };
                assert forall|i: int| 0 <= i < len implies #[trigger] cut.datum(i) == self.datum(
                    at + i,
                ) by {
                    assert(validity.valid(i) == self.validity.valid(at + i));
                }
                Ok(cut)
            },
            Body::Sequence { start, step } => {
                let cut = Vector {
                    ty,
                    len,
                    validity,
                    body: Body::Sequence {
                        start: sequence_value(*start, *step, at),
                        step: *step,
                    },
                };
                assert forall|i: int| 0 <= i < len implies #[trigger] cut.datum(i) == self.datum(
                    at + i,
                ) by {
                    lemma_sequence_moves(*start, *step, at as int, i);
                    assert(validity.valid(i) == self.validity.valid(at + i));
                }
                Ok(cut)
            },
            Body::Dictionary { codes, values, stable } => {
                let cut = Vector {
                    ty,
                    len,
                    validity,
                    body: Body::Dictionary {
                        codes: Arc::new(part(codes, at, end)),
                        values: values.clone(),
                        stable: *stable,
                    },
                };
                assert forall|i: int| 0 <= i < len implies #[trigger] cut.datum(i) == self.datum(
                    at + i,
                ) by {
                    assert(validity.valid(i) == self.validity.valid(at + i));
                }
                Ok(cut)
            },
            Body::Gathered { source, rids, offset } => {
                let held: usize = rids.len();
                let cut = Vector {
                    ty,
                    len,
                    validity,
                    body: Body::Gathered {
                        source: source.clone(),
                        rids: rids.clone(),
                        offset: *offset + at,
                    },
                };
                assert forall|i: int| 0 <= i < len implies #[trigger] cut.datum(i) == self.datum(
                    at + i,
                ) by {
                    assert(validity.valid(i) == self.validity.valid(at + i));
                    assert(*offset + at + i == *offset + (at + i));
                }
                Ok(cut)
            },
            Body::Packed { words, width, base, offset } => {
                let cut = Vector {
                    ty,
                    len,
                    validity,
                    body: Body::Packed {
                        words: words.clone(),
                        width: *width,
                        base: *base,
                        offset: *offset + at,
                    },
                };
                assert forall|i: int| 0 <= i < len implies #[trigger] cut.datum(i) == self.datum(
                    at + i,
                ) by {
                    assert(validity.valid(i) == self.validity.valid(at + i));
                    assert(*offset + at + i == *offset + (at + i));
                }
                Ok(cut)
            },
            Body::Views { views, arena } => {
                let kept = part(views, at, end);
                assert forall|i: int| 0 <= i < kept@.len() implies (#[trigger] kept@[i]).seen_in(
                    arena@,
                ) is Some by {
                    assert(views@[at + i].seen_in(arena@) is Some);
                }
                let cut = Vector {
                    ty,
                    len,
                    validity,
                    body: Body::Views { views: Arc::new(kept), arena: arena.clone() },
                };
                assert forall|i: int| 0 <= i < len implies #[trigger] cut.datum(i) == self.datum(
                    at + i,
                ) by {
                    assert(validity.valid(i) == self.validity.valid(at + i));
                }
                Ok(cut)
            },
            Body::Coded { stream, spans, table } => {
                let kept = part(spans, at, end);
                assert forall|i: int| 0 <= i < kept@.len() implies span_in(
                    stream@,
                    #[trigger] kept@[i],
                ) is Some by {
                    assert(span_in(stream@, spans@[at + i]) is Some);
                }
                let cut = Vector {
                    ty,
                    len,
                    validity,
                    body: Body::Coded {
                        stream: stream.clone(),
                        spans: Arc::new(kept),
                        table: table.clone(),
                    },
                };
                assert forall|i: int| 0 <= i < len implies #[trigger] cut.datum(i) == self.datum(
                    at + i,
                ) by {
                    assert(validity.valid(i) == self.validity.valid(at + i));
                    assert(cut.decompressed(i) == self.decompressed(at + i));
                }
                Ok(cut)
            },
            Body::Runs { ends, values } => self.sliced_runs(ends, values, at, len),
            Body::Nested { entries, child } => {
                let kept = part(entries, at, end);
                assert forall|i: int| 0 <= i < kept@.len() implies (#[trigger] kept@[i]).0
                    + kept@[i].1 <= child.len by {
                    assert(entries@[at + i].0 + entries@[at + i].1 <= child.len);
                }
                let cut = Vector {
                    ty,
                    len,
                    validity,
                    body: Body::Nested { entries: Arc::new(kept), child: child.clone() },
                };
                assert forall|i: int| 0 <= i < len implies #[trigger] cut.datum(i) == self.datum(
                    at + i,
                ) by {
                    assert(validity.valid(i) == self.validity.valid(at + i));
                }
                Ok(cut)
            },
            Body::Fields { children } => self.sliced_fields(children, at, len),
            Body::ExternalText { text } => self.sliced_text(text, at, len),
            Body::Flat(data) => {
                let cut = Vector {
                    ty,
                    len,
                    validity,
                    body: Body::Flat(Arc::new(run_of(data, at, end))),
                };
                assert forall|i: int| 0 <= i < len implies #[trigger] cut.datum(i) == self.datum(
                    at + i,
                ) by {
                    assert(validity.valid(i) == self.validity.valid(at + i));
                }
                Ok(cut)
            },
        }
    }

    /// The cut of a struct vector: every child cut at the same place.
    fn sliced_fields(&self, children: &Arc<Vec<Arc<Vector>>>, at: usize, len: usize) -> (cut: Result<
        Vector,
        Error,
    >)
        requires
            self.wf(),
            self.body == (Body::Fields { children: *children }),
            at + len <= self.len,
        ensures
            match cut {
                Ok(cut) => {
                    &&& self.fields_cut_failure(at as int, len as int, 0) is None
                    &&& holds_run(cut, *self, at as int, len as int)
                    &&& cut.body is Fields
                },
                Err(error) => self.fields_cut_failure(at as int, len as int, 0) == Some(error@),
            },
        decreases self, 0nat,
    {
        let validity = self.validity.slice(at, len);
        let mut kept: Vec<Arc<Vector>> = Vec::new();
        let mut f: usize = 0;
        while f < children.len()
            invariant
                f <= children@.len(),
                at + len <= self.len,
                kept@.len() == f,
                self.body == (Body::Fields { children: *children }),
                self.fields_cut_failure(at as int, len as int, 0) == self.fields_cut_failure(
                    at as int,
                    len as int,
                    f as nat,
                ),
                forall|i: int|
                    0 <= i < children@.len() ==> (#[trigger] children@[i]).wf()
                        && children@[i].len == self.len,
                forall|i: int|
                    0 <= i < f ==> holds_run(
                        *(#[trigger] kept@[i]),
                        *children@[i],
                        at as int,
                        len as int,
                    ),
            decreases children.len() - f,
        {
            assert(decreases_to!(*self => self.body->Fields_children@[f as int]));
            let ghost child = children@[f as int];
            assert(child.wf());
            match children[f].slice(at, len) {
                Ok(cut) => kept.push(Arc::new(cut)),
                Err(error) => return Err(error),
            }
            f += 1;
        }
        let cut = Vector {
            ty: self.ty.dup(),
            len,
            validity,
            body: Body::Fields { children: Arc::new(kept) },
        };
        assert forall|i: int| 0 <= i < kept@.len() implies (#[trigger] kept@[i]).wf()
            && kept@[i].len == len && kept@[i].ty == children@[i].ty by {
            assert(holds_run(*kept@[i], *children@[i], at as int, len as int));
        }
        assert(cut.wf());
        assert forall|i: int| 0 <= i < len implies #[trigger] cut.datum(i) == self.datum(
            at + i,
        ) by {
            assert(validity.valid(i) == self.validity.valid(at + i));
            if validity.valid(i) {
                let got = cut.datum(i)->Struct_0;
                let want = self.datum(at + i)->Struct_0;
                assert forall|f: int| 0 <= f < got.len() implies got[f] == want[f] by {
                    assert(holds_run(*kept@[f], *children@[f], at as int, len as int));
                    assert(kept@[f].datum(i) == children@[f].datum(at + i));
                }
                assert(got =~= want);
            }
        }
        Ok(cut)
    }

    /// The cut of text in storage: the range read and written out.
    fn sliced_text(&self, text: &Arc<Box<dyn TextSource>>, at: usize, len: usize) -> (cut: Result<
        Vector,
        Error,
    >)
        requires
            self.wf(),
            self.body == (Body::ExternalText { text: *text }),
            at + len <= self.len,
        ensures
            match cut {
                Ok(cut) => {
                    &&& self.first_unread(at as int, at + len) is None
                    &&& holds_run(cut, *self, at as int, len as int)
                    &&& cut.body is Flat
                },
                Err(error) => self.first_unread(at as int, at + len) == Some(error@),
            },
    {
        let end: usize = at + len;
        let validity = self.validity.slice(at, len);
        let mut out = StringColumn::new();
        let mut row: usize = at;
        while row < end
            invariant
                at <= row <= end <= self.len,
                end == at + len,
                self.wf(),
                self.body == (Body::ExternalText { text: *text }),
                out.wf(),
                self.first_unread(at as int, end as int) == self.first_unread(
                    row as int,
                    end as int,
                ),
                out.views@.len() == row - at,
                forall|i: int|
                    0 <= i < row - at ==> text.reads(at + i) == Ok::<
                        Option<Seq<u8>>,
                        crate::types::Failure,
                    >(Some(#[trigger] out.row(i))),
            decreases end - row,
        {
            let ghost before = out;
            match text.bytes_at(row) {
                Ok(Some(bytes)) => out.push_bytes(bytes),
                Ok(None) => {},
                Err(error) => return Err(error),
            }
            assert forall|i: int| 0 <= i < row + 1 - at implies text.reads(at + i) == Ok::<
                Option<Seq<u8>>,
                crate::types::Failure,
            >(Some(#[trigger] out.row(i))) by {
                if i < row - at {
                    assert(out.row(i) == before.row(i));
                }
            }
            row += 1;
        }
        let cut = Vector {
            ty: self.ty.dup(),
            len,
            validity,
            body: Body::Flat(Arc::new(Data::Varlen(out))),
        };
        assert forall|i: int| 0 <= i < len implies #[trigger] cut.datum(i) == self.datum(
            at + i,
        ) by {
            assert(validity.valid(i) == self.validity.valid(at + i));
            assert(text.reads(at + i) == Ok::<Option<Seq<u8>>, crate::types::Failure>(
                Some(out.row(i)),
            ));
        }
        Ok(cut)
    }

    /// The cut of a run length vector: the runs the range touches, the first and last of them cut
    /// back to where the range starts and stops.
    fn sliced_runs(&self, ends: &Arc<Vec<u32>>, values: &Arc<Vector>, at: usize, len: usize) -> (cut:
        Result<Vector, Error>)
        requires
            self.wf(),
            self.body == (Body::Runs { ends: *ends, values: *values }),
            at + len <= self.len,
        ensures
            match cut {
                Ok(cut) => {
                    &&& !(at == 0 && len == self.len) ==> self.slice_failure(
                        at as int,
                        len as int,
                    ) is None
                    &&& holds_run(cut, *self, at as int, len as int)
                    &&& len > 0 ==> cut.body is Runs
                },
                Err(error) => !(at == 0 && len == self.len) ==> self.slice_failure(
                    at as int,
                    len as int,
                ) == Some(error@),
            },
        decreases self, 0nat,
    {
        if len == 0 {
            let none: Vec<usize> = Vec::new();
            proof {
                self.lemma_no_rows(none@);
            }
            return match self.copied(none.as_slice(), true) {
                Ok(cut) => Ok(cut),
                Err(error) => Err(error),
            };
        }
        let end: usize = at + len;
        proof {
            lemma_run_exists(ends@, at as int);
            lemma_run_exists(ends@, end - 1);
        }
        let first: usize = match run_holding(ends.as_slice(), at) {
            Some(run) => run,
            None => 0,
        };
        let last: usize = match run_holding(ends.as_slice(), end - 1) {
            Some(run) => run,
            None => first,
        };
        assert(first <= last) by {
            if last < first {
                assert(ends@[last as int] <= ends@[first - 1]);
            }
        }
        let mut cut: Vec<u32> = Vec::new();
        let count: usize = ends.len();
        let mut run: usize = first;
        while run <= last
            invariant
                first <= run <= last + 1,
                count == ends@.len(),
                last < count,
                increasing_ends(ends@),
                at < end,
                ends@[first as int] > at,
                first > 0 ==> ends@[first - 1] <= at,
                ends@[last as int] > end - 1,
                last > 0 ==> ends@[last - 1] <= end - 1,
                end <= u32::MAX,
                cut@.len() == run - first,
                forall|k: int|
                    0 <= k < cut@.len() ==> #[trigger] cut@[k] == if ends@[first + k] < end {
                        ends@[first + k] - at
                    } else {
                        end - at
                    },
            decreases last + 1 - run,
        {
            let stop: u32 = ends[run];
            assert(run > first ==> ends@[first as int] < ends@[run as int]);
            cut.push(
                if stop < end as u32 {
                    stop - at as u32
                } else {
                    end as u32 - at as u32
                },
            );
            run += 1;
        }
        let kept = match values.slice(first, last - first + 1) {
            Ok(kept) => kept,
            Err(error) => return Err(error),
        };
        let validity = self.validity.slice(at, len);
        let vector = Vector {
            ty: self.ty.dup(),
            len,
            validity,
            body: Body::Runs { ends: Arc::new(cut), values: Arc::new(kept) },
        };
        proof {
            assert forall|i: int, j: int| 0 <= i < j < cut@.len() implies #[trigger] cut@[i]
                < #[trigger] cut@[j] by {
                assert(ends@[first + i] < ends@[first + j]);
                assert(first + i <= last - 1);
                assert(first + i < last - 1 ==> ends@[first + i] < ends@[last - 1]);
            }
            assert(cut@[cut@.len() - 1] == len);
            assert(increasing_ends(cut@));
            assert(vector.wf());
            assert forall|i: int| 0 <= i < len implies #[trigger] vector.datum(i) == self.datum(
                at + i,
            ) by {
                assert(validity.valid(i) == self.validity.valid(at + i));
                lemma_run_exists(cut@, i);
                let run = run_of_row(cut@, i)->Some_0;
                lemma_run_found(ends@, at + i, first + run, 0);
                assert(kept.datum(run) == values.datum(first + run));
            }
        }
        Ok(vector)
    }
}

} // verus!
