//! Copying rows out of a vector, in whichever form it is in.

use super::encode::{code_past, codes_inside};
use super::make::{datums, internal, refusal, restored};
use super::read::{row_of, run_holding, sequence_value};
use super::{run_of_row, source_row, Body, Vector};
use crate::bits::Packed;
use crate::data::{
    bytes_datum, copy_of, unpack, Data, NOWHERE,
};
use crate::fsst::{codes_of, decoding_failure, span_in};
use crate::strings::{StringColumn, StringView};
use crate::text::TextSource;
use crate::types::{layout_for, Datum, Error, Failure, Value};
use crate::validity::Validity;
use std::sync::Arc;
use vstd::prelude::*;

verus! {

/// Whether `copy` holds the rows `at` of `from`, a row past the end or of no row being null.
pub open spec fn holds_rows(copy: Vector, from: Vector, at: Seq<usize>) -> bool {
    &&& copy.wf()
    &&& copy.ty == from.ty
    &&& copy.len == at.len()
    &&& forall|j: int| 0 <= j < at.len() ==> #[trigger] copy.datum(j) == from.datum(at[j] as int)
}

/// Rows taken out of rows that were taken out are rows of the first vector.
pub proof fn law_a_gather_of_a_gather(
    from: Vector,
    taken: Vector,
    again: Vector,
    at: Seq<usize>,
    places: Seq<usize>,
)
    requires
        holds_rows(taken, from, at),
        holds_rows(again, taken, places),
        forall|j: int| 0 <= j < places.len() ==> #[trigger] places[j] < at.len(),
    ensures
        holds_rows(again, from, Seq::new(places.len(), |j: int| at[places[j] as int])),
{
    let all = Seq::new(places.len(), |j: int| at[places[j] as int]);
    assert forall|j: int| 0 <= j < all.len() implies #[trigger] again.datum(j) == from.datum(
        all[j] as int,
    ) by {
        assert(places[j] < at.len());
        assert(taken.datum(places[j] as int) == from.datum(at[places[j] as int] as int));
    }
}

/// Positions, those that are no row of a vector or one masked out being nowhere.
pub open spec fn live_in(from: Vector, at: Seq<usize>) -> Seq<usize> {
    Seq::new(
        at.len(),
        |j: int|
            if at[j] < from.len && from.validity.valid(at[j] as int) {
                at[j]
            } else {
                NOWHERE
            },
    )
}

/// Whether every position is somewhere.
pub open spec fn all_somewhere(at: Seq<usize>) -> bool {
    forall|j: int| 0 <= j < at.len() ==> (#[trigger] at[j]) != NOWHERE
}

/// Whether `copy` is a copy of the rows `at` of `from`: the same type, as many rows, and each as
/// [`Vector::copied_row`] says.
pub open spec fn holds_copy(copy: Vector, from: Vector, at: Seq<usize>, forms_stay: bool) -> bool {
    &&& copy.wf()
    &&& copy.ty == from.ty
    &&& copy.len == at.len()
    &&& forall|j: int|
        0 <= j < at.len() ==> #[trigger] copy.datum(j) == from.copied_row(at, forms_stay, j)
}

/// The same, of rows of a vector that points nowhere else.
spec fn holds_leaf(copy: Vector, from: Vector, at: Seq<usize>, forms_stay: bool) -> bool {
    &&& copy.wf()
    &&& copy.ty == from.ty
    &&& copy.len == at.len()
    &&& forall|j: int|
        0 <= j < at.len() ==> #[trigger] copy.datum(j) == from.leaf_row(at, forms_stay, j)
}

/// The largest of some codes, zero where there are none.
pub open spec fn greatest_code(codes: Seq<u32>) -> u32
    decreases codes.len(),
{
    if codes.len() == 0 {
        0
    } else {
        let before = greatest_code(codes.drop_last());
        if codes.last() > before {
            codes.last()
        } else {
            before
        }
    }
}

proof fn lemma_greatest(codes: Seq<u32>, highest: u32)
    requires
        codes.contains(highest),
        forall|i: int| 0 <= i < codes.len() ==> codes[i] <= highest,
    ensures
        greatest_code(codes) == highest,
    decreases codes.len(),
{
    lemma_greatest_bound(codes);
    let at = choose|i: int| 0 <= i < codes.len() && codes[i] == highest;
    assert(codes[at] <= greatest_code(codes));
}

proof fn lemma_greatest_bound(codes: Seq<u32>)
    ensures
        forall|i: int| 0 <= i < codes.len() ==> #[trigger] codes[i] <= greatest_code(codes),
        codes.len() > 0 ==> exists|i: int|
            0 <= i < codes.len() && #[trigger] codes[i] == greatest_code(codes),
    decreases codes.len(),
{
    if codes.len() > 0 {
        let rest = codes.drop_last();
        lemma_greatest_bound(rest);
        assert forall|i: int| 0 <= i < codes.len() implies #[trigger] codes[i] <= greatest_code(
            codes,
        ) by {
            if i < rest.len() {
                assert(rest[i] == codes[i]);
            }
        }
        if codes.last() > greatest_code(rest) || rest.len() == 0 {
            assert(codes[codes.len() - 1] == greatest_code(codes));
        } else {
            let k = choose|i: int| 0 <= i < rest.len() && #[trigger] rest[i] == greatest_code(rest);
            assert(codes[k] == greatest_code(codes));
        }
    }
}

/// Whether a vector is a flat run in the layout its type calls for.
pub open spec fn laid_out(vector: Vector) -> bool {
    vector.body matches Body::Flat(data) && data.layout() == layout_for(vector.ty)
}

/// Whether a copy is in the form rows out of that body are in: text stays where it lies while forms
/// stay, a list shares its elements, and the rest is laid out flat.
pub open spec fn form_kept(
    copy: Vector,
    root: Vector,
    at: Seq<usize>,
    forms_stay: bool,
) -> bool {
    match root.body {
        Body::Flat(data) => if *data is Empty {
            copy.body is Constant
        } else {
            laid_out(copy)
        },
        Body::Sequence { .. } => laid_out(copy),
        Body::Packed { .. } => laid_out(copy),
        Body::ExternalText { .. } => laid_out(copy),
        Body::Views { arena, .. } => if forms_stay {
            copy.body matches Body::Views { arena: kept, .. } && kept == arena
        } else {
            laid_out(copy)
        },
        Body::Coded { stream, table, .. } => if forms_stay {
            copy.body matches Body::Coded { stream: codes, table: kept, .. } && codes == stream
                && kept == table
        } else {
            laid_out(copy)
        },
        Body::Nested { child, .. } => copy.body matches Body::Nested { child: kept, .. } && kept
            == child,
        Body::Fields { .. } => copy.body is Fields,
        Body::Constant(_) => if forms_stay && all_somewhere(at) {
            copy.body is Constant
        } else {
            root.ty is List || root.ty is Struct || root.ty is Mapping || laid_out(copy)
        },
        _ => true,
    }
}

impl Vector {
    /// Where positions lead one step down, in a form that points elsewhere.
    pub open spec fn step(&self, at: Seq<usize>) -> Seq<usize> {
        let here = live_in(*self, at);
        match &self.body {
            Body::Dictionary { codes, .. } => Seq::new(
                at.len(),
                |j: int|
                    if here[j] < codes@.len() {
                        codes@[here[j] as int] as usize
                    } else {
                        NOWHERE
                    },
            ),
            Body::Runs { ends, .. } => Seq::new(
                at.len(),
                |j: int|
                    if here[j] == NOWHERE {
                        NOWHERE
                    } else {
                        match run_of_row(ends@, here[j] as int) {
                            Some(run) => run as usize,
                            None => NOWHERE,
                        }
                    },
            ),
            Body::Gathered { rids, offset, .. } => Seq::new(
                at.len(),
                |j: int|
                    if here[j] == NOWHERE {
                        NOWHERE
                    } else {
                        match source_row(rids@, *offset + here[j]) {
                            Some(row) => row as usize,
                            None => NOWHERE,
                        }
                    },
            ),
            _ => here,
        }
    }

    /// Where positions lead in the first vector on the way down that points nowhere else.
    pub open spec fn found(&self, at: Seq<usize>) -> Seq<usize>
        decreases self,
    {
        match &self.body {
            Body::Dictionary { values, .. } => values.found(self.step(at)),
            Body::Runs { values, .. } => values.found(self.step(at)),
            Body::Gathered { source, .. } => source.found(self.step(at)),
            _ => live_in(*self, at),
        }
    }

    /// Whether a gather keeps the dictionary and takes its codes.
    pub open spec fn keeps_dictionary(&self, forms_stay: bool) -> bool {
        forms_stay && (self.body matches Body::Dictionary { stable, .. } && stable)
    }

    /// What a row of a copy reads as: what the row asked for reads as, and null where there is none.
    /// A repeated value that is written out reads as its column's type keeps it.
    pub open spec fn copied_row(&self, at: Seq<usize>, forms_stay: bool, j: int) -> Datum
        decreases self, 1nat,
    {
        if self.keeps_dictionary(forms_stay) {
            self.datum(at[j] as int)
        } else {
            self.leaf_row(at, forms_stay, j)
        }
    }

    /// The same, through every form that points elsewhere.
    pub open spec fn leaf_row(&self, at: Seq<usize>, forms_stay: bool, j: int) -> Datum
        decreases self, 0nat,
    {
        let here = live_in(*self, at);
        match &self.body {
            Body::Dictionary { values, .. } => values.leaf_row(self.step(at), forms_stay, j),
            Body::Runs { values, .. } => values.leaf_row(self.step(at), forms_stay, j),
            Body::Gathered { source, .. } => source.leaf_row(self.step(at), forms_stay, j),
            Body::Constant(value) => if here[j] == NOWHERE {
                Datum::Null
            } else if forms_stay && all_somewhere(here) {
                value.datum()
            } else {
                restored(self.ty, value.datum())
            },
            Body::Fields { children } => if here[j] == NOWHERE {
                Datum::Null
            } else {
                Datum::Struct(
                    Seq::new(
                        children@.len(),
                        |f: int|
                            if 0 <= f < children@.len() {
                                (self.field_name(f), children@[f].copied_row(here, forms_stay, j))
                            } else {
                                (Seq::empty(), Datum::Null)
                            },
                    ),
                )
            },
            _ => self.datum(at[j] as int),
        }
    }

    /// The rows of a repeated value at positions, null where a position is nowhere.
    pub open spec fn repeated(&self, at: Seq<usize>) -> Seq<Datum> {
        let here = live_in(*self, at);
        Seq::new(
            at.len(),
            |j: int|
                match &self.body {
                    Body::Constant(value) => if here[j] == NOWHERE {
                        Datum::Null
                    } else {
                        value.datum()
                    },
                    _ => Datum::Null,
                },
        )
    }

    /// Why a row cannot be written out: the failure its read from storage gave, or that of codes
    /// that do not decompress.
    pub open spec fn unwritten(&self, row: int) -> Option<Failure> {
        match &self.body {
            Body::ExternalText { text } => match text.reads(row) {
                Err(failure) => Some(failure),
                Ok(_) => None,
            },
            Body::Coded { stream, spans, table } => if self.decompressed(row) is Some {
                None
            } else {
                match span_in(stream@, spans@[row]) {
                    Some(part) => Some(decoding_failure(table.table(), part)),
                    None => None,
                }
            },
            _ => None,
        }
    }

    /// Why the first of some rows, from the position `from` on, that cannot be written out cannot.
    pub open spec fn first_unwritten(&self, at: Seq<usize>, from: nat) -> Option<Failure>
        decreases at.len() - from,
    {
        if from >= at.len() {
            None
        } else if at[from as int] == NOWHERE {
            self.first_unwritten(at, from + 1)
        } else {
            match self.unwritten(at[from as int] as int) {
                Some(failure) => Some(failure),
                None => self.first_unwritten(at, from + 1),
            }
        }
    }

    /// The codes a gather takes out of a dictionary, zero for a position past its end.
    pub open spec fn taken_codes(&self, at: Seq<usize>) -> Seq<u32> {
        match &self.body {
            Body::Dictionary { codes, .. } => Seq::new(
                at.len(),
                |j: int|
                    if at[j] < codes@.len() {
                        codes@[at[j] as int]
                    } else {
                        0
                    },
            ),
            _ => Seq::empty(),
        }
    }

    /// Why the codes of a stable dictionary cannot be gathered: where a row is null or past the end
    /// they are checked again, whole where the values are a dictionary themselves, and otherwise
    /// only for there being a value at all.
    pub open spec fn stable_failure(&self, at: Seq<usize>) -> Option<Failure> {
        match &self.body {
            Body::Dictionary { values, .. } => {
                let taken = self.taken_codes(at);
                if self.clear_of_nulls() && all_inside(at, self.len as int) {
                    None
                } else if values.body is Dictionary {
                    if codes_inside(taken, values.len as int) {
                        None
                    } else {
                        Some(code_past(greatest_code(taken), values.len))
                    }
                } else if values.len == 0 && taken.len() > 0 {
                    Some(internal("a stable dictionary code is past its value dictionary"@))
                } else {
                    None
                }
            },
            _ => None,
        }
    }

    /// Why rows cannot be copied, and `None` where they can.
    pub open spec fn copy_failure(&self, at: Seq<usize>, forms_stay: bool) -> Option<Failure>
        decreases self, 2nat, 0nat,
    {
        if self.keeps_dictionary(forms_stay) {
            self.stable_failure(at)
        } else {
            self.leaf_failure(at, forms_stay)
        }
    }

    /// The same, through every form that points elsewhere: text and codes that cannot be read, a
    /// repeated value whose rows cannot be built, and what stops the first field that does not copy.
    pub open spec fn leaf_failure(&self, at: Seq<usize>, forms_stay: bool) -> Option<Failure>
        decreases self, 1nat, 0nat,
    {
        let here = live_in(*self, at);
        match &self.body {
            Body::Dictionary { values, .. } => values.leaf_failure(self.step(at), forms_stay),
            Body::Runs { values, .. } => values.leaf_failure(self.step(at), forms_stay),
            Body::Gathered { source, .. } => source.leaf_failure(self.step(at), forms_stay),
            Body::Constant(_) => if forms_stay && all_somewhere(here) {
                None
            } else {
                refusal(self.ty, self.repeated(at))
            },
            Body::ExternalText { .. } => self.first_unwritten(here, 0),
            Body::Coded { .. } => if forms_stay {
                None
            } else {
                self.first_unwritten(here, 0)
            },
            Body::Fields { .. } => self.children_failure(here, forms_stay, 0),
            _ => None,
        }
    }

    /// Why the first of a struct's fields, from `f` on, that does not copy does not.
    pub open spec fn children_failure(
        &self,
        at: Seq<usize>,
        forms_stay: bool,
        f: nat,
    ) -> Option<Failure>
        decreases
            self,
            0nat,
            match &self.body {
                Body::Fields { children } => children@.len() - f,
                _ => 0,
            },
    {
        match &self.body {
            Body::Fields { children } => if f >= children@.len() {
                None
            } else {
                match children@[f as int].copy_failure(at, forms_stay) {
                    Some(failure) => Some(failure),
                    None => self.children_failure(at, forms_stay, f + 1),
                }
            },
            _ => None,
        }
    }

    /// Whether every repeated value this vector ends in is one its type keeps as it is.
    pub open spec fn at_home(&self) -> bool
        decreases self,
    {
        match &self.body {
            Body::Constant(value) => restored(self.ty, value.datum()) == value.datum(),
            Body::Dictionary { values, .. } => values.at_home(),
            Body::Runs { values, .. } => values.at_home(),
            Body::Gathered { source, .. } => source.at_home(),
            Body::Fields { children } => forall|f: int|
                0 <= f < children@.len() ==> (#[trigger] children@[f]).at_home(),
            _ => true,
        }
    }

    /// A copy reads row for row as what it was copied from, where every value repeated in it is one
    /// its type keeps as it is.
    pub proof fn law_a_copy_reads_as_its_rows(&self, at: Seq<usize>, forms_stay: bool, j: int)
        requires
            self.wf(),
            self.at_home(),
            0 <= j < at.len(),
        ensures
            self.copied_row(at, forms_stay, j) == self.datum(at[j] as int),
        decreases self, 1nat,
    {
        if !self.keeps_dictionary(forms_stay) {
            self.lemma_leaf_row(at, forms_stay, j);
        }
    }

    proof fn lemma_leaf_row(&self, at: Seq<usize>, forms_stay: bool, j: int)
        requires
            self.wf(),
            self.at_home(),
            0 <= j < at.len(),
        ensures
            self.leaf_row(at, forms_stay, j) == self.datum(at[j] as int),
        decreases self, 0nat,
    {
        let here = live_in(*self, at);
        match &self.body {
            Body::Dictionary { codes, values, .. } => {
                values.lemma_leaf_row(self.step(at), forms_stay, j);
            },
            Body::Runs { ends, values } => {
                if at[j] < self.len {
                    super::read::lemma_run_exists(ends@, at[j] as int);
                }
                values.lemma_leaf_row(self.step(at), forms_stay, j);
            },
            Body::Gathered { source, rids, offset } => {
                source.lemma_leaf_row(self.step(at), forms_stay, j);
            },
            Body::Fields { children } => {
                if here[j] != NOWHERE {
                    let got = self.leaf_row(at, forms_stay, j)->Struct_0;
                    let want = self.datum(at[j] as int)->Struct_0;
                    assert forall|f: int| 0 <= f < got.len() implies got[f] == want[f] by {
                        assert(children@[f].at_home());
                        assert(decreases_to!(*self => self.body->Fields_children@[f]));
                        children@[f].law_a_copy_reads_as_its_rows(here, forms_stay, j);
                    }
                    assert(got =~= want);
                }
            },
            _ => {},
        }
    }

    /// A copy reads, and fails, as the copy of the vector its forms lead to does, at the rows they
    /// lead to.
    proof fn lemma_resolved(&self, at: Seq<usize>, forms_stay: bool)
        ensures
            self.leaf_failure(at, forms_stay) == self.root().leaf_failure(
                self.found(at),
                forms_stay,
            ),
            forall|j: int|
                0 <= j < at.len() ==> #[trigger] self.leaf_row(at, forms_stay, j)
                    == self.root().leaf_row(self.found(at), forms_stay, j),
            self.found(at).len() == at.len(),
        decreases self,
    {
        match &self.body {
            Body::Dictionary { values, .. } => {
                let next = self.step(at);
                values.lemma_resolved(next, forms_stay);
                assert forall|j: int| 0 <= j < at.len() implies #[trigger] self.leaf_row(
                    at,
                    forms_stay,
                    j,
                ) == self.root().leaf_row(self.found(at), forms_stay, j) by {
                    assert(values.leaf_row(next, forms_stay, j) == values.root().leaf_row(
                        values.found(next),
                        forms_stay,
                        j,
                    ));
                }
            },
            Body::Runs { values, .. } => {
                let next = self.step(at);
                values.lemma_resolved(next, forms_stay);
                assert forall|j: int| 0 <= j < at.len() implies #[trigger] self.leaf_row(
                    at,
                    forms_stay,
                    j,
                ) == self.root().leaf_row(self.found(at), forms_stay, j) by {
                    assert(values.leaf_row(next, forms_stay, j) == values.root().leaf_row(
                        values.found(next),
                        forms_stay,
                        j,
                    ));
                }
            },
            Body::Gathered { source, .. } => {
                let next = self.step(at);
                source.lemma_resolved(next, forms_stay);
                assert forall|j: int| 0 <= j < at.len() implies #[trigger] self.leaf_row(
                    at,
                    forms_stay,
                    j,
                ) == self.root().leaf_row(self.found(at), forms_stay, j) by {
                    assert(source.leaf_row(next, forms_stay, j) == source.root().leaf_row(
                        source.found(next),
                        forms_stay,
                        j,
                    ));
                }
            },
            _ => {
                let here = live_in(*self, at);
                assert(live_in(*self, here) =~= here);
                assert(self.repeated(at) =~= self.repeated(here));
                assert(self.found(at) == here && self.root() == *self);
                assert forall|j: int| 0 <= j < at.len() implies #[trigger] self.leaf_row(
                    at,
                    forms_stay,
                    j,
                ) == self.leaf_row(here, forms_stay, j) by {
                    assert(self.datum(at[j] as int) == self.datum(here[j] as int));
                }
            },
        }
    }

    /// A copy of no rows, while forms stay, always succeeds.
    pub(crate) proof fn lemma_no_rows(&self, at: Seq<usize>)
        requires
            at.len() == 0,
        ensures
            self.copy_failure(at, true) is None,
            self.leaf_failure(at, true) is None,
        decreases self, 1nat, 0nat,
    {
        match &self.body {
            Body::Dictionary { values, .. } => values.lemma_no_rows(self.step(at)),
            Body::Runs { values, .. } => values.lemma_no_rows(self.step(at)),
            Body::Gathered { source, .. } => source.lemma_no_rows(self.step(at)),
            Body::Fields { .. } => self.lemma_no_rows_of_fields(live_in(*self, at), 0),
            _ => {},
        }
    }

    proof fn lemma_no_rows_of_fields(&self, at: Seq<usize>, f: nat)
        requires
            at.len() == 0,
            self.body is Fields,
        ensures
            self.children_failure(at, true, f) is None,
        decreases
            self,
            0nat,
            match &self.body {
                Body::Fields { children } => children@.len() - f,
                _ => 0,
            },
    {
        if let Body::Fields { children } = &self.body {
            if f < children@.len() {
                assert(decreases_to!(*self => self.body->Fields_children@[f as int]));
                children@[f as int].lemma_no_rows(at);
                self.lemma_no_rows_of_fields(at, f + 1);
            }
        }
    }

    /// Rows that are neither read from storage nor compressed are always written out.
    proof fn lemma_written(&self, at: Seq<usize>, from: nat)
        requires
            !(self.body is ExternalText),
            !(self.body is Coded),
        ensures
            self.first_unwritten(at, from) is None,
        decreases at.len() - from,
    {
        if from < at.len() {
            self.lemma_written(at, from + 1);
        }
    }

    /// Rows whose forms lead to a repeated value copy while forms stay and none of them is nowhere,
    /// and otherwise where a column can be built out of them, failing as building it does.
    pub proof fn law_a_repeated_value_fails_as_its_rows_do(&self, at: Seq<usize>, forms_stay: bool)
        requires
            self.wf(),
            self.root().body is Constant,
            !self.keeps_dictionary(forms_stay),
        ensures
            self.copy_failure(at, forms_stay) == if forms_stay && all_somewhere(self.found(at)) {
                None
            } else {
                refusal(self.ty, Seq::new(at.len(), |j: int| self.datum(at[j] as int)))
            },
    {
        self.lemma_resolved(at, forms_stay);
        self.lemma_root();
        self.lemma_asked(at);
        let root = self.root();
        let there = self.found(at);
        assert(live_in(root, there) =~= there);
        assert(root.repeated(there) =~= Seq::new(at.len(), |j: int| self.datum(at[j] as int)));
    }

    proof fn lemma_asked(&self, at: Seq<usize>)
        requires
            self.wf(),
        ensures
            self.found(at).len() == at.len(),
            live_in(self.root(), self.found(at)) == self.found(at),
            forall|j: int|
                0 <= j < at.len() ==> self.root().datum(self.found(at)[j] as int) == self.datum(
                    #[trigger] at[j] as int,
                ),
        decreases self,
    {
        match &self.body {
            Body::Dictionary { values, .. } => {
                let next = self.step(at);
                values.lemma_asked(next);
                assert forall|j: int| 0 <= j < at.len() implies self.root().datum(
                    self.found(at)[j] as int,
                ) == self.datum(#[trigger] at[j] as int) by {
                    assert(values.datum(next[j] as int) == self.datum(at[j] as int));
                }
            },
            Body::Runs { ends, values } => {
                let next = self.step(at);
                values.lemma_asked(next);
                assert forall|j: int| 0 <= j < at.len() implies self.root().datum(
                    self.found(at)[j] as int,
                ) == self.datum(#[trigger] at[j] as int) by {
                    if at[j] < self.len {
                        super::read::lemma_run_exists(ends@, at[j] as int);
                    }
                    assert(values.datum(next[j] as int) == self.datum(at[j] as int));
                }
            },
            Body::Gathered { source, .. } => {
                let next = self.step(at);
                source.lemma_asked(next);
                assert forall|j: int| 0 <= j < at.len() implies self.root().datum(
                    self.found(at)[j] as int,
                ) == self.datum(#[trigger] at[j] as int) by {
                    assert(source.datum(next[j] as int) == self.datum(at[j] as int));
                }
            },
            _ => {
                assert(live_in(*self, live_in(*self, at)) =~= live_in(*self, at));
            },
        }
    }
}

/// Whether every position is a row of a vector of `len`.
pub open spec fn all_inside(at: Seq<usize>, len: int) -> bool {
    forall|j: int| 0 <= j < at.len() ==> (#[trigger] at[j]) < len
}

impl Vector {
    /// A row the form says is null reads as null.
    pub proof fn law_null_reads_as_null(&self, at: int)
        requires
            self.wf(),
            self.null_at(at),
        ensures
            self.datum(at) is Null,
        decreases self,
    {
        if 0 <= at < self.len && self.validity.valid(at) {
            match &self.body {
                Body::Dictionary { codes, values, .. } => {
                    values.law_null_reads_as_null(codes@[at] as int);
                },
                Body::Runs { ends, values } => {
                    if let Some(run) = run_of_row(ends@, at) {
                        values.law_null_reads_as_null(run);
                    }
                },
                Body::Gathered { source, rids, offset } => {
                    if let Some(row) = source_row(rids@, *offset + at) {
                        source.law_null_reads_as_null(row);
                    }
                },
                _ => {},
            }
        }
    }

    /// A vector whose levels hold no null has no null row, as far as its codes name values.
    pub proof fn law_clear_of_nulls_has_no_null(&self, at: int)
        requires
            self.wf(),
            self.clear_of_nulls(),
            0 <= at < self.len,
            self.in_range(),
        ensures
            !self.null_at(at),
        decreases self,
    {
        assert(self.validity.valid(at));
        match &self.body {
            Body::Dictionary { codes, values, .. } => {
                assert(codes@[at] < values.len);
                values.law_clear_of_nulls_has_no_null(codes@[at] as int);
            },
            Body::Runs { ends, values } => {
                super::read::lemma_run_exists(ends@, at);
                values.law_clear_of_nulls_has_no_null(run_of_row(ends@, at)->Some_0);
            },
            Body::Gathered { source, rids, offset } => {
                assert(source_row(rids@, *offset + at) is Some);
                assert(rids@[*offset + at] < source.len);
                source.law_clear_of_nulls_has_no_null(rids@[*offset + at] as int);
            },
            _ => {},
        }
    }

    /// Whether every code and every row id names a row that is there.
    pub open spec fn in_range(&self) -> bool
        decreases self,
    {
        match &self.body {
            Body::Dictionary { codes, values, .. } => values.in_range() && forall|i: int|
                0 <= i < codes@.len() ==> #[trigger] codes@[i] < values.len,
            Body::Runs { values, .. } => values.in_range(),
            Body::Gathered { source, rids, offset } => source.in_range() && forall|i: int|
                *offset <= i < *offset + self.len ==> (#[trigger] rids@[i] == super::NO_ROW
                    || rids@[i] < source.len),
            _ => true,
        }
    }

    /// Where each wanted position lives in the first body that points nowhere else, and that body.
    ///
    /// A position that is null anywhere on the way down, or past the end of anything on the way
    /// down, comes back as [`NOWHERE`].
    fn resolve(&self, at: &[usize]) -> (found: (Vec<usize>, &Vector))
        requires
            self.wf(),
        ensures
            found.0@ == self.found(at@),
            found.1.wf(),
            found.1.ty == self.ty,
            !found.1.points_elsewhere(),
            *found.1 == self.root(),
            found.1 == self || decreases_to!(*self => *found.1),
        decreases self,
    {
        let mut here: Vec<usize> = Vec::new();
        let mut row: usize = 0;
        while row < at.len()
            invariant
                row <= at@.len(),
                here@.len() == row,
                forall|j: int| 0 <= j < row ==> #[trigger] here@[j] == live_in(*self, at@)[j],
            decreases at.len() - row,
        {
            let slot: usize = at[row];
            here.push(
                if slot < self.len && self.validity.is_valid(slot) {
                    slot
                } else {
                    NOWHERE
                },
            );
            row += 1;
        }
        assert(here@ =~= live_in(*self, at@));
        match &self.body {
            Body::Dictionary { codes, values, .. } => {
                let mut next: Vec<usize> = Vec::new();
                let mut row: usize = 0;
                while row < here.len()
                    invariant
                        row <= here@.len(),
                        here@ == live_in(*self, at@),
                        next@.len() == row,
                        self.body matches Body::Dictionary { codes: c, .. } && c == *codes,
                        forall|j: int| 0 <= j < row ==> #[trigger] next@[j] == self.step(at@)[j],
                    decreases here.len() - row,
                {
                    let slot: usize = here[row];
                    next.push(
                        if slot < codes.len() {
                            codes[slot] as usize
                        } else {
                            NOWHERE
                        },
                    );
                    row += 1;
                }
                assert(next@ =~= self.step(at@));
                assert(decreases_to!(*self => *(self.body->Dictionary_values)));
                values.resolve(next.as_slice())
            },
            Body::Runs { ends, values } => {
                let mut next: Vec<usize> = Vec::new();
                let mut row: usize = 0;
                while row < here.len()
                    invariant
                        row <= here@.len(),
                        here@ == live_in(*self, at@),
                        next@.len() == row,
                        self.wf(),
                        self.body == (Body::Runs { ends: *ends, values: *values }),
                        forall|j: int| 0 <= j < row ==> #[trigger] next@[j] == self.step(at@)[j],
                    decreases here.len() - row,
                {
                    let slot: usize = here[row];
                    if slot == NOWHERE {
                        next.push(NOWHERE);
                    } else {
                        next.push(
                            match run_holding(ends.as_slice(), slot) {
                                Some(run) => run,
                                None => NOWHERE,
                            },
                        );
                    }
                    row += 1;
                }
                assert(next@ =~= self.step(at@));
                assert(decreases_to!(*self => *(self.body->Runs_values)));
                values.resolve(next.as_slice())
            },
            Body::Gathered { source, rids, offset } => {
                let mut next: Vec<usize> = Vec::new();
                let mut row: usize = 0;
                while row < here.len()
                    invariant
                        row <= here@.len(),
                        here@ == live_in(*self, at@),
                        next@.len() == row,
                        self.wf(),
                        self.body == (Body::Gathered {
                            source: *source,
                            rids: *rids,
                            offset: *offset,
                        }),
                        forall|j: int| 0 <= j < row ==> #[trigger] next@[j] == self.step(at@)[j],
                    decreases here.len() - row,
                {
                    let slot: usize = here[row];
                    if slot == NOWHERE {
                        next.push(NOWHERE);
                    } else {
                        assert(slot < self.len);
                        next.push(
                            match row_of(rids.as_slice(), *offset, slot) {
                                Some(named) => named,
                                None => NOWHERE,
                            },
                        );
                    }
                    row += 1;
                }
                assert(next@ =~= self.step(at@));
                assert(decreases_to!(*self => *(self.body->Gathered_source)));
                source.resolve(next.as_slice())
            },
            _ => (here, self),
        }
    }

    /// A gather off a stable dictionary, which is its codes gathered over the same values.
    pub(crate) fn stable_gathered(&self, at: &[usize]) -> (gathered: Result<Vector, Error>)
        requires
            self.wf(),
            self.body matches Body::Dictionary { stable: true, .. },
        ensures
            gathered matches Ok(gathered) ==> holds_rows(gathered, *self, at@)
                && gathered.body matches Body::Dictionary { stable: true, .. },
            match gathered {
                Ok(_) => self.stable_failure(at@) is None,
                Err(error) => self.stable_failure(at@) == Some(error@),
            },
    {
        let (codes, values) = match &self.body {
            Body::Dictionary { codes, values, .. } => (codes, values),
            _ => return Err(Error::internal("a dictionary was asked for")),
        };
        let never: bool = self.never_null();
        let mut live: Vec<bool> = Vec::new();
        let mut taken: Vec<u32> = Vec::new();
        let mut inside: bool = true;
        let mut row: usize = 0;
        while row < at.len()
            invariant
                row <= at@.len(),
                self.wf(),
                self.body matches Body::Dictionary { codes: c, values: v, .. } && c == *codes && v
                    == *values,
                never ==> self.clear_of_nulls(),
                live@.len() == row,
                taken@.len() == row,
                inside <==> forall|j: int| 0 <= j < row ==> (#[trigger] at@[j]) < self.len,
                forall|j: int|
                    0 <= j < row ==> #[trigger] taken@[j] == if at@[j] < self.len {
                        codes@[at@[j] as int]
                    } else {
                        0
                    },
                forall|j: int|
                    0 <= j < row ==> (#[trigger] live@[j] ==> at@[j] < self.len
                        && self.validity.valid(at@[j] as int)) && (!live@[j] ==> self.datum(
                        at@[j] as int,
                    ) is Null),
            decreases at.len() - row,
        {
            let slot: usize = at[row];
            let here: bool = slot < codes.len();
            let alive: bool = here && (never || !self.is_null_at(slot));
            proof {
                if !alive && here {
                    self.law_null_reads_as_null(slot as int);
                }
                if never && here {
                    assert(self.validity.valid(slot as int));
                }
            }
            if !here {
                assert(!(at@[row as int] < self.len));
                inside = false;
            }
            live.push(alive);
            taken.push(
                if here {
                    codes[slot]
                } else {
                    0
                },
            );
            row += 1;
        }
        let ghost wanted = taken@;
        assert(wanted =~= self.taken_codes(at@));
        if inside && never {
            let gathered = Vector {
                ty: self.ty.dup(),
                len: at.len(),
                validity: Validity::AllValid,
                body: Body::Dictionary {
                    codes: Arc::new(taken),
                    values: values.clone(),
                    stable: true,
                },
            };
            assert forall|j: int| 0 <= j < at@.len() implies #[trigger] gathered.datum(j)
                == self.datum(at@[j] as int) by {
                assert(at@[j] < self.len);
                assert(self.validity.valid(at@[j] as int));
            }
            return Ok(gathered);
        }
        let validity = Validity::from_run(live.as_slice());
        let gathered = match &values.body {
            Body::Dictionary { .. } => match Vector::stable_dictionary(taken, values.clone()) {
                Ok(vector) => vector,
                Err(error) => {
                    proof {
                        let highest = choose|highest: u32|
                            {
                                &&& wanted.contains(highest)
                                &&& forall|i: int| 0 <= i < wanted.len() ==> wanted[i] <= highest
                                &&& error@ == #[trigger] code_past(highest, values.len)
                            };
                        lemma_greatest(wanted, highest);
                    }
                    return Err(error);
                },
            },
            _ => {
                let highest: Option<u32> = if values.len == 0 && taken.len() > 0 {
                    Some(0)
                } else {
                    None
                };
                match Vector::stable_dictionary_validated(taken, values.clone(), highest) {
                    Ok(vector) => vector,
                    Err(error) => return Err(error),
                }
            },
        };
        let ghost held = gathered;
        let gathered = gathered.with_validity(validity);
        assert forall|j: int| 0 <= j < at@.len() implies #[trigger] gathered.datum(j) == self.datum(
            at@[j] as int,
        ) by {
            assert(validity.valid(j) == live@[j]);
            assert(held.datum(j) == values.datum(wanted[j] as int));
            if live@[j] {
                assert(gathered.datum(j) == held.datum(j));
            }
        }
        Ok(gathered)
    }

    /// The copy both [`Self::gather`] and [`Self::flatten`] are.
    ///
    /// A gather of a constant is a shorter constant and a gather of views is a shorter run of views,
    /// where flattening promises to write both out: `forms_stay` is that difference.
    pub fn copied(&self, at: &[usize], forms_stay: bool) -> (copy: Result<Vector, Error>)
        requires
            self.wf(),
        ensures
            match copy {
                Ok(copy) => {
                    &&& self.copy_failure(at@, forms_stay) is None
                    &&& holds_copy(copy, *self, at@, forms_stay)
                    &&& self.at_home() ==> holds_rows(copy, *self, at@)
                    &&& !(copy.body is Runs)
                    &&& !forms_stay ==> copy.written_out()
                    &&& if self.keeps_dictionary(forms_stay) {
                        copy.body matches Body::Dictionary { stable: true, .. }
                    } else {
                        form_kept(copy, self.root(), self.found(at@), forms_stay)
                    }
                },
                Err(error) => self.copy_failure(at@, forms_stay) == Some(error@),
            },
        decreases self, 1nat,
    {
        proof {
            if self.at_home() {
                assert forall|j: int| 0 <= j < at@.len() implies #[trigger] self.copied_row(
                    at@,
                    forms_stay,
                    j,
                ) == self.datum(at@[j] as int) by {
                    self.law_a_copy_reads_as_its_rows(at@, forms_stay, j);
                }
            }
        }
        if forms_stay {
            if let Body::Dictionary { stable, .. } = &self.body {
                if *stable {
                    return self.stable_gathered(at);
                }
            }
        }
        let (found, leaf) = self.resolve(at);
        proof {
            self.lemma_resolved(at@, forms_stay);
            self.lemma_asked(at@);
        }
        match leaf.copied_leaf(found.as_slice(), forms_stay) {
            Ok(copy) => {
                assert forall|j: int| 0 <= j < at@.len() implies #[trigger] copy.datum(j)
                    == self.copied_row(at@, forms_stay, j) by {
                    assert(copy.datum(j) == leaf.leaf_row(found@, forms_stay, j));
                    assert(self.leaf_row(at@, forms_stay, j) == leaf.leaf_row(
                        found@,
                        forms_stay,
                        j,
                    ));
                }
                Ok(copy)
            },
            Err(error) => Err(error),
        }
    }

    /// The copy of rows of a body that points nowhere else.
    fn copied_leaf(&self, at: &[usize], forms_stay: bool) -> (copy: Result<Vector, Error>)
        requires
            self.wf(),
            !self.points_elsewhere(),
            live_in(*self, at@) == at@,
        ensures
            match copy {
                Ok(copy) => {
                    &&& self.leaf_failure(at@, forms_stay) is None
                    &&& holds_leaf(copy, *self, at@, forms_stay)
                    &&& !(copy.body is Runs)
                    &&& !forms_stay ==> copy.written_out()
                    &&& form_kept(copy, *self, at@, forms_stay)
                },
                Err(error) => self.leaf_failure(at@, forms_stay) == Some(error@),
            },
        decreases self, 0nat,
    {
        assert forall|j: int| 0 <= j < at@.len() implies (#[trigger] at@[j]) == NOWHERE || (at@[j]
            < self.len && self.validity.valid(at@[j] as int)) by {
            assert(live_in(*self, at@)[j] == at@[j]);
        }
        proof {
            if self.body is Views {
                self.lemma_written(at@, 0);
            }
        }
        let rows: usize = at.len();
        let validity = live_positions(at);
        match &self.body {
            Body::Constant(value) => self.copied_constant(value, at, forms_stay),
            Body::Sequence { start, step } => {
                let mut values: Vec<i64> = Vec::new();
                let mut row: usize = 0;
                while row < rows
                    invariant
                        row <= rows,
                        rows == at@.len(),
                        values@.len() == row,
                        forall|j: int|
                            0 <= j < row && at@[j] != NOWHERE ==> #[trigger] values@[j]
                                == super::sequence_at(*start, *step, at@[j] as int),
                    decreases rows - row,
                {
                    values.push(
                        if at[row] == NOWHERE {
                            0
                        } else {
                            sequence_value(*start, *step, at[row])
                        },
                    );
                    row += 1;
                }
                let copy = Vector {
                    ty: self.ty.dup(),
                    len: rows,
                    validity,
                    body: Body::Flat(Arc::new(Data::Int64(values))),
                };
                assert forall|j: int| 0 <= j < rows implies #[trigger] copy.datum(j) == self.datum(
                    at@[j] as int,
                ) by {
                    assert(validity.valid(j) == (at@[j] != NOWHERE));
                }
                Ok(copy)
            },
            Body::Flat(data) => {
                if let Data::Empty = &**data {
                    let copy = Vector::constant(self.ty.dup(), Value::Null, rows);
                    return Ok(copy);
                }
                let held: usize = data.len();
                let copy = Vector {
                    ty: self.ty.dup(),
                    len: rows,
                    validity,
                    body: Body::Flat(Arc::new(copy_of(data, at))),
                };
                assert forall|j: int| 0 <= j < rows implies #[trigger] copy.datum(j) == self.datum(
                    at@[j] as int,
                ) by {
                    assert(validity.valid(j) == (at@[j] != NOWHERE));
                }
                Ok(copy)
            },
            Body::Packed { words, width, base, offset } => {
                match unpack(&self.ty, words.as_slice(), *offset, *width, *base, at) {
                    Ok(data) => {
                        let copy = Vector {
                            ty: self.ty.dup(),
                            len: rows,
                            validity,
                            body: Body::Flat(Arc::new(data)),
                        };
                        assert forall|j: int| 0 <= j < rows implies #[trigger] copy.datum(j)
                            == self.datum(at@[j] as int) by {
                            assert(validity.valid(j) == (at@[j] != NOWHERE));
                        }
                        Ok(copy)
                    },
                    Err(error) => Err(error),
                }
            },
            Body::Views { views, arena } => {
                if forms_stay {
                    let mut kept: Vec<StringView> = Vec::new();
                    let mut row: usize = 0;
                    while row < rows
                        invariant
                            row <= rows,
                            rows == at@.len(),
                            kept@.len() == row,
                            views@.len() == self.len,
                            forall|i: int|
                                0 <= i < views@.len() ==> (#[trigger] views@[i]).seen_in(
                                    arena@,
                                ) is Some,
                            forall|j: int|
                                0 <= j < row ==> (#[trigger] kept@[j]).seen_in(arena@) is Some,
                            forall|j: int|
                                0 <= j < row && at@[j] < self.len ==> #[trigger] kept@[j]
                                    == views@[at@[j] as int],
                        decreases rows - row,
                    {
                        kept.push(
                            if at[row] < views.len() {
                                assert(views@[at@[row as int] as int].seen_in(arena@) is Some);
                                views[at[row]]
                            } else {
                                StringView::empty()
                            },
                        );
                        assert(kept@[row as int].seen_in(arena@) is Some);
                        row += 1;
                    }
                    let copy = Vector {
                        ty: self.ty.dup(),
                        len: rows,
                        validity,
                        body: Body::Views { views: Arc::new(kept), arena: arena.clone() },
                    };
                    assert forall|j: int| 0 <= j < rows implies #[trigger] copy.datum(j)
                        == self.datum(at@[j] as int) by {
                        assert(validity.valid(j) == (at@[j] != NOWHERE));
                    }
                    Ok(copy)
                } else {
                    self.copied_text(at, validity)
                }
            },
            Body::ExternalText { .. } => self.copied_text(at, validity),
            Body::Coded { stream, spans, table } => {
                if forms_stay {
                    let mut kept: Vec<(u32, u32)> = Vec::new();
                    let mut row: usize = 0;
                    while row < rows
                        invariant
                            row <= rows,
                            rows == at@.len(),
                            kept@.len() == row,
                            spans@.len() == self.len,
                            forall|i: int|
                                0 <= i < spans@.len() ==> span_in(
                                    stream@,
                                    #[trigger] spans@[i],
                                ) is Some,
                            forall|j: int|
                                0 <= j < row ==> span_in(stream@, #[trigger] kept@[j]) is Some,
                            forall|j: int|
                                0 <= j < row && at@[j] < self.len ==> #[trigger] kept@[j]
                                    == spans@[at@[j] as int],
                        decreases rows - row,
                    {
                        kept.push(
                            if at[row] < spans.len() {
                                spans[at[row]]
                            } else {
                                (0, 0)
                            },
                        );
                        row += 1;
                    }
                    let copy = Vector {
                        ty: self.ty.dup(),
                        len: rows,
                        validity,
                        body: Body::Coded {
                            stream: stream.clone(),
                            spans: Arc::new(kept),
                            table: table.clone(),
                        },
                    };
                    assert forall|j: int| 0 <= j < rows implies #[trigger] copy.datum(j)
                        == self.datum(at@[j] as int) by {
                        assert(validity.valid(j) == (at@[j] != NOWHERE));
                        if at@[j] != NOWHERE {
                            assert(copy.decompressed(j) == self.decompressed(at@[j] as int));
                        }
                    }
                    Ok(copy)
                } else {
                    self.copied_text(at, validity)
                }
            },
            Body::Nested { entries, child } => {
                let mut kept: Vec<(u32, u32)> = Vec::new();
                let mut row: usize = 0;
                while row < rows
                    invariant
                        row <= rows,
                        rows == at@.len(),
                        kept@.len() == row,
                        entries@.len() == self.len,
                        forall|i: int|
                            0 <= i < entries@.len() ==> (#[trigger] entries@[i]).0 + entries@[i].1
                                <= child.len,
                        forall|j: int|
                            0 <= j < row ==> (#[trigger] kept@[j]).0 + kept@[j].1 <= child.len,
                        forall|j: int|
                            0 <= j < row && at@[j] < self.len ==> #[trigger] kept@[j]
                                == entries@[at@[j] as int],
                    decreases rows - row,
                {
                    kept.push(
                        if at[row] < entries.len() {
                            entries[at[row]]
                        } else {
                            (0, 0)
                        },
                    );
                    row += 1;
                }
                let copy = Vector {
                    ty: self.ty.dup(),
                    len: rows,
                    validity,
                    body: Body::Nested { entries: Arc::new(kept), child: child.clone() },
                };
                assert forall|j: int| 0 <= j < rows implies #[trigger] copy.datum(j) == self.datum(
                    at@[j] as int,
                ) by {
                    assert(validity.valid(j) == (at@[j] != NOWHERE));
                }
                Ok(copy)
            },
            Body::Fields { children } => {
                let mut kept: Vec<Arc<Vector>> = Vec::new();
                let mut f: usize = 0;
                while f < children.len()
                    invariant
                        f <= children@.len(),
                        kept@.len() == f,
                        self.body == (Body::Fields { children: *children }),
                        live_in(*self, at@) == at@,
                        forall|i: int| 0 <= i < children@.len() ==> (#[trigger] children@[i]).wf(),
                        self.children_failure(at@, forms_stay, 0) == self.children_failure(
                            at@,
                            forms_stay,
                            f as nat,
                        ),
                        forall|i: int|
                            0 <= i < f ==> holds_copy(
                                *(#[trigger] kept@[i]),
                                *children@[i],
                                at@,
                                forms_stay,
                            ) && (!forms_stay ==> kept@[i].written_out()),
                    decreases children.len() - f,
                {
                    assert(decreases_to!(*self => self.body->Fields_children@[f as int]));
                    let ghost child = children@[f as int];
                    match children[f].copied(at, forms_stay) {
                        Ok(copy) => {
                            assert(holds_copy(copy, *child, at@, forms_stay));
                            kept.push(Arc::new(copy));
                            assert(*kept@[f as int] == copy);
                        },
                        Err(error) => return Err(error),
                    }
                    f += 1;
                }
                let copy = Vector {
                    ty: self.ty.dup(),
                    len: rows,
                    validity,
                    body: Body::Fields { children: Arc::new(kept) },
                };
                assert forall|i: int| 0 <= i < kept@.len() implies (#[trigger] kept@[i]).wf()
                    && kept@[i].len == rows && kept@[i].ty == children@[i].ty by {
                    assert(holds_copy(*kept@[i], *children@[i], at@, forms_stay));
                }
                assert(copy.wf());
                assert forall|j: int| 0 <= j < rows implies #[trigger] copy.datum(j)
                    == self.leaf_row(at@, forms_stay, j) by {
                    assert(validity.valid(j) == (at@[j] != NOWHERE));
                    if at@[j] != NOWHERE {
                        let got = copy.datum(j)->Struct_0;
                        let want = self.leaf_row(at@, forms_stay, j)->Struct_0;
                        assert forall|i: int| 0 <= i < got.len() implies got[i] == want[i] by {
                            assert(holds_copy(*kept@[i], *children@[i], at@, forms_stay));
                            assert(kept@[i].datum(j) == children@[i].copied_row(
                                at@,
                                forms_stay,
                                j,
                            ));
                        }
                        assert(got =~= want);
                    }
                }
                Ok(copy)
            },
            _ => Err(Error::internal("a form that points somewhere survived being resolved")),
        }
    }

    /// The rows of a repeated value: the value again where forms stay and no row is nowhere, and
    /// otherwise built as a column of single values is.
    fn copied_constant(&self, value: &Arc<Value>, at: &[usize], forms_stay: bool) -> (copy: Result<
        Vector,
        Error,
    >)
        requires
            self.wf(),
            self.body == Body::Constant(*value),
            live_in(*self, at@) == at@,
        ensures
            match copy {
                Ok(copy) => {
                    &&& self.leaf_failure(at@, forms_stay) is None
                    &&& holds_leaf(copy, *self, at@, forms_stay)
                    &&& !(copy.body is Runs)
                    &&& !forms_stay ==> copy.written_out()
                    &&& form_kept(copy, *self, at@, forms_stay)
                },
                Err(error) => self.leaf_failure(at@, forms_stay) == Some(error@),
            },
    {
        let rows: usize = at.len();
        let mut whole: bool = true;
        let mut values: Vec<Value> = Vec::new();
        let mut row: usize = 0;
        while row < rows
            invariant
                row <= rows,
                rows == at@.len(),
                values@.len() == row,
                whole <==> forall|j: int| 0 <= j < row ==> (#[trigger] at@[j]) != NOWHERE,
                forall|j: int|
                    0 <= j < row ==> (#[trigger] values@[j]).datum() == if at@[j] == NOWHERE {
                        Datum::Null
                    } else {
                        value.datum()
                    },
            decreases rows - row,
        {
            if at[row] == NOWHERE {
                assert(!(at@[row as int] != NOWHERE));
                whole = false;
                values.push(Value::Null);
            } else {
                values.push(value.dup());
            }
            row += 1;
        }
        if forms_stay && whole {
            let copy = Vector::constant(self.ty.dup(), value.dup(), rows);
            assert forall|j: int| 0 <= j < rows implies #[trigger] copy.datum(j) == self.leaf_row(
                at@,
                forms_stay,
                j,
            ) by {
                assert(at@[j] != NOWHERE);
            }
            return Ok(copy);
        }
        assert(datums(values@) =~= self.repeated(at@));
        match Vector::from_values(self.ty.dup(), values.as_slice()) {
            Ok(copy) => {
                assert forall|j: int| 0 <= j < rows implies #[trigger] copy.datum(j)
                    == self.leaf_row(at@, forms_stay, j) by {
                    assert(copy.datum(j) == restored(self.ty, values@[j].datum()));
                }
                Ok(copy)
            },
            Err(error) => Err(error),
        }
    }

    /// The rows of a text form written out as a flat string column.
    fn copied_text(&self, at: &[usize], validity: Validity) -> (copy: Result<Vector, Error>)
        requires
            self.wf(),
            self.body is Views || self.body is ExternalText || self.body is Coded,
            forall|j: int|
                0 <= j < at@.len() ==> (#[trigger] at@[j]) == NOWHERE || (at@[j] < self.len
                    && self.validity.valid(at@[j] as int)),
            forall|j: int|
                0 <= j < at@.len() ==> #[trigger] validity.valid(j) == (at@[j] != NOWHERE),
        ensures
            match copy {
                Ok(copy) => {
                    &&& self.first_unwritten(at@, 0) is None
                    &&& holds_rows(copy, *self, at@)
                    &&& laid_out(copy)
                },
                Err(error) => self.first_unwritten(at@, 0) == Some(error@),
            },
    {
        let rows: usize = at.len();
        let mut out = StringColumn::new();
        let mut row: usize = 0;
        while row < rows
            invariant
                row <= rows,
                rows == at@.len(),
                self.wf(),
                self.body is Views || self.body is ExternalText || self.body is Coded,
                forall|j: int|
                    0 <= j < at@.len() ==> (#[trigger] at@[j]) == NOWHERE || (at@[j] < self.len
                        && self.validity.valid(at@[j] as int)),
                out.wf(),
                out.views@.len() == row,
                self.first_unwritten(at@, 0) == self.first_unwritten(at@, row as nat),
                forall|j: int|
                    0 <= j < row && at@[j] != NOWHERE ==> self.datum(at@[j] as int) == bytes_datum(
                        self.ty,
                        #[trigger] out.row(j),
                    ),
            decreases rows - row,
        {
            let slot: usize = at[row];
            let ghost before = out;
            if slot == NOWHERE {
                let none: Vec<u8> = Vec::new();
                out.push_bytes(none.as_slice());
            } else {
                assert(at@[row as int] < self.len);
                match &self.body {
                    Body::Views { views, arena } => {
                        assert(views@[slot as int].seen_in(arena@) is Some);
                        if let Some(bytes) = views[slot].bytes_in(arena.as_slice()) {
                            out.push_bytes(bytes);
                        }
                    },
                    Body::ExternalText { text } => match text.bytes_at(slot) {
                        Ok(Some(bytes)) => out.push_bytes(bytes),
                        Ok(None) => {},
                        Err(error) => return Err(error),
                    },
                    Body::Coded { stream, spans, table } => {
                        assert(span_in(stream@, spans@[slot as int]) is Some);
                        if let Some(part) = codes_of(stream.as_slice(), spans[slot]) {
                            let mut scratch: Vec<u8> = Vec::new();
                            match table.decompress(part, &mut scratch) {
                                Ok(()) => {
                                    assert(scratch@ =~= self.decompressed(slot as int)->Some_0);
                                    out.push_bytes(scratch.as_slice());
                                },
                                Err(error) => {
                                    assert(self.decompressed(slot as int) is None);
                                    return Err(error);
                                },
                            }
                        }
                    },
                    _ => {},
                }
            }
            assert(out.views@.len() == row + 1);
            assert forall|j: int| 0 <= j < row + 1 && at@[j] != NOWHERE implies self.datum(
                at@[j] as int,
            ) == bytes_datum(self.ty, #[trigger] out.row(j)) by {
                if j < row {
                    assert(out.row(j) == before.row(j));
                }
            }
            row += 1;
        }
        let copy = Vector {
            ty: self.ty.dup(),
            len: rows,
            validity,
            body: Body::Flat(Arc::new(Data::Varlen(out))),
        };
        assert forall|j: int| 0 <= j < rows implies #[trigger] copy.datum(j) == self.datum(
            at@[j] as int,
        ) by {
            assert(validity.valid(j) == (at@[j] != NOWHERE));
            if at@[j] != NOWHERE {
                assert(self.datum(at@[j] as int) == bytes_datum(self.ty, out.row(j)));
            }
        }
        Ok(copy)
    }
}

/// Which positions are somewhere.
fn live_positions(at: &[usize]) -> (validity: Validity)
    ensures
        forall|j: int|
            0 <= j < at@.len() ==> #[trigger] validity.valid(j) == (at@[j] != NOWHERE),
        validity is AllValid <==> forall|j: int|
            0 <= j < at@.len() ==> (#[trigger] at@[j]) != NOWHERE,
{
    let mut live: Vec<bool> = Vec::new();
    let mut row: usize = 0;
    while row < at.len()
        invariant
            row <= at@.len(),
            live@.len() == row,
            forall|j: int| 0 <= j < row ==> #[trigger] live@[j] == (at@[j] != NOWHERE),
        decreases at.len() - row,
    {
        live.push(at[row] != NOWHERE);
        row += 1;
    }
    let validity = Validity::from_run(live.as_slice());
    proof {
        if validity is AllValid {
            assert forall|j: int| 0 <= j < at@.len() implies (#[trigger] at@[j]) != NOWHERE by {
                assert(live@[j]);
            }
        }
        if forall|j: int| 0 <= j < at@.len() ==> (#[trigger] at@[j]) != NOWHERE {
            assert forall|j: int| 0 <= j < live@.len() implies #[trigger] live@[j] by {
                assert(at@[j] != NOWHERE);
            }
        }
    }
    validity
}

} // verus!
