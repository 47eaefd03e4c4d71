//! What an insert does with the rows whose key the table already holds.

use crate::types::{Datum, Value};
use crate::vector::datums;
use vstd::prelude::*;

verus! {

/// What becomes of a row an insert brings.
#[derive(Debug, Clone, Copy, PartialEq, Eq, Structural)]
pub enum Arrival {
    /// No row of the table has its key.
    New,
    /// The row of the table at that place has its key.
    Held(usize),
    /// An earlier row of the same insert has its key.
    Dropped,
}

/// What to do with a row whose key is held.
pub enum ConflictAction {
    /// The held row stays as it is.
    Nothing,
    /// Those columns of the held row take the new row's values.
    Replace(Vec<usize>),
    /// Those columns take the values worked out for the clash, one row of answers per clash in the
    /// order of the clashes. A row of answers ends in whether the update applies.
    Update { columns: Vec<usize>, answers: Vec<Vec<Value>> },
}

/// The rows of a table as values.
pub open spec fn table_of(rows: Seq<Vec<Value>>) -> Seq<Seq<Datum>> {
    Seq::new(rows.len(), |i: int| datums(rows[i]@))
}

/// The new rows among the first `count`, in order.
pub open spec fn added_of(new: Seq<Vec<Value>>, arrivals: Seq<Arrival>, count: nat) -> Seq<
    Seq<Datum>,
>
    decreases count,
{
    if count == 0 {
        seq![]
    } else {
        let before = added_of(new, arrivals, (count - 1) as nat);
        if arrivals[count - 1] is New {
            before.push(datums(new[count - 1]@))
        } else {
            before
        }
    }
}

/// The rows among the first `count` that clash, each as its place and the place of the row it
/// clashes with, in order.
pub open spec fn clashes_of(arrivals: Seq<Arrival>, count: nat) -> Seq<(int, int)>
    decreases count,
{
    if count == 0 {
        seq![]
    } else {
        let before = clashes_of(arrivals, (count - 1) as nat);
        match arrivals[count - 1] {
            Arrival::Held(at) => before.push((count - 1, at as int)),
            _ => before,
        }
    }
}

/// A row with the named columns taken from another.
pub open spec fn overlaid(row: Seq<Datum>, from: Seq<Datum>, columns: Seq<usize>) -> Seq<Datum> {
    Seq::new(
        row.len(),
        |c: int|
            if columns.contains(c as usize) {
                from[c]
            } else {
                row[c]
            },
    )
}

/// The held rows after the first `count` clashes have each replaced those columns.
pub open spec fn replaced(
    held: Seq<Seq<Datum>>,
    new: Seq<Seq<Datum>>,
    clashes: Seq<(int, int)>,
    columns: Seq<usize>,
    count: nat,
) -> Seq<Seq<Datum>>
    decreases count,
{
    if count == 0 {
        held
    } else {
        let before = replaced(held, new, clashes, columns, (count - 1) as nat);
        let (row, at) = clashes[count - 1];
        before.update(at, overlaid(before[at], new[row], columns))
    }
}

/// A row with its first `count` named columns given the answers in turn.
pub open spec fn assigned(
    row: Seq<Datum>,
    answers: Seq<Datum>,
    columns: Seq<usize>,
    count: nat,
) -> Seq<Datum>
    decreases count,
{
    if count == 0 {
        row
    } else {
        assigned(row, answers, columns, (count - 1) as nat).update(
            columns[count - 1] as int,
            answers[count - 1],
        )
    }
}

/// Whether an update applies, by the last of its answers.
pub open spec fn applies(answers: Seq<Datum>) -> bool {
    answers.len() > 0 && answers.last() == Datum::Boolean(true)
}

/// How many columns a row of answers can give values to.
pub open spec fn paired(answers: Seq<Datum>, columns: Seq<usize>) -> nat {
    if answers.len() < columns.len() {
        answers.len()
    } else {
        columns.len()
    }
}

/// The held rows, and the places that were updated, after the first `count` rows of answers.
pub open spec fn answered(
    held: Seq<Seq<Datum>>,
    clashes: Seq<(int, int)>,
    answers: Seq<Seq<Datum>>,
    columns: Seq<usize>,
    count: nat,
) -> (Seq<Seq<Datum>>, Seq<int>)
    decreases count,
{
    if count == 0 {
        (held, seq![])
    } else {
        let (before, places) = answered(held, clashes, answers, columns, (count - 1) as nat);
        let at = clashes[count - 1].1;
        let row = answers[count - 1];
        if applies(row) {
            (
                before.update(at, assigned(before[at], row, columns, paired(row, columns))),
                places.push(at),
            )
        } else {
            (before, places)
        }
    }
}

/// The held rows, and the places that were updated, after every clash.
pub open spec fn resolved(
    held: Seq<Seq<Datum>>,
    new: Seq<Seq<Datum>>,
    clashes: Seq<(int, int)>,
    action: ConflictAction,
) -> (Seq<Seq<Datum>>, Seq<int>) {
    match action {
        ConflictAction::Nothing => (held, seq![]),
        ConflictAction::Replace(columns) => (
            replaced(held, new, clashes, columns@, clashes.len()),
            Seq::new(clashes.len(), |k: int| clashes[k].1),
        ),
        ConflictAction::Update { columns, answers } => answered(
            held,
            clashes,
            table_of(answers@),
            columns@,
            if answers@.len() < clashes.len() {
                answers@.len()
            } else {
                clashes.len()
            },
        ),
    }
}

/// Whether every place and every column an upsert names is there.
pub open spec fn names_what_is_there(
    held: Seq<Vec<Value>>,
    new: Seq<Vec<Value>>,
    arrivals: Seq<Arrival>,
    action: ConflictAction,
) -> bool {
    &&& arrivals.len() == new.len()
    &&& forall|i: int|
        0 <= i < arrivals.len() ==> (#[trigger] arrivals[i] matches Arrival::Held(at) ==> at
            < held.len())
    &&& match action {
        ConflictAction::Nothing => true,
        ConflictAction::Replace(columns) => columns_fit(columns@, held) && columns_fit(
            columns@,
            new,
        ),
        ConflictAction::Update { columns, .. } => columns_fit(columns@, held),
    }
}

/// Whether every row has every named column.
pub open spec fn columns_fit(columns: Seq<usize>, rows: Seq<Vec<Value>>) -> bool {
    forall|i: int, c: int|
        0 <= i < rows.len() && 0 <= c < columns.len() ==> (#[trigger] columns[c]) < (
        #[trigger] rows[i])@.len()
}

/// What an upsert leaves: the held rows as they are now, the places updated, and the rows added.
pub struct Upserted {
    pub held: Vec<Vec<Value>>,
    pub updated: Vec<usize>,
    pub added: Vec<Vec<Value>>,
}

/// How the table takes what an upsert leaves.
pub enum Stored {
    /// Nothing it held changed, so the added rows go on the end.
    Append(Vec<Vec<Value>>),
    /// All its rows as they are now.
    Replace(Vec<Vec<Value>>),
}

/// Places as numbers.
pub open spec fn places(at: Seq<usize>) -> Seq<int> {
    Seq::new(at.len(), |k: int| at[k] as int)
}

fn copy_row(row: &Vec<Value>) -> (copy: Vec<Value>)
    ensures
        datums(copy@) == datums(row@),
        copy@.len() == row@.len(),
{
    let mut copy: Vec<Value> = Vec::new();
    let mut at: usize = 0;
    while at < row.len()
        invariant
            at <= row@.len(),
            copy@.len() == at,
            forall|i: int| 0 <= i < at ==> (#[trigger] copy@[i]).datum() == row@[i].datum(),
        decreases row.len() - at,
    {
        copy.push(row[at].dup());
        at += 1;
    }
    assert(datums(copy@) =~= datums(row@));
    copy
}

fn copy_rows(rows: &Vec<Vec<Value>>) -> (copy: Vec<Vec<Value>>)
    ensures
        table_of(copy@) == table_of(rows@),
        copy@.len() == rows@.len(),
        forall|i: int| 0 <= i < rows@.len() ==> (#[trigger] copy@[i])@.len() == rows@[i]@.len(),
{
    let mut copy: Vec<Vec<Value>> = Vec::new();
    let mut at: usize = 0;
    while at < rows.len()
        invariant
            at <= rows@.len(),
            copy@.len() == at,
            forall|i: int|
                0 <= i < at ==> datums((#[trigger] copy@[i])@) == datums(rows@[i]@)
                    && copy@[i]@.len() == rows@[i]@.len(),
        decreases rows.len() - at,
    {
        copy.push(copy_row(&rows[at]));
        at += 1;
    }
    assert(table_of(copy@) =~= table_of(rows@));
    copy
}

/// A held row with the named columns taken from a new one.
fn overlay(row: &Vec<Value>, from: &Vec<Value>, columns: &Vec<usize>) -> (done: Vec<Value>)
    requires
        forall|c: int|
            0 <= c < columns@.len() ==> (#[trigger] columns@[c]) < row@.len() && columns@[c]
                < from@.len(),
    ensures
        datums(done@) == overlaid(datums(row@), datums(from@), columns@),
        done@.len() == row@.len(),
{
    let mut done = copy_row(row);
    let width: usize = row.len();
    let mut k: usize = 0;
    while k < columns.len()
        invariant
            width == row@.len(),
            k <= columns@.len(),
            forall|c: int|
                0 <= c < columns@.len() ==> (#[trigger] columns@[c]) < row@.len() && columns@[c]
                    < from@.len(),
            done@.len() == row@.len(),
            datums(done@) == overlaid(
                datums(row@),
                datums(from@),
                columns@.subrange(0, k as int),
            ),
        decreases columns.len() - k,
    {
        let ghost before = datums(done@);
        let ghost some = columns@.subrange(0, k as int);
        let ghost more = columns@.subrange(0, k + 1);
        let column = columns[k];
        done.set(column, from[column].dup());
        proof {
            assert(more =~= some.push(column));
            let now = datums(done@);
            let want = overlaid(datums(row@), datums(from@), more);
            assert forall|c: int| 0 <= c < now.len() implies now[c] == want[c] by {
                if c == column {
                    assert(more[k as int] == column);
                    assert(more.contains(c as usize));
                } else {
                    assert(now[c] == before[c]);
                    if some.contains(c as usize) {
                        let i = choose|i: int| 0 <= i < some.len() && some[i] == c as usize;
                        assert(more[i] == c as usize);
                    }
                    if more.contains(c as usize) {
                        let i = choose|i: int| 0 <= i < more.len() && more[i] == c as usize;
                        assert(some[i] == c as usize);
                    }
                }
            }
            assert(now =~= want);
        }
        k += 1;
    }
    assert(columns@.subrange(0, k as int) =~= columns@);
    done
}

/// A held row with the named columns given the answers in turn.
fn assign(row: &Vec<Value>, answers: &Vec<Value>, columns: &Vec<usize>) -> (done: Vec<Value>)
    requires
        forall|c: int| 0 <= c < columns@.len() ==> (#[trigger] columns@[c]) < row@.len(),
    ensures
        datums(done@) == assigned(
            datums(row@),
            datums(answers@),
            columns@,
            paired(datums(answers@), columns@),
        ),
        done@.len() == row@.len(),
{
    let mut done = copy_row(row);
    let mut k: usize = 0;
    while k < columns.len() && k < answers.len()
        invariant
            k <= columns@.len(),
            k <= answers@.len(),
            forall|c: int| 0 <= c < columns@.len() ==> (#[trigger] columns@[c]) < row@.len(),
            done@.len() == row@.len(),
            datums(done@) == assigned(datums(row@), datums(answers@), columns@, k as nat),
        decreases columns.len() - k,
    {
        let ghost before = done@;
        done.set(columns[k], answers[k].dup());
        assert(datums(done@) =~= datums(before).update(
            columns@[k as int] as int,
            datums(answers@)[k as int],
        ));
        k += 1;
    }
    done
}

/// Whether the last of some answers is true.
fn apply_wanted(answers: &Vec<Value>) -> (yes: bool)
    ensures
        yes == applies(datums(answers@)),
{
    if answers.len() == 0 {
        return false;
    }
    match &answers[answers.len() - 1] {
        Value::Boolean(value) => *value,
        _ => false,
    }
}

proof fn lemma_clash_places(held: int, arrivals: Seq<Arrival>, count: nat)
    requires
        count <= arrivals.len(),
        forall|i: int|
            0 <= i < arrivals.len() ==> (#[trigger] arrivals[i] matches Arrival::Held(at) ==> at
                < held),
    ensures
        clashes_of(arrivals, count).len() <= count,
        forall|k: int|
            0 <= k < clashes_of(arrivals, count).len() ==> 0 <= (#[trigger] clashes_of(
                arrivals,
                count,
            )[k]).0 < count && 0 <= clashes_of(arrivals, count)[k].1 < held,
    decreases count,
{
    if count > 0 {
        lemma_clash_places(held, arrivals, (count - 1) as nat);
    }
}

/// The rows added, and the clashes as the place of the new row and the place of the held one.
fn sorted_out(new: &Vec<Vec<Value>>, arrivals: &Vec<Arrival>) -> (parts: (
    Vec<Vec<Value>>,
    Vec<(usize, usize)>,
))
    requires
        new@.len() == arrivals@.len(),
    ensures
        table_of(parts.0@) == added_of(new@, arrivals@, new@.len()),
        parts.0@.len() + parts.1@.len() <= new@.len(),
        parts.1@.len() == clashes_of(arrivals@, new@.len()).len(),
        forall|k: int|
            0 <= k < parts.1@.len() ==> clashes_of(arrivals@, new@.len())[k] == (
                (#[trigger] parts.1@[k]).0 as int,
                parts.1@[k].1 as int,
            ),
{
    let mut added: Vec<Vec<Value>> = Vec::new();
    let mut clashes: Vec<(usize, usize)> = Vec::new();
    let mut at: usize = 0;
    assert(table_of(added@) =~= seq![]);
    while at < new.len()
        invariant
            at <= new@.len() == arrivals@.len(),
            table_of(added@) == added_of(new@, arrivals@, at as nat),
            added@.len() + clashes@.len() <= at,
            clashes@.len() == clashes_of(arrivals@, at as nat).len(),
            forall|k: int|
                0 <= k < clashes@.len() ==> clashes_of(arrivals@, at as nat)[k] == (
                    (#[trigger] clashes@[k]).0 as int,
                    clashes@[k].1 as int,
                ),
        decreases new.len() - at,
    {
        match arrivals[at] {
            Arrival::New => {
                let ghost before = added@;
                added.push(copy_row(&new[at]));
                assert(table_of(added@) =~= table_of(before).push(datums(new@[at as int]@)));
            },
            Arrival::Held(place) => clashes.push((at, place)),
            Arrival::Dropped => {},
        }
        at += 1;
    }
    (added, clashes)
}

/// Merges the rows of an insert into the rows a table holds, as its conflict clause says.
pub fn upsert(
    held: &Vec<Vec<Value>>,
    new: &Vec<Vec<Value>>,
    arrivals: &Vec<Arrival>,
    action: &ConflictAction,
) -> (after: Upserted)
    requires
        names_what_is_there(held@, new@, arrivals@, *action),
    ensures
        table_of(after.added@) == added_of(new@, arrivals@, new@.len()),
        (table_of(after.held@), places(after.updated@)) == resolved(
            table_of(held@),
            table_of(new@),
            clashes_of(arrivals@, new@.len()),
            *action,
        ),
        after.wf(),
        after.updated@.len() + after.added@.len() <= new@.len(),
{
    let (added, clashes) = sorted_out(new, arrivals);
    let ghost pairs = clashes_of(arrivals@, new@.len());
    proof {
        lemma_clash_places(held@.len() as int, arrivals@, new@.len());
    }
    let mut rows = copy_rows(held);
    let mut updated: Vec<usize> = Vec::new();
    let mut k: usize = 0;
    match action {
        ConflictAction::Nothing => {
            assert(places(updated@) =~= seq![]);
        },
        ConflictAction::Replace(columns) => {
            while k < clashes.len()
                invariant
                    k <= clashes@.len(),
                    columns_fit(columns@, held@),
                    columns_fit(columns@, new@),
                    pairs.len() == clashes@.len(),
                    forall|k: int|
                        0 <= k < clashes@.len() ==> #[trigger] pairs[k] == (
                            clashes@[k].0 as int,
                            clashes@[k].1 as int,
                        ),
                    forall|k: int|
                        0 <= k < pairs.len() ==> 0 <= (#[trigger] pairs[k]).0 < new@.len() && 0
                            <= pairs[k].1 < held@.len(),
                    rows@.len() == held@.len(),
                    forall|i: int|
                        0 <= i < rows@.len() ==> (#[trigger] rows@[i])@.len() == held@[i]@.len(),
                    table_of(rows@) == replaced(
                        table_of(held@),
                        table_of(new@),
                        pairs,
                        columns@,
                        k as nat,
                    ),
                    updated@.len() == k,
                    forall|j: int| 0 <= j < k ==> #[trigger] updated@[j] == pairs[j].1,
                decreases clashes.len() - k,
            {
                let (row, at) = clashes[k];
                assert(pairs[k as int] == (row as int, at as int));
                let ghost before = rows@;
                assert forall|c: int| 0 <= c < columns@.len() implies (#[trigger] columns@[c])
                    < rows@[at as int]@.len() && columns@[c] < new@[row as int]@.len() by {
                    assert(columns@[c] < held@[at as int]@.len());
                    assert(columns@[c] < new@[row as int]@.len());
                }
                let done = overlay(&rows[at], &new[row], columns);
                rows.set(at, done);
                assert(table_of(rows@) =~= table_of(before).update(at as int, datums(done@)));
                updated.push(at);
                k += 1;
            }
            assert(places(updated@) =~= Seq::new(pairs.len(), |k: int| pairs[k].1));
        },
        ConflictAction::Update { columns, answers } => {
            assert(places(updated@) =~= seq![]);
            while k < clashes.len() && k < answers.len()
                invariant
                    k <= clashes@.len(),
                    k <= answers@.len(),
                    columns_fit(columns@, held@),
                    pairs.len() == clashes@.len(),
                    forall|k: int|
                        0 <= k < clashes@.len() ==> #[trigger] pairs[k] == (
                            clashes@[k].0 as int,
                            clashes@[k].1 as int,
                        ),
                    forall|k: int|
                        0 <= k < pairs.len() ==> 0 <= (#[trigger] pairs[k]).0 < new@.len() && 0
                            <= pairs[k].1 < held@.len(),
                    rows@.len() == held@.len(),
                    forall|i: int|
                        0 <= i < rows@.len() ==> (#[trigger] rows@[i])@.len() == held@[i]@.len(),
                    (table_of(rows@), places(updated@)) == answered(
                        table_of(held@),
                        pairs,
                        table_of(answers@),
                        columns@,
                        k as nat,
                    ),
                    updated@.len() <= k,
                    forall|j: int| 0 <= j < updated@.len() ==> #[trigger] updated@[j] < rows@.len(),
                decreases clashes.len() - k,
            {
                let (row, at) = clashes[k];
                assert(pairs[k as int] == (row as int, at as int));
                assert(table_of(answers@)[k as int] == datums(answers@[k as int]@));
                if apply_wanted(&answers[k]) {
                    let ghost before = rows@;
                    let ghost marked = updated@;
                    assert forall|c: int| 0 <= c < columns@.len() implies (#[trigger] columns@[c])
                        < rows@[at as int]@.len() by {
                        assert(columns@[c] < held@[at as int]@.len());
                    }
                    let done = assign(&rows[at], &answers[k], columns);
                    rows.set(at, done);
                    assert(table_of(rows@) =~= table_of(before).update(at as int, datums(done@)));
                    updated.push(at);
                    assert(places(updated@) =~= places(marked).push(at as int));
                }
                k += 1;
            }
        },
    }
    Upserted { held: rows, updated, added }
}

impl Upserted {
    pub open spec fn wf(&self) -> bool {
        forall|k: int| 0 <= k < self.updated@.len() ==> #[trigger] self.updated@[k] < self.held@.len()
    }

    /// The rows it wrote as they are now, the updated ones first.
    pub open spec fn written_rows(&self) -> Seq<Seq<Datum>> {
        Seq::new(self.updated@.len(), |k: int| table_of(self.held@)[self.updated@[k] as int])
            + table_of(self.added@)
    }

    /// How many rows it inserted or updated.
    pub fn count(&self) -> (count: usize)
        requires
            self.updated@.len() + self.added@.len() <= usize::MAX,
        ensures
            count == self.written_rows().len(),
    {
        self.updated.len() + self.added.len()
    }

    /// The rows it inserted or updated, the updated ones first.
    pub fn written(&self) -> (rows: Vec<Vec<Value>>)
        requires
            self.wf(),
        ensures
            table_of(rows@) == self.written_rows(),
    {
        let mut rows: Vec<Vec<Value>> = Vec::new();
        let mut at: usize = 0;
        while at < self.updated.len()
            invariant
                at <= self.updated@.len(),
                self.wf(),
                rows@.len() == at,
                forall|k: int|
                    0 <= k < at ==> datums((#[trigger] rows@[k])@) == datums(
                        self.held@[self.updated@[k] as int]@,
                    ),
            decreases self.updated.len() - at,
        {
            assert(self.updated@[at as int] < self.held@.len());
            rows.push(copy_row(&self.held[self.updated[at]]));
            at += 1;
        }
        let ghost first = rows@;
        let mut at: usize = 0;
        while at < self.added.len()
            invariant
                at <= self.added@.len(),
                rows@.len() == first.len() + at,
                forall|k: int| 0 <= k < first.len() ==> #[trigger] rows@[k] == first[k],
                forall|k: int|
                    0 <= k < at ==> datums((#[trigger] rows@[first.len() + k])@) == datums(
                        self.added@[k]@,
                    ),
            decreases self.added.len() - at,
        {
            let ghost before = rows@;
            rows.push(copy_row(&self.added[at]));
            assert forall|k: int| 0 <= k < at + 1 implies datums(
                (#[trigger] rows@[first.len() + k])@,
            ) == datums(self.added@[k]@) by {
                if k < at {
                    assert(rows@[first.len() + k] == before[first.len() + k]);
                }
            }
            at += 1;
        }
        proof {
            let left = table_of(rows@);
            let right = self.written_rows();
            assert forall|k: int| 0 <= k < left.len() implies left[k] == right[k] by {
                if k < first.len() {
                    assert(rows@[k] == first[k]);
                } else {
                    let j = k - first.len();
                    assert(datums(rows@[first.len() + j]@) == datums(self.added@[j]@));
                }
            }
            assert(left =~= right);
        }
        rows
    }

    /// How the table takes it: on the end while no held row changed, and whole otherwise.
    pub fn stored(&self) -> (stored: Stored)
        ensures
            match stored {
                Stored::Append(rows) => self.updated@.len() == 0 && table_of(rows@) == table_of(
                    self.added@,
                ),
                Stored::Replace(rows) => self.updated@.len() > 0 && table_of(rows@) == table_of(
                    self.held@,
                ) + table_of(self.added@),
            },
    {
        if self.updated.len() == 0 {
            return Stored::Append(copy_rows(&self.added));
        }
        let mut rows = copy_rows(&self.held);
        assert(table_of(rows@) =~= table_of(self.held@) + table_of(self.added@).subrange(0, 0));
        let mut at: usize = 0;
        while at < self.added.len()
            invariant
                at <= self.added@.len(),
                table_of(rows@) == table_of(self.held@) + table_of(self.added@).subrange(
                    0,
                    at as int,
                ),
            decreases self.added.len() - at,
        {
            let ghost before = rows@;
            let row = copy_row(&self.added[at]);
            rows.push(row);
            assert(table_of(rows@) =~= table_of(before).push(datums(row@)));
            assert(table_of(self.added@).subrange(0, at + 1) =~= table_of(self.added@).subrange(
                0,
                at as int,
            ).push(datums(row@)));
            assert(table_of(rows@) =~= table_of(self.held@) + table_of(self.added@).subrange(
                0,
                at + 1,
            ));
            at += 1;
        }
        assert(table_of(self.added@).subrange(0, at as int) =~= table_of(self.added@));
        Stored::Replace(rows)
    }
}

/// A conflict clause that does nothing leaves every held row as it was.
pub proof fn law_do_nothing_keeps_the_table(
    held: Seq<Seq<Datum>>,
    new: Seq<Seq<Datum>>,
    clashes: Seq<(int, int)>,
)
    ensures
        resolved(held, new, clashes, ConflictAction::Nothing) == (held, Seq::<int>::empty()),
{
}

/// Whatever the conflict clause, a held row nothing clashed with stays as it was, and no held row
/// comes or goes.
pub proof fn law_rows_without_a_clash_stay(
    held: Seq<Seq<Datum>>,
    new: Seq<Seq<Datum>>,
    clashes: Seq<(int, int)>,
    action: ConflictAction,
    at: int,
)
    requires
        0 <= at < held.len(),
        forall|k: int| 0 <= k < clashes.len() ==> 0 <= (#[trigger] clashes[k]).1 < held.len(),
        forall|k: int| 0 <= k < clashes.len() ==> (#[trigger] clashes[k]).1 != at,
    ensures
        resolved(held, new, clashes, action).0.len() == held.len(),
        resolved(held, new, clashes, action).0[at] == held[at],
{
    match action {
        ConflictAction::Nothing => {},
        ConflictAction::Replace(columns) => {
            lemma_replaced_elsewhere(held, new, clashes, columns@, clashes.len(), at);
        },
        ConflictAction::Update { columns, answers } => {
            let count = if answers@.len() < clashes.len() {
                answers@.len()
            } else {
                clashes.len()
            };
            lemma_answered_elsewhere(held, clashes, table_of(answers@), columns@, count, at);
        },
    }
}

proof fn lemma_replaced_elsewhere(
    held: Seq<Seq<Datum>>,
    new: Seq<Seq<Datum>>,
    clashes: Seq<(int, int)>,
    columns: Seq<usize>,
    count: nat,
    at: int,
)
    requires
        count <= clashes.len(),
        0 <= at < held.len(),
        forall|k: int| 0 <= k < clashes.len() ==> 0 <= (#[trigger] clashes[k]).1 < held.len(),
        forall|k: int| 0 <= k < clashes.len() ==> (#[trigger] clashes[k]).1 != at,
    ensures
        replaced(held, new, clashes, columns, count).len() == held.len(),
        replaced(held, new, clashes, columns, count)[at] == held[at],
    decreases count,
{
    if count > 0 {
        lemma_replaced_elsewhere(held, new, clashes, columns, (count - 1) as nat, at);
        assert(clashes[count - 1].1 != at);
    }
}

proof fn lemma_answered_elsewhere(
    held: Seq<Seq<Datum>>,
    clashes: Seq<(int, int)>,
    answers: Seq<Seq<Datum>>,
    columns: Seq<usize>,
    count: nat,
    at: int,
)
    requires
        count <= clashes.len(),
        0 <= at < held.len(),
        forall|k: int| 0 <= k < clashes.len() ==> 0 <= (#[trigger] clashes[k]).1 < held.len(),
        forall|k: int| 0 <= k < clashes.len() ==> (#[trigger] clashes[k]).1 != at,
    ensures
        answered(held, clashes, answers, columns, count).0.len() == held.len(),
        answered(held, clashes, answers, columns, count).0[at] == held[at],
    decreases count,
{
    if count > 0 {
        lemma_answered_elsewhere(held, clashes, answers, columns, (count - 1) as nat, at);
        assert(clashes[count - 1].1 != at);
    }
}

/// Whether no column is named twice.
pub open spec fn each_once(columns: Seq<usize>) -> bool {
    forall|i: int, j: int| 0 <= i < j < columns.len() ==> columns[i] != columns[j]
}

/// A table read as values has the value of each cell in its place.
pub proof fn law_a_table_is_its_cells(rows: Seq<Vec<Value>>, row: int, column: int)
    requires
        0 <= row < rows.len(),
        0 <= column < rows[row]@.len(),
    ensures
        table_of(rows).len() == rows.len(),
        table_of(rows)[row].len() == rows[row]@.len(),
        table_of(rows)[row][column] == rows[row]@[column].datum(),
{
}

/// The clashes are the rows whose key is held, each once and in the order they arrived, with the
/// place of the row it clashes with.
pub proof fn law_every_clash_is_found(arrivals: Seq<Arrival>, count: nat)
    requires
        count <= arrivals.len(),
    ensures
        ({
            let clashes = clashes_of(arrivals, count);
            &&& forall|k: int|
                0 <= k < clashes.len() ==> 0 <= (#[trigger] clashes[k]).0 < count && (
                arrivals[clashes[k].0] matches Arrival::Held(at) && at == clashes[k].1)
            &&& forall|j: int, k: int|
                0 <= j < k < clashes.len() ==> (#[trigger] clashes[j]).0 < (#[trigger] clashes[k]).0
            &&& forall|i: int|
                0 <= i < count && (#[trigger] arrivals[i]) is Held ==> exists|k: int|
                    0 <= k < clashes.len() && (#[trigger] clashes[k]).0 == i
        }),
    decreases count,
{
    if count > 0 {
        let before = clashes_of(arrivals, (count - 1) as nat);
        let clashes = clashes_of(arrivals, count);
        law_every_clash_is_found(arrivals, (count - 1) as nat);
        assert forall|i: int| 0 <= i < count && (
        #[trigger] arrivals[i]) is Held implies exists|k: int|
            0 <= k < clashes.len() && (#[trigger] clashes[k]).0 == i by {
            if i < count - 1 {
                let k = choose|k: int| 0 <= k < before.len() && (#[trigger] before[k]).0 == i;
                assert(clashes[k].0 == i);
            } else {
                assert(clashes[clashes.len() - 1].0 == i);
            }
        }
    }
}

/// The rows added are the ones whose key is new, each once and in the order they arrived: where each
/// of them came from is what is handed back.
pub proof fn law_every_new_row_is_added(
    new: Seq<Vec<Value>>,
    arrivals: Seq<Arrival>,
    count: nat,
) -> (from: Seq<int>)
    requires
        count <= arrivals.len(),
        count <= new.len(),
    ensures
        from.len() == added_of(new, arrivals, count).len(),
        forall|k: int|
            0 <= k < from.len() ==> 0 <= (#[trigger] from[k]) < count && arrivals[from[k]] is New
                && added_of(new, arrivals, count)[k] == datums(new[from[k]]@),
        forall|j: int, k: int|
            0 <= j < k < from.len() ==> (#[trigger] from[j]) < (#[trigger] from[k]),
        forall|i: int|
            0 <= i < count && (#[trigger] arrivals[i]) is New ==> exists|k: int|
                0 <= k < from.len() && #[trigger] from[k] == i,
    decreases count,
{
    if count == 0 {
        Seq::empty()
    } else {
        let before = law_every_new_row_is_added(new, arrivals, (count - 1) as nat);
        if arrivals[count - 1] is New {
            let from = before.push(count - 1);
            assert forall|i: int| 0 <= i < count && (
            #[trigger] arrivals[i]) is New implies exists|k: int|
                0 <= k < from.len() && #[trigger] from[k] == i by {
                if i < count - 1 {
                    let k = choose|k: int| 0 <= k < before.len() && #[trigger] before[k] == i;
                    assert(from[k] == i);
                } else {
                    assert(from[from.len() - 1] == i);
                }
            }
            from
        } else {
            before
        }
    }
}

proof fn lemma_assigned(row: Seq<Datum>, answers: Seq<Datum>, columns: Seq<usize>, count: nat)
    requires
        count <= columns.len(),
        forall|j: int| 0 <= j < columns.len() ==> (#[trigger] columns[j]) < row.len(),
    ensures
        assigned(row, answers, columns, count).len() == row.len(),
        forall|c: int|
            0 <= c < row.len() && (forall|j: int|
                0 <= j < count ==> #[trigger] columns[j] != c) ==> #[trigger] assigned(
                row,
                answers,
                columns,
                count,
            )[c] == row[c],
        each_once(columns) ==> forall|j: int|
            0 <= j < count ==> assigned(row, answers, columns, count)[#[trigger] columns[j] as int]
                == answers[j],
    decreases count,
{
    if count > 0 {
        let before = assigned(row, answers, columns, (count - 1) as nat);
        let done = assigned(row, answers, columns, count);
        lemma_assigned(row, answers, columns, (count - 1) as nat);
        let last = columns[count - 1] as int;
        assert forall|c: int| 0 <= c < row.len() && (forall|j: int|
            0 <= j < count ==> #[trigger] columns[j] != c) implies #[trigger] done[c] == row[c] by {
            assert(columns[count - 1] != c);
            assert(before[c] == row[c]);
        }
        if each_once(columns) {
            assert forall|j: int| 0 <= j < count implies done[#[trigger] columns[j] as int]
                == answers[j] by {
                if j < count - 1 {
                    assert(columns[j] != columns[count - 1]);
                    assert(before[columns[j] as int] == answers[j]);
                }
            }
        }
    }
}

/// How many rows of answers are used.
spec fn used(answers: Seq<Seq<Datum>>, clashes: Seq<(int, int)>) -> nat {
    if answers.len() < clashes.len() {
        answers.len()
    } else {
        clashes.len()
    }
}

proof fn lemma_answered_row(
    held: Seq<Seq<Datum>>,
    clashes: Seq<(int, int)>,
    answers: Seq<Seq<Datum>>,
    columns: Seq<usize>,
    count: nat,
    at: int,
    k: int,
)
    requires
        count <= clashes.len(),
        count <= answers.len(),
        0 <= at < held.len(),
        forall|j: int| 0 <= j < columns.len() ==> (#[trigger] columns[j]) < held[at].len(),
        forall|m: int| 0 <= m < clashes.len() ==> 0 <= (#[trigger] clashes[m]).1 < held.len(),
        k < count,
        0 <= k < count ==> clashes[k].1 == at && answers[k].len() > 0 && answers[k].last()
            == Datum::Boolean(true),
        forall|m: int|
            k < m < count && 0 <= m ==> (#[trigger] clashes[m]).1 != at || answers[m].len() == 0
                || answers[m].last() != Datum::Boolean(true),
    ensures
        answered(held, clashes, answers, columns, count).0.len() == held.len(),
        answered(held, clashes, answers, columns, count).0[at].len() == held[at].len(),
        forall|c: int|
            0 <= c < held[at].len() && (forall|j: int|
                0 <= j < columns.len() ==> #[trigger] columns[j] != c) ==> #[trigger] answered(
                held,
                clashes,
                answers,
                columns,
                count,
            ).0[at][c] == held[at][c],
        k < 0 ==> answered(held, clashes, answers, columns, count).0[at] == held[at],
        0 <= k < count && each_once(columns) ==> forall|j: int|
            0 <= j < columns.len() && j < answers[k].len() ==> answered(
                held,
                clashes,
                answers,
                columns,
                count,
            ).0[at][#[trigger] columns[j] as int] == answers[k][j],
    decreases count,
{
    if count > 0 {
        let before = answered(held, clashes, answers, columns, (count - 1) as nat).0;
        let done = answered(held, clashes, answers, columns, count).0;
        let last = clashes[count - 1].1;
        let row = answers[count - 1];
        if k == count - 1 {
            // Whatever was there before, the last of the answers is what the named columns keep.
            lemma_answered_any(held, clashes, answers, columns, (count - 1) as nat, at);
            lemma_assigned(before[at], row, columns, paired(row, columns));
            assert(done[at] == assigned(before[at], row, columns, paired(row, columns)));
            assert forall|c: int| 0 <= c < held[at].len() && (forall|j: int|
                0 <= j < columns.len() ==> #[trigger] columns[j] != c) implies #[trigger] done[at][c]
                == held[at][c] by {
                assert(before[at][c] == held[at][c]);
                assert(assigned(before[at], row, columns, paired(row, columns))[c]
                    == before[at][c]);
            }
        } else {
            lemma_answered_row(held, clashes, answers, columns, (count - 1) as nat, at, k);
            assert(clashes[count - 1].1 != at || answers[count - 1].len() == 0
                || answers[count - 1].last() != Datum::Boolean(true));
            assert(done[at] == before[at]);
        }
    }
}

proof fn lemma_answered_any(
    held: Seq<Seq<Datum>>,
    clashes: Seq<(int, int)>,
    answers: Seq<Seq<Datum>>,
    columns: Seq<usize>,
    count: nat,
    at: int,
)
    requires
        count <= clashes.len(),
        count <= answers.len(),
        0 <= at < held.len(),
        forall|j: int| 0 <= j < columns.len() ==> (#[trigger] columns[j]) < held[at].len(),
        forall|m: int| 0 <= m < clashes.len() ==> 0 <= (#[trigger] clashes[m]).1 < held.len(),
    ensures
        answered(held, clashes, answers, columns, count).0.len() == held.len(),
        answered(held, clashes, answers, columns, count).0[at].len() == held[at].len(),
        forall|c: int|
            0 <= c < held[at].len() && (forall|j: int|
                0 <= j < columns.len() ==> #[trigger] columns[j] != c) ==> #[trigger] answered(
                held,
                clashes,
                answers,
                columns,
                count,
            ).0[at][c] == held[at][c],
    decreases count,
{
    if count > 0 {
        let before = answered(held, clashes, answers, columns, (count - 1) as nat).0;
        let done = answered(held, clashes, answers, columns, count).0;
        lemma_answered_any(held, clashes, answers, columns, (count - 1) as nat, at);
        let row = answers[count - 1];
        if clashes[count - 1].1 == at && applies(row) {
            lemma_assigned(before[at], row, columns, paired(row, columns));
            assert forall|c: int| 0 <= c < held[at].len() && (forall|j: int|
                0 <= j < columns.len() ==> #[trigger] columns[j] != c) implies #[trigger] done[at][c]
                == held[at][c] by {
                assert(before[at][c] == held[at][c]);
                assert(assigned(before[at], row, columns, paired(row, columns))[c]
                    == before[at][c]);
            }
        }
    }
}

/// Where an update applies, each named column of the row it clashed with takes the answer in that
/// column's own place, and every other column stays as it was. Of several that apply to one row the
/// last is what the row keeps.
pub proof fn law_each_column_takes_its_own_answer(
    held: Seq<Seq<Datum>>,
    new: Seq<Seq<Datum>>,
    clashes: Seq<(int, int)>,
    columns: Vec<usize>,
    answers: Vec<Vec<Value>>,
    k: int,
)
    requires
        0 <= k < clashes.len(),
        k < answers@.len(),
        forall|m: int| 0 <= m < clashes.len() ==> 0 <= (#[trigger] clashes[m]).1 < held.len(),
        forall|i: int, j: int| 0 <= i < j < columns@.len() ==> columns@[i] != columns@[j],
        forall|j: int|
            0 <= j < columns@.len() ==> (#[trigger] columns@[j]) < held[clashes[k].1].len(),
        answers@[k]@.len() > 0,
        answers@[k]@.last().datum() == Datum::Boolean(true),
        forall|m: int|
            k < m < clashes.len() && m < answers@.len() ==> (#[trigger] clashes[m]).1
                != clashes[k].1 || answers@[m]@.len() == 0 || answers@[m]@.last().datum()
                != Datum::Boolean(true),
    ensures
        ({
            let at = clashes[k].1;
            let row = resolved(
                held,
                new,
                clashes,
                ConflictAction::Update { columns, answers },
            ).0[at];
            &&& row.len() == held[at].len()
            &&& forall|j: int|
                0 <= j < columns@.len() && j < answers@[k]@.len() ==> row[#[trigger] columns@[j] as int]
                    == answers@[k]@[j].datum()
            &&& forall|c: int|
                0 <= c < row.len() && (forall|j: int|
                    0 <= j < columns@.len() ==> #[trigger] columns@[j] != c) ==> #[trigger] row[c]
                    == held[at][c]
        }),
{
    let rows = table_of(answers@);
    assert forall|m: int| k < m < used(rows, clashes) && 0 <= m implies (#[trigger] clashes[m]).1
        != clashes[k].1 || rows[m].len() == 0 || rows[m].last() != Datum::Boolean(true) by {
        assert(rows[m] == datums(answers@[m]@));
    }
    assert(rows[k] == datums(answers@[k]@));
    assert(each_once(columns@));
    lemma_answered_row(held, clashes, rows, columns@, used(rows, clashes), clashes[k].1, k);
}

/// A held row whose clashes were all told that their update does not apply stays as it was.
pub proof fn law_an_update_that_does_not_apply_changes_nothing(
    held: Seq<Seq<Datum>>,
    new: Seq<Seq<Datum>>,
    clashes: Seq<(int, int)>,
    columns: Vec<usize>,
    answers: Vec<Vec<Value>>,
    at: int,
)
    requires
        0 <= at < held.len(),
        forall|m: int| 0 <= m < clashes.len() ==> 0 <= (#[trigger] clashes[m]).1 < held.len(),
        forall|j: int| 0 <= j < columns@.len() ==> (#[trigger] columns@[j]) < held[at].len(),
        forall|m: int|
            0 <= m < clashes.len() && m < answers@.len() ==> (#[trigger] clashes[m]).1 != at
                || answers@[m]@.len() == 0 || answers@[m]@.last().datum() != Datum::Boolean(true),
    ensures
        resolved(held, new, clashes, ConflictAction::Update { columns, answers }).0[at]
            == held[at],
{
    let rows = table_of(answers@);
    assert forall|m: int| -1 < m < used(rows, clashes) && 0 <= m implies (#[trigger] clashes[m]).1
        != at || rows[m].len() == 0 || rows[m].last() != Datum::Boolean(true) by {
        assert(rows[m] == datums(answers@[m]@));
    }
    lemma_answered_row(held, clashes, rows, columns@, used(rows, clashes), at, -1);
}

/// The places updated are those of the clashes whose update applies, each time one does and in the
/// order of the clashes: which clash each of them is of is what is handed back.
pub proof fn law_what_was_updated_is_what_applied(
    held: Seq<Seq<Datum>>,
    clashes: Seq<(int, int)>,
    answers: Seq<Seq<Datum>>,
    columns: Seq<usize>,
    count: nat,
) -> (of: Seq<int>)
    requires
        count <= clashes.len(),
        count <= answers.len(),
    ensures
        ({
            let updated = answered(held, clashes, answers, columns, count).1;
            &&& of.len() == updated.len()
            &&& forall|m: int|
                0 <= m < of.len() ==> 0 <= (#[trigger] of[m]) < count && updated[m]
                    == clashes[of[m]].1 && answers[of[m]].len() > 0 && answers[of[m]].last()
                    == Datum::Boolean(true)
            &&& forall|j: int, m: int|
                0 <= j < m < of.len() ==> (#[trigger] of[j]) < (#[trigger] of[m])
            &&& forall|k: int|
                0 <= k < count && (#[trigger] answers[k]).len() > 0 && answers[k].last()
                    == Datum::Boolean(true) ==> exists|m: int|
                    0 <= m < of.len() && #[trigger] of[m] == k
        }),
    decreases count,
{
    if count == 0 {
        Seq::empty()
    } else {
        let before = law_what_was_updated_is_what_applied(
            held,
            clashes,
            answers,
            columns,
            (count - 1) as nat,
        );
        if applies(answers[count - 1]) {
            let of = before.push(count - 1);
            assert forall|k: int| 0 <= k < count && (#[trigger] answers[k]).len() > 0
                && answers[k].last() == Datum::Boolean(true) implies exists|m: int|
                0 <= m < of.len() && #[trigger] of[m] == k by {
                if k < count - 1 {
                    let m = choose|m: int| 0 <= m < before.len() && #[trigger] before[m] == k;
                    assert(of[m] == k);
                } else {
                    assert(of[of.len() - 1] == k);
                }
            }
            of
        } else {
            before
        }
    }
}

/// A row that is replaced takes its named columns from the last new row that clashes with it, and
/// keeps the others. Every clash counts as an update, in order.
pub proof fn law_a_replaced_row_takes_its_columns_from_the_new_one(
    held: Seq<Seq<Datum>>,
    new: Seq<Seq<Datum>>,
    clashes: Seq<(int, int)>,
    columns: Vec<usize>,
    k: int,
)
    requires
        0 <= k < clashes.len(),
        forall|m: int| 0 <= m < clashes.len() ==> 0 <= (#[trigger] clashes[m]).1 < held.len(),
        held[clashes[k].1].len() <= usize::MAX,
        forall|m: int| k < m < clashes.len() ==> (#[trigger] clashes[m]).1 != clashes[k].1,
    ensures
        ({
            let at = clashes[k].1;
            let done = resolved(held, new, clashes, ConflictAction::Replace(columns));
            &&& done.0[at].len() == held[at].len()
            &&& forall|j: int|
                0 <= j < columns@.len() && columns@[j] < held[at].len() ==> done.0[at][
                #[trigger] columns@[j] as int] == new[clashes[k].0][columns@[j] as int]
            &&& forall|c: int|
                0 <= c < held[at].len() && (forall|j: int|
                    0 <= j < columns@.len() ==> #[trigger] columns@[j] != c)
                    ==> #[trigger] done.0[at][c] == held[at][c]
            &&& done.1.len() == clashes.len()
            &&& forall|m: int| 0 <= m < clashes.len() ==> #[trigger] done.1[m] == clashes[m].1
        }),
{
    lemma_replaced_row(held, new, clashes, columns@, clashes.len(), clashes[k].1, k);
}

proof fn lemma_replaced_row(
    held: Seq<Seq<Datum>>,
    new: Seq<Seq<Datum>>,
    clashes: Seq<(int, int)>,
    columns: Seq<usize>,
    count: nat,
    at: int,
    k: int,
)
    requires
        count <= clashes.len(),
        0 <= at < held.len(),
        held[at].len() <= usize::MAX,
        forall|m: int| 0 <= m < clashes.len() ==> 0 <= (#[trigger] clashes[m]).1 < held.len(),
        0 <= k < count ==> clashes[k].1 == at,
        0 <= k < count ==> forall|m: int| k < m < count ==> (#[trigger] clashes[m]).1 != at,
    ensures
        ({
            let done = replaced(held, new, clashes, columns, count);
            &&& done.len() == held.len()
            &&& done[at].len() == held[at].len()
            &&& 0 <= k < count ==> forall|j: int|
                0 <= j < columns.len() && columns[j] < held[at].len() ==> done[at][
                #[trigger] columns[j] as int] == new[clashes[k].0][columns[j] as int]
            &&& forall|c: int|
                0 <= c < held[at].len() && (forall|j: int|
                    0 <= j < columns.len() ==> #[trigger] columns[j] != c) ==> #[trigger] done[at][c]
                    == held[at][c]
        }),
    decreases count,
{
    if count > 0 {
        let before = replaced(held, new, clashes, columns, (count - 1) as nat);
        let done = replaced(held, new, clashes, columns, count);
        lemma_replaced_row(
            held,
            new,
            clashes,
            columns,
            (count - 1) as nat,
            at,
            if k < count - 1 {
                k
            } else {
                -1
            },
        );
        if clashes[count - 1].1 == at {
            assert forall|c: int| 0 <= c < held[at].len() && (forall|j: int|
                0 <= j < columns.len() ==> #[trigger] columns[j] != c) implies #[trigger] done[at][c]
                == held[at][c] by {
                assert(!columns.contains(c as usize));
                assert(before[at][c] == held[at][c]);
            }
        }
    }
}

/// What an upsert wrote is the rows it updated, as they are now, and after them the rows it added.
pub proof fn law_what_was_written_is_the_updated_and_then_the_added(after: Upserted, k: int)
    requires
        after.wf(),
        0 <= k < after.written_rows().len(),
    ensures
        after.written_rows().len() == after.updated@.len() + after.added@.len(),
        after.written_rows()[k] == if k < after.updated@.len() {
            datums(after.held@[after.updated@[k] as int]@)
        } else {
            datums(after.added@[k - after.updated@.len()]@)
        },
{
}

/// Where a row that was held changed, the table is written whole: what it held, as it is now, and then
/// what was added. Where none did, what was added is.
pub proof fn law_what_is_stored_is_what_is_held_now(after: &Upserted, stored: Stored, count: usize)
    requires
        after.wf(),
        call_ensures(Upserted::stored, (after,), stored),
        call_ensures(Upserted::count, (after,), count),
    ensures
        stored is Append <==> after.updated@.len() == 0,
        count == after.updated@.len() + after.added@.len(),
        match stored {
            Stored::Append(rows) => rows@.len() == after.added@.len() && forall|i: int|
                0 <= i < rows@.len() ==> #[trigger] table_of(rows@)[i] == datums(after.added@[i]@),
            Stored::Replace(rows) => rows@.len() == after.held@.len() + after.added@.len() && (
            forall|i: int|
                0 <= i < after.held@.len() ==> #[trigger] table_of(rows@)[i] == datums(
                    after.held@[i]@,
                )) && (forall|i: int|
                0 <= i < after.added@.len() ==> table_of(rows@)[after.held@.len() + i] == datums(
                    (#[trigger] after.added@[i])@,
                )),
        },
{
    match stored {
        Stored::Append(rows) => {
            assert(table_of(rows@).len() == rows@.len());
        },
        Stored::Replace(rows) => {
            assert(table_of(rows@).len() == rows@.len());
        },
    }
}

} // verus!
