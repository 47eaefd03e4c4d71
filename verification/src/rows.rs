//! The rows a writing statement keeps, changes and takes out.

use crate::result::{is_selection, rows_in, select_failure, Chunk};
use crate::types::{About, Datum, Error, ErrorCode, Failure, Subject, Value};
use crate::vector::{holds_rows, widened, Vector};
use vstd::prelude::*;

verus! {

/// The cells of a row in the first `width` columns.
pub open spec fn row_of(chunk: Chunk, row: int, width: nat) -> Seq<Datum> {
    Seq::new(width, |c: int| chunk.cell(row, c))
}

/// The rows of a chunk.
pub open spec fn chunk_rows(chunk: Chunk) -> Seq<Seq<Datum>> {
    Seq::new(chunk.len as nat, |r: int| row_of(chunk, r, chunk.columns@.len()))
}

/// The rows of the first `count` chunks, one after another.
pub open spec fn all_rows(chunks: Seq<Chunk>, count: nat) -> Seq<Seq<Datum>>
    decreases count,
{
    if count == 0 {
        seq![]
    } else {
        all_rows(chunks, (count - 1) as nat) + chunk_rows(chunks[count - 1])
    }
}

/// How many columns there are before the flag.
pub open spec fn plain_width(chunk: Chunk) -> nat {
    if chunk.columns@.len() == 0 {
        0
    } else {
        (chunk.columns@.len() - 1) as nat
    }
}

/// Whether the flag after a row's own columns is true.
pub open spec fn flagged(chunk: Chunk, row: int) -> bool {
    chunk.columns@.len() > 0 && chunk.cell(row, plain_width(chunk) as int) == Datum::Boolean(true)
}

/// The rows among the first `count` whose flag is as asked, in order.
pub open spec fn with_flag(chunk: Chunk, flag: bool, count: nat) -> Seq<u32>
    decreases count,
{
    if count == 0 {
        seq![]
    } else {
        let before = with_flag(chunk, flag, (count - 1) as nat);
        if flagged(chunk, count - 1) == flag {
            before.push((count - 1) as u32)
        } else {
            before
        }
    }
}

/// The rows at those places without their flag.
pub open spec fn unflagged(chunk: Chunk, rows: Seq<u32>) -> Seq<Seq<Datum>> {
    Seq::new(rows.len(), |k: int| row_of(chunk, rows[k] as int, plain_width(chunk)))
}

/// What the table holds after the first `count` chunks of a source: every row for an update, and
/// the rows without the flag for a delete.
pub open spec fn kept_rows(chunks: Seq<Chunk>, delete: bool, count: nat) -> Seq<Seq<Datum>>
    decreases count,
{
    if count == 0 {
        seq![]
    } else {
        let chunk = chunks[count - 1];
        kept_rows(chunks, delete, (count - 1) as nat) + if delete {
            unflagged(chunk, with_flag(chunk, false, chunk.len as nat))
        } else {
            Seq::new(chunk.len as nat, |r: int| row_of(chunk, r, plain_width(chunk)))
        }
    }
}

/// The rows with the flag in the first `count` chunks of a source, which are the ones a statement
/// changed or took out.
pub open spec fn changed_rows(chunks: Seq<Chunk>, count: nat) -> Seq<Seq<Datum>>
    decreases count,
{
    if count == 0 {
        seq![]
    } else {
        let chunk = chunks[count - 1];
        changed_rows(chunks, (count - 1) as nat) + unflagged(
            chunk,
            with_flag(chunk, true, chunk.len as nat),
        )
    }
}

/// The columns before the flag.
pub open spec fn plain_columns(chunk: Chunk) -> Seq<Vector> {
    chunk.columns@.subrange(0, plain_width(chunk) as int)
}

/// Whether chunks are what the table holds after the first `count` chunks of a source: for an update
/// each chunk without its flag, and for a delete the rows without the flag of each that has any.
pub open spec fn kept_chunks(kept: Seq<Chunk>, chunks: Seq<Chunk>, delete: bool, count: nat) -> bool
    decreases count,
{
    if count == 0 {
        kept.len() == 0
    } else {
        let chunk = chunks[count - 1];
        let rows = with_flag(chunk, false, chunk.len as nat);
        if delete && rows.len() == 0 {
            kept_chunks(kept, chunks, delete, (count - 1) as nat)
        } else {
            &&& kept.len() > 0
            &&& kept_chunks(kept.drop_last(), chunks, delete, (count - 1) as nat)
            &&& if delete {
                is_selection(kept.last(), plain_columns(chunk), widened(rows))
            } else {
                kept.last().columns@ == plain_columns(chunk) && kept.last().len == chunk.len
            }
        }
    }
}

/// Whether chunks are the rows with the flag of each of the first `count` chunks of a source that
/// has any.
pub open spec fn changed_chunks(changed: Seq<Chunk>, chunks: Seq<Chunk>, count: nat) -> bool
    decreases count,
{
    if count == 0 {
        changed.len() == 0
    } else {
        let chunk = chunks[count - 1];
        let rows = with_flag(chunk, true, chunk.len as nat);
        if rows.len() == 0 {
            changed_chunks(changed, chunks, (count - 1) as nat)
        } else {
            &&& changed.len() > 0
            &&& changed_chunks(changed.drop_last(), chunks, (count - 1) as nat)
            &&& is_selection(changed.last(), plain_columns(chunk), widened(rows))
        }
    }
}

/// Why rows of a chunk cannot be taken out without their flag, where there are any to take.
pub open spec fn take_failure(chunk: Chunk, flag: bool) -> Option<Failure> {
    let rows = with_flag(chunk, flag, chunk.len as nat);
    if rows.len() == 0 {
        None
    } else {
        select_failure(plain_columns(chunk), widened(rows), 0)
    }
}

/// Why the chunks of a source from `at` on cannot be split: of each chunk in turn the changed rows
/// are taken first, where they are wanted, and then the rows a delete leaves.
pub open spec fn split_failure(chunks: Seq<Chunk>, delete: bool, wanted: bool, at: nat) -> Option<
    Failure,
>
    decreases chunks.len() - at,
{
    if at >= chunks.len() {
        None
    } else if wanted && take_failure(chunks[at as int], true) is Some {
        take_failure(chunks[at as int], true)
    } else if delete && take_failure(chunks[at as int], false) is Some {
        take_failure(chunks[at as int], false)
    } else {
        split_failure(chunks, delete, wanted, at + 1)
    }
}

/// Whether every value repeated in some chunks is one its type keeps as it is.
pub open spec fn all_at_home(chunks: Seq<Chunk>) -> bool {
    forall|i: int| 0 <= i < chunks.len() ==> (#[trigger] chunks[i]).at_home()
}

proof fn lemma_with_flag(chunk: Chunk, flag: bool, count: nat)
    requires
        count <= u32::MAX,
    ensures
        with_flag(chunk, flag, count).len() <= count,
        with_flag(chunk, true, count).len() + with_flag(chunk, false, count).len() == count,
        forall|k: int|
            0 <= k < with_flag(chunk, flag, count).len() ==> #[trigger] with_flag(
                chunk,
                flag,
                count,
            )[k] < count,
    decreases count,
{
    if count > 0 {
        lemma_with_flag(chunk, flag, (count - 1) as nat);
    }
}

proof fn lemma_changed_bound(chunks: Seq<Chunk>, count: nat)
    requires
        count <= chunks.len(),
        forall|i: int| 0 <= i < chunks.len() ==> (#[trigger] chunks[i]).len <= u32::MAX,
    ensures
        changed_rows(chunks, count).len() <= rows_in(chunks, count),
    decreases count,
{
    if count > 0 {
        lemma_changed_bound(chunks, (count - 1) as nat);
        lemma_with_flag(chunks[count - 1], true, chunks[count - 1].len as nat);
    }
}

proof fn lemma_rows_bound(chunks: Seq<Chunk>, count: nat)
    requires
        count <= chunks.len(),
    ensures
        rows_in(chunks, count) <= rows_in(chunks, chunks.len()),
    decreases chunks.len() - count,
{
    if count < chunks.len() {
        lemma_rows_bound(chunks, count + 1);
    }
}

/// A chunk on the end adds its rows on the end.
pub proof fn lemma_pushed(chunks: Seq<Chunk>, chunk: Chunk)
    ensures
        all_rows(chunks.push(chunk), chunks.len() + 1) == all_rows(chunks, chunks.len())
            + chunk_rows(chunk),
{
    lemma_same_start(chunks, chunks.push(chunk), chunks.len());
}

proof fn lemma_same_start(left: Seq<Chunk>, right: Seq<Chunk>, count: nat)
    requires
        count <= left.len(),
        count <= right.len(),
        forall|i: int| 0 <= i < count ==> left[i] == right[i],
    ensures
        all_rows(left, count) == all_rows(right, count),
    decreases count,
{
    if count > 0 {
        lemma_same_start(left, right, (count - 1) as nat);
    }
}

/// The rows of a chunk whose flag is as asked.
fn flag_rows(chunk: &Chunk, flag: bool) -> (rows: Vec<u32>)
    requires
        chunk.wf(),
        chunk.len <= u32::MAX,
    ensures
        rows@ == with_flag(*chunk, flag, chunk.len as nat),
{
    let width: usize = if chunk.width() == 0 {
        0
    } else {
        chunk.width() - 1
    };
    let mut rows: Vec<u32> = Vec::new();
    let mut row: usize = 0;
    while row < chunk.len
        invariant
            row <= chunk.len <= u32::MAX,
            chunk.wf(),
            width == plain_width(*chunk),
            rows@ == with_flag(*chunk, flag, row as nat),
        decreases chunk.len - row,
    {
        let hit = match chunk.value_at(row, width) {
            Value::Boolean(value) => value,
            _ => false,
        };
        assert(hit == flagged(*chunk, row as int));
        if hit == flag {
            rows.push(row as u32);
        }
        row += 1;
    }
    rows
}

/// Those rows of a chunk, without the flag.
fn chosen(plain: &Chunk, Ghost(chunk): Ghost<Chunk>, rows: &Vec<u32>) -> (chosen: Result<
    Chunk,
    Error,
>)
    requires
        plain.wf(),
        chunk.wf(),
        plain.columns@ == plain_columns(chunk),
    ensures
        match chosen {
            Ok(chosen) => {
                &&& select_failure(plain_columns(chunk), widened(rows@), 0) is None
                &&& is_selection(chosen, plain_columns(chunk), widened(rows@))
                &&& chunk.at_home() ==> chunk_rows(chosen) == unflagged(chunk, rows@)
            },
            Err(error) => select_failure(plain_columns(chunk), widened(rows@), 0) == Some(error@),
        },
{
    proof {
        if chunk.at_home() {
            assert forall|c: int| 0 <= c < plain.columns@.len() implies (
            #[trigger] plain.columns@[c]).at_home() by {
                assert(chunk.columns@[c].at_home());
            }
        }
    }
    match plain.select(rows.as_slice()) {
        Ok(chosen) => {
            proof {
                if chunk.at_home() {
                    let left = chunk_rows(chosen);
                    let right = unflagged(chunk, rows@);
                    assert forall|k: int| 0 <= k < rows@.len() implies left[k] == right[k] by {
                        assert forall|c: int| 0 <= c < plain_width(chunk) implies left[k][c]
                            == right[k][c] by {
                            assert(holds_rows(
                                chosen.columns@[c],
                                plain.columns@[c],
                                widened(rows@),
                            ));
                            assert(chosen.columns@[c].datum(k) == plain.columns@[c].datum(
                                widened(rows@)[k] as int,
                            ));
                            assert(plain.columns@[c] == chunk.columns@[c]);
                        }
                        assert(left[k] =~= right[k]);
                    }
                    assert(left =~= right);
                }
            }
            Ok(chosen)
        },
        Err(error) => Err(error),
    }
}

/// The rows an update or a delete produced, split by the flag column after the table's own.
///
/// The first part is what the table holds afterwards, which is every row for an update and the
/// unflagged ones for a delete. The second is the flagged rows, and it is only filled when they
/// are wanted. The count is how many were flagged either way.
pub fn split(chunks: &Vec<Chunk>, delete: bool, wanted: bool) -> (parts: Result<
    (Vec<Chunk>, Vec<Chunk>, usize),
    Error,
>)
    requires
        forall|i: int|
            0 <= i < chunks@.len() ==> (#[trigger] chunks@[i]).wf() && chunks@[i].len <= u32::MAX,
        rows_in(chunks@, chunks@.len()) <= usize::MAX,
    ensures
        match parts {
            Ok((kept, changed, count)) => {
                &&& split_failure(chunks@, delete, wanted, 0) is None
                &&& forall|i: int| 0 <= i < kept@.len() ==> (#[trigger] kept@[i]).wf()
                &&& forall|i: int| 0 <= i < changed@.len() ==> (#[trigger] changed@[i]).wf()
                &&& kept_chunks(kept@, chunks@, delete, chunks@.len())
                &&& if wanted {
                    changed_chunks(changed@, chunks@, chunks@.len())
                } else {
                    changed@.len() == 0
                }
                &&& count == changed_rows(chunks@, chunks@.len()).len()
                &&& all_at_home(chunks@) ==> all_rows(kept@, kept@.len()) == kept_rows(
                    chunks@,
                    delete,
                    chunks@.len(),
                )
                &&& all_at_home(chunks@) && wanted ==> all_rows(changed@, changed@.len())
                    == changed_rows(chunks@, chunks@.len())
            },
            Err(error) => split_failure(chunks@, delete, wanted, 0) == Some(error@),
        },
{
    let mut kept: Vec<Chunk> = Vec::new();
    let mut changed: Vec<Chunk> = Vec::new();
    let mut count: usize = 0;
    let mut at: usize = 0;
    while at < chunks.len()
        invariant
            at <= chunks@.len(),
            forall|i: int|
                0 <= i < chunks@.len() ==> (#[trigger] chunks@[i]).wf() && chunks@[i].len
                    <= u32::MAX,
            rows_in(chunks@, chunks@.len()) <= usize::MAX,
            forall|i: int| 0 <= i < kept@.len() ==> (#[trigger] kept@[i]).wf(),
            forall|i: int| 0 <= i < changed@.len() ==> (#[trigger] changed@[i]).wf(),
            split_failure(chunks@, delete, wanted, 0) == split_failure(
                chunks@,
                delete,
                wanted,
                at as nat,
            ),
            kept_chunks(kept@, chunks@, delete, at as nat),
            if wanted {
                changed_chunks(changed@, chunks@, at as nat)
            } else {
                changed@.len() == 0
            },
            all_at_home(chunks@) ==> all_rows(kept@, kept@.len()) == kept_rows(
                chunks@,
                delete,
                at as nat,
            ),
            all_at_home(chunks@) && wanted ==> all_rows(changed@, changed@.len()) == changed_rows(
                chunks@,
                at as nat,
            ),
            count == changed_rows(chunks@, at as nat).len(),
        decreases chunks.len() - at,
    {
        let chunk = &chunks[at];
        assert(chunks@[at as int].wf());
        assert(all_at_home(chunks@) ==> chunks@[at as int].at_home());
        let width: usize = if chunk.width() == 0 {
            0
        } else {
            chunk.width() - 1
        };
        let hits = flag_rows(chunk, true);
        proof {
            lemma_changed_bound(chunks@, (at + 1) as nat);
            lemma_rows_bound(chunks@, (at + 1) as nat);
            lemma_with_flag(*chunk, true, chunk.len as nat);
        }
        assert(changed_rows(chunks@, (at + 1) as nat) == changed_rows(chunks@, at as nat)
            + unflagged(*chunk, hits@));
        count += hits.len();
        let plain = chunk.first_columns(width);
        assert(plain.columns@ =~= plain_columns(*chunk));
        if wanted {
            if hits.len() > 0 {
                match chosen(&plain, Ghost(*chunk), &hits) {
                    Ok(rows) => {
                        proof {
                            lemma_pushed(changed@, rows);
                            assert(changed@.push(rows).drop_last() =~= changed@);
                        }
                        changed.push(rows);
                    },
                    Err(error) => return Err(error),
                }
            } else {
                assert(unflagged(*chunk, hits@) =~= seq![]);
                assert(changed_rows(chunks@, (at + 1) as nat) =~= changed_rows(
                    chunks@,
                    at as nat,
                ));
            }
        }
        if delete {
            let rest = flag_rows(chunk, false);
            if rest.len() > 0 {
                match chosen(&plain, Ghost(*chunk), &rest) {
                    Ok(rows) => {
                        proof {
                            lemma_pushed(kept@, rows);
                            assert(kept@.push(rows).drop_last() =~= kept@);
                        }
                        kept.push(rows);
                    },
                    Err(error) => return Err(error),
                }
            } else {
                assert(unflagged(*chunk, rest@) =~= seq![]);
                assert(kept_rows(chunks@, delete, (at + 1) as nat) =~= kept_rows(
                    chunks@,
                    delete,
                    at as nat,
                ));
            }
        } else {
            proof {
                let left = chunk_rows(plain);
                let right = Seq::new(
                    chunk.len as nat,
                    |r: int| row_of(*chunk, r, plain_width(*chunk)),
                );
                assert forall|r: int| 0 <= r < chunk.len implies left[r] == right[r] by {
                    assert(left[r] =~= right[r]);
                }
                assert(left =~= right);
                lemma_pushed(kept@, plain);
                assert(kept@.push(plain).drop_last() =~= kept@);
            }
            kept.push(plain);
        }
        at += 1;
    }
    Ok((kept, changed, count))
}

/// Splitting loses nothing: what a delete keeps and what it takes out are together as many rows as
/// the source produced, and an update keeps them all.
pub proof fn law_split_loses_no_row(chunks: Seq<Chunk>, delete: bool, count: nat)
    requires
        count <= chunks.len(),
        forall|i: int| 0 <= i < chunks.len() ==> (#[trigger] chunks[i]).len <= u32::MAX,
    ensures
        kept_rows(chunks, delete, count).len() + (if delete {
            changed_rows(chunks, count).len()
        } else {
            0
        }) == rows_in(chunks, count),
    decreases count,
{
    if count > 0 {
        law_split_loses_no_row(chunks, delete, (count - 1) as nat);
        lemma_with_flag(chunks[count - 1], true, chunks[count - 1].len as nat);
    }
}

/// Whether some row answers true in a column, which is a row failing the constraint it stands for.
pub open spec fn some_row_fails(chunks: Seq<Chunk>, column: int) -> bool {
    exists|i: int, r: int| #[trigger] fails_at(chunks, column, i, r)
}

/// Whether one row answers true in a column.
pub open spec fn fails_at(chunks: Seq<Chunk>, column: int, i: int, r: int) -> bool {
    0 <= i < chunks.len() && 0 <= r < chunks[i].len && 0 <= column < chunks[i].columns@.len()
        && chunks[i].cell(r, column) == Datum::Boolean(true)
}

/// Refuses rows when one of them fails a constraint, with the message of the first constraint, in
/// the order written, that a row fails. The answers have a column for each constraint, true where
/// the row fails it.
pub fn check(messages: &Vec<String>, answers: &Vec<Chunk>) -> (checked: Result<(), Error>)
    requires
        forall|i: int| 0 <= i < answers@.len() ==> (#[trigger] answers@[i]).wf(),
    ensures
        match checked {
            Ok(()) => forall|at: int|
                0 <= at < messages@.len() ==> !#[trigger] some_row_fails(answers@, at),
            Err(error) => exists|at: int|
                {
                    &&& 0 <= at < messages@.len()
                    &&& #[trigger] some_row_fails(answers@, at)
                    &&& forall|below: int| 0 <= below < at ==> !some_row_fails(answers@, below)
                    &&& error@ == (Failure {
                        code: ErrorCode::Constraint,
                        message: messages@[at]@,
                        about: About::Nothing,
                    })
                },
        },
{
    let mut at: usize = 0;
    while at < messages.len()
        invariant
            at <= messages@.len(),
            forall|i: int| 0 <= i < answers@.len() ==> (#[trigger] answers@[i]).wf(),
            forall|below: int| 0 <= below < at ==> !#[trigger] some_row_fails(answers@, below),
        decreases messages.len() - at,
    {
        let mut i: usize = 0;
        while i < answers.len()
            invariant
                i <= answers@.len(),
                at < messages@.len(),
                forall|i: int| 0 <= i < answers@.len() ==> (#[trigger] answers@[i]).wf(),
                forall|below: int| 0 <= below < at ==> !#[trigger] some_row_fails(answers@, below),
                forall|j: int, r: int| j < i ==> !#[trigger] fails_at(answers@, at as int, j, r),
            decreases answers.len() - i,
        {
            assert(answers@[i as int].wf());
            let mut row: usize = 0;
            while row < answers[i].len
                invariant
                    i < answers@.len(),
                    row <= answers@[i as int].len,
                    at < messages@.len(),
                    answers@[i as int].wf(),
                    forall|below: int|
                        0 <= below < at ==> !#[trigger] some_row_fails(answers@, below),
                    forall|r: int| r < row ==> !#[trigger] fails_at(answers@, at as int, i as int, r),
                decreases answers@[i as int].len - row,
            {
                if let Value::Boolean(true) = answers[i].value_at(row, at) {
                    assert(fails_at(answers@, at as int, i as int, row as int));
                    assert(some_row_fails(answers@, at as int));
                    return Err(
                        Error {
                            code: ErrorCode::Constraint,
                            message: messages[at].clone(),
                            about: Subject::Nothing,
                        },
                    );
                }
                row += 1;
            }
            i += 1;
        }
        at += 1;
    }
    Ok(())
}

/// Whether the last column of a row is true.
pub open spec fn ends_in_true(chunk: Chunk, row: int) -> bool {
    let width = chunk.columns@.len() as int;
    width >= 1 && chunk.cell(row, width - 1) == Datum::Boolean(true)
}

/// Whether a row of one chunk comes before a row of another.
pub open spec fn comes_before(left: (int, int), right: (int, int)) -> bool {
    left.0 < right.0 || (left.0 == right.0 && left.1 < right.1)
}

/// The rows with a flag are all the rows whose last column is true, in order, and the rows without one
/// all the others.
pub proof fn law_a_flag_is_the_last_column(chunk: Chunk, flag: bool, count: nat)
    requires
        count <= u32::MAX,
    ensures
        forall|j: int, k: int|
            0 <= j < k < with_flag(chunk, flag, count).len() ==> #[trigger] with_flag(
                chunk,
                flag,
                count,
            )[j] < #[trigger] with_flag(chunk, flag, count)[k],
        forall|k: int|
            0 <= k < with_flag(chunk, flag, count).len() ==> #[trigger] with_flag(
                chunk,
                flag,
                count,
            )[k] < count,
        forall|k: int|
            0 <= k < with_flag(chunk, flag, count).len() ==> ends_in_true(
                chunk,
                #[trigger] with_flag(chunk, flag, count)[k] as int,
            ) == flag,
        forall|row: int|
            0 <= row < count && #[trigger] ends_in_true(chunk, row) == flag ==> with_flag(
                chunk,
                flag,
                count,
            ).contains(row as u32),
    decreases count,
{
    if count > 0 {
        law_a_flag_is_the_last_column(chunk, flag, (count - 1) as nat);
        let before = with_flag(chunk, flag, (count - 1) as nat);
        let after = with_flag(chunk, flag, count);
        assert(flagged(chunk, count - 1) == ends_in_true(chunk, count - 1));
        assert forall|row: int|
            0 <= row < count && #[trigger] ends_in_true(chunk, row) == flag implies after.contains(
            row as u32,
        ) by {
            if row < count - 1 {
                assert(before.contains(row as u32));
                let k = choose|k: int| 0 <= k < before.len() && before[k] == row as u32;
                assert(after[k] == row as u32);
            } else {
                assert(after[after.len() - 1] == row as u32);
            }
        }
    }
}

/// Puts the rows of one more chunk behind the places of those before it.
proof fn lemma_places(
    chunks: Seq<Chunk>,
    count: nat,
    before: Seq<(int, int)>,
    rows: Seq<int>,
) -> (at: Seq<(int, int)>)
    requires
        0 < count <= chunks.len(),
        forall|k: int| 0 <= k < before.len() ==> 0 <= (#[trigger] before[k]).0 < count - 1,
        forall|j: int, k: int|
            0 <= j < k < before.len() ==> comes_before(#[trigger] before[j], #[trigger] before[k]),
        forall|j: int, k: int| 0 <= j < k < rows.len() ==> #[trigger] rows[j] < #[trigger] rows[k],
    ensures
        at.len() == before.len() + rows.len(),
        forall|k: int| 0 <= k < before.len() ==> #[trigger] at[k] == before[k],
        forall|k: int|
            before.len() <= k < at.len() ==> #[trigger] at[k] == (
                count - 1,
                rows[k - before.len()],
            ),
        forall|j: int, k: int|
            0 <= j < k < at.len() ==> comes_before(#[trigger] at[j], #[trigger] at[k]),
        forall|p: (int, int)| #[trigger] before.contains(p) ==> at.contains(p),
        forall|r: int| #[trigger] rows.contains(r) ==> at.contains((count - 1, r)),
{
    let last = Seq::new(rows.len(), |k: int| (count - 1, rows[k]));
    let at = before + last;
    assert forall|p: (int, int)| #[trigger] before.contains(p) implies at.contains(p) by {
        let k = choose|k: int| 0 <= k < before.len() && before[k] == p;
        assert(at[k] == p);
    }
    assert forall|r: int| #[trigger] rows.contains(r) implies at.contains((count - 1, r)) by {
        let k = choose|k: int| 0 <= k < rows.len() && rows[k] == r;
        assert(at[before.len() + k] == (count - 1, r));
    }
    at
}

/// What the table holds after an update or a delete are rows of the source, in the order they came in
/// and without their last column: every row for an update, and for a delete those whose last column
/// is not true.
pub proof fn law_what_is_kept_is_what_was_not_deleted(
    chunks: Seq<Chunk>,
    delete: bool,
    count: nat,
) -> (at: Seq<(int, int)>)
    requires
        count <= chunks.len(),
        forall|i: int|
            0 <= i < chunks.len() ==> (#[trigger] chunks[i]).len <= u32::MAX
                && chunks[i].columns@.len() > 0,
    ensures
        at.len() == kept_rows(chunks, delete, count).len(),
        forall|k: int|
            0 <= k < at.len() ==> 0 <= (#[trigger] at[k]).0 < count && 0 <= at[k].1
                < chunks[at[k].0].len && (delete ==> !ends_in_true(chunks[at[k].0], at[k].1)),
        forall|j: int, k: int|
            0 <= j < k < at.len() ==> comes_before(#[trigger] at[j], #[trigger] at[k]),
        forall|k: int|
            0 <= k < at.len() ==> kept_rows(chunks, delete, count)[k].len() + 1
                == chunks[(#[trigger] at[k]).0].columns@.len(),
        forall|k: int, c: int|
            0 <= k < at.len() && 0 <= c && c + 1 < chunks[at[k].0].columns@.len()
                ==> #[trigger] kept_rows(chunks, delete, count)[k][c] == chunks[at[k].0].cell(
                at[k].1,
                c,
            ),
        forall|i: int, r: int|
            0 <= i < count && 0 <= r < chunks[i].len && (delete ==> !ends_in_true(chunks[i], r))
                ==> #[trigger] at.contains((i, r)),
    decreases count,
{
    if count == 0 {
        Seq::empty()
    } else {
        let before = law_what_is_kept_is_what_was_not_deleted(chunks, delete, (count - 1) as nat);
        let chunk = chunks[count - 1];
        let flags = with_flag(chunk, false, chunk.len as nat);
        law_a_flag_is_the_last_column(chunk, false, chunk.len as nat);
        let rows = if delete {
            Seq::new(flags.len(), |k: int| flags[k] as int)
        } else {
            Seq::new(chunk.len as nat, |k: int| k)
        };
        let at = lemma_places(chunks, count, before, rows);
        let less = kept_rows(chunks, delete, (count - 1) as nat);
        let kept = kept_rows(chunks, delete, count);
        assert forall|k: int| 0 <= k < before.len() implies kept[k] == #[trigger] less[k] by {}
        assert forall|k: int| before.len() <= k < at.len() implies kept[k] == row_of(
            chunk,
            (#[trigger] at[k]).1,
            plain_width(chunk),
        ) by {
            assert(at[k] == (count - 1, rows[k - before.len()]));
        }
        assert forall|k: int| 0 <= k < at.len() implies kept[k].len() + 1 == chunks[(
        #[trigger] at[k]).0].columns@.len() by {
            if k < before.len() {
                assert(kept[k] == less[k]);
            }
        }
        assert forall|k: int, c: int|
            0 <= k < at.len() && 0 <= c && c + 1
                < chunks[at[k].0].columns@.len() implies #[trigger] kept[k][c]
            == chunks[at[k].0].cell(at[k].1, c) by {
            if k < before.len() {
                assert(at[k] == before[k]);
                assert(less[k][c] == chunks[before[k].0].cell(before[k].1, c));
            }
        }
        assert forall|i: int, r: int|
            0 <= i < count && 0 <= r < chunks[i].len && (delete ==> !ends_in_true(
                chunks[i],
                r,
            )) implies #[trigger] at.contains((i, r)) by {
            if i < count - 1 {
                assert(before.contains((i, r)));
            } else if delete {
                assert(flags.contains(r as u32));
                let k = choose|k: int| 0 <= k < flags.len() && flags[k] == r as u32;
                assert(rows[k] == r);
                assert(rows.contains(r));
            } else {
                assert(rows[r] == r);
                assert(rows.contains(r));
            }
        }
        at
    }
}

/// The rows a statement changed or took out are the rows of the source whose last column is true, all
/// of them, in order and without that column.
pub proof fn law_what_changed_is_what_was_flagged(chunks: Seq<Chunk>, count: nat) -> (at: Seq<
    (int, int),
>)
    requires
        count <= chunks.len(),
        forall|i: int|
            0 <= i < chunks.len() ==> (#[trigger] chunks[i]).len <= u32::MAX
                && chunks[i].columns@.len() > 0,
    ensures
        at.len() == changed_rows(chunks, count).len(),
        forall|k: int|
            0 <= k < at.len() ==> 0 <= (#[trigger] at[k]).0 < count && 0 <= at[k].1
                < chunks[at[k].0].len && ends_in_true(chunks[at[k].0], at[k].1),
        forall|j: int, k: int|
            0 <= j < k < at.len() ==> comes_before(#[trigger] at[j], #[trigger] at[k]),
        forall|k: int|
            0 <= k < at.len() ==> changed_rows(chunks, count)[k].len() + 1 == chunks[(
            #[trigger] at[k]).0].columns@.len(),
        forall|k: int, c: int|
            0 <= k < at.len() && 0 <= c && c + 1 < chunks[at[k].0].columns@.len()
                ==> #[trigger] changed_rows(chunks, count)[k][c] == chunks[at[k].0].cell(
                at[k].1,
                c,
            ),
        forall|i: int, r: int|
            0 <= i < count && 0 <= r < chunks[i].len && #[trigger] ends_in_true(chunks[i], r)
                ==> at.contains((i, r)),
    decreases count,
{
    if count == 0 {
        Seq::empty()
    } else {
        let before = law_what_changed_is_what_was_flagged(chunks, (count - 1) as nat);
        let chunk = chunks[count - 1];
        let flags = with_flag(chunk, true, chunk.len as nat);
        law_a_flag_is_the_last_column(chunk, true, chunk.len as nat);
        let rows = Seq::new(flags.len(), |k: int| flags[k] as int);
        let at = lemma_places(chunks, count, before, rows);
        let less = changed_rows(chunks, (count - 1) as nat);
        let more = changed_rows(chunks, count);
        assert forall|k: int| 0 <= k < before.len() implies more[k] == #[trigger] less[k] by {}
        assert forall|k: int| before.len() <= k < at.len() implies more[k] == row_of(
            chunk,
            (#[trigger] at[k]).1,
            plain_width(chunk),
        ) by {
            assert(at[k] == (count - 1, rows[k - before.len()]));
        }
        assert forall|k: int| 0 <= k < at.len() implies more[k].len() + 1 == chunks[(
        #[trigger] at[k]).0].columns@.len() by {
            if k < before.len() {
                assert(more[k] == less[k]);
            }
        }
        assert forall|k: int, c: int|
            0 <= k < at.len() && 0 <= c && c + 1
                < chunks[at[k].0].columns@.len() implies #[trigger] more[k][c]
            == chunks[at[k].0].cell(at[k].1, c) by {
            if k < before.len() {
                assert(at[k] == before[k]);
                assert(less[k][c] == chunks[before[k].0].cell(before[k].1, c));
            }
        }
        assert forall|i: int, r: int|
            0 <= i < count && 0 <= r < chunks[i].len && #[trigger] ends_in_true(
                chunks[i],
                r,
            ) implies at.contains((i, r)) by {
            if i < count - 1 {
                assert(before.contains((i, r)));
            } else {
                assert(flags.contains(r as u32));
                let k = choose|k: int| 0 <= k < flags.len() && flags[k] == r as u32;
                assert(rows[k] == r);
                assert(rows.contains(r));
            }
        }
        at
    }
}

/// The rows of some chunks are the rows of each in turn, and a row is its cells.
pub proof fn law_the_rows_of_chunks_follow_one_another(
    chunks: Seq<Chunk>,
    count: nat,
    i: int,
    r: int,
)
    requires
        0 <= i < count <= chunks.len(),
        0 <= r < chunks[i].len,
    ensures
        all_rows(chunks, count).len() == rows_in(chunks, count),
        rows_in(chunks, i as nat) + r < rows_in(chunks, count),
        all_rows(chunks, count)[rows_in(chunks, i as nat) + r].len() == chunks[i].columns@.len(),
        forall|c: int|
            0 <= c < chunks[i].columns@.len() ==> #[trigger] all_rows(chunks, count)[rows_in(
                chunks,
                i as nat,
            ) + r][c] == chunks[i].cell(r, c),
    decreases count,
{
    lemma_all_rows_len(chunks, (count - 1) as nat);
    if i < count - 1 {
        law_the_rows_of_chunks_follow_one_another(chunks, (count - 1) as nat, i, r);
    }
}

/// There are as many rows as the chunks have between them.
pub proof fn lemma_all_rows_len(chunks: Seq<Chunk>, count: nat)
    requires
        count <= chunks.len(),
    ensures
        all_rows(chunks, count).len() == rows_in(chunks, count),
    decreases count,
{
    if count > 0 {
        lemma_all_rows_len(chunks, (count - 1) as nat);
    }
}

/// Rows are refused exactly where one of them answers true for some constraint.
pub proof fn law_a_row_that_answers_true_fails(
    chunks: Seq<Chunk>,
    column: int,
    i: int,
    r: int,
)
    requires
        0 <= i < chunks.len(),
        0 <= r < chunks[i].len,
        0 <= column < chunks[i].columns@.len(),
    ensures
        chunks[i].cell(r, column) == Datum::Boolean(true) ==> some_row_fails(chunks, column),
        !some_row_fails(chunks, column) ==> chunks[i].cell(r, column) != Datum::Boolean(true),
{
    if chunks[i].cell(r, column) == Datum::Boolean(true) {
        assert(fails_at(chunks, column, i, r));
    }
}

/// Rows that fail a constraint hold one that answers true for it.
pub proof fn law_a_failed_constraint_has_its_row(chunks: Seq<Chunk>, column: int) -> (at: (int, int))
    requires
        some_row_fails(chunks, column),
    ensures
        0 <= at.0 < chunks.len(),
        0 <= at.1 < chunks[at.0].len,
        chunks[at.0].cell(at.1, column) == Datum::Boolean(true),
{
    choose|i: int, r: int| #[trigger] fails_at(chunks, column, i, r)
}

/// Rows are refused where one answers true for a constraint, with the message of the first constraint
/// written that one of them fails.
pub proof fn law_the_first_constraint_that_fails_speaks(
    messages: &Vec<String>,
    answers: &Vec<Chunk>,
    checked: Result<(), Error>,
    at: int,
)
    requires
        call_ensures(check, (messages, answers), checked),
        0 <= at < messages@.len(),
    ensures
        some_row_fails(answers@, at) ==> checked is Err,
        checked is Err ==> checked->Err_0@.code is Constraint,
        checked is Err && some_row_fails(answers@, at) && (forall|below: int|
            0 <= below < at ==> !#[trigger] some_row_fails(answers@, below))
            ==> checked->Err_0@.message == messages@[at]@,
{
    match checked {
        Ok(()) => {
            assert(!some_row_fails(answers@, at));
        },
        Err(_) => {},
    }
}

} // verus!
