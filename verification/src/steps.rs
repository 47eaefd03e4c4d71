//! The steps of a statement that writes, in order, and what still runs when one of them fails.

use crate::route::{Create, Load};
use vstd::prelude::*;

verus! {

/// One step of a statement that writes.
#[derive(Debug, Clone, Copy, PartialEq, Eq, Structural)]
pub enum Step {
    /// The plan of the rows is optimized.
    OptimizeSource,
    /// The rows are produced, all of them, before anything is written.
    RunSource,
    /// A new file is begun beside the database.
    OpenFresh,
    /// A generation is begun on the end of the database.
    OpenAppend,
    /// The rows go from the plan into the file.
    LoadFile,
    /// The table is pointed at what the file now holds.
    Commit,
    DropOld,
    MakeTable,
    /// The table is given its keys, its defaults, its checks and its foreign keys.
    DescribeTable,
    FillTable,
    /// The new rows that clash are put where an update reads them.
    MakeExcluded,
    FillExcluded,
    DropExcluded,
    /// The table holds just the rows that clash.
    StandInMatched,
    RunUpdate,
    /// The table holds just the rows to be checked.
    StandInChecked,
    RunChecks,
    /// The answers of the checks refuse the statement or let it go on.
    Judge,
    /// The table holds just the rows that were written.
    StandInWritten,
    RunReturning,
    /// The table gets its own rows back.
    PutBack,
    /// Every foreign key of the rows is looked for.
    FindMissing,
    /// Every foreign key that points at the table is looked for in what it will hold.
    FindLost,
    AppendRows,
    ReplaceRows,
}

/// What a write does with its rows.
#[derive(Debug, Clone, Copy, PartialEq, Eq, Structural)]
pub enum Write {
    Append,
    /// An append that says what to do with a key the table already holds.
    Upsert {
        /// Whether a row that was held changed.
        updated: bool,
    },
    Update,
    Delete,
}

/// What a write answers with.
#[derive(Debug, Clone, Copy, PartialEq, Eq, Structural)]
pub enum Answer {
    /// How many rows it added, changed or took out.
    Changed(usize),
    /// What its list makes of the rows it wrote.
    Returning,
}

/// What a write answers with: what its list makes of the rows where it has one, and otherwise how
/// many rows there were, which an append counts as it adds them, an update and a delete by their
/// flag, and an append that settles clashes as it settles them.
pub fn write_answer(
    write: Write,
    returning: bool,
    added: usize,
    flagged: usize,
    settled: usize,
) -> (answer: Answer)
    ensures
        answer == if returning {
            Answer::Returning
        } else {
            match write {
                Write::Append => Answer::Changed(added),
                Write::Upsert { .. } => Answer::Changed(settled),
                Write::Update | Write::Delete => Answer::Changed(flagged),
            }
        },
{
    if returning {
        return Answer::Returning;
    }
    match write {
        Write::Append => Answer::Changed(added),
        Write::Upsert { .. } => Answer::Changed(settled),
        Write::Update | Write::Delete => Answer::Changed(flagged),
    }
}

/// Whether an update or a delete has to hold on to the rows it changed: its list reads them, its
/// checks do, or what other tables point at them with does.
pub fn changed_wanted(returning: bool, checks: bool, foreign: bool) -> (wanted: bool)
    ensures
        wanted == (returning || checks || foreign),
{
    returning || checks || foreign
}

/// Whether one step undoes what another set up.
pub open spec fn undoes(close: Step, open: Step) -> bool {
    match close {
        Step::PutBack => open is StandInMatched || open is StandInChecked || open is StandInWritten,
        Step::DropExcluded => open is MakeExcluded,
        _ => false,
    }
}

/// Whether what a step undoes was set up before a place, and not undone before it.
pub open spec fn set_up(steps: Seq<Step>, at: int, close: Step) -> bool {
    exists|o: int|
        {
            &&& 0 <= o < at
            &&& o < steps.len()
            &&& undoes(close, #[trigger] steps[o])
            &&& forall|k: int| o < k < at ==> steps[k] != close
        }
}

/// Whether a step still runs after another failed: it undoes what was set up before the failure,
/// and nothing in between undid it.
pub open spec fn owed(steps: Seq<Step>, failed: int, at: int) -> bool {
    &&& failed < at < steps.len()
    &&& set_up(steps, failed, steps[at])
    &&& forall|k: int| failed < k < at ==> steps[k] != steps[at]
}

fn undoes_it(close: Step, open: Step) -> (yes: bool)
    ensures
        yes == undoes(close, open),
{
    match close {
        Step::PutBack => match open {
            Step::StandInMatched | Step::StandInChecked | Step::StandInWritten => true,
            _ => false,
        },
        Step::DropExcluded => match open {
            Step::MakeExcluded => true,
            _ => false,
        },
        _ => false,
    }
}

fn was_set_up(steps: &Vec<Step>, at: usize, close: Step) -> (yes: bool)
    requires
        at <= steps@.len(),
    ensures
        yes == set_up(steps@, at as int, close),
{
    let mut o: usize = at;
    while o > 0
        invariant
            o <= at <= steps@.len(),
            forall|k: int| o <= k < at ==> steps@[k] != close && !undoes(close, #[trigger] steps@[k]),
        decreases o,
    {
        if undoes_it(close, steps[o - 1]) {
            assert(undoes(close, steps@[o - 1]));
            return true;
        }
        if steps[o - 1] == close {
            assert(!set_up(steps@, at as int, close)) by {
                if set_up(steps@, at as int, close) {
                    let p = choose|p: int|
                        {
                            &&& 0 <= p < at
                            &&& p < steps@.len()
                            &&& undoes(close, #[trigger] steps@[p])
                            &&& forall|k: int| p < k < at ==> steps@[k] != close
                        };
                    assert(steps@[o - 1] == close);
                }
            }
            return false;
        }
        o -= 1;
    }
    false
}

fn is_owed(steps: &Vec<Step>, failed: usize, at: usize) -> (yes: bool)
    requires
        failed < at < steps@.len(),
    ensures
        yes == owed(steps@, failed as int, at as int),
{
    let mut k: usize = failed + 1;
    while k < at
        invariant
            failed < k <= at < steps@.len(),
            forall|j: int| failed < j < k ==> steps@[j] != steps@[at as int],
        decreases at - k,
    {
        if steps[k] == steps[at] {
            return false;
        }
        k += 1;
    }
    was_set_up(steps, failed, steps[at])
}

/// The step that runs after the one at `at`. Once one has failed, only the steps that undo what was
/// set up before it still run.
pub fn next_step(steps: &Vec<Step>, at: usize, failed: Option<usize>) -> (next: Option<usize>)
    requires
        at < steps@.len(),
        failed matches Some(failed) ==> failed <= at,
    ensures
        match (failed, next) {
            (None, Some(next)) => next == at + 1 && next < steps@.len(),
            (None, None) => at + 1 == steps@.len(),
            (Some(failed), Some(next)) => at < next && owed(steps@, failed as int, next as int)
                && forall|k: int| at < k < next ==> !#[trigger] owed(steps@, failed as int, k),
            (Some(failed), None) => forall|k: int|
                at < k ==> !#[trigger] owed(steps@, failed as int, k),
        },
{
    let len: usize = steps.len();
    match failed {
        None => if at + 1 < len {
            Some(at + 1)
        } else {
            None
        },
        Some(first) => next_owed(steps, at, first),
    }
}

/// The first step past `at` that still runs after a failure.
fn next_owed(steps: &Vec<Step>, at: usize, failed: usize) -> (next: Option<usize>)
    requires
        failed <= at < steps@.len(),
    ensures
        match next {
            Some(next) => at < next && owed(steps@, failed as int, next as int) && forall|k: int|
                at < k < next ==> !#[trigger] owed(steps@, failed as int, k),
            None => forall|k: int| at < k ==> !#[trigger] owed(steps@, failed as int, k),
        },
{
    let len: usize = steps.len();
    let mut next: usize = at + 1;
    while next < len
        invariant
            len == steps@.len(),
            failed <= at < next <= len,
            forall|k: int| at < k < next ==> !#[trigger] owed(steps@, failed as int, k),
        decreases len - next,
    {
        if is_owed(steps, failed, next) {
            return Some(next);
        }
        next += 1;
    }
    None
}

/// The steps that take the rows of a plan to where they go first: into the file, or out of the
/// plan.
pub open spec fn load_program(load: Load) -> Seq<Step> {
    match load {
        Load::ThroughTable => seq![Step::OptimizeSource, Step::RunSource],
        Load::FreshFile => seq![
            Step::OptimizeSource,
            Step::OpenFresh,
            Step::LoadFile,
            Step::Commit,
        ],
        Load::WhereAppendable => seq![
            Step::OptimizeSource,
            Step::OpenAppend,
            Step::LoadFile,
            Step::Commit,
        ],
    }
}

/// The steps of an insert up to where its rows are known, or to its end where they went straight
/// into the file.
pub fn load_steps(load: Load) -> (steps: Vec<Step>)
    ensures
        steps@ == load_program(load),
{
    match load {
        Load::ThroughTable => vec![Step::OptimizeSource, Step::RunSource],
        Load::FreshFile => {
            vec![Step::OptimizeSource, Step::OpenFresh, Step::LoadFile, Step::Commit]
        },
        Load::WhereAppendable => {
            vec![Step::OptimizeSource, Step::OpenAppend, Step::LoadFile, Step::Commit]
        },
    }
}

/// The steps that create a table.
pub open spec fn create_program(create: Create, from_query: bool, load: Load) -> Seq<Step> {
    if load is FreshFile || load is WhereAppendable {
        seq![
            Step::OptimizeSource,
            if load is FreshFile {
                Step::OpenFresh
            } else {
                Step::OpenAppend
            },
            Step::LoadFile,
            Step::MakeTable,
            Step::Commit,
        ]
    } else if create is Nothing {
        seq![]
    } else {
        (if from_query {
            seq![Step::OptimizeSource, Step::RunSource]
        } else {
            seq![]
        }) + (if create is Replace {
            seq![Step::DropOld]
        } else {
            seq![]
        }) + seq![Step::MakeTable, Step::DescribeTable] + (if from_query {
            seq![Step::FillTable]
        } else {
            seq![]
        })
    }
}

/// The steps that create a table. The query runs before the old table goes, so a table can be
/// replaced by what is read out of it.
pub fn create_steps(create: Create, from_query: bool, load: Load) -> (steps: Vec<Step>)
    ensures
        steps@ == create_program(create, from_query, load),
{
    match load {
        Load::FreshFile => {
            return vec![
                Step::OptimizeSource,
                Step::OpenFresh,
                Step::LoadFile,
                Step::MakeTable,
                Step::Commit,
            ];
        },
        Load::WhereAppendable => {
            return vec![
                Step::OptimizeSource,
                Step::OpenAppend,
                Step::LoadFile,
                Step::MakeTable,
                Step::Commit,
            ];
        },
        Load::ThroughTable => {},
    }
    let mut steps: Vec<Step> = Vec::new();
    if create == Create::Nothing {
        return steps;
    }
    if from_query {
        steps.push(Step::OptimizeSource);
        steps.push(Step::RunSource);
    }
    if create == Create::Replace {
        steps.push(Step::DropOld);
    }
    steps.push(Step::MakeTable);
    steps.push(Step::DescribeTable);
    if from_query {
        steps.push(Step::FillTable);
    }
    assert(steps@ =~= create_program(create, from_query, load));
    steps
}

/// The steps that work out the values of the rows that clash, where an update is to be worked out
/// and there are any.
pub open spec fn update_program(clashes: usize, update: bool) -> Seq<Step> {
    if update && clashes > 0 {
        seq![
            Step::MakeExcluded,
            Step::FillExcluded,
            Step::StandInMatched,
            Step::RunUpdate,
            Step::PutBack,
            Step::DropExcluded,
        ]
    } else {
        seq![]
    }
}

/// The steps that work out the values of the rows that clash.
pub fn update_steps(clashes: usize, update: bool) -> (steps: Vec<Step>)
    ensures
        steps@ == update_program(clashes, update),
{
    if update && clashes > 0 {
        vec![
            Step::MakeExcluded,
            Step::FillExcluded,
            Step::StandInMatched,
            Step::RunUpdate,
            Step::PutBack,
            Step::DropExcluded,
        ]
    } else {
        Vec::new()
    }
}

/// The steps that check the rows a write is about to keep.
pub open spec fn check_program(checked: bool) -> Seq<Step> {
    if checked {
        seq![Step::StandInChecked, Step::RunChecks, Step::PutBack, Step::Judge]
    } else {
        seq![]
    }
}

/// The steps that look for what the rows point at and store them.
pub open spec fn store_program(write: Write) -> Seq<Step> {
    match write {
        Write::Append => seq![Step::FindMissing, Step::AppendRows],
        Write::Upsert { updated } => seq![
            Step::FindMissing,
            if updated {
                Step::ReplaceRows
            } else {
                Step::AppendRows
            },
        ],
        Write::Update => seq![Step::FindMissing, Step::FindLost, Step::ReplaceRows],
        Write::Delete => seq![Step::FindLost, Step::ReplaceRows],
    }
}

/// The steps that answer with the rows that were written.
pub open spec fn return_program(returning: bool) -> Seq<Step> {
    if returning {
        seq![Step::StandInWritten, Step::RunReturning, Step::PutBack]
    } else {
        seq![]
    }
}

/// The steps of a write whose rows are known.
pub open spec fn write_program(write: Write, checked: bool, returning: bool) -> Seq<Step> {
    check_program(checked) + store_program(write) + return_program(returning)
}

/// The steps of a write whose rows are known. Rows are checked only where the table has checks and
/// there is a row to check.
pub fn write_steps(write: Write, checks: bool, rows: usize, returning: bool) -> (steps: Vec<Step>)
    ensures
        steps@ == write_program(write, checks && rows > 0, returning),
{
    let mut steps: Vec<Step> = Vec::new();
    if checks && rows > 0 {
        steps.push(Step::StandInChecked);
        steps.push(Step::RunChecks);
        steps.push(Step::PutBack);
        steps.push(Step::Judge);
    }
    assert(steps@ =~= check_program(checks && rows > 0));
    let ghost before = steps@;
    match write {
        Write::Append => {
            steps.push(Step::FindMissing);
            steps.push(Step::AppendRows);
        },
        Write::Upsert { updated } => {
            steps.push(Step::FindMissing);
            if updated {
                steps.push(Step::ReplaceRows);
            } else {
                steps.push(Step::AppendRows);
            }
        },
        Write::Update => {
            steps.push(Step::FindMissing);
            steps.push(Step::FindLost);
            steps.push(Step::ReplaceRows);
        },
        Write::Delete => {
            steps.push(Step::FindLost);
            steps.push(Step::ReplaceRows);
        },
    }
    assert(steps@ =~= before + store_program(write));
    if returning {
        steps.push(Step::StandInWritten);
        steps.push(Step::RunReturning);
        steps.push(Step::PutBack);
    }
    assert(steps@ =~= write_program(write, checks && rows > 0, returning));
    steps
}

/// Whether a step stores rows in a table, in memory or in the file.
pub open spec fn stores(step: Step) -> bool {
    step is AppendRows || step is ReplaceRows || step is FillTable || step is Commit
        || step is DropOld || step is MakeTable
}

/// Whatever step of a write fails, the table that stood in for it gets its own rows back.
pub proof fn law_a_stand_in_is_put_back(write: Write, checked: bool, returning: bool, failed: int)
    requires
        0 <= failed < write_program(write, checked, returning).len(),
        set_up(write_program(write, checked, returning), failed, Step::PutBack),
        !(write_program(write, checked, returning)[failed] is PutBack),
    ensures
        exists|at: int| #[trigger]
            owed(write_program(write, checked, returning), failed, at) && write_program(
                write,
                checked,
                returning,
            )[at] == Step::PutBack,
{
    let steps = write_program(write, checked, returning);
    let o = choose|o: int|
        {
            &&& 0 <= o < failed
            &&& o < steps.len()
            &&& undoes(Step::PutBack, #[trigger] steps[o])
            &&& forall|k: int| o < k < failed ==> steps[k] != Step::PutBack
        };
    let checks = check_program(checked);
    let stored = checks + store_program(write);
    if o < checks.len() {
        assert(steps[o] == checks[o]);
        assert(o == 0);
        assert(steps[2] == checks[2]);
        assert(owed(steps, failed, 2));
    } else if o < stored.len() {
        assert(steps[o] == store_program(write)[o - checks.len()]);
    } else {
        let last = return_program(returning);
        assert(steps[o] == last[o - stored.len()]);
        assert(o == stored.len());
        assert(steps[o + 2] == last[2]);
        assert(steps[o + 1] == last[1]);
        assert(owed(steps, failed, o + 2));
    }
}

/// Whatever step of working an update out fails, the table gets its own rows back and the table the
/// update read the new rows from is gone.
pub proof fn law_an_update_cleans_up(clashes: usize, failed: int)
    requires
        0 < clashes,
        0 <= failed < update_program(clashes, true).len(),
    ensures
        failed == 3 ==> owed(update_program(clashes, true), failed, 4),
        0 < failed < 5 ==> owed(update_program(clashes, true), failed, 5),
        failed < 3 ==> !owed(update_program(clashes, true), failed, 4),
{
    let steps = update_program(clashes, true);
    assert(steps[0] == Step::MakeExcluded);
    assert(steps[2] == Step::StandInMatched);
    assert(steps[4] == Step::PutBack);
    assert(steps[5] == Step::DropExcluded);
    if failed == 3 {
        assert(undoes(Step::PutBack, steps[2]));
        assert(set_up(steps, 3, Step::PutBack));
    }
    if 0 < failed < 5 {
        assert(undoes(Step::DropExcluded, steps[0]));
        assert(set_up(steps, failed, Step::DropExcluded));
    }
}

/// Once a step failed, nothing is stored: the steps that still run only undo what was set up.
pub proof fn law_nothing_is_stored_after_a_failure(steps: Seq<Step>, failed: int, at: int)
    requires
        owed(steps, failed, at),
    ensures
        !stores(steps[at]),
        steps[at] is PutBack || steps[at] is DropExcluded,
{
}

/// Rows are stored only once they passed every check and every foreign key was found: no step that
/// can refuse them comes after the one that stores them.
pub proof fn law_rows_are_stored_after_they_are_checked(
    write: Write,
    checked: bool,
    returning: bool,
    store: int,
    refuse: int,
)
    requires
        0 <= store < write_program(write, checked, returning).len(),
        stores(write_program(write, checked, returning)[store]),
        0 <= refuse < write_program(write, checked, returning).len(),
        ({
            let step = write_program(write, checked, returning)[refuse];
            step is Judge || step is FindMissing || step is FindLost
        }),
    ensures
        refuse < store,
{
    let steps = write_program(write, checked, returning);
    let checks = check_program(checked);
    let stored = checks + store_program(write);
    if store < checks.len() {
        assert(steps[store] == checks[store]);
    } else if store >= stored.len() {
        assert(steps[store] == return_program(returning)[store - stored.len()]);
    } else {
        assert(steps[store] == store_program(write)[store - checks.len()]);
    }
    if refuse >= stored.len() {
        assert(steps[refuse] == return_program(returning)[refuse - stored.len()]);
    } else if refuse >= checks.len() {
        assert(steps[refuse] == store_program(write)[refuse - checks.len()]);
    }
}

/// A table that is replaced by the rows of a query is dropped only after the query has run, and no
/// table is made before its rows are there.
pub proof fn law_a_source_is_read_before_its_table_goes(create: Create, load: Load, at: int)
    requires
        0 <= at < create_program(create, true, load).len(),
        stores(create_program(create, true, load)[at]),
    ensures
        exists|ran: int|
            0 <= ran < at && {
                let step = #[trigger] create_program(create, true, load)[ran];
                step is RunSource || step is LoadFile
            },
{
    let steps = create_program(create, true, load);
    if load is ThroughTable {
        assert(steps[0] == Step::OptimizeSource);
        assert(steps[1] == Step::RunSource);
        assert(0 <= 1 < at);
    } else {
        assert(steps[2] == Step::LoadFile);
        assert(at > 2);
    }
}

/// Rows known, a write stores them once: an append adds them, an update and a delete put what is left
/// in place of what was held, and an append that settles clashes does that only where a row that was
/// held changed. What the rows point at is looked for where rows come in, and what points at them
/// where rows go out, and nothing but the table's own rows is written.
pub proof fn law_a_write_stores_its_rows_once(write: Write, checked: bool, returning: bool) -> (store:
    int)
    ensures
        0 <= store < write_program(write, checked, returning).len(),
        match write {
            Write::Append => write_program(write, checked, returning)[store] is AppendRows,
            Write::Upsert { updated: false } => write_program(write, checked, returning)[store]
                is AppendRows,
            Write::Upsert { updated: true } => write_program(write, checked, returning)[store]
                is ReplaceRows,
            Write::Update | Write::Delete => write_program(write, checked, returning)[store]
                is ReplaceRows,
        },
        forall|i: int|
            0 <= i < write_program(write, checked, returning).len() && i != store ==> {
                let step = #[trigger] write_program(write, checked, returning)[i];
                !(step is AppendRows) && !(step is ReplaceRows) && !(step is FillTable)
                    && !(step is MakeTable) && !(step is DropOld) && !(step is Commit)
            },
        write_program(write, checked, returning).contains(Step::FindMissing) == !(write is Delete),
        write_program(write, checked, returning).contains(Step::FindLost) == (write is Update
            || write is Delete),
{
    let steps = write_program(write, checked, returning);
    let head = check_program(checked).len() as int;
    let stored = store_program(write);
    let tail = head + stored.len();
    assert forall|i: int| 0 <= i < steps.len() implies #[trigger] steps[i] == if i < head {
        check_program(checked)[i]
    } else if i < tail {
        stored[i - head]
    } else {
        return_program(returning)[i - tail]
    } by {}
    if write is Delete {
        assert(steps[head] == Step::FindLost);
    } else {
        assert(steps[head] == Step::FindMissing);
    }
    if write is Update {
        assert(steps[head + 1] == Step::FindLost);
    }
    assert(steps[tail - 1] == stored[stored.len() - 1]);
    tail - 1
}

/// Checked rows are checked before anything else is done: they stand in for the table, the checks run
/// over them, the table gets its own rows back, and then the answers are judged. Rows that need no
/// check are not checked.
pub proof fn law_a_write_begins_with_its_checks(write: Write, checked: bool, returning: bool)
    ensures
        checked ==> write_program(write, checked, returning).len() > 4 && write_program(
            write,
            checked,
            returning,
        )[0] is StandInChecked && write_program(write, checked, returning)[1] is RunChecks
            && write_program(write, checked, returning)[2] is PutBack && write_program(
            write,
            checked,
            returning,
        )[3] is Judge,
        forall|i: int|
            0 <= i < write_program(write, checked, returning).len() && (!checked || i >= 4) ==> {
                let step = #[trigger] write_program(write, checked, returning)[i];
                !(step is StandInChecked) && !(step is RunChecks) && !(step is Judge)
            },
{
    let steps = write_program(write, checked, returning);
    let head = check_program(checked).len() as int;
    let stored = store_program(write);
    let tail = head + stored.len();
    assert forall|i: int| 0 <= i < steps.len() implies #[trigger] steps[i] == if i < head {
        check_program(checked)[i]
    } else if i < tail {
        stored[i - head]
    } else {
        return_program(returning)[i - tail]
    } by {}
}

/// A write that answers with its rows ends by running its list over them, in place of the table, and
/// giving the table its own rows back. One that does not runs no list.
pub proof fn law_a_write_ends_with_its_list(write: Write, checked: bool, returning: bool, store: int)
    requires
        0 <= store < write_program(write, checked, returning).len(),
        ({
            let step = write_program(write, checked, returning)[store];
            step is AppendRows || step is ReplaceRows
        }),
    ensures
        returning ==> write_program(write, checked, returning).len() == store + 4 && write_program(
            write,
            checked,
            returning,
        )[store + 1] is StandInWritten && write_program(write, checked, returning)[store
            + 2] is RunReturning && write_program(write, checked, returning)[store + 3] is PutBack,
        !returning ==> write_program(write, checked, returning).len() == store + 1,
        forall|i: int|
            0 <= i < write_program(write, checked, returning).len() && (!returning || i <= store)
                ==> {
                let step = #[trigger] write_program(write, checked, returning)[i];
                !(step is StandInWritten) && !(step is RunReturning)
            },
{
    let steps = write_program(write, checked, returning);
    let head = check_program(checked).len() as int;
    let stored = store_program(write);
    let tail = head + stored.len();
    assert forall|i: int| 0 <= i < steps.len() implies #[trigger] steps[i] == if i < head {
        check_program(checked)[i]
    } else if i < tail {
        stored[i - head]
    } else {
        return_program(returning)[i - tail]
    } by {}
    assert(steps[store] == if store < head {
        check_program(checked)[store]
    } else if store < tail {
        stored[store - head]
    } else {
        return_program(returning)[store - tail]
    });
    assert(store == tail - 1);
}

/// Where a write puts something in the table's place, where it runs over it, and where it gives the
/// table its rows back.
proof fn lemma_stand_ins(write: Write, checked: bool, returning: bool, tail: int, i: int)
    requires
        tail == check_program(checked).len() + store_program(write).len(),
        0 <= i < write_program(write, checked, returning).len(),
    ensures
        write_program(write, checked, returning).len() == tail + return_program(returning).len(),
        tail >= 2,
        checked ==> tail > 4,
        ({
            let step = write_program(write, checked, returning)[i];
            &&& step is PutBack <==> (checked && i == 2) || (returning && i == tail + 2)
            &&& step is RunChecks || step is RunReturning <==> (checked && i == 1) || (returning && i
                == tail + 1)
            &&& step is StandInMatched || step is StandInChecked || step is StandInWritten <==> (
            checked && i == 0) || (returning && i == tail)
            &&& !(step is MakeExcluded) && !(step is DropExcluded)
        }),
{
    let steps = write_program(write, checked, returning);
    let checks = check_program(checked);
    if i < checks.len() {
        assert(steps[i] == checks[i]);
    } else if i < tail {
        assert(steps[i] == store_program(write)[i - checks.len()]);
    } else {
        assert(steps[i] == return_program(returning)[i - tail]);
    }
}

/// The same of any steps that put something in the table's place just there.
proof fn lemma_put_back(
    steps: Seq<Step>,
    checked: bool,
    returning: bool,
    tail: int,
    failed: int,
    at: int,
)
    requires
        tail >= 2,
        checked ==> tail > 4,
        steps.len() == tail + if returning {
            3int
        } else {
            0
        },
        forall|i: int|
            0 <= i < steps.len() ==> {
                let step = #[trigger] steps[i];
                &&& step is PutBack <==> (checked && i == 2) || (returning && i == tail + 2)
                &&& step is RunChecks || step is RunReturning <==> (checked && i == 1) || (returning
                    && i == tail + 1)
                &&& step is StandInMatched || step is StandInChecked || step is StandInWritten <==> (
                checked && i == 0) || (returning && i == tail)
                &&& !(step is MakeExcluded) && !(step is DropExcluded)
            },
        0 <= failed < steps.len(),
        !(steps[failed] is PutBack),
    ensures
        owed(steps, failed, at) <==> at == failed + 1 && (steps[failed] is RunChecks
            || steps[failed] is RunReturning),
{
    if owed(steps, failed, at) {
        let close = steps[at];
        assert(close is PutBack);
        let o = choose|o: int|
            {
                &&& 0 <= o < failed
                &&& o < steps.len()
                &&& undoes(close, #[trigger] steps[o])
                &&& forall|k: int| o < k < failed ==> steps[k] != close
            };
        assert(steps[o + 2] is PutBack);
        assert(failed == o + 1);
        assert(at == o + 2);
    }
    if at == failed + 1 && (steps[failed] is RunChecks || steps[failed] is RunReturning) {
        assert(undoes(Step::PutBack, steps[failed - 1]));
        assert(set_up(steps, failed, steps[at]));
    }
}

/// In a write only the checks and the list run while something stands in for the table, so the table
/// is given its rows back right after either of them fails, and after no other step.
pub proof fn law_a_failed_write_puts_back_what_stood_in(
    write: Write,
    checked: bool,
    returning: bool,
    failed: int,
    at: int,
)
    requires
        0 <= failed < write_program(write, checked, returning).len(),
        !(write_program(write, checked, returning)[failed] is PutBack),
    ensures
        owed(write_program(write, checked, returning), failed, at) <==> at == failed + 1 && {
            let step = write_program(write, checked, returning)[failed];
            step is RunChecks || step is RunReturning
        },
{
    let steps = write_program(write, checked, returning);
    let tail = (check_program(checked).len() + store_program(write).len()) as int;
    assert forall|i: int| 0 <= i < steps.len() implies {
        let step = #[trigger] steps[i];
        &&& step is PutBack <==> (checked && i == 2) || (returning && i == tail + 2)
        &&& step is RunChecks || step is RunReturning <==> (checked && i == 1) || (returning && i
            == tail + 1)
        &&& step is StandInMatched || step is StandInChecked || step is StandInWritten <==> (checked
            && i == 0) || (returning && i == tail)
        &&& !(step is MakeExcluded) && !(step is DropExcluded)
    } by {
        lemma_stand_ins(write, checked, returning, tail, i);
    }
    lemma_stand_ins(write, checked, returning, tail, failed);
    lemma_put_back(steps, checked, returning, tail, failed, at);
}

/// While an update is worked out, the table that holds the new rows is dropped whatever fails once it
/// is there, and the table the rows stand in for gets its own back where working the values out fails.
/// Nothing else still runs.
pub proof fn law_a_failed_update_drops_what_it_made(clashes: usize, failed: int, at: int)
    requires
        0 < clashes,
        0 <= failed < update_program(clashes, true).len(),
    ensures
        update_program(clashes, true).len() == 6,
        owed(update_program(clashes, true), failed, at) ==> {
            let step = update_program(clashes, true)[at];
            let failure = update_program(clashes, true)[failed];
            ||| step is DropExcluded && !(failure is MakeExcluded) && !(failure is DropExcluded)
            ||| step is PutBack && failure is RunUpdate
        },
        failed < at < 6 && !(update_program(clashes, true)[failed] is MakeExcluded) && update_program(
            clashes,
            true,
        )[at] is DropExcluded ==> owed(update_program(clashes, true), failed, at),
        failed < at < 6 && update_program(clashes, true)[failed] is RunUpdate && update_program(
            clashes,
            true,
        )[at] is PutBack ==> owed(update_program(clashes, true), failed, at),
{
    let steps = update_program(clashes, true);
    law_an_update_cleans_up(clashes, failed);
    assert(steps[0] == Step::MakeExcluded);
    assert(steps[1] == Step::FillExcluded);
    assert(steps[2] == Step::StandInMatched);
    assert(steps[3] == Step::RunUpdate);
    assert(steps[4] == Step::PutBack);
    assert(steps[5] == Step::DropExcluded);
}

/// An update works its values out from the new rows that clash and the held rows they clash with: both
/// are in place before it runs, and both are gone after. Without a clash, or without an update, there
/// is nothing to work out.
pub proof fn law_an_update_reads_what_clashes(clashes: usize, update: bool)
    ensures
        !update || clashes == 0 ==> update_program(clashes, update).len() == 0,
        update && clashes > 0 ==> update_program(clashes, update).len() == 6 && update_program(
            clashes,
            update,
        )[0] is MakeExcluded && update_program(clashes, update)[1] is FillExcluded
            && update_program(clashes, update)[2] is StandInMatched && update_program(
            clashes,
            update,
        )[3] is RunUpdate && update_program(clashes, update)[4] is PutBack && update_program(
            clashes,
            update,
        )[5] is DropExcluded,
{
}

/// Rows bound for the file are planned, a generation of it is begun, they are loaded into it, and only
/// then is the table pointed at them. Rows bound for a table in memory are planned and produced, and
/// the file is left alone.
pub proof fn law_a_load_ends_in_its_commit(load: Load)
    ensures
        load is ThroughTable ==> load_program(load).len() == 2 && load_program(load)[0]
            is OptimizeSource && load_program(load)[1] is RunSource,
        !(load is ThroughTable) ==> load_program(load).len() == 4 && load_program(load)[0]
            is OptimizeSource && load_program(load)[2] is LoadFile && load_program(load)[3] is Commit,
        load is FreshFile ==> load_program(load)[1] is OpenFresh,
        load is WhereAppendable ==> load_program(load)[1] is OpenAppend,
{
}

/// A table is made exactly once, unless it is there already and is to be left alone. One that is made
/// in memory is described after it is made, takes the place of the old one only where it replaces it,
/// after the old one is gone, and is filled, last of all, only where a query gives it its rows.
pub proof fn law_a_table_is_made_once(create: Create, from_query: bool) -> (made: int)
    ensures
        create is Nothing ==> create_program(create, from_query, Load::ThroughTable).len() == 0,
        !(create is Nothing) ==> {
            let steps = create_program(create, from_query, Load::ThroughTable);
            &&& 0 <= made
            &&& made + 1 < steps.len()
            &&& steps[made] is MakeTable
            &&& steps[made + 1] is DescribeTable
            &&& steps.len() == made + if from_query {
                3int
            } else {
                2
            }
            &&& from_query ==> steps[made + 2] is FillTable && steps[0] is OptimizeSource
                && steps[1] is RunSource
            &&& create is Replace ==> made > 0 && steps[made - 1] is DropOld
            &&& made == if from_query {
                2int
            } else {
                0
            } + if create is Replace {
                1int
            } else {
                0
            }
        },
{
    if from_query && create is Replace {
        3
    } else if from_query {
        2
    } else if create is Replace {
        1
    } else {
        0
    }
}

/// A table whose rows go straight into the file is made once they are all in it, and pointed at them
/// after that.
pub proof fn law_a_table_in_the_file_is_made_once_its_rows_are_in(
    create: Create,
    from_query: bool,
    load: Load,
)
    requires
        !(load is ThroughTable),
    ensures
        create_program(create, from_query, load).len() == 5,
        create_program(create, from_query, load)[0] is OptimizeSource,
        load is FreshFile ==> create_program(create, from_query, load)[1] is OpenFresh,
        load is WhereAppendable ==> create_program(create, from_query, load)[1] is OpenAppend,
        create_program(create, from_query, load)[2] is LoadFile,
        create_program(create, from_query, load)[3] is MakeTable,
        create_program(create, from_query, load)[4] is Commit,
{
}

/// A write with a list answers with what the list makes of its rows, and any other with how many rows
/// it wrote: as many as it added, as many as were flagged, or as many as it settled.
pub proof fn law_a_write_answers_with_its_rows_or_their_number(
    write: Write,
    returning: bool,
    added: usize,
    flagged: usize,
    settled: usize,
    answer: Answer,
)
    requires
        call_ensures(write_answer, (write, returning, added, flagged, settled), answer),
    ensures
        returning <==> answer is Returning,
        !returning && write is Append ==> answer == Answer::Changed(added),
        !returning && write is Upsert ==> answer == Answer::Changed(settled),
        !returning && (write is Update || write is Delete) ==> answer == Answer::Changed(flagged),
{
}

/// The changed rows are held on to where anything reads them, and only there.
pub proof fn law_changed_rows_are_kept_for_whoever_reads_them(
    returning: bool,
    checks: bool,
    foreign: bool,
    wanted: bool,
)
    requires
        call_ensures(changed_wanted, (returning, checks, foreign), wanted),
    ensures
        returning ==> wanted,
        checks ==> wanted,
        foreign ==> wanted,
        !returning && !checks && !foreign ==> !wanted,
{
}

/// As long as nothing fails the steps run one after another, to the last.
pub proof fn law_steps_run_in_order(steps: Vec<Step>, at: usize, next: Option<usize>)
    requires
        at < steps@.len(),
        call_ensures(next_step, (&steps, at, None::<usize>), next),
    ensures
        at + 1 < steps@.len() ==> next == Some((at + 1) as usize),
        at + 1 == steps@.len() ==> next is None,
{
}

/// Rows are checked where the table has checks and there are rows: then a write begins with its checks.
pub proof fn law_rows_are_checked_where_there_are_checks(
    write: Write,
    checks: bool,
    rows: usize,
    returning: bool,
    steps: Vec<Step>,
)
    requires
        call_ensures(write_steps, (write, checks, rows, returning), steps),
    ensures
        checks && rows > 0 ==> steps@.len() > 4 && steps@[0] is StandInChecked && steps@[1]
            is RunChecks && steps@[2] is PutBack && steps@[3] is Judge,
        !checks || rows == 0 ==> !steps@.contains(Step::RunChecks),
{
    law_a_write_begins_with_its_checks(write, checks && rows > 0, returning);
}

} // verus!
