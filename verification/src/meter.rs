//! What a statement cost, and the rows it hands out.

use crate::result::{flat_failure, is_flat_chunk, Chunk};
use crate::rows::{all_at_home, all_rows, chunk_rows, lemma_pushed, row_of};
use crate::types::{Error, Failure};
use crate::vector::same_values;
use vstd::prelude::*;

verus! {

/// Who the rows a query produced are for, which is what decides whether they are flattened.
#[derive(Debug, Clone, Copy, PartialEq, Eq, Structural)]
pub enum Rows {
    /// Going out of the engine, so every column is flattened on the way.
    ForACaller,
    /// Going into a table, so nothing is copied.
    ForATable,
}

/// What a statement spent before there was a plan to build, in nanoseconds.
#[derive(Debug, Clone, Copy, PartialEq, Eq, Structural)]
pub struct Planning {
    pub parse_ns: u64,
    pub bind_ns: u64,
    pub optimize_ns: u64,
}

/// What a statement cost, in nanoseconds.
#[derive(Debug, Clone, Copy, PartialEq, Eq, Structural)]
pub struct Timing {
    pub parse_ns: u64,
    pub bind_ns: u64,
    pub optimize_ns: u64,
    pub physical_ns: u64,
    pub execute_ns: u64,
    pub total_ns: u64,
    pub cpu_ns: u64,
    pub build_cpu_ns: u64,
}

/// A count no further than the largest.
pub open spec fn clamped(count: int) -> u64 {
    if count > u64::MAX {
        u64::MAX
    } else {
        count as u64
    }
}

impl Planning {
    /// Everything before the physical build.
    pub fn total_ns(self) -> (total: u64)
        ensures
            total == clamped(self.parse_ns + self.bind_ns + self.optimize_ns),
    {
        self.parse_ns.saturating_add(self.bind_ns).saturating_add(self.optimize_ns)
    }

    /// The cost of a statement that was planned, built and run: the build and the run each as wall
    /// and processor time, and what the workers burned besides.
    pub fn timing(self, built: (u64, u64), ran: (u64, u64), workers: u64) -> (timing: Timing)
        ensures
            timing.parse_ns == self.parse_ns,
            timing.bind_ns == self.bind_ns,
            timing.optimize_ns == self.optimize_ns,
            timing.physical_ns == built.0,
            timing.execute_ns == ran.0,
            timing.total_ns == clamped(
                self.parse_ns + self.bind_ns + self.optimize_ns + built.0 + ran.0,
            ),
            timing.cpu_ns == clamped(built.1 + ran.1 + workers),
            timing.build_cpu_ns == built.1,
    {
        let total: u64 = self.total_ns().saturating_add(built.0).saturating_add(ran.0);
        let ran_cpu: u64 = ran.1.saturating_add(workers);
        Timing {
            parse_ns: self.parse_ns,
            bind_ns: self.bind_ns,
            optimize_ns: self.optimize_ns,
            physical_ns: built.0,
            execute_ns: ran.0,
            total_ns: total,
            cpu_ns: built.1.saturating_add(ran_cpu),
            build_cpu_ns: built.1,
        }
    }
}

/// Nanoseconds as a profile counts them.
pub fn elapsed_ns(nanoseconds: u128) -> (count: u64)
    ensures
        count == clamped(nanoseconds as int),
{
    if nanoseconds > u64::MAX as u128 {
        u64::MAX
    } else {
        nanoseconds as u64
    }
}

/// Flattening a chunk changes no row of it.
proof fn lemma_flat_rows(flat: Chunk, chunk: Chunk)
    requires
        flat.len == chunk.len,
        flat.columns@.len() == chunk.columns@.len(),
        forall|c: int|
            0 <= c < flat.columns@.len() ==> same_values(
                #[trigger] flat.columns@[c],
                chunk.columns@[c],
            ),
    ensures
        chunk_rows(flat) == chunk_rows(chunk),
{
    assert forall|r: int| 0 <= r < chunk.len implies chunk_rows(flat)[r] == chunk_rows(chunk)[r] by {
        let left = row_of(flat, r, flat.columns@.len());
        let right = row_of(chunk, r, chunk.columns@.len());
        assert forall|c: int| 0 <= c < left.len() implies left[c] == right[c] by {
            assert(same_values(flat.columns@[c], chunk.columns@[c]));
        }
        assert(left =~= right);
    }
    assert(chunk_rows(flat) =~= chunk_rows(chunk));
}

/// Whether chunks are the first `count` of a query's that have rows: each as it came where the rows
/// go into a table, and each laid out flat where they go out of the engine.
pub open spec fn collected_from(
    chunks: Seq<Chunk>,
    produced: Seq<Chunk>,
    going: Rows,
    count: nat,
) -> bool
    decreases count,
{
    if count == 0 {
        chunks.len() == 0
    } else {
        let whole = produced[count - 1];
        if whole.len == 0 {
            collected_from(chunks, produced, going, (count - 1) as nat)
        } else {
            &&& chunks.len() > 0
            &&& collected_from(chunks.drop_last(), produced, going, (count - 1) as nat)
            &&& match going {
                Rows::ForACaller => is_flat_chunk(chunks.last(), whole.columns@, whole.len as int),
                Rows::ForATable => chunks.last().columns@ == whole.columns@ && chunks.last().len
                    == whole.len,
            }
        }
    }
}

/// Why the chunks of a query from `at` on cannot be collected: the first that has rows and does not
/// lay out flat, where they go out of the engine.
pub open spec fn collect_failure(produced: Seq<Chunk>, going: Rows, at: nat) -> Option<Failure>
    decreases produced.len() - at,
{
    if at >= produced.len() || going is ForATable {
        None
    } else if produced[at as int].len > 0 && flat_failure(produced[at as int].columns@, 0) is Some {
        flat_failure(produced[at as int].columns@, 0)
    } else {
        collect_failure(produced, going, at + 1)
    }
}

/// The chunks of a result: the ones with rows, flattened where they go out of the engine.
pub fn collected(produced: Vec<Chunk>, going: Rows) -> (chunks: Result<Vec<Chunk>, Error>)
    requires
        forall|i: int| 0 <= i < produced@.len() ==> (#[trigger] produced@[i]).wf(),
    ensures
        match chunks {
            Ok(chunks) => {
                &&& collect_failure(produced@, going, 0) is None
                &&& collected_from(chunks@, produced@, going, produced@.len())
                &&& forall|i: int|
                    0 <= i < chunks@.len() ==> (#[trigger] chunks@[i]).wf() && chunks@[i].len > 0
                &&& all_at_home(produced@) || going is ForATable ==> all_rows(chunks@, chunks@.len())
                    == all_rows(produced@, produced@.len())
            },
            Err(error) => collect_failure(produced@, going, 0) == Some(error@),
        },
{
    let mut chunks: Vec<Chunk> = Vec::new();
    let mut at: usize = 0;
    while at < produced.len()
        invariant
            at <= produced@.len(),
            forall|i: int| 0 <= i < produced@.len() ==> (#[trigger] produced@[i]).wf(),
            collect_failure(produced@, going, 0) == collect_failure(produced@, going, at as nat),
            collected_from(chunks@, produced@, going, at as nat),
            forall|i: int|
                0 <= i < chunks@.len() ==> (#[trigger] chunks@[i]).wf() && chunks@[i].len > 0,
            all_at_home(produced@) || going is ForATable ==> all_rows(chunks@, chunks@.len())
                == all_rows(produced@, at as nat),
        decreases produced.len() - at,
    {
        assert(produced@[at as int].wf());
        assert(all_at_home(produced@) ==> produced@[at as int].at_home());
        if produced[at].is_empty() {
            assert(chunk_rows(produced@[at as int]) =~= seq![]);
            assert(all_rows(produced@, (at + 1) as nat) =~= all_rows(produced@, at as nat));
            at += 1;
            continue;
        }
        let whole = produced[at].first_columns(produced[at].width());
        assert(whole.columns@ =~= produced@[at as int].columns@);
        assert(chunk_rows(whole) =~= chunk_rows(produced@[at as int])) by {
            assert forall|r: int| 0 <= r < whole.len implies chunk_rows(whole)[r] == chunk_rows(
                produced@[at as int],
            )[r] by {
                assert(chunk_rows(whole)[r] =~= chunk_rows(produced@[at as int])[r]);
            }
        }
        proof {
            if produced@[at as int].at_home() {
                assert forall|c: int| 0 <= c < whole.columns@.len() implies (
                #[trigger] whole.columns@[c]).at_home() by {
                    assert(produced@[at as int].columns@[c].at_home());
                }
            }
        }
        let chunk = match going {
            Rows::ForACaller => match whole.into_flat() {
                Ok(flat) => {
                    proof {
                        if whole.at_home() {
                            lemma_flat_rows(flat, whole);
                        }
                    }
                    flat
                },
                Err(error) => return Err(error),
            },
            Rows::ForATable => whole,
        };
        proof {
            lemma_pushed(chunks@, chunk);
            assert(chunks@.push(chunk).drop_last() =~= chunks@);
        }
        chunks.push(chunk);
        at += 1;
    }
    Ok(chunks)
}

/// A count is itself up to the largest there is, and the largest past that.
pub proof fn law_a_count_stops_at_the_largest(count: int)
    requires
        count >= 0,
    ensures
        count <= 0xffff_ffff_ffff_ffff ==> clamped(count) == count,
        count > 0xffff_ffff_ffff_ffff ==> clamped(count) == 0xffff_ffff_ffff_ffff,
{
}

/// The chunks of a result are the chunks with rows that the query produced, in order and each with all
/// its rows: as they came where they go into a table, and of the same types where they go out.
pub proof fn law_a_result_is_the_chunks_that_have_rows(
    chunks: Seq<Chunk>,
    produced: Seq<Chunk>,
    going: Rows,
    count: nat,
) -> (from: Seq<int>)
    requires
        count <= produced.len(),
        collected_from(chunks, produced, going, count),
    ensures
        from.len() == chunks.len(),
        forall|k: int| 0 <= k < from.len() ==> 0 <= #[trigger] from[k] < count,
        forall|j: int, k: int| 0 <= j < k < from.len() ==> #[trigger] from[j] < #[trigger] from[k],
        forall|i: int| 0 <= i < count && (#[trigger] produced[i]).len > 0 ==> from.contains(i),
        forall|k: int|
            0 <= k < from.len() ==> {
                let whole = produced[#[trigger] from[k]];
                &&& whole.len > 0
                &&& chunks[k].len == whole.len
                &&& chunks[k].columns@.len() == whole.columns@.len()
                &&& going is ForATable ==> chunks[k].columns@ == whole.columns@
            },
    decreases count,
{
    if count == 0 {
        Seq::empty()
    } else if produced[count - 1].len == 0 {
        law_a_result_is_the_chunks_that_have_rows(chunks, produced, going, (count - 1) as nat)
    } else {
        let less = chunks.drop_last();
        let before = law_a_result_is_the_chunks_that_have_rows(
            less,
            produced,
            going,
            (count - 1) as nat,
        );
        let from = before.push(count - 1);
        assert forall|i: int|
            0 <= i < count && (#[trigger] produced[i]).len > 0 implies from.contains(i) by {
            if i < count - 1 {
                assert(before.contains(i));
                let k = choose|k: int| 0 <= k < before.len() && before[k] == i;
                assert(from[k] == i);
            } else {
                assert(from[from.len() - 1] == i);
            }
        }
        assert forall|k: int| 0 <= k < from.len() implies {
            let whole = produced[#[trigger] from[k]];
            &&& whole.len > 0
            &&& chunks[k].len == whole.len
            &&& chunks[k].columns@.len() == whole.columns@.len()
            &&& going is ForATable ==> chunks[k].columns@ == whole.columns@
        } by {
            if k < before.len() {
                assert(from[k] == before[k]);
                assert(less[k] == chunks[k]);
            }
        }
        from
    }
}

/// Rows that go into a table are never laid out, so nothing about that can fail. Rows that go out fail
/// only where a chunk with rows does not lay out, and then as the first such chunk does.
pub proof fn law_only_rows_that_go_out_fail_to_be_laid_out(
    produced: Seq<Chunk>,
    going: Rows,
    at: nat,
)
    ensures
        going is ForATable ==> collect_failure(produced, going, at) is None,
        going is ForACaller && collect_failure(produced, going, at) is None ==> forall|i: int|
            at <= i < produced.len() && (#[trigger] produced[i]).len > 0 ==> flat_failure(
                produced[i].columns@,
                0,
            ) is None,
        going is ForACaller && collect_failure(produced, going, at) is Some ==> exists|i: int|
            at <= i < produced.len() && (#[trigger] produced[i]).len > 0 && flat_failure(
                produced[i].columns@,
                0,
            ) == collect_failure(produced, going, at),
    decreases produced.len() - at,
{
    if at < produced.len() && going is ForACaller {
        law_only_rows_that_go_out_fail_to_be_laid_out(produced, going, at + 1);
        if collect_failure(produced, going, at) is Some && !(produced[at as int].len > 0
            && flat_failure(produced[at as int].columns@, 0) is Some) {
            let i = choose|i: int|
                at + 1 <= i < produced.len() && (#[trigger] produced[i]).len > 0 && flat_failure(
                    produced[i].columns@,
                    0,
                ) == collect_failure(produced, going, at + 1);
            assert(produced[i].len > 0);
        }
    }
}

/// What a statement cost is the sum of its parts: the wall time of planning, building and running it,
/// and the processor time of building and running it and of its workers.
pub proof fn law_a_cost_is_the_sum_of_its_parts(
    planning: Planning,
    built: (u64, u64),
    ran: (u64, u64),
    workers: u64,
    total: u64,
    timing: Timing,
)
    requires
        call_ensures(Planning::total_ns, (planning,), total),
        call_ensures(Planning::timing, (planning, built, ran, workers), timing),
    ensures
        planning.parse_ns + planning.bind_ns + planning.optimize_ns <= u64::MAX ==> total
            == planning.parse_ns + planning.bind_ns + planning.optimize_ns,
        planning.parse_ns + planning.bind_ns + planning.optimize_ns + built.0 + ran.0 <= u64::MAX
            ==> timing.total_ns == total + timing.physical_ns + timing.execute_ns,
        built.1 + ran.1 + workers <= u64::MAX ==> timing.cpu_ns == timing.build_cpu_ns + ran.1
            + workers,
        timing.physical_ns == built.0 && timing.execute_ns == ran.0 && timing.build_cpu_ns
            == built.1,
        timing.parse_ns == planning.parse_ns && timing.bind_ns == planning.bind_ns
            && timing.optimize_ns == planning.optimize_ns,
{
}

} // verus!
