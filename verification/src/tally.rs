//! Counting how often each nonzero integer of a column occurs.

use crate::data::{is_exact_layout, layout_of};
use crate::native::{IntegerExtremes, DENSE_SPAN, DISTINCT_MAX};
use crate::types::{About, Error, ErrorCode, Failure, PhysicalType};
use crate::vector::{Body, Vector};
use vstd::prelude::*;

verus! {

/// A count per value: a slot each for values close together, and a sorted list for the rest.
#[derive(Debug)]
pub struct GroupCounts {
    pub dense: Option<(i128, Vec<u64>)>,
    pub sparse: Vec<(i128, u64)>,
}

/// What a list of counts says of a value, zero where it says nothing.
pub open spec fn listed(sparse: Seq<(i128, u64)>, value: int, from: nat) -> nat
    decreases sparse.len() - from,
{
    if from >= sparse.len() {
        0
    } else if sparse[from as int].0 == value {
        sparse[from as int].1 as nat
    } else {
        listed(sparse, value, from + 1)
    }
}

/// Whether a list names its values in order, none of them twice.
pub open spec fn in_key_order(sparse: Seq<(i128, u64)>) -> bool {
    forall|i: int, j: int|
        0 <= i < j < sparse.len() ==> (#[trigger] sparse[i]).0 < (#[trigger] sparse[j]).0
}

proof fn lemma_listed(sparse: Seq<(i128, u64)>, at: int, from: nat)
    requires
        in_key_order(sparse),
        from <= at < sparse.len(),
    ensures
        listed(sparse, sparse[at].0 as int, from) == sparse[at].1,
    decreases at - from,
{
    if from < at {
        assert(sparse[from as int].0 < sparse[at].0);
        lemma_listed(sparse, at, from + 1);
    }
}

proof fn lemma_unlisted(sparse: Seq<(i128, u64)>, value: int, from: nat)
    requires
        forall|i: int| from <= i < sparse.len() ==> (#[trigger] sparse[i]).0 != value,
    ensures
        listed(sparse, value, from) == 0,
    decreases sparse.len() - from,
{
    if from < sparse.len() {
        lemma_unlisted(sparse, value, from + 1);
    }
}

/// How many of the first `count` rows of a flat integer column hold a value.
pub open spec fn rows_with(column: Vector, value: int, count: nat) -> nat
    decreases count,
{
    if count == 0 {
        0
    } else {
        rows_with(column, value, (count - 1) as nat) + if holds(column, count - 1, value) {
            1nat
        } else {
            0nat
        }
    }
}

/// Whether a row of a flat integer column is not null and holds that integer.
pub open spec fn holds(column: Vector, row: int, value: int) -> bool {
    column.validity.valid(row) && (column.body matches Body::Flat(data) && data.integer(row)
        == value)
}

/// Whether a column is laid out as integers of 64 bits or fewer.
pub open spec fn is_tallied(column: Vector) -> bool {
    column.body matches Body::Flat(data) && is_exact_layout(data.layout()) && !(
    data.layout() is Int128)
}

/// Whether one group comes before another: the larger count, and the smaller value of equal counts.
pub open spec fn ranks_before(left: (i128, i64), right: (i128, i64)) -> bool {
    left.1 > right.1 || (left.1 == right.1 && left.0 < right.0)
}

/// Whether groups are in order.
pub open spec fn in_rank_order(groups: Seq<(i128, i64)>) -> bool {
    forall|i: int, j: int|
        0 <= i < j < groups.len() ==> ranks_before(#[trigger] groups[i], #[trigger] groups[j])
}

impl GroupCounts {
    /// Whether a value has a slot of its own.
    pub open spec fn slotted(&self, value: int) -> bool {
        self.dense matches Some((low, slots)) && low <= value < low + slots@.len()
    }

    /// How often a value was counted.
    pub open spec fn count_of(&self, value: int) -> nat {
        if self.slotted(value) {
            self.dense->Some_0.1@[value - self.dense->Some_0.0] as nat
        } else {
            listed(self.sparse@, value, 0)
        }
    }

    pub open spec fn wf(&self) -> bool {
        &&& self.dense matches Some((low, slots)) ==> low + slots@.len() <= i128::MAX
        &&& in_key_order(self.sparse@)
        &&& forall|i: int|
            0 <= i < self.sparse@.len() ==> !self.slotted((#[trigger] self.sparse@[i]).0 as int)
                && self.sparse@[i].0 != 0 && self.sparse@[i].1 > 0
        &&& self.count_of(0) == 0
    }

    /// A counter for a column, given how many distinct values it is known to have and where its
    /// ends are known to be, and `None` for a column better counted elsewhere: one of more than
    /// four thousand distinct values, or one nothing is known of.
    pub fn for_column(distinct: Option<u64>, ends: Option<IntegerExtremes>) -> (counter: Option<
        GroupCounts,
    >)
        ensures
            counter is None <==> (distinct matches Some(count) && count > DISTINCT_MAX) || (
            distinct is None && !(ends matches Some(IntegerExtremes::Values { low, high }) && 0
                <= high - low <= DENSE_SPAN)),
            counter matches Some(counter) ==> counter.wf() && (forall|value: int|
                #[trigger] counter.count_of(value) == 0),
    {
        if let Some(count) = distinct {
            if count > DISTINCT_MAX {
                return None;
            }
        }
        let dense = match ends {
            Some(IntegerExtremes::Values { low, high }) => match high.checked_sub(low) {
                Some(span) if 0 <= span && span <= DENSE_SPAN => {
                    let slots: Vec<u64> = vec![0u64; span as usize + 1];
                    if low > i128::MAX - 4097 {
                        None
                    } else {
                        Some((low, slots))
                    }
                },
                _ => None,
            },
            _ => None,
        };
        let spanned: bool = match ends {
            Some(IntegerExtremes::Values { low, high }) => match high.checked_sub(low) {
                Some(span) => 0 <= span && span <= DENSE_SPAN,
                None => false,
            },
            _ => false,
        };
        if distinct.is_none() && !spanned {
            return None;
        }
        let counter = GroupCounts { dense, sparse: Vec::new() };
        assert forall|value: int| #[trigger] counter.count_of(value) == 0 by {
            lemma_unlisted(counter.sparse@, value, 0);
        }
        Some(counter)
    }

    /// Counts a value that many times more. Zero is not counted.
    pub fn tally(&mut self, value: i128, count: u64)
        requires
            old(self).wf(),
            old(self).count_of(value as int) + count <= u64::MAX,
        ensures
            final(self).wf(),
            forall|v: int|
                #[trigger] final(self).count_of(v) == old(self).count_of(v) + if v == value && v
                    != 0 {
                    count as nat
                } else {
                    0
                },
    {
        if value == 0 || count == 0 {
            return;
        }
        let ghost before = *self;
        let mut width: usize = 0;
        if let Some((low, slots)) = &mut self.dense {
            width = slots.len();
            if let Some(at) = value.checked_sub(*low) {
                if 0 <= at && at < slots.len() as i128 {
                    let slot: usize = at as usize;
                    let held: u64 = slots[slot];
                    slots.set(slot, held + count);
                    proof {
                        assert forall|v: int|
                            #[trigger] self.count_of(v) == before.count_of(v) + if v == value && v
                                != 0 {
                                count as nat
                            } else {
                                0
                            } by {
                            assert(self.slotted(v) == before.slotted(v));
                        }
                        assert forall|i: int| 0 <= i < self.sparse@.len() implies !self.slotted(
                            (#[trigger] self.sparse@[i]).0 as int,
                        ) by {
                            assert(!before.slotted(before.sparse@[i].0 as int));
                        }
                    }
                    return;
                }
            }
        }
        assert(self.dense == before.dense);
        assert(self.dense matches Some((_, slots)) ==> slots@.len() == width);
        assert(!self.slotted(value as int));
        let mut at: usize = 0;
        while at < self.sparse.len() && self.sparse[at].0 < value
            invariant
                at <= self.sparse@.len(),
                *self == before,
                in_key_order(self.sparse@),
                forall|i: int| 0 <= i < at ==> (#[trigger] self.sparse@[i]).0 < value,
            decreases self.sparse.len() - at,
        {
            at += 1;
        }
        if at < self.sparse.len() && self.sparse[at].0 == value {
            let held: u64 = self.sparse[at].1;
            proof {
                lemma_listed(before.sparse@, at as int, 0);
            }
            self.sparse.set(at, (value, held + count));
            proof {
                let old_list = before.sparse@;
                let new_list = self.sparse@;
                assert(in_key_order(new_list)) by {
                    assert forall|i: int, j: int| 0 <= i < j < new_list.len() implies (
                    #[trigger] new_list[i]).0 < (#[trigger] new_list[j]).0 by {
                        assert(old_list[i].0 < old_list[j].0);
                    }
                }
                lemma_listed(new_list, at as int, 0);
                assert forall|v: int| v != value implies #[trigger] listed(new_list, v, 0)
                    == listed(old_list, v, 0) by {
                    lemma_same_elsewhere(old_list, new_list, at as int, v);
                }
                assert forall|v: int|
                    #[trigger] self.count_of(v) == before.count_of(v) + if v == value && v != 0 {
                        count as nat
                    } else {
                        0
                    } by {
                    assert(self.slotted(v) == before.slotted(v));
                }
                assert forall|i: int| 0 <= i < self.sparse@.len() implies !self.slotted(
                    (#[trigger] self.sparse@[i]).0 as int,
                ) && self.sparse@[i].0 != 0 && self.sparse@[i].1 > 0 by {
                    assert(!before.slotted(before.sparse@[i].0 as int));
                }
            }
        } else {
            proof {
                assert forall|i: int| 0 <= i < before.sparse@.len() implies (
                #[trigger] before.sparse@[i]).0 != value by {
                    if i > at {
                        assert(before.sparse@[at as int].0 < before.sparse@[i].0);
                    }
                }
                lemma_unlisted(before.sparse@, value as int, 0);
            }
            self.sparse.insert(at, (value, count));
            proof {
                let old_list = before.sparse@;
                let new_list = self.sparse@;
                assert(new_list =~= old_list.insert(at as int, (value, count)));
                assert(in_key_order(new_list)) by {
                    assert forall|i: int, j: int| 0 <= i < j < new_list.len() implies (
                    #[trigger] new_list[i]).0 < (#[trigger] new_list[j]).0 by {
                        let left = if i > at {
                            i - 1
                        } else {
                            i
                        };
                        let right = if j > at {
                            j - 1
                        } else {
                            j
                        };
                        if i != at && j != at {
                            assert(old_list[left].0 < old_list[right].0);
                        } else if i == at {
                            if right > at {
                                assert(old_list[at as int].0 < old_list[right].0);
                            }
                        }
                    }
                }
                lemma_listed(new_list, at as int, 0);
                assert forall|v: int| v != value implies #[trigger] listed(new_list, v, 0)
                    == listed(old_list, v, 0) by {
                    lemma_same_inserted(old_list, at as int, (value, count), v);
                }
                assert forall|v: int|
                    #[trigger] self.count_of(v) == before.count_of(v) + if v == value && v != 0 {
                        count as nat
                    } else {
                        0
                    } by {
                    assert(self.slotted(v) == before.slotted(v));
                }
                assert forall|i: int| 0 <= i < self.sparse@.len() implies !self.slotted(
                    (#[trigger] self.sparse@[i]).0 as int,
                ) && self.sparse@[i].0 != 0 && self.sparse@[i].1 > 0 by {
                    if i != at {
                        let was = if i > at {
                            i - 1
                        } else {
                            i
                        };
                        assert(new_list[i] == old_list[was]);
                        assert(!before.slotted(before.sparse@[was].0 as int));
                    }
                }
            }
        }
    }

    /// Counts every row of a flat integer column that is neither null nor zero. `false`, with
    /// nothing counted, for a column laid out any other way.
    pub fn count_column(&mut self, column: &Vector) -> (counted: bool)
        requires
            old(self).wf(),
            column.wf(),
            forall|v: int| #[trigger] old(self).count_of(v) + column.len <= u64::MAX,
        ensures
            final(self).wf(),
            counted == is_tallied(*column),
            forall|v: int|
                #[trigger] final(self).count_of(v) == old(self).count_of(v) + if counted && v != 0 {
                    rows_with(*column, v, column.len as nat)
                } else {
                    0
                },
    {
        let data = match &column.body {
            Body::Flat(data) => data,
            _ => return false,
        };
        match layout_of(data) {
            PhysicalType::Int8
            | PhysicalType::Int16
            | PhysicalType::Int32
            | PhysicalType::Int64
            | PhysicalType::UInt8
            | PhysicalType::UInt16
            | PhysicalType::UInt32
            | PhysicalType::UInt64 => {},
            _ => return false,
        }
        let ghost before = *self;
        let mut row: usize = 0;
        while row < column.len
            invariant
                row <= column.len,
                self.wf(),
                column.wf(),
                column.body == Body::Flat(*data),
                is_tallied(*column),
                data.size() == column.len,
                forall|v: int| #[trigger] before.count_of(v) + column.len <= u64::MAX,
                forall|v: int|
                    #[trigger] self.count_of(v) == before.count_of(v) + if v != 0 {
                        rows_with(*column, v, row as nat)
                    } else {
                        0
                    },
            decreases column.len - row,
        {
            let ghost held = *self;
            if column.validity.is_valid(row) {
                if let Some(value) = data.integer_at(row) {
                    proof {
                        lemma_rows_bound(*column, value as int, row as nat);
                        assert(before.count_of(value as int) + column.len <= u64::MAX);
                        assert(self.count_of(value as int) == before.count_of(value as int) + if
                            value != 0 {
                            rows_with(*column, value as int, row as nat)
                        } else {
                            0
                        });
                    }
                    self.tally(value, 1);
                    assert forall|v: int|
                        #[trigger] self.count_of(v) == before.count_of(v) + if v != 0 {
                            rows_with(*column, v, (row + 1) as nat)
                        } else {
                            0
                        } by {
                        assert(self.count_of(v) == held.count_of(v) + if v == value && v != 0 {
                            1nat
                        } else {
                            0
                        });
                        assert(holds(*column, row as int, v) == (v == value));
                    }
                }
            } else {
                assert forall|v: int|
                    #[trigger] self.count_of(v) == before.count_of(v) + if v != 0 {
                        rows_with(*column, v, (row + 1) as nat)
                    } else {
                        0
                    } by {
                    assert(!holds(*column, row as int, v));
                }
            }
            row += 1;
        }
        true
    }

    /// Every value that was counted with its count, the larger counts first and the smaller values
    /// first among equals. A count past what a signed 64 bit integer holds is an error.
    pub fn finish(&self) -> (groups: Result<Vec<(i128, i64)>, Error>)
        requires
            self.wf(),
        ensures
            match groups {
                Ok(groups) => {
                    &&& in_rank_order(groups@)
                    &&& forall|i: int|
                        0 <= i < groups@.len() ==> (#[trigger] groups@[i]).1 > 0 && groups@[i].1
                            == self.count_of(groups@[i].0 as int)
                    &&& forall|v: int|
                        i128::MIN <= v <= i128::MAX && #[trigger] self.count_of(v) > 0 ==> names(
                            groups@,
                            v,
                        )
                },
                Err(error) => error@ == (Failure {
                    code: ErrorCode::Internal,
                    message: "grouped count exceeds BIGINT"@,
                    about: About::Nothing,
                }) && exists|v: int| #[trigger] self.count_of(v) > i64::MAX,
            },
    {
        let mut groups: Vec<(i128, i64)> = Vec::new();
        let mut at: usize = 0;
        while at < self.sparse.len()
            invariant
                at <= self.sparse@.len(),
                self.wf(),
                in_rank_order(groups@),
                forall|i: int|
                    0 <= i < groups@.len() ==> (#[trigger] groups@[i]).1 > 0 && groups@[i].1
                        == self.count_of(groups@[i].0 as int) && !self.slotted(
                        groups@[i].0 as int,
                    ) && (at < self.sparse@.len() ==> groups@[i].0 < self.sparse@[at as int].0),
                forall|k: int|
                    0 <= k < at ==> names(groups@, (#[trigger] self.sparse@[k]).0 as int),
            decreases self.sparse.len() - at,
        {
            let (value, count): (i128, u64) = self.sparse[at];
            proof {
                lemma_listed(self.sparse@, at as int, 0);
                assert(!self.slotted(self.sparse@[at as int].0 as int));
                assert(self.count_of(value as int) == count);
            }
            if count > i64::MAX as u64 {
                return Err(Error::internal("grouped count exceeds BIGINT"));
            }
            let ghost before = groups@;
            insert_group(&mut groups, (value, count as i64));
            proof {
                lemma_still_named(before, groups@, (value, count as i64));
                assert forall|i: int| 0 <= i < groups@.len() implies (#[trigger] groups@[i]).1 > 0
                    && groups@[i].1 == self.count_of(groups@[i].0 as int) && !self.slotted(
                    groups@[i].0 as int,
                ) && (at + 1 < self.sparse@.len() ==> groups@[i].0 < self.sparse@[at + 1].0) by {
                    assert(groups@.contains(groups@[i]));
                    assert(at + 1 < self.sparse@.len() ==> self.sparse@[at as int].0
                        < self.sparse@[at + 1].0);
                    if groups@[i] != (value, count as i64) {
                        assert(before.contains(groups@[i]));
                        let j = choose|j: int| 0 <= j < before.len() && before[j] == groups@[i];
                        assert(before[j].1 > 0);
                    }
                }
                assert forall|k: int| 0 <= k < at + 1 implies names(
                    groups@,
                    (#[trigger] self.sparse@[k]).0 as int,
                ) by {
                    if k < at {
                        assert(names(before, self.sparse@[k].0 as int));
                    }
                }
            }
            at += 1;
        }
        assert forall|v: int|
            i128::MIN <= v <= i128::MAX && !self.slotted(v) && #[trigger] self.count_of(v)
                > 0 implies names(groups@, v) by {
            if forall|i: int|
                0 <= i < self.sparse@.len() ==> (#[trigger] self.sparse@[i]).0 != v {
                lemma_unlisted(self.sparse@, v, 0);
            }
            let k = choose|k: int|
                0 <= k < self.sparse@.len() && (#[trigger] self.sparse@[k]).0 == v;
            assert(names(groups@, self.sparse@[k].0 as int));
        }
        if let Some((low, slots)) = &self.dense {
            let mut slot: usize = 0;
            while slot < slots.len()
                invariant
                    slot <= slots@.len(),
                    self.wf(),
                    self.dense == Some((*low, *slots)),
                    in_rank_order(groups@),
                    forall|i: int|
                        0 <= i < groups@.len() ==> (#[trigger] groups@[i]).1 > 0 && groups@[i].1
                            == self.count_of(groups@[i].0 as int) && (self.slotted(
                            groups@[i].0 as int,
                        ) ==> groups@[i].0 < low + slot),
                    forall|v: int|
                        i128::MIN <= v <= i128::MAX && !self.slotted(v) && #[trigger] self.count_of(
                            v,
                        ) > 0 ==> names(groups@, v),
                    forall|k: int|
                        0 <= k < slot && #[trigger] slots@[k] > 0 ==> names(groups@, low + k),
                decreases slots.len() - slot,
            {
                let count: u64 = slots[slot];
                let value: i128 = *low + slot as i128;
                assert(self.count_of(value as int) == count);
                let ghost before = groups@;
                if count != 0 {
                    if count > i64::MAX as u64 {
                        return Err(Error::internal("grouped count exceeds BIGINT"));
                    }
                    insert_group(&mut groups, (value, count as i64));
                    proof {
                        lemma_still_named(before, groups@, (value, count as i64));
                        assert forall|i: int| 0 <= i < groups@.len() implies (
                        #[trigger] groups@[i]).1 > 0 && groups@[i].1 == self.count_of(
                            groups@[i].0 as int,
                        ) && (self.slotted(groups@[i].0 as int) ==> groups@[i].0 < low + slot
                            + 1) by {
                            assert(groups@.contains(groups@[i]));
                            if groups@[i] != (value, count as i64) {
                                assert(before.contains(groups@[i]));
                                let j = choose|j: int|
                                    0 <= j < before.len() && before[j] == groups@[i];
                                assert(before[j].1 > 0);
                            }
                        }
                    }
                }
                assert forall|k: int| 0 <= k < slot + 1 && #[trigger] slots@[k] > 0 implies names(
                    groups@,
                    low + k,
                ) by {
                    if k < slot {
                        assert(names(before, low + k));
                    }
                }
                slot += 1;
            }
            assert forall|v: int|
                i128::MIN <= v <= i128::MAX && #[trigger] self.count_of(v) > 0 implies names(
                groups@,
                v,
            ) by {
                if self.slotted(v) {
                    assert(slots@[v - *low] > 0);
                    assert(names(groups@, *low + (v - *low)));
                }
            }
        }
        Ok(groups)
    }
}

/// Whether some groups name a value.
pub open spec fn names(groups: Seq<(i128, i64)>, value: int) -> bool {
    exists|i: int| 0 <= i < groups.len() && (#[trigger] groups[i]).0 == value
}

proof fn lemma_still_named(before: Seq<(i128, i64)>, after: Seq<(i128, i64)>, entry: (i128, i64))
    requires
        forall|x: (i128, i64)| #[trigger] after.contains(x) <==> before.contains(x) || x == entry,
    ensures
        names(after, entry.0 as int),
        forall|v: int| #[trigger] names(before, v) ==> names(after, v),
{
    assert(after.contains(entry));
    let at = choose|i: int| 0 <= i < after.len() && after[i] == entry;
    assert(after[at].0 == entry.0);
    assert forall|v: int| #[trigger] names(before, v) implies names(after, v) by {
        let i = choose|i: int| 0 <= i < before.len() && (#[trigger] before[i]).0 == v;
        assert(before.contains(before[i]));
        assert(after.contains(before[i]));
        let j = choose|j: int| 0 <= j < after.len() && after[j] == before[i];
        assert(after[j].0 == v);
    }
}

proof fn lemma_rows_bound(column: Vector, value: int, count: nat)
    ensures
        rows_with(column, value, count) <= count,
    decreases count,
{
    if count > 0 {
        lemma_rows_bound(column, value, (count - 1) as nat);
    }
}

proof fn lemma_same_elsewhere(
    before: Seq<(i128, u64)>,
    after: Seq<(i128, u64)>,
    at: int,
    value: int,
)
    requires
        in_key_order(before),
        in_key_order(after),
        before.len() == after.len(),
        0 <= at < before.len(),
        before[at].0 == after[at].0,
        before[at].0 != value,
        forall|i: int| 0 <= i < before.len() && i != at ==> #[trigger] before[i] == after[i],
    ensures
        listed(after, value, 0) == listed(before, value, 0),
{
    if exists|i: int| 0 <= i < before.len() && (#[trigger] before[i]).0 == value {
        let i = choose|i: int| 0 <= i < before.len() && (#[trigger] before[i]).0 == value;
        assert(before[i] == after[i]);
        lemma_listed(before, i, 0);
        lemma_listed(after, i, 0);
    } else {
        assert forall|i: int| 0 <= i < after.len() implies (#[trigger] after[i]).0 != value by {
            assert(before[i].0 != value);
        }
        lemma_unlisted(before, value, 0);
        lemma_unlisted(after, value, 0);
    }
}

proof fn lemma_same_inserted(
    before: Seq<(i128, u64)>,
    at: int,
    entry: (i128, u64),
    value: int,
)
    requires
        in_key_order(before),
        in_key_order(before.insert(at, entry)),
        0 <= at <= before.len(),
        entry.0 != value,
    ensures
        listed(before.insert(at, entry), value, 0) == listed(before, value, 0),
{
    let after = before.insert(at, entry);
    if exists|i: int| 0 <= i < before.len() && (#[trigger] before[i]).0 == value {
        let i = choose|i: int| 0 <= i < before.len() && (#[trigger] before[i]).0 == value;
        let moved = if i < at {
            i
        } else {
            i + 1
        };
        assert(after[moved] == before[i]);
        lemma_listed(before, i, 0);
        lemma_listed(after, moved, 0);
    } else {
        assert forall|i: int| 0 <= i < after.len() implies (#[trigger] after[i]).0 != value by {
            if i < at {
                assert(before[i].0 != value);
            } else if i > at {
                assert(before[i - 1].0 != value);
            }
        }
        lemma_unlisted(before, value, 0);
        lemma_unlisted(after, value, 0);
    }
}

/// Puts a group where it ranks.
fn insert_group(groups: &mut Vec<(i128, i64)>, entry: (i128, i64))
    requires
        in_rank_order(old(groups)@),
        forall|i: int| 0 <= i < old(groups)@.len() ==> (#[trigger] old(groups)@[i]).0 != entry.0,
    ensures
        in_rank_order(final(groups)@),
        final(groups)@.len() == old(groups)@.len() + 1,
        forall|x: (i128, i64)|
            #[trigger] final(groups)@.contains(x) <==> old(groups)@.contains(x) || x == entry,
{
    let ghost before = groups@;
    let mut at: usize = 0;
    while at < groups.len() && (groups[at].1 > entry.1 || (groups[at].1 == entry.1 && groups[at].0
        < entry.0))
        invariant
            at <= groups@.len(),
            groups@ == before,
            in_rank_order(groups@),
            forall|i: int| 0 <= i < at ==> ranks_before(#[trigger] groups@[i], entry),
        decreases groups.len() - at,
    {
        at += 1;
    }
    groups.insert(at, entry);
    proof {
        let after = groups@;
        assert(after =~= before.insert(at as int, entry));
        assert forall|i: int, j: int| 0 <= i < j < after.len() implies ranks_before(
            #[trigger] after[i],
            #[trigger] after[j],
        ) by {
            let left = if i > at {
                i - 1
            } else {
                i
            };
            let right = if j > at {
                j - 1
            } else {
                j
            };
            if i != at && j != at {
                assert(ranks_before(before[left], before[right]));
            } else if i == at {
                assert(before[at as int].0 != entry.0);
                if right > at {
                    assert(ranks_before(before[at as int], before[right]));
                }
            }
        }
        assert forall|x: (i128, i64)|
            #[trigger] after.contains(x) <==> before.contains(x) || x == entry by {
            if before.contains(x) {
                let i = choose|i: int| 0 <= i < before.len() && before[i] == x;
                assert(after[if i < at {
                    i
                } else {
                    i + 1
                }] == x);
            }
            if x == entry {
                assert(after[at as int] == x);
            }
            if after.contains(x) {
                let i = choose|i: int| 0 <= i < after.len() && after[i] == x;
                if i < at {
                    assert(before[i] == x);
                } else if i > at {
                    assert(before[i - 1] == x);
                }
            }
        }
    }
}

/// Of two groups the one that occurs more often comes first, and of two that occur as often the one of
/// the smaller value.
pub proof fn law_larger_groups_come_first(groups: Seq<(i128, i64)>, i: int, j: int)
    requires
        in_rank_order(groups),
        0 <= i < j < groups.len(),
    ensures
        groups[i].1 >= groups[j].1,
        groups[i].1 == groups[j].1 ==> groups[i].0 < groups[j].0,
{
    assert(ranks_before(groups[i], groups[j]));
}

/// A column is counted row by row: a row adds one to the value it holds, unless it is null, and
/// nothing to any other.
pub proof fn law_a_row_is_counted_under_its_value(column: Vector, value: int, count: nat)
    ensures
        rows_with(column, value, 0) == 0,
        !column.validity.valid(count as int) ==> rows_with(column, value, count + 1) == rows_with(
            column,
            value,
            count,
        ),
        column.validity.valid(count as int) && (column.body matches Body::Flat(data) && data.integer(
            count as int,
        ) == value) ==> rows_with(column, value, count + 1) == rows_with(column, value, count) + 1,
        (column.body matches Body::Flat(data) && data.integer(count as int) != value) ==> rows_with(
            column,
            value,
            count + 1,
        ) == rows_with(column, value, count),
{
}

/// What is counted in a list is counted under the values it names, and nothing under any other.
pub proof fn law_a_list_counts_what_it_names(sparse: Seq<(i128, u64)>, value: int)
    requires
        in_key_order(sparse),
    ensures
        forall|i: int|
            0 <= i < sparse.len() && (#[trigger] sparse[i]).0 == value ==> listed(sparse, value, 0)
                == sparse[i].1,
        (forall|i: int| 0 <= i < sparse.len() ==> (#[trigger] sparse[i]).0 != value) ==> listed(
            sparse,
            value,
            0,
        ) == 0,
{
    if forall|i: int| 0 <= i < sparse.len() ==> (#[trigger] sparse[i]).0 != value {
        lemma_unlisted(sparse, value, 0);
    }
    assert forall|i: int| 0 <= i < sparse.len() && (#[trigger] sparse[i]).0 == value implies listed(
        sparse,
        value,
        0,
    ) == sparse[i].1 by {
        lemma_listed(sparse, i, 0);
    }
}

} // verus!
