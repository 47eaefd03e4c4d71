//! Text: the bytes of string columns, and sources that keep them somewhere else.

use crate::types::{copy_bytes, About, Error, ErrorCode, Failure};
use vstd::prelude::*;
use vstd::utf8::{char_is_scalar, encode_scalar, encode_utf8, is_scalar};

verus! {

/// What reading one position of a source comes to: its bytes, no value there, or a failure.
pub type Read = Result<Option<Seq<u8>>, Failure>;

/// The bytes a read stands for where no value reads as no bytes.
pub open spec fn bytes_or_empty(read: Read) -> Seq<u8> {
    match read {
        Ok(Some(bytes)) => bytes,
        _ => Seq::empty(),
    }
}

/// Whether an answer is what a read came to.
pub open spec fn answers(got: Result<Option<&[u8]>, Error>, read: Read) -> bool {
    match got {
        Ok(Some(bytes)) => read == Ok::<Option<Seq<u8>>, Failure>(Some(bytes@)),
        Ok(None) => read == Ok::<Option<Seq<u8>>, Failure>(None),
        Err(error) => read == Err::<Option<Seq<u8>>, Failure>(error@),
    }
}

/// Whether a length is the one of the bytes a read came to. A source may know the length of a
/// value whose bytes it cannot read, and where it does not it fails as the read does.
pub open spec fn length_answers(got: Result<Option<usize>, Error>, read: Read) -> bool {
    match read {
        Ok(Some(bytes)) => got matches Ok(Some(len)) && len == bytes.len(),
        Ok(None) => got == Ok::<Option<usize>, Error>(None),
        Err(failure) => got matches Err(error) ==> error@ == failure,
    }
}

/// Whether a place is among those visited.
pub open spec fn visits(seen: Seq<(usize, Vec<u8>)>, place: int) -> bool {
    exists|k: int| 0 <= k < seen.len() && (#[trigger] seen[k]).0 == place
}

/// A count as a column of 64 bit lengths holds it.
pub open spec fn as_length(count: nat) -> i64 {
    if count <= i64::MAX {
        count as i64
    } else {
        i64::MAX
    }
}

/// Whether a byte starts a character, which every byte that continues one does not.
pub open spec fn starts_character(byte: u8) -> bool {
    byte < 0x80 || byte >= 0xc0
}

/// How many characters some bytes hold, counted by the bytes that start one.
pub open spec fn character_count(bytes: Seq<u8>) -> nat
    decreases bytes.len(),
{
    if bytes.len() == 0 {
        0
    } else {
        character_count(bytes.drop_last()) + if starts_character(bytes.last()) {
            1nat
        } else {
            0nat
        }
    }
}

/// Whether `left` comes before `right` when bytes are compared one after another.
pub open spec fn sorts_before(left: Seq<u8>, right: Seq<u8>) -> bool
    decreases left.len(),
{
    if right.len() == 0 {
        false
    } else if left.len() == 0 {
        true
    } else {
        left[0] < right[0] || (left[0] == right[0] && sorts_before(
            left.drop_first(),
            right.drop_first(),
        ))
    }
}

/// Whether values are in order with none repeated.
pub open spec fn strictly_sorted(values: Seq<Seq<u8>>) -> bool {
    forall|i: int, j: int|
        0 <= i < j < values.len() ==> sorts_before(#[trigger] values[i], #[trigger] values[j])
}

/// Where one value is against another in the order of their bytes.
#[derive(Debug, Clone, Copy, PartialEq, Eq, Structural)]
pub enum Standing {
    Less,
    Equal,
    Greater,
}

/// How one value stands against another.
pub open spec fn standing(value: Seq<u8>, wanted: Seq<u8>) -> Standing {
    if value == wanted {
        Standing::Equal
    } else if sorts_before(value, wanted) {
        Standing::Less
    } else {
        Standing::Greater
    }
}

/// Whether `literal` is somewhere in `bytes`.
pub open spec fn holds_literal(bytes: Seq<u8>, literal: Seq<u8>) -> bool {
    exists|at: int|
        0 <= at && at + literal.len() <= bytes.len() && #[trigger] bytes.subrange(
            at,
            at + literal.len(),
        ) == literal
}

/// The order of bytes is transitive.
pub proof fn lemma_order_transitive(a: Seq<u8>, b: Seq<u8>, c: Seq<u8>)
    requires
        sorts_before(a, b),
        sorts_before(b, c),
    ensures
        sorts_before(a, c),
    decreases a.len(),
{
    if a.len() > 0 && a[0] == b[0] && b[0] == c[0] {
        lemma_order_transitive(a.drop_first(), b.drop_first(), c.drop_first());
    }
}

/// No value comes before itself.
pub proof fn lemma_order_irreflexive(a: Seq<u8>)
    ensures
        !sorts_before(a, a),
    decreases a.len(),
{
    if a.len() > 0 {
        lemma_order_irreflexive(a.drop_first());
    }
}

/// Of two different values one comes before the other.
pub proof fn lemma_order_total(a: Seq<u8>, b: Seq<u8>)
    ensures
        a == b || sorts_before(a, b) || sorts_before(b, a),
    decreases a.len(),
{
    if a.len() > 0 && b.len() > 0 {
        if a[0] == b[0] {
            lemma_order_total(a.drop_first(), b.drop_first());
            if a.drop_first() == b.drop_first() {
                assert(a =~= seq![a[0]] + a.drop_first());
                assert(b =~= seq![b[0]] + b.drop_first());
            }
        }
    } else if a.len() == 0 && b.len() == 0 {
        assert(a =~= b);
    }
}

/// How many characters some bytes hold.
pub fn count_characters(bytes: &[u8]) -> (count: usize)
    ensures
        count == character_count(bytes@),
        count <= bytes@.len(),
{
    let mut count: usize = 0;
    let mut at: usize = 0;
    while at < bytes.len()
        invariant
            at <= bytes.len(),
            count <= at,
            count == character_count(bytes@.subrange(0, at as int)),
        decreases bytes.len() - at,
    {
        proof {
            let upto = bytes@.subrange(0, at + 1);
            assert(upto.drop_last() =~= bytes@.subrange(0, at as int));
        }
        if bytes[at] < 0x80 || bytes[at] >= 0xc0 {
            count += 1;
        }
        at += 1;
    }
    assert(bytes@.subrange(0, at as int) =~= bytes@);
    count
}

/// How `left` stands against `right`, byte by byte.
pub fn compare_bytes(left: &[u8], right: &[u8]) -> (order: Standing)
    ensures
        order == standing(left@, right@),
{
    let mut at: usize = 0;
    assert(left@.skip(0) =~= left@);
    assert(right@.skip(0) =~= right@);
    while at < left.len() && at < right.len()
        invariant
            at <= left.len(),
            at <= right.len(),
            left@.subrange(0, at as int) == right@.subrange(0, at as int),
            sorts_before(left@, right@) == sorts_before(left@.skip(at as int), right@.skip(at as int)),
        decreases left.len() - at,
    {
        proof {
            assert(left@.skip(at as int).drop_first() =~= left@.skip(at + 1));
            assert(right@.skip(at as int).drop_first() =~= right@.skip(at + 1));
        }
        if left[at] < right[at] {
            assert(left@[at as int] != right@[at as int]);
            return Standing::Less;
        }
        if left[at] > right[at] {
            assert(left@[at as int] != right@[at as int]);
            return Standing::Greater;
        }
        assert(left@.subrange(0, at + 1) =~= left@.subrange(0, at as int).push(left@[at as int]));
        assert(right@.subrange(0, at + 1) =~= right@.subrange(0, at as int).push(right@[at as int]));
        at += 1;
    }
    if left.len() == right.len() {
        assert(left@ =~= left@.subrange(0, at as int));
        assert(right@ =~= right@.subrange(0, at as int));
        Standing::Equal
    } else if left.len() < right.len() {
        Standing::Less
    } else {
        Standing::Greater
    }
}

/// The refusal to compare a rank of a source that has no sorted order.
pub open spec fn unsorted_compare() -> Failure {
    Failure {
        code: ErrorCode::Internal,
        message: "a text source without a sorted order was asked to compare a rank"@,
        about: About::Nothing,
    }
}

/// The refusal of a rank of a source that has no sorted order.
pub open spec fn unsorted_rank() -> Failure {
    Failure {
        code: ErrorCode::Internal,
        message: "a text source without a sorted order was asked for a rank"@,
        about: About::Nothing,
    }
}

/// Random access to immutable text kept by a storage reader.
///
/// A source answers for a position the same way every time it is asked, a position that cannot be
/// read included. What comes of reading one is [`TextSource::reads`].
pub trait TextSource {
    /// How many positions there are.
    spec fn count(&self) -> nat;

    /// What comes of reading a position.
    spec fn reads(&self, index: int) -> Read;

    /// The values in the order of their bytes, for a source that knows it.
    spec fn sorted(&self) -> Option<Seq<Seq<u8>>>;

    /// Which position holds the value of a rank.
    spec fn code_of_rank(&self, rank: int) -> u32;

    /// What comes of comparing the value of a rank with some bytes, when that fails.
    spec fn probe_failure(&self, rank: int, wanted: Seq<u8>) -> Option<Failure>;

    /// What comes of asking which position holds the value of a rank, when that fails.
    spec fn rank_failure(&self, rank: int) -> Option<Failure>;

    /// Whether the rank of every value is handed over as a whole.
    spec fn hands_ranks_over(&self) -> bool;

    /// Which block of the payload a position is in.
    spec fn block_of(&self, index: int) -> int;

    /// What a block answers when it is asked whether it might contain some bytes.
    spec fn block_answers(&self, first: int, literal: Seq<u8>) -> Result<bool, Failure>;

    /// Number of values available.
    fn len(&self) -> (len: usize)
        ensures
            len == self.count(),
    ;

    /// Whether this source has no values.
    fn is_empty(&self) -> (empty: bool)
        ensures
            empty == (self.count() == 0),
    {
        self.len() == 0
    }

    /// Bytes at one position, or no value when the position is outside the source.
    fn bytes_at(&self, index: usize) -> (bytes: Result<Option<&[u8]>, Error>)
        ensures
            answers(bytes, self.reads(index as int)),
            bytes matches Ok(None) <==> index >= self.count(),
    ;

    /// Byte length at one position without requiring the payload when the source has an index.
    fn bytes_len_at(&self, index: usize) -> (len: Result<Option<usize>, Error>)
        ensures
            length_answers(len, self.reads(index as int)),
    {
        match self.bytes_at(index) {
            Ok(Some(bytes)) => Ok(Some(bytes.len())),
            Ok(None) => Ok(None),
            Err(error) => Err(error),
        }
    }

    /// The byte length at each of `indices`, appended to `into` in the same order, and zero for a
    /// position the source does not have.
    fn bytes_lens_at(&self, indices: &[u32], into: &mut Vec<i64>) -> (done: Result<(), Error>)
        ensures
            done is Ok ==> final(into)@.len() == old(into)@.len() + indices@.len(),
            done is Ok ==> forall|i: int|
                0 <= i < old(into)@.len() ==> final(into)@[i] == #[trigger] old(into)@[i],
            done is Ok ==> forall|i: int|
                0 <= i < indices@.len() && (#[trigger] self.reads(indices@[i] as int) is Ok)
                    ==> final(into)@[old(into)@.len() + i] == as_length(
                    bytes_or_empty(self.reads(indices@[i] as int)).len(),
                ),
            done matches Err(error) ==> exists|i: int|
                0 <= i < indices@.len() && #[trigger] self.reads(indices@[i] as int) == Err::<
                    Option<Seq<u8>>,
                    Failure,
                >(error@),
    {
        let ghost before = into@;
        let mut at: usize = 0;
        while at < indices.len()
            invariant
                at <= indices.len(),
                into@.len() == before.len() + at,
                forall|i: int| 0 <= i < before.len() ==> into@[i] == #[trigger] before[i],
                forall|i: int|
                    0 <= i < at && (#[trigger] self.reads(indices@[i] as int) is Ok)
                        ==> into@[before.len() + i] == as_length(
                        bytes_or_empty(self.reads(indices@[i] as int)).len(),
                    ),
            decreases indices.len() - at,
        {
            match self.bytes_len_at(indices[at] as usize) {
                Ok(Some(len)) => into.push(length_of(len)),
                Ok(None) => into.push(0),
                Err(error) => {
                    assert(self.reads(indices@[at as int] as int) == Err::<
                        Option<Seq<u8>>,
                        Failure,
                    >(error@));
                    return Err(error);
                },
            }
            at += 1;
        }
        Ok(())
    }

    /// The length in characters at each of `indices`, appended to `into` in the same order, and
    /// zero for a position the source does not have.
    fn chars_lens_at(&self, indices: &[u32], into: &mut Vec<i64>) -> (done: Result<(), Error>)
        ensures
            done is Ok ==> final(into)@.len() == old(into)@.len() + indices@.len(),
            done is Ok ==> forall|i: int|
                0 <= i < old(into)@.len() ==> final(into)@[i] == #[trigger] old(into)@[i],
            done is Ok ==> forall|i: int|
                0 <= i < indices@.len() && (#[trigger] self.reads(indices@[i] as int) is Ok)
                    ==> final(into)@[old(into)@.len() + i] == as_length(
                    character_count(bytes_or_empty(self.reads(indices@[i] as int))),
                ),
            done matches Err(error) ==> exists|i: int|
                0 <= i < indices@.len() && #[trigger] self.reads(indices@[i] as int) == Err::<
                    Option<Seq<u8>>,
                    Failure,
                >(error@),
    {
        let ghost before = into@;
        let mut at: usize = 0;
        while at < indices.len()
            invariant
                at <= indices.len(),
                into@.len() == before.len() + at,
                forall|i: int| 0 <= i < before.len() ==> into@[i] == #[trigger] before[i],
                forall|i: int|
                    0 <= i < at && (#[trigger] self.reads(indices@[i] as int) is Ok)
                        ==> into@[before.len() + i] == as_length(
                        character_count(bytes_or_empty(self.reads(indices@[i] as int))),
                    ),
            decreases indices.len() - at,
        {
            match self.bytes_at(indices[at] as usize) {
                Ok(Some(bytes)) => into.push(length_of(count_characters(bytes))),
                Ok(None) => into.push(0),
                Err(error) => {
                    assert(self.reads(indices@[at as int] as int) == Err::<
                        Option<Seq<u8>>,
                        Failure,
                    >(error@));
                    return Err(error);
                },
            }
            at += 1;
        }
        Ok(())
    }

    /// The values from `first` up to at most `limit`, and one past the last of them.
    ///
    /// A source hands over as much as it had to decode anyway and keeps none of it. The answer is
    /// above `first` where `first` is a value this source has, so a loop on it finishes.
    fn sweep(&self, first: usize, limit: usize) -> (swept: Result<(usize, Vec<Vec<u8>>), Error>)
        ensures
            swept matches Ok((stop, seen)) ==> {
                &&& (first >= limit || first >= self.count()) ==> stop == first
                &&& (first < limit && first < self.count()) ==> first < stop <= limit && stop
                    <= self.count()
                &&& seen@.len() == stop - first
                &&& forall|i: int|
                    0 <= i < seen@.len() ==> (#[trigger] seen@[i])@ == bytes_or_empty(
                        self.reads(first + i),
                    ) && self.reads(first + i) is Ok
            },
            swept matches Err(error) ==> exists|i: int|
                first <= i < limit && i < self.count() && #[trigger] self.reads(i) == Err::<
                    Option<Seq<u8>>,
                    Failure,
                >(error@),
    {
        let mut seen: Vec<Vec<u8>> = Vec::new();
        if first >= limit || first >= self.len() {
            return Ok((first, seen));
        }
        match self.bytes_at(first) {
            Ok(Some(bytes)) => seen.push(copy_bytes(bytes)),
            Ok(None) => {
                let none: Vec<u8> = Vec::new();
                assert(none@ =~= Seq::<u8>::empty());
                seen.push(none);
            },
            Err(error) => {
                assert(self.reads(first as int) == Err::<Option<Seq<u8>>, Failure>(error@));
                return Err(error);
            },
        }
        Ok((first + 1, seen))
    }

    /// The value at each of `indices`, in whatever order suits the source, each with the place in
    /// `indices` it belongs to. A position the source does not have gets the empty value.
    fn visit_at(&self, indices: &[u32]) -> (visited: Result<Vec<(usize, Vec<u8>)>, Error>)
        ensures
            visited matches Ok(seen) ==> {
                &&& seen@.len() == indices@.len()
                &&& forall|k: int|
                    0 <= k < seen@.len() ==> (#[trigger] seen@[k]).0 < indices@.len()
                        && self.reads(indices@[seen@[k].0 as int] as int) is Ok && seen@[k].1@
                        == bytes_or_empty(self.reads(indices@[seen@[k].0 as int] as int))
                &&& forall|j: int, k: int|
                    0 <= j < k < seen@.len() ==> (#[trigger] seen@[j]).0 != (#[trigger] seen@[k]).0
                &&& forall|i: int| 0 <= i < indices@.len() ==> #[trigger] visits(seen@, i)
            },
            visited matches Err(error) ==> exists|i: int|
                0 <= i < indices@.len() && indices@[i] < self.count() && #[trigger] self.reads(
                    indices@[i] as int,
                ) == Err::<Option<Seq<u8>>, Failure>(error@),
    {
        let mut seen: Vec<(usize, Vec<u8>)> = Vec::new();
        let mut at: usize = 0;
        while at < indices.len()
            invariant
                at <= indices.len(),
                seen@.len() == at,
                forall|k: int| 0 <= k < at ==> (#[trigger] seen@[k]).0 == k,
                forall|k: int| 0 <= k < at ==> self.reads(#[trigger] indices@[k] as int) is Ok,
                forall|k: int|
                    0 <= k < at ==> (#[trigger] seen@[k]).1@ == bytes_or_empty(
                        self.reads(indices@[k] as int),
                    ),
            decreases indices.len() - at,
        {
            let ghost before = seen@;
            let bytes: Vec<u8> = match self.bytes_at(indices[at] as usize) {
                Ok(Some(bytes)) => copy_bytes(bytes),
                Ok(None) => {
                    let none: Vec<u8> = Vec::new();
                    assert(none@ =~= Seq::<u8>::empty());
                    none
                },
                Err(error) => {
                    assert(self.reads(indices@[at as int] as int) == Err::<
                        Option<Seq<u8>>,
                        Failure,
                    >(error@));
                    return Err(error);
                },
            };
            assert(self.reads(indices@[at as int] as int) is Ok);
            assert(bytes@ == bytes_or_empty(self.reads(indices@[at as int] as int)));
            seen.push((at, bytes));
            assert forall|k: int| 0 <= k < at + 1 implies (#[trigger] seen@[k]).1@ == bytes_or_empty(
                self.reads(indices@[k] as int),
            ) by {
                if k < at {
                    assert(seen@[k] == before[k]);
                }
            }
            at += 1;
        }
        assert forall|i: int| 0 <= i < indices@.len() implies #[trigger] visits(seen@, i) by {
            assert(seen@[i].0 == i);
        }
        Ok(seen)
    }

    /// The scattered values at `indices`, which rise, each with the place in `indices` it belongs
    /// to. The same answers as [`Self::visit_at`], for a caller whose positions are wide.
    fn visit(&self, indices: &[usize]) -> (visited: Result<Vec<(usize, Vec<u8>)>, Error>)
        ensures
            visited matches Ok(seen) ==> {
                &&& seen@.len() == indices@.len()
                &&& forall|k: int|
                    0 <= k < seen@.len() ==> (#[trigger] seen@[k]).0 < indices@.len()
                        && self.reads(indices@[seen@[k].0 as int] as int) is Ok && seen@[k].1@
                        == bytes_or_empty(self.reads(indices@[seen@[k].0 as int] as int))
                &&& forall|j: int, k: int|
                    0 <= j < k < seen@.len() ==> (#[trigger] seen@[j]).0 != (#[trigger] seen@[k]).0
                &&& forall|i: int| 0 <= i < indices@.len() ==> #[trigger] visits(seen@, i)
            },
            visited matches Err(error) ==> exists|i: int|
                0 <= i < indices@.len() && indices@[i] < self.count() && #[trigger] self.reads(
                    indices@[i] as int,
                ) == Err::<Option<Seq<u8>>, Failure>(error@),
    {
        let mut seen: Vec<(usize, Vec<u8>)> = Vec::new();
        let mut at: usize = 0;
        while at < indices.len()
            invariant
                at <= indices.len(),
                seen@.len() == at,
                forall|k: int|
                    0 <= k < at ==> (#[trigger] seen@[k]).0 == k && self.reads(
                        indices@[k] as int,
                    ) is Ok && seen@[k].1@ == bytes_or_empty(self.reads(indices@[k] as int)),
            decreases indices.len() - at,
        {
            match self.bytes_at(indices[at]) {
                Ok(Some(bytes)) => seen.push((at, copy_bytes(bytes))),
                Ok(None) => {
                    let none: Vec<u8> = Vec::new();
                    assert(none@ =~= Seq::<u8>::empty());
                    seen.push((at, none));
                },
                Err(error) => {
                    assert(self.reads(indices@[at as int] as int) == Err::<
                        Option<Seq<u8>>,
                        Failure,
                    >(error@));
                    return Err(error);
                },
            }
            assert(seen@[at as int].1@ == bytes_or_empty(self.reads(indices@[at as int] as int)));
            at += 1;
        }
        assert forall|i: int| 0 <= i < indices@.len() implies #[trigger] visits(seen@, i) by {
            assert(seen@[i].0 == i);
        }
        Ok(seen)
    }

    /// Whether the payload block holding `first` might contain `literal` in any value.
    ///
    /// A false answer is a proof that every value in the block misses. A source without a stored
    /// substring signature answers true.
    fn might_contain(&self, first: usize, literal: &[u8]) -> (might: Result<bool, Error>)
        ensures
            match might {
                Ok(might) => self.block_answers(first as int, literal@) == Ok::<bool, Failure>(
                    might,
                ),
                Err(error) => self.block_answers(first as int, literal@) == Err::<bool, Failure>(
                    error@,
                ),
            },
            might == Ok::<bool, Error>(false) ==> forall|i: int|
                self.block_of(i) == self.block_of(first as int) ==> !holds_literal(
                    bytes_or_empty(#[trigger] self.reads(i)),
                    literal@,
                ),
    ;

    /// Resident bytes retained by this source.
    fn footprint(&self) -> usize;

    /// How many ranks this source's sorted value order has, when it has one.
    ///
    /// A source that answers promises that the ranks cover every value it has and that the values
    /// are strictly increasing, so none is held twice.
    fn ranks(&self) -> (ranks: Option<usize>)
        ensures
            match ranks {
                Some(ranks) => self.sorted() matches Some(values) && values.len() == ranks
                    && strictly_sorted(values),
                None => self.sorted() is None,
            },
    ;

    /// How the value at `rank` compares against `wanted`. Only asked below [`Self::ranks`].
    fn compare_rank(&self, rank: usize, wanted: &[u8]) -> (order: Result<Standing, Error>)
        ensures
            self.sorted() matches Some(values) ==> rank < values.len() ==> match order {
                Ok(order) => self.probe_failure(rank as int, wanted@) is None && order == standing(
                    values[rank as int],
                    wanted@,
                ),
                Err(error) => self.probe_failure(rank as int, wanted@) == Some(error@),
            },
            self.sorted() is None ==> (order matches Err(error) && error@ == unsorted_compare()),
    ;

    /// The position of the value at `rank`.
    fn code_at_rank(&self, rank: usize) -> (code: Result<u32, Error>)
        ensures
            self.sorted() is None ==> (code matches Err(error) && error@ == unsorted_rank()),
            self.sorted() matches Some(values) ==> rank < values.len() ==> match code {
                Ok(code) => self.rank_failure(rank as int) is None && code == self.code_of_rank(
                    rank as int,
                ) && self.reads(code as int) == Ok::<Option<Seq<u8>>, Failure>(
                    Some(values[rank as int]),
                ),
                Err(error) => self.rank_failure(rank as int) == Some(error@),
            },
    ;

    /// The rank of every value, in position order, when the source can hand the whole map over.
    fn code_ranks(&self) -> (ranks: Option<&[u32]>)
        ensures
            ranks is Some <==> self.hands_ranks_over(),
            ranks matches Some(ranks) ==> self.sorted() matches Some(values) && ranks@.len()
                == self.count() && forall|i: int|
                0 <= i < ranks@.len() ==> (#[trigger] ranks@[i]) < values.len() && self.code_of_rank(
                    ranks@[i] as int,
                ) == i,
    ;
}

/// Whether another source presents the same values.
pub fn equal(one: &dyn TextSource, other: &dyn TextSource) -> (same: bool)
    ensures
        same == (one.count() == other.count() && forall|i: int|
            0 <= i < one.count() ==> #[trigger] one.reads(i) is Ok && one.reads(i)
                == other.reads(i)),
{
    if one.len() != other.len() {
        return false;
    }
    let mut at: usize = 0;
    let len: usize = one.len();
    while at < len
        invariant
            at <= len,
            len == one.count(),
            len == other.count(),
            forall|i: int|
                0 <= i < at ==> #[trigger] one.reads(i) is Ok && one.reads(i) == other.reads(
                    i,
                ),
        decreases len - at,
    {
        let same = match (one.bytes_at(at), other.bytes_at(at)) {
            (Ok(Some(left)), Ok(Some(right))) => same_bytes(left, right),
            (Ok(None), Ok(None)) => true,
            _ => false,
        };
        if !same {
            assert(!(one.reads(at as int) is Ok && one.reads(at as int) == other.reads(
                at as int,
            )));
            return false;
        }
        at += 1;
    }
    true
}

/// Whether two runs of bytes are the same bytes.
pub fn same_bytes(left: &[u8], right: &[u8]) -> (same: bool)
    ensures
        same == (left@ == right@),
{
    match compare_bytes(left, right) {
        Standing::Equal => true,
        _ => {
            proof {
                lemma_order_irreflexive(left@);
            }
            false
        },
    }
}

/// A length as a column of 64 bit lengths holds it.
pub fn length_of(len: usize) -> (length: i64)
    ensures
        length == as_length(len as nat),
{
    if len as u64 <= i64::MAX as u64 {
        len as i64
    } else {
        i64::MAX
    }
}

/// Where `wanted` goes among sorted values: how many come before it, and whether it is one.
pub open spec fn boundary(values: Seq<Seq<u8>>, wanted: Seq<u8>, low: int, found: bool) -> bool {
    &&& 0 <= low <= values.len()
    &&& forall|r: int| 0 <= r < low ==> sorts_before(#[trigger] values[r], wanted)
    &&& forall|r: int| low <= r < values.len() ==> !sorts_before(#[trigger] values[r], wanted)
    &&& found == values.contains(wanted)
    &&& found ==> low < values.len() && values[low] == wanted
}

/// How many values sort before `wanted`, and whether one of them is `wanted`.
///
/// It carries on past an equal probe to the first rank holding the value, so what comes back is a
/// boundary rather than wherever the halving happened to touch down.
pub fn search_below<S: TextSource + ?Sized>(source: &S, ranks: usize, wanted: &[u8]) -> (found:
    Result<(usize, bool), Error>)
    requires
        source.sorted() matches Some(values) ==> ranks <= values.len() && strictly_sorted(values),
    ensures
        match source.sorted() {
            Some(values) => match found {
                Ok((low, equal)) => boundary(
                    values.subrange(0, ranks as int),
                    wanted@,
                    low as int,
                    equal,
                ),
                Err(error) => exists|r: int|
                    0 <= r < ranks && #[trigger] source.probe_failure(r, wanted@) == Some(error@),
            },
            None => if ranks == 0 {
                found == Ok::<(usize, bool), Error>((0, false))
            } else {
                found matches Err(error) && error@ == unsorted_compare()
            },
        },
{
    let ghost values = source.sorted()->Some_0.subrange(0, ranks as int);
    let mut low: usize = 0;
    let mut high: usize = ranks;
    let mut equal: bool = false;
    while low < high
        invariant
            low <= high <= ranks,
            source.sorted() matches Some(all) ==> ranks <= all.len() && values == all.subrange(
                0,
                ranks as int,
            ),
            source.sorted() is None ==> low == 0 && high == ranks && !equal,
            source.sorted() is Some ==> values.len() == ranks && strictly_sorted(values),
            source.sorted() is Some ==> forall|r: int| 0 <= r < low ==> sorts_before(#[trigger] values[r], wanted@),
            source.sorted() is Some ==> forall|r: int|
                high <= r < ranks ==> !sorts_before(#[trigger] values[r], wanted@),
            equal ==> high < ranks && values[high as int] == wanted@,
            source.sorted() is Some && !equal ==> forall|r: int|
                high <= r < ranks ==> #[trigger] values[r] != wanted@,
        decreases high - low,
    {
        let middle: usize = low + (high - low) / 2;
        let order = match source.compare_rank(middle, wanted) {
            Ok(order) => order,
            Err(error) => {
                assert(source.sorted() is Some ==> source.probe_failure(middle as int, wanted@)
                    == Some(error@));
                return Err(error);
            },
        };
        let ghost probe = values[middle as int];
        proof {
            lemma_order_irreflexive(wanted@);
            lemma_order_total(probe, wanted@);
        }
        match order {
            Standing::Less => {
                proof {
                    assert forall|r: int| 0 <= r < middle + 1 implies sorts_before(
                        #[trigger] values[r],
                        wanted@,
                    ) by {
                        if r < middle {
                            lemma_order_transitive(values[r], probe, wanted@);
                        }
                    }
                }
                low = middle + 1;
            },
            Standing::Greater => {
                proof {
                    assert forall|r: int| middle <= r < ranks implies !sorts_before(
                        #[trigger] values[r],
                        wanted@,
                    ) && values[r] != wanted@ by {
                        if r > middle {
                            lemma_order_transitive(wanted@, probe, values[r]);
                            if sorts_before(values[r], wanted@) {
                                lemma_order_transitive(values[r], wanted@, values[r]);
                                lemma_order_irreflexive(values[r]);
                            }
                        }
                    }
                }
                if equal {
                    assert(sorts_before(values[middle as int], values[high as int]));
                }
                high = middle;
            },
            Standing::Equal => {
                proof {
                    assert forall|r: int| middle <= r < ranks implies !sorts_before(
                        #[trigger] values[r],
                        wanted@,
                    ) by {
                        if r > middle && sorts_before(values[r], wanted@) {
                            lemma_order_transitive(values[r], wanted@, values[r]);
                            lemma_order_irreflexive(values[r]);
                        }
                    }
                }
                equal = true;
                high = middle;
            },
        }
    }
    proof {
        if values.contains(wanted@) {
            let r = choose|r: int| 0 <= r < values.len() && values[r] == wanted@;
            lemma_order_irreflexive(wanted@);
            assert(values[r] == wanted@);
        }
    }
    Ok((low, equal))
}

/// Text already in memory, one page per position, each of which may be one that cannot be read.
#[derive(Debug)]
pub struct TextRows {
    pages: Vec<Result<Vec<u8>, Error>>,
    order: Option<Vec<u32>>,
}

spec fn page_reads(page: Result<Vec<u8>, Error>) -> Read {
    match page {
        Ok(bytes) => Ok(Some(bytes@)),
        Err(error) => Err(error@),
    }
}

spec fn in_order(pages: Seq<Result<Vec<u8>, Error>>, order: Seq<u32>) -> Seq<Seq<u8>> {
    Seq::new(order.len(), |rank: int| bytes_or_empty(page_reads(pages[order[rank] as int])))
}

impl TextRows {
    #[verifier::type_invariant]
    spec fn ordered(self) -> bool {
        self.order matches Some(order) ==> {
            &&& order@.len() == self.pages@.len()
            &&& forall|rank: int|
                0 <= rank < order@.len() ==> (#[trigger] order@[rank]) < self.pages@.len()
                    && self.pages@[order@[rank] as int] is Ok
            &&& strictly_sorted(in_order(self.pages@, order@))
        }
    }

    pub closed spec fn held(&self) -> Seq<Read> {
        Seq::new(self.pages@.len(), |i: int| page_reads(self.pages@[i]))
    }

    pub closed spec fn ranked(&self) -> bool {
        self.order is Some
    }

    /// Those pages, in an order nobody has worked out.
    pub fn new(pages: Vec<Result<Vec<u8>, Error>>) -> (rows: TextRows)
        ensures
            !rows.ranked(),
            rows.held().len() == pages@.len(),
            forall|i: int|
                0 <= i < pages@.len() ==> #[trigger] rows.held()[i] == match pages@[i] {
                    Ok(bytes) => Ok::<Option<Seq<u8>>, Failure>(Some(bytes@)),
                    Err(error) => Err(error@),
                },
    {
        TextRows { pages, order: None }
    }

    /// Those pages with their order worked out, when every one reads and no value is held twice.
    pub fn sorted_rows(pages: Vec<Result<Vec<u8>, Error>>) -> (rows: TextRows)
        ensures
            rows.held().len() == pages@.len(),
            forall|i: int|
                0 <= i < pages@.len() ==> #[trigger] rows.held()[i] == match pages@[i] {
                    Ok(bytes) => Ok::<Option<Seq<u8>>, Failure>(Some(bytes@)),
                    Err(error) => Err(error@),
                },
            rows.ranked() ==> forall|i: int|
                0 <= i < pages@.len() ==> #[trigger] rows.held()[i] is Ok,
    {
        let mut order: Vec<u32> = Vec::new();
        let mut at: usize = 0;
        while at < pages.len()
            invariant
                at <= pages.len(),
                order@.len() == at,
                forall|rank: int|
                    0 <= rank < order@.len() ==> (#[trigger] order@[rank]) < at
                        && pages@[order@[rank] as int] is Ok,
                forall|i: int| 0 <= i < at ==> #[trigger] pages@[i] is Ok,
                strictly_sorted(in_order(pages@, order@)),
            decreases pages.len() - at,
        {
            if at > u32::MAX as usize {
                return TextRows { pages, order: None };
            }
            let mut place: usize = 0;
            let mut known: bool = true;
            match &pages[at] {
                Ok(bytes) => {
                    let mut going: bool = true;
                    while going && place < order.len()
                        invariant
                            place <= order@.len(),
                            at < pages@.len(),
                            *bytes == pages@[at as int]->Ok_0,
                            forall|rank: int|
                                0 <= rank < order@.len() ==> (#[trigger] order@[rank]) < at
                                    && pages@[order@[rank] as int] is Ok,
                            forall|rank: int|
                                0 <= rank < place ==> sorts_before(
                                    #[trigger] in_order(pages@, order@)[rank],
                                    bytes@,
                                ),
                            known && !going ==> place < order@.len() && sorts_before(
                                bytes@,
                                in_order(pages@, order@)[place as int],
                            ),
                        decreases
                            (if going {
                                1int
                            } else {
                                0int
                            }),
                            order.len() - place,
                    {
                        let held: &[u8] = match &pages[order[place] as usize] {
                            Ok(held) => held.as_slice(),
                            Err(_) => bytes.as_slice(),
                        };
                        proof {
                            lemma_order_total(held@, bytes@);
                            assert(in_order(pages@, order@)[place as int] == held@);
                        }
                        match compare_bytes(held, bytes.as_slice()) {
                            Standing::Less => {
                                place += 1;
                            },
                            Standing::Greater => {
                                going = false;
                            },
                            Standing::Equal => {
                                going = false;
                                known = false;
                            },
                        }
                    }
                },
                Err(_) => {
                    known = false;
                },
            }
            if !known {
                return TextRows { pages, order: None };
            }
            let ghost before = order@;
            let ghost values = in_order(pages@, before);
            order.insert(place, at as u32);
            proof {
                let fresh = pages@[at as int]->Ok_0@;
                let after = in_order(pages@, order@);
                assert forall|rank: int| 0 <= rank < after.len() implies #[trigger] after[rank]
                    == values.insert(place as int, fresh)[rank] by {}
                assert(after =~= values.insert(place as int, fresh));
                assert forall|i: int, j: int| 0 <= i < j < after.len() implies sorts_before(
                    #[trigger] after[i],
                    #[trigger] after[j],
                ) by {
                    if j == place {
                        assert(sorts_before(values[i], fresh));
                    } else if i == place {
                        if j - 1 > place {
                            assert(sorts_before(values[place as int], values[j - 1]));
                            lemma_order_transitive(fresh, values[place as int], values[j - 1]);
                        }
                    } else {
                        let left = if i < place {
                            i
                        } else {
                            i - 1
                        };
                        let right = if j < place {
                            j
                        } else {
                            j - 1
                        };
                        assert(sorts_before(values[left], values[right]));
                    }
                }
            }
            at += 1;
        }
        TextRows { pages, order: Some(order) }
    }
}

impl TextSource for TextRows {
    closed spec fn count(&self) -> nat {
        self.pages@.len()
    }

    closed spec fn reads(&self, index: int) -> Read {
        if 0 <= index < self.pages@.len() {
            page_reads(self.pages@[index])
        } else {
            Ok(None)
        }
    }

    closed spec fn sorted(&self) -> Option<Seq<Seq<u8>>> {
        match self.order {
            Some(order) => Some(in_order(self.pages@, order@)),
            None => None,
        }
    }

    closed spec fn code_of_rank(&self, rank: int) -> u32 {
        self.order->Some_0@[rank]
    }

    closed spec fn probe_failure(&self, rank: int, wanted: Seq<u8>) -> Option<Failure> {
        None
    }

    closed spec fn rank_failure(&self, rank: int) -> Option<Failure> {
        None
    }

    closed spec fn hands_ranks_over(&self) -> bool {
        false
    }

    closed spec fn block_of(&self, index: int) -> int {
        index
    }

    closed spec fn block_answers(&self, first: int, literal: Seq<u8>) -> Result<bool, Failure> {
        Ok(true)
    }

    fn might_contain(&self, first: usize, literal: &[u8]) -> (might: Result<bool, Error>) {
        Ok(true)
    }

    fn len(&self) -> (len: usize) {
        self.pages.len()
    }

    fn bytes_at(&self, index: usize) -> (bytes: Result<Option<&[u8]>, Error>) {
        if index >= self.pages.len() {
            return Ok(None);
        }
        match &self.pages[index] {
            Ok(bytes) => Ok(Some(bytes.as_slice())),
            Err(error) => Err(error.clone()),
        }
    }

    fn footprint(&self) -> usize {
        self.pages.len()
    }

    fn ranks(&self) -> (ranks: Option<usize>) {
        proof {
            use_type_invariant(self);
        }
        match &self.order {
            Some(order) => Some(order.len()),
            None => None,
        }
    }

    fn compare_rank(&self, rank: usize, wanted: &[u8]) -> (order: Result<Standing, Error>) {
        proof {
            use_type_invariant(self);
        }
        match &self.order {
            Some(order) if rank < order.len() => match &self.pages[order[rank] as usize] {
                Ok(bytes) => {
                    assert(in_order(self.pages@, order@)[rank as int] == bytes@);
                    Ok(compare_bytes(bytes.as_slice(), wanted))
                },
                Err(error) => Err(error.clone()),
            },
            _ => Err(
                Error::internal("a text source without a sorted order was asked to compare a rank"),
            ),
        }
    }

    fn code_at_rank(&self, rank: usize) -> (code: Result<u32, Error>) {
        proof {
            use_type_invariant(self);
        }
        match &self.order {
            Some(order) if rank < order.len() => {
                assert(in_order(self.pages@, order@)[rank as int] == bytes_or_empty(
                    page_reads(self.pages@[order@[rank as int] as int]),
                ));
                Ok(order[rank])
            },
            _ => Err(Error::internal("a text source without a sorted order was asked for a rank")),
        }
    }

    fn code_ranks(&self) -> (ranks: Option<&[u32]>) {
        None
    }
}

/// The characters of a text are counted from its bytes: the bytes of every character together start
/// one, however many of them there are.
pub proof fn law_characters_are_counted_from_their_bytes(text: Seq<char>)
    ensures
        character_count(encode_utf8(text)) == text.len(),
    decreases text.len(),
{
    if text.len() > 0 {
        let first = text[0] as u32;
        char_is_scalar(text[0]);
        lemma_one_character(first);
        law_characters_are_counted_from_their_bytes(text.drop_first());
        law_characters_add_up(encode_scalar(first), encode_utf8(text.drop_first()));
    }
}

proof fn lemma_one_character(scalar: u32)
    requires
        is_scalar(scalar),
    ensures
        character_count(encode_scalar(scalar)) == 1,
{
    let bytes = encode_scalar(scalar);
    assert(((scalar & 0x7F) as u8) < 0x80) by (bit_vector);
    assert((0xC0 | ((scalar >> 6) & 0x1F) as u8) >= 0xC0) by (bit_vector);
    assert((0xE0 | ((scalar >> 12) & 0x0F) as u8) >= 0xC0) by (bit_vector);
    assert((0xF0 | ((scalar >> 18) & 0x7) as u8) >= 0xC0) by (bit_vector);
    assert(0x80 <= (0x80 | (scalar & 0x3F) as u8) < 0xC0) by (bit_vector);
    assert(0x80 <= (0x80 | ((scalar >> 6) & 0x3F) as u8) < 0xC0) by (bit_vector);
    assert(0x80 <= (0x80 | ((scalar >> 12) & 0x3F) as u8) < 0xC0) by (bit_vector);
    assert(starts_character(bytes[0]));
    assert forall|i: int| 1 <= i < bytes.len() implies !starts_character(#[trigger] bytes[i]) by {}
    lemma_rest_of_a_character(bytes);
}

proof fn lemma_rest_of_a_character(bytes: Seq<u8>)
    requires
        bytes.len() > 0,
        starts_character(bytes[0]),
        forall|i: int| 1 <= i < bytes.len() ==> !starts_character(#[trigger] bytes[i]),
    ensures
        character_count(bytes) == 1,
    decreases bytes.len(),
{
    if bytes.len() > 1 {
        let less = bytes.drop_last();
        assert forall|i: int| 1 <= i < less.len() implies !starts_character(#[trigger] less[i]) by {
            assert(less[i] == bytes[i]);
        }
        lemma_rest_of_a_character(less);
    } else {
        assert(character_count(bytes.drop_last()) == 0);
    }
}

/// Bytes laid end to end hold the characters of both parts.
pub proof fn law_characters_add_up(left: Seq<u8>, right: Seq<u8>)
    ensures
        character_count(left + right) == character_count(left) + character_count(right),
    decreases right.len(),
{
    let both = left + right;
    if right.len() == 0 {
        assert(both =~= left);
    } else {
        assert(both.drop_last() =~= left + right.drop_last());
        law_characters_add_up(left, right.drop_last());
    }
}

/// A length is the count itself, as far as a column of 64 bit lengths reaches.
pub proof fn law_a_length_is_its_count(count: nat)
    ensures
        count <= 0x7fff_ffff_ffff_ffff ==> as_length(count) == count,
        count > 0x7fff_ffff_ffff_ffff ==> as_length(count) == 0x7fff_ffff_ffff_ffff,
{
}

/// Of two values the one with the smaller byte at the first place they differ at comes first, and one
/// that the other goes on from comes before it.
pub proof fn law_the_first_different_byte_decides(left: Seq<u8>, right: Seq<u8>, at: int)
    requires
        0 <= at <= left.len(),
        at <= right.len(),
        forall|i: int| 0 <= i < at ==> #[trigger] left[i] == right[i],
    ensures
        at < left.len() && at < right.len() && left[at] < right[at] ==> sorts_before(left, right)
            && standing(left, right) is Less && standing(right, left) is Greater,
        at == left.len() && at < right.len() ==> sorts_before(left, right) && standing(left, right)
            is Less && standing(right, left) is Greater,
        at == left.len() && at == right.len() ==> !sorts_before(left, right) && standing(left, right)
            is Equal,
    decreases at,
{
    if at == 0 {
        if left.len() == 0 && right.len() == 0 {
            assert(left =~= right);
        }
    } else {
        let l = left.drop_first();
        let r = right.drop_first();
        assert forall|i: int| 0 <= i < at - 1 implies #[trigger] l[i] == r[i] by {
            assert(left[i + 1] == right[i + 1]);
        }
        assert(left[0] == right[0]);
        law_the_first_different_byte_decides(l, r, at - 1);
        if at < left.len() {
            assert(l[at - 1] == left[at]);
        }
        if at < right.len() {
            assert(r[at - 1] == right[at]);
        }
        if at == left.len() && at == right.len() {
            assert(left =~= right);
        }
    }
    if sorts_before(left, right) && sorts_before(right, left) {
        lemma_order_transitive(left, right, left);
    }
    lemma_order_irreflexive(left);
}

/// A value is found in another wherever it stands, with anything before it and anything after it.
pub proof fn law_a_literal_is_found_where_it_stands(before: Seq<u8>, literal: Seq<u8>, after: Seq<u8>)
    ensures
        holds_literal(before + literal + after, literal),
{
    let bytes = before + literal + after;
    assert(bytes.subrange(before.len() as int, (before.len() + literal.len()) as int)
        =~= literal);
}

/// A value that is found in another stands in it, byte by byte.
pub proof fn law_a_literal_that_is_found_stands_there(bytes: Seq<u8>, literal: Seq<u8>) -> (at: int)
    requires
        holds_literal(bytes, literal),
    ensures
        0 <= at <= bytes.len() - literal.len(),
        forall|i: int| 0 <= i < literal.len() ==> #[trigger] bytes[at + i] == literal[i],
{
    let at = choose|at: int|
        0 <= at && at + literal.len() <= bytes.len() && #[trigger] bytes.subrange(
            at,
            at + literal.len(),
        ) == literal;
    let part = bytes.subrange(at, at + literal.len());
    assert forall|i: int| 0 <= i < literal.len() implies #[trigger] bytes[at + i] == literal[i] by {
        assert(part[i] == bytes[at + i]);
    }
    at
}

/// A rank is found where the values before it are smaller and those from it on are not, and a value
/// is found where it is the one at its rank.
pub proof fn law_a_rank_parts_the_smaller_values(
    values: Seq<Seq<u8>>,
    wanted: Seq<u8>,
    low: int,
    found: bool,
    i: int,
)
    requires
        boundary(values, wanted, low, found),
        0 <= i < values.len(),
    ensures
        0 <= low <= values.len(),
        i < low ==> sorts_before(values[i], wanted) && values[i] != wanted,
        i == low && found ==> values[i] == wanted,
        i >= low && !found ==> sorts_before(wanted, values[i]),
        i > low ==> values[i] == wanted || sorts_before(wanted, values[i]),
        i == low && values[i] == wanted ==> found,
{
    lemma_order_irreflexive(wanted);
    lemma_order_total(values[i], wanted);
}

/// Characters are counted, bytes compared and lengths told as a reader of the text would.
pub proof fn law_text_is_counted_and_compared_as_it_is_read(
    text: Seq<char>,
    bytes: &[u8],
    count: usize,
    other: &[u8],
    order: Standing,
    back: Standing,
    same: bool,
)
    requires
        bytes@ == encode_utf8(text),
        call_ensures(count_characters, (bytes,), count),
        call_ensures(compare_bytes, (bytes, other), order),
        call_ensures(compare_bytes, (other, bytes), back),
        call_ensures(same_bytes, (bytes, other), same),
    ensures
        count == text.len(),
        order is Equal <==> bytes@ == other@,
        same <==> bytes@ == other@,
        order is Less <==> back is Greater,
        order is Greater <==> back is Less,
{
    law_characters_are_counted_from_their_bytes(text);
    lemma_order_total(bytes@, other@);
    if sorts_before(bytes@, other@) && sorts_before(other@, bytes@) {
        lemma_order_transitive(bytes@, other@, bytes@);
    }
    lemma_order_irreflexive(bytes@);
}

/// To ask a source without an order for one is a fault of whoever asks.
pub proof fn law_a_source_without_an_order_has_no_ranks()
    ensures
        unsorted_compare().code is Internal,
        unsorted_rank().code is Internal,
{
}

} // verus!
