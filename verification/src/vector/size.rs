//! How many bytes a vector holds on to.

use super::{Body, Vector};
use crate::data::{clamp, slot_bytes, Data};
use crate::text::TextSource;
use crate::types::{Datum, Value};
use crate::validity::Validity;
use std::sync::Arc;
use vstd::prelude::*;
use vstd::utf8::encode_utf8;

verus! {

/// What a vector takes before any value is counted.
pub const VECTOR_BYTES: usize = 96;

/// What a single value takes before anything it points at is counted.
pub const VALUE_BYTES: usize = 64;

/// How many holders a shared part has.
///
/// Calls `std::sync::Arc::strong_count`, and claims of it only that whoever asks is one of them.
/// The number itself is whatever the other holders make it at the moment it is asked.
#[verifier::external_body]
fn holders<T>(held: &Arc<T>) -> (count: usize)
    ensures
        count >= 1,
{
    Arc::strong_count(held)
}

/// One holder's share of some bytes: an equal part of them, and never nothing of something.
pub open spec fn share_of(bytes: int, holders: int) -> int {
    if bytes > 0 && bytes / holders == 0 {
        1
    } else {
        bytes / holders
    }
}

/// One holder's share of a part that several vectors are reading at the same time.
///
/// What the holders say between them comes to about what the part costs rather than to the part
/// times the number of them, and the answer is never zero for a part that costs anything.
pub fn share(bytes: usize, holders: usize) -> (part: usize)
    ensures
        part == share_of(
            bytes as int,
            if holders == 0 {
                1
            } else {
                holders as int
            },
        ),
        bytes > 0 ==> 0 < part <= bytes,
        bytes == 0 ==> part == 0,
        holders > 0 ==> part * holders <= bytes || part == 1,
        holders > 0 ==> bytes < part * holders + holders,
{
    let holders: usize = if holders == 0 {
        1
    } else {
        holders
    };
    let part: usize = bytes / holders;
    proof {
        vstd::arithmetic::div_mod::lemma_div_is_ordered_by_denominator(
            bytes as int,
            1,
            holders as int,
        );
        vstd::arithmetic::div_mod::lemma_fundamental_div_mod(bytes as int, holders as int);
        vstd::arithmetic::div_mod::lemma_mod_bound(bytes as int, holders as int);
        assert(part * holders == holders * part && 1 * holders == holders) by (nonlinear_arith);
        if part == 0 {
            assert(holders * part == 0) by (nonlinear_arith)
                requires
                    part == 0,
            ;
        }
    }
    if bytes > 0 && part == 0 {
        1
    } else {
        part
    }
}

fn times(count: usize, each: usize) -> (bytes: usize)
    ensures
        bytes == clamp((count * each) as nat),
{
    match count.checked_mul(each) {
        Some(bytes) => bytes,
        None => usize::MAX,
    }
}

/// The least a vector takes: itself, its mask, and what no other vector can be holding for it.
pub open spec fn own_bytes(vector: Vector) -> int {
    clamp(
        (96 + (match vector.validity {
            Validity::Mask(mask) => mask@.len(),
            _ => 0,
        }) + (match vector.body {
            Body::Constant(_) => 64,
            Body::Fields { children } => 8 * children@.len(),
            _ => 0,
        })) as nat,
    )
}

/// The most a vector takes: everything it reaches, as if no other vector held any of it.
pub open spec fn whole_bytes(vector: Vector) -> int
    decreases vector, 1nat, 0nat,
{
    96 + (match vector.validity {
        Validity::Mask(mask) => mask@.len() as int,
        _ => 0,
    }) + match &vector.body {
        Body::Flat(data) => clamp(
            data.size() * slot_bytes(data.layout()) + match **data {
                Data::Varlen(column) => column.arena@.len(),
                _ => 0,
            },
        ) as int,
        Body::Constant(value) => 64 + match value.datum() {
            Datum::Varchar(text) => encode_utf8(text).len() as int,
            Datum::Blob(bytes) => bytes.len() as int,
            _ => 0,
        },
        Body::Sequence { .. } => 0,
        Body::Dictionary { codes, values, .. } => 4 * codes@.len() + whole_bytes(**values),
        Body::Packed { words, .. } => 8 * words@.len() as int,
        Body::Views { views, arena } => (16 * views@.len() + arena@.len()) as int,
        Body::ExternalText { .. } => 0,
        Body::Coded { stream, spans, table } => (stream@.len() + 8 * spans@.len() + 8
            * table.table().len()) as int,
        Body::Runs { ends, values } => 4 * ends@.len() + whole_bytes(**values),
        Body::Gathered { source, rids, .. } => 4 * rids@.len() + whole_bytes(**source),
        Body::Nested { entries, child } => 8 * entries@.len() + whole_bytes(**child),
        Body::Fields { children } => 8 * children@.len() + field_bytes(vector, children@.len()),
    }
}

/// What the first `count` fields of a struct take.
pub open spec fn field_bytes(vector: Vector, count: nat) -> int
    decreases vector, 0nat, count,
{
    match &vector.body {
        Body::Fields { children } => if 0 < count <= children@.len() {
            field_bytes(vector, (count - 1) as nat) + whole_bytes(*children@[count - 1])
        } else {
            0
        },
        _ => 0,
    }
}

/// Whether a part of that many bytes counts as so many for some number of holders.
pub open spec fn shared_as(bytes: int, part: int) -> bool {
    exists|holders: int| holders >= 1 && part == #[trigger] share_of(bytes, holders)
}

/// Whether the bytes are the two sums together, as far as the machine counts.
pub open spec fn totals(bytes: int, fixed: int, under: int) -> bool {
    bytes == clamp((fixed + under) as nat)
}

/// What a vector takes before any value is counted, and its mask.
pub open spec fn head_bytes(vector: Vector) -> int {
    96 + match vector.validity {
        Validity::Mask(mask) => mask@.len() as int,
        _ => 0,
    }
}

/// What the values of a flat run take.
pub open spec fn data_bytes(data: Data) -> int {
    clamp(
        data.size() * slot_bytes(data.layout()) + match data {
            Data::Varlen(column) => column.arena@.len(),
            _ => 0,
        },
    ) as int
}

/// Whether a vector weighs that many bytes: itself and its mask, and a share of each part it holds,
/// for some number of holders of each. A vector under it is shared by what it weighs itself, and
/// text in storage by what its source says it keeps.
pub open spec fn weighs(vector: Vector, bytes: int) -> bool
    decreases vector, 1nat, 0nat,
{
    let head = head_bytes(vector);
    match &vector.body {
        Body::Flat(data) => exists|part: int| #[trigger]
            shared_as(data_bytes(**data), part) && bytes == clamp((head + part) as nat),
        Body::Constant(value) => bytes == clamp(
            (head + 64 + match value.datum() {
                Datum::Varchar(text) => encode_utf8(text).len() as int,
                Datum::Blob(bytes) => bytes.len() as int,
                _ => 0,
            }) as nat,
        ),
        Body::Sequence { .. } => bytes == clamp(head as nat),
        Body::Dictionary { codes, values, .. } => exists|inner: int, part: int, under: int|
            {
                &&& weighs(**values, inner)
                &&& #[trigger] shared_as(clamp(4 * codes@.len()) as int, part)
                &&& #[trigger] shared_as(inner, under)
                &&& bytes == clamp((head + part + under) as nat)
            },
        Body::Packed { words, .. } => exists|part: int| #[trigger]
            shared_as(clamp(8 * words@.len()) as int, part) && bytes == clamp((head + part) as nat),
        Body::Views { views, arena } => exists|part: int, under: int|
            {
                &&& #[trigger] shared_as(clamp(16 * views@.len()) as int, part)
                &&& #[trigger] shared_as(arena@.len() as int, under)
                &&& bytes == clamp((head + part + under) as nat)
            },
        Body::ExternalText { .. } => exists|kept: int, part: int|
            0 <= kept && #[trigger] shared_as(kept, part) && bytes == clamp((head + part) as nat),
        Body::Coded { stream, spans, table } => exists|part: int, under: int, more: int|
            {
                &&& #[trigger] shared_as(stream@.len() as int, part)
                &&& #[trigger] shared_as(clamp(8 * spans@.len()) as int, under)
                &&& #[trigger] shared_as(clamp(8 * table.table().len()) as int, more)
                &&& bytes == clamp((head + part + under + more) as nat)
            },
        Body::Runs { ends, values } => exists|inner: int, part: int, under: int|
            {
                &&& weighs(**values, inner)
                &&& #[trigger] shared_as(clamp(4 * ends@.len()) as int, part)
                &&& #[trigger] shared_as(inner, under)
                &&& bytes == clamp((head + part + under) as nat)
            },
        Body::Gathered { source, rids, .. } => exists|inner: int, part: int, under: int|
            {
                &&& weighs(**source, inner)
                &&& #[trigger] shared_as(clamp(4 * rids@.len()) as int, part)
                &&& #[trigger] shared_as(inner, under)
                &&& bytes == clamp((head + part + under) as nat)
            },
        Body::Nested { entries, child } => exists|inner: int, part: int, under: int|
            {
                &&& weighs(**child, inner)
                &&& #[trigger] shared_as(clamp(8 * entries@.len()) as int, part)
                &&& #[trigger] shared_as(inner, under)
                &&& bytes == clamp((head + part + under) as nat)
            },
        Body::Fields { children } => exists|under: int|
            0 <= under && #[trigger] totals(bytes, head + clamp(8 * children@.len()), under)
                && fields_weigh(vector, children@.len(), under),
    }
}

/// Whether the shares of the first `count` fields of a struct come to that many bytes.
pub open spec fn fields_weigh(vector: Vector, count: nat, bytes: int) -> bool
    decreases vector, 0nat, count,
{
    match &vector.body {
        Body::Fields { children } => if 0 < count <= children@.len() {
            exists|inner: int, part: int|
                {
                    &&& #[trigger] shared_as(inner, part)
                    &&& weighs(*children@[count - 1], inner)
                    &&& fields_weigh(vector, (count - 1) as nat, bytes - part)
                }
        } else {
            bytes == 0
        },
        _ => bytes == 0,
    }
}

/// Everything a vector reaches, as far as the machine counts.
spec fn all_bytes(vector: &Vector) -> int {
    clamp(whole_bytes(*vector) as nat)
}

spec fn run_bytes(data: &Data) -> int {
    data_bytes(*data)
}

/// A part with one holder counts whole.
proof fn lemma_alone(bytes: int)
    requires
        0 <= bytes,
    ensures
        shared_as(bytes, bytes),
{
    assert(share_of(bytes, 1) == bytes);
}

proof fn lemma_whole_is_counted(vector: &Vector)
    ensures
        0 <= whole_bytes(*vector),
    decreases *vector, 1nat, 0nat,
{
    match &vector.body {
        Body::Dictionary { values, .. } => lemma_whole_is_counted(&**values),
        Body::Runs { values, .. } => lemma_whole_is_counted(&**values),
        Body::Gathered { source, .. } => lemma_whole_is_counted(&**source),
        Body::Nested { child, .. } => lemma_whole_is_counted(&**child),
        Body::Fields { children } => lemma_fields_are_counted(vector, children@.len()),
        _ => {},
    }
}

proof fn lemma_fields_are_counted(vector: &Vector, count: nat)
    ensures
        0 <= field_bytes(*vector, count),
    decreases *vector, 0nat, count,
{
    if let Body::Fields { children } = &vector.body {
        if 0 < count <= children@.len() {
            assert(decreases_to!(*vector => vector.body->Fields_children@[count - 1]));
            lemma_fields_are_counted(vector, (count - 1) as nat);
            lemma_whole_is_counted(&*children@[count - 1]);
        }
    }
}

/// A vector none of whose parts has another holder weighs everything it reaches.
pub proof fn law_alone_a_vector_weighs_everything(vector: &Vector)
    requires
        !vector.stored(),
    ensures
        weighs(*vector, clamp(whole_bytes(*vector) as nat)),
    decreases *vector, 1nat, 0nat,
{
    let head = head_bytes(*vector);
    lemma_whole_is_counted(vector);
    match &vector.body {
        Body::Flat(data) => lemma_alone(run_bytes(&**data)),
        Body::Dictionary { codes, values, .. } => {
            law_alone_a_vector_weighs_everything(&**values);
            lemma_whole_is_counted(&**values);
            lemma_alone(clamp(4 * codes@.len()));
            lemma_alone(all_bytes(&**values));
        },
        Body::Packed { words, .. } => lemma_alone(clamp(8 * words@.len())),
        Body::Views { views, arena } => {
            lemma_alone(clamp(16 * views@.len()));
            lemma_alone(arena@.len() as int);
        },
        Body::Coded { stream, spans, table } => {
            lemma_alone(stream@.len() as int);
            lemma_alone(clamp(8 * spans@.len()));
            lemma_alone(clamp(8 * table.table().len()));
        },
        Body::Runs { ends, values } => {
            law_alone_a_vector_weighs_everything(&**values);
            lemma_whole_is_counted(&**values);
            lemma_alone(clamp(4 * ends@.len()));
            lemma_alone(all_bytes(&**values));
        },
        Body::Gathered { source, rids, .. } => {
            law_alone_a_vector_weighs_everything(&**source);
            lemma_whole_is_counted(&**source);
            lemma_alone(clamp(4 * rids@.len()));
            lemma_alone(all_bytes(&**source));
        },
        Body::Nested { entries, child } => {
            law_alone_a_vector_weighs_everything(&**child);
            lemma_whole_is_counted(&**child);
            lemma_alone(clamp(8 * entries@.len()));
            lemma_alone(all_bytes(&**child));
        },
        Body::Fields { children } => {
            let under = lemma_fields_alone(vector, children@.len());
            lemma_fields_are_counted(vector, children@.len());
            assert(totals(
                clamp(whole_bytes(*vector) as nat),
                head + clamp(8 * children@.len()),
                under,
            ));
        },
        _ => {},
    }
}

/// What the first `count` fields of a struct weigh, none of them with another holder: as much as
/// they take, as far as the machine counts.
proof fn lemma_fields_alone(vector: &Vector, count: nat) -> (under: int)
    requires
        !vector.stored(),
        vector.body matches Body::Fields { children } && count <= children@.len(),
    ensures
        0 <= under,
        clamp(under as nat) == clamp(field_bytes(*vector, count) as nat),
        fields_weigh(*vector, count, under),
    decreases *vector, 0nat, count,
{
    if let Body::Fields { children } = &vector.body {
        if count > 0 {
            let before = lemma_fields_alone(vector, (count - 1) as nat);
            let child = children@[count - 1];
            assert(decreases_to!(*vector => vector.body->Fields_children@[count - 1]));
            assert(!child.stored());
            law_alone_a_vector_weighs_everything(&*child);
            lemma_whole_is_counted(&*child);
            lemma_fields_are_counted(vector, (count - 1) as nat);
            let inner = all_bytes(&*child);
            lemma_alone(inner);
            assert((before + inner) - inner == before);
            assert(shared_as(inner, inner));
            assert(fields_weigh(*vector, count, before + inner));
            before + inner
        } else {
            0
        }
    } else {
        0
    }
}

impl Vector {
    /// How many bytes of memory this vector is holding, as far as a machine word counts.
    ///
    /// A part behind a shared handle counts as one holder's share of it, so what every vector over
    /// one dictionary says between them comes to about the dictionary. How many holders a part has
    /// is known only when it is asked, so the answer is the sum of the shares for the numbers there
    /// were then.
    #[verifier::rlimit(60)]
    #[verifier::spinoff_prover]
    pub fn footprint(&self) -> (bytes: usize)
        ensures
            weighs(*self, bytes as int),
            bytes >= own_bytes(*self),
            !self.stored() ==> bytes <= whole_bytes(*self),
            self.body is Sequence || self.body is Constant ==> bytes == clamp(
                whole_bytes(*self) as nat,
            ),
        decreases *self, 1nat,
    {
        let mask: usize = match &self.validity {
            Validity::Mask(mask) => mask.len(),
            _ => 0,
        };
        let head: usize = VECTOR_BYTES.saturating_add(mask);
        match &self.body {
            Body::Flat(data) => {
                let part: usize = portion(data.footprint(), holders(data));
                assert(shared_as(data_bytes(**data), part as int));
                head.saturating_add(part)
            },
            Body::Constant(value) => head.saturating_add(VALUE_BYTES).saturating_add(
                spelled(value),
            ),
            Body::Sequence { .. } => head,
            Body::Dictionary { codes, values, .. } => {
                let part: usize = portion(times(codes.len(), 4), holders(codes));
                let inner: usize = values.footprint();
                let under: usize = portion(inner, holders(values));
                assert(shared_as(clamp(4 * codes@.len()) as int, part as int));
                assert(weighs(**values, inner as int) && shared_as(inner as int, under as int));
                head.saturating_add(part).saturating_add(under)
            },
            Body::Packed { words, .. } => {
                let part: usize = portion(times(words.len(), 8), holders(words));
                assert(shared_as(clamp(8 * words@.len()) as int, part as int));
                head.saturating_add(part)
            },
            Body::Views { views, arena } => {
                let part: usize = portion(times(views.len(), 16), holders(views));
                let under: usize = portion(arena.len(), holders(arena));
                assert(shared_as(clamp(16 * views@.len()) as int, part as int));
                assert(shared_as(arena@.len() as int, under as int));
                head.saturating_add(part).saturating_add(under)
            },
            Body::ExternalText { text } => {
                let kept: usize = text.footprint();
                let part: usize = portion(kept, holders(text));
                assert(shared_as(kept as int, part as int));
                head.saturating_add(part)
            },
            Body::Coded { stream, spans, table } => {
                let part: usize = portion(stream.len(), holders(stream));
                let under: usize = portion(times(spans.len(), 8), holders(spans));
                let more: usize = portion(times(table.len(), 8), holders(table));
                assert(shared_as(stream@.len() as int, part as int));
                assert(shared_as(clamp(8 * spans@.len()) as int, under as int));
                assert(shared_as(clamp(8 * table.table().len()) as int, more as int));
                head.saturating_add(part).saturating_add(under).saturating_add(more)
            },
            Body::Runs { ends, values } => {
                let part: usize = portion(times(ends.len(), 4), holders(ends));
                let inner: usize = values.footprint();
                let under: usize = portion(inner, holders(values));
                assert(shared_as(clamp(4 * ends@.len()) as int, part as int));
                assert(weighs(**values, inner as int) && shared_as(inner as int, under as int));
                head.saturating_add(part).saturating_add(under)
            },
            Body::Gathered { source, rids, .. } => {
                let part: usize = portion(times(rids.len(), 4), holders(rids));
                let inner: usize = source.footprint();
                let under: usize = portion(inner, holders(source));
                assert(shared_as(clamp(4 * rids@.len()) as int, part as int));
                assert(weighs(**source, inner as int) && shared_as(inner as int, under as int));
                head.saturating_add(part).saturating_add(under)
            },
            Body::Nested { entries, child } => {
                let part: usize = portion(times(entries.len(), 8), holders(entries));
                let inner: usize = child.footprint();
                let under: usize = portion(inner, holders(child));
                assert(shared_as(clamp(8 * entries@.len()) as int, part as int));
                assert(weighs(**child, inner as int) && shared_as(inner as int, under as int));
                head.saturating_add(part).saturating_add(under)
            },
            Body::Fields { .. } => self.struct_footprint(head),
        }
    }

    /// What a struct weighs: its head, and for each field a pointer and a share of the field.
    fn struct_footprint(&self, head: usize) -> (bytes: usize)
        requires
            self.body is Fields,
            head == clamp(head_bytes(*self) as nat),
        ensures
            weighs(*self, bytes as int),
            bytes >= own_bytes(*self),
            !self.stored() ==> bytes <= whole_bytes(*self),
        decreases *self, 0nat,
    {
        match &self.body {
            Body::Fields { children } => {
                let mut total: usize = head.saturating_add(times(children.len(), 8));
                let ghost least = total;
                let ghost start = head_bytes(*self) + clamp(8 * children@.len());
                let ghost least_whole = head + 8 * children@.len();
                let ghost mut under: int = 0;
                assert(fields_weigh(*self, 0, 0));
                let mut f: usize = 0;
                while f < children.len()
                    invariant
                        f <= children@.len(),
                        self.body == (Body::Fields { children: *children }),
                        total >= least,
                        !self.stored() ==> total <= least_whole + field_bytes(*self, f as nat),
                        0 <= under,
                        0 <= start,
                        totals(total as int, start, under),
                        fields_weigh(*self, f as nat, under),
                    decreases children.len() - f,
                {
                    assert(decreases_to!(*self => self.body->Fields_children@[f as int]));
                    let inner: usize = children[f].footprint();
                    let part: usize = portion(inner, holders(&children[f]));
                    assert(weighs(*children@[f as int], inner as int));
                    assert(shared_as(inner as int, part as int));
                    let ghost count = (f + 1) as nat;
                    assert(count - 1 == f && (under + part) - part == under);
                    assert(fields_weigh(*self, count, under + part));
                    proof {
                        under = under + part;
                    }
                    total = total.saturating_add(part);
                    f += 1;
                }
                assert(totals(total as int, head_bytes(*self) + clamp(8 * children@.len()), under));
                total
            },
            _ => head,
        }
    }
}

/// One of some holders' share of a part.
fn portion(bytes: usize, holders: usize) -> (part: usize)
    requires
        holders >= 1,
    ensures
        shared_as(bytes as int, part as int),
        part <= bytes,
{
    let part: usize = share(bytes, holders);
    assert(part == share_of(bytes as int, holders as int));
    part
}

/// How many bytes a text or a blob spells, and none for any other value.
fn spelled(value: &Value) -> (bytes: usize)
    ensures
        bytes == match value.datum() {
            Datum::Varchar(text) => encode_utf8(text).len(),
            Datum::Blob(bytes) => bytes.len(),
            _ => 0,
        },
{
    match value {
        Value::Varchar(text) => text.as_str().as_bytes().len(),
        Value::Blob(bytes) => bytes.len(),
        _ => 0,
    }
}

/// Holders of a part share it evenly: each says an equal part of its bytes, and at least one byte of a
/// part that has any.
pub proof fn law_holders_share_evenly(bytes: int, holders: int)
    requires
        bytes >= 0,
        holders >= 1,
    ensures
        share_of(bytes, 1) == bytes,
        bytes >= holders ==> share_of(bytes, holders) * holders <= bytes < share_of(bytes, holders)
            * holders + holders,
        0 < bytes < holders ==> share_of(bytes, holders) == 1,
        share_of(0, holders) == 0,
{
    vstd::arithmetic::div_mod::lemma_fundamental_div_mod(bytes, holders);
    vstd::arithmetic::div_mod::lemma_mod_bound(bytes, holders);
    let part = bytes / holders;
    assert(part * holders == holders * part) by (nonlinear_arith);
    if 0 < bytes < holders {
        vstd::arithmetic::div_mod::lemma_small_mod(bytes as nat, holders as nat);
        vstd::arithmetic::div_mod::lemma_basic_div(bytes, holders);
    }
    if bytes >= holders {
        if part == 0 {
            assert(holders * part == 0) by (nonlinear_arith)
                requires
                    part == 0,
            ;
        }
    }
    vstd::arithmetic::div_mod::lemma_div_basics(bytes);
    vstd::arithmetic::div_mod::lemma_basic_div(0, holders);
}

/// Alone, a run laid out flat takes the slots of its values over what any vector takes, a mask a byte
/// for each row besides, codes and ends and row ids four bytes each over what they point at, packed
/// words eight, and views sixteen and their arena.
pub proof fn law_alone_a_vector_takes_its_parts(vector: Vector)
    requires
        vector.validity is AllValid,
    ensures
        match vector.body {
            Body::Flat(data) => data.layout() is Int32 && 4 * data.size() <= usize::MAX
                ==> whole_bytes(vector) == 96 + 4 * data.size(),
            Body::Sequence { .. } => whole_bytes(vector) == 96,
            Body::Dictionary { codes, values, .. } => whole_bytes(vector) == 96 + 4 * codes@.len()
                + whole_bytes(*values),
            Body::Runs { ends, values } => whole_bytes(vector) == 96 + 4 * ends@.len()
                + whole_bytes(*values),
            Body::Gathered { source, rids, .. } => whole_bytes(vector) == 96 + 4 * rids@.len()
                + whole_bytes(*source),
            Body::Packed { words, .. } => whole_bytes(vector) == 96 + 8 * words@.len(),
            Body::Views { views, arena } => whole_bytes(vector) == 96 + 16 * views@.len()
                + arena@.len(),
            Body::Nested { entries, child } => whole_bytes(vector) == 96 + 8 * entries@.len()
                + whole_bytes(*child),
            _ => true,
        },
{
}

} // verus!
