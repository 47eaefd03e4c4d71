//! Deciding whether a flat column is smaller as runs or as packed bits, and writing it so.

use super::gather::{same_values, widened};
use super::read::{lemma_ends_count, lemma_run_exists};
use super::{run_of_row, Body, Vector};
use crate::bits::{code_in, lemma_top_code, top_code, words_for, words_needed};
use crate::data::{
    boundaries, breaks_at, integer_cell, is_exact_layout, layout_high, layout_low, layout_of, pack,
    packing_base, packs, run_count, slot_bytes, slot_width, span_of, Data,
};
use crate::types::{Datum, Error};
use std::sync::Arc;
use vstd::arithmetic::power2::*;
use vstd::prelude::*;

verus! {

/// How many rows a run has to cover on average before run length encoding is smaller.
pub const RUNS_PAY_AT: usize = 2;

/// How much smaller packing has to be before it is worth the shift and the mask on every read.
pub const PACKING_PAYS_AT: usize = 2;

/// Whether two values compare equal: the same value, or two zeros of a float that differ in sign.
pub open spec fn alike(left: Datum, right: Datum) -> bool {
    ||| left == right
    ||| (left matches Datum::Float(x) && right matches Datum::Float(y) && x % 0x8000_0000u32 == 0 && y
        % 0x8000_0000u32 == 0)
    ||| (left matches Datum::Double(x) && right matches Datum::Double(y) && x
        % 0x8000_0000_0000_0000u64 == 0 && y % 0x8000_0000_0000_0000u64 == 0)
}

/// How many bits a number takes.
pub open spec fn bits_needed(range: nat) -> nat
    decreases range,
{
    if range == 0 {
        0
    } else {
        1 + bits_needed(range / 2)
    }
}

/// The lowest of the first `count` integers of a run.
pub open spec fn lowest(data: &Data, count: nat) -> int
    decreases count,
{
    if count <= 1 || data.integer(count - 1) < lowest(data, (count - 1) as nat) {
        data.integer(count - 1)
    } else {
        lowest(data, (count - 1) as nat)
    }
}

/// The highest of the first `count` integers of a run.
pub open spec fn highest(data: &Data, count: nat) -> int
    decreases count,
{
    if count <= 1 || data.integer(count - 1) > highest(data, (count - 1) as nat) {
        data.integer(count - 1)
    } else {
        highest(data, (count - 1) as nat)
    }
}

/// The width and the base a run of integers is packed with, where packing it pays.
///
/// The width is the bits the range of the column takes. Packing pays where the bits come to half
/// the flat size or less. The base is the smallest value, moved down where codes up from it would
/// run past the type.
pub open spec fn packing_plan(data: &Data, len: nat) -> Option<(nat, int)> {
    let layout = data.layout();
    let range = highest(data, len) - lowest(data, len);
    let width = bits_needed(range as nat);
    let low = lowest(data, len);
    let room = layout_high(layout) - top_code(width);
    let base = if low < room {
        low
    } else {
        room
    };
    if !is_exact_layout(layout) || len == 0 || range > u64::MAX || width == 0 || width > 63 {
        None
    } else if words_needed(len as int, width as int) * 8 * 2 > len * slot_bytes(layout) {
        None
    } else if base < layout_low(layout) || base + top_code(width) < highest(data, len) {
        None
    } else {
        Some((width, base))
    }
}

proof fn lemma_span(data: &Data, count: nat, at: int)
    requires
        0 <= at < count,
    ensures
        lowest(data, count) <= data.integer(at) <= highest(data, count),
    decreases count,
{
    if at < count - 1 {
        lemma_span(data, (count - 1) as nat, at);
    } else if count > 1 {
        lemma_span(data, (count - 1) as nat, 0);
    }
}

proof fn lemma_ends_of_span(data: &Data, count: nat) -> (ends: (int, int))
    requires
        count > 0,
    ensures
        0 <= ends.0 < count && data.integer(ends.0) == lowest(data, count),
        0 <= ends.1 < count && data.integer(ends.1) == highest(data, count),
    decreases count,
{
    if count == 1 {
        (0, 0)
    } else {
        let (low, high) = lemma_ends_of_span(data, (count - 1) as nat);
        (
            if lowest(data, count) == data.integer(count - 1) {
                count - 1
            } else {
                low
            },
            if highest(data, count) == data.integer(count - 1) {
                count - 1
            } else {
                high
            },
        )
    }
}

proof fn lemma_bits(range: nat)
    ensures
        range <= top_code(bits_needed(range)),
    decreases range,
{
    lemma2_to64();
    if range > 0 {
        lemma_bits(range / 2);
        lemma_pow2_unfold(bits_needed(range));
    }
}

proof fn lemma_bits_bound(range: nat, bits: nat)
    requires
        range < pow2(bits),
    ensures
        bits_needed(range) <= bits,
    decreases bits,
{
    lemma2_to64();
    if range > 0 {
        if bits > 0 {
            lemma_pow2_unfold(bits);
            lemma_bits_bound(range / 2, (bits - 1) as nat);
        }
    }
}

/// How many bits a number takes.
fn bits_for(range: u64) -> (bits: u32)
    ensures
        bits == bits_needed(range as nat),
        bits <= 64,
{
    proof {
        lemma2_to64();
        lemma_bits_bound(range as nat, 64);
    }
    let mut rest: u64 = range;
    let mut bits: u32 = 0;
    while rest > 0
        invariant
            bits + bits_needed(rest as nat) == bits_needed(range as nat),
            bits_needed(range as nat) <= 64,
        decreases rest,
    {
        rest = rest / 2;
        bits += 1;
    }
    bits
}

impl Vector {
    /// The same values bit packed, when the range of the column makes that smaller.
    ///
    /// Only a flat integer body is looked at. The range is taken over every slot including the null
    /// ones, which hold a zero. A column whose values are all the same is left as it is.
    pub fn bit_packed(&self) -> (vector: Result<Vector, Error>)
        requires
            self.wf(),
        ensures
            vector matches Ok(vector) && {
                &&& same_values(vector, *self)
                &&& vector.validity == self.validity
                &&& match self.body {
                    Body::Flat(data) => match packing_plan(&*data, self.len as nat) {
                        Some((wide, zero)) => vector.body matches Body::Packed {
                            width,
                            base,
                            offset: 0,
                            ..
                        } && width == wide && base == zero,
                        None => vector == *self,
                    },
                    _ => vector == *self,
                }
            },
    {
        let data = match &self.body {
            Body::Flat(data) => data,
            _ => return Ok(self.dup()),
        };
        let (low, high): (i128, i128) = match span_of(data, self.len) {
            Some(span) => span,
            None => return Ok(self.dup()),
        };
        proof {
            let (l, h) = lemma_ends_of_span(&**data, self.len as nat);
            lemma_span(&**data, self.len as nat, l);
            let at_low = choose|i: int|
                0 <= i < self.len && i < data.size() && #[trigger] data.integer(i) == low;
            let at_high = choose|i: int|
                0 <= i < self.len && i < data.size() && #[trigger] data.integer(i) == high;
            lemma_span(&**data, self.len as nat, at_low);
            lemma_span(&**data, self.len as nat, at_high);
            assert(low == lowest(&**data, self.len as nat));
            assert(high == highest(&**data, self.len as nat));
        }
        let range: u64 = match high.checked_sub(low) {
            Some(range) => if range <= u64::MAX as i128 {
                range as u64
            } else {
                return Ok(self.dup());
            },
            None => return Ok(self.dup()),
        };
        let width: u32 = bits_for(range);
        if width == 0 || width > 63 {
            return Ok(self.dup());
        }
        proof {
            lemma_bits(range as nat);
            lemma_top_code(width);
        }
        let packed_bytes: u128 = words_for(self.len, width) as u128 * 8 * 2;
        let flat_bytes: u128 = self.len as u128 * slot_width(layout_of(data)) as u128;
        if packed_bytes > flat_bytes {
            return Ok(self.dup());
        }
        let base: i128 = match packing_base(&self.ty, low, high, width) {
            Some(base) => base,
            None => {
                proof {
                    if let Some((wide, zero)) = packing_plan(&**data, self.len as nat) {
                        assert(packs(self.ty, low as int, high as int, width as nat, zero));
                    }
                }
                return Ok(self.dup());
            },
        };
        proof {
            let room = layout_high(data.layout()) - top_code(width as nat);
            let zero: int = if low < room {
                low as int
            } else {
                room
            };
            assert(packs(self.ty, low as int, high as int, width as nat, zero));
            assert(base == zero);
            assert forall|i: int| 0 <= i < self.len implies base <= #[trigger] data.integer(i)
                <= base + top_code(width as nat) by {
                lemma_span(&**data, self.len as nat, i);
            }
        }
        let words = pack(data, self.len, base, width);
        let ghost bits = words@;
        match Vector::packed(self.ty.dup(), words, width, base, self.len) {
            Ok(packed) => {
                let vector = packed.with_validity(self.validity.dup());
                assert forall|i: int| #[trigger] vector.datum(i) == self.datum(i) by {
                    if 0 <= i < self.len {
                        assert(code_in(bits, i * width, width as nat) == data.integer(i) - base);
                        assert((0 + i) * width == i * width);
                        assert(data.cell(i) == integer_cell(data.layout(), data.integer(i)));
                    }
                }
                Ok(vector)
            },
            Err(error) => Err(error),
        }
    }

    /// The same values as runs, when there are few enough runs for that to be smaller.
    ///
    /// Only a flat body is looked at, of no more rows than the end of a run counts to. Two adjacent
    /// nulls are one run, and a null between two equal values is a break.
    pub fn run_encoded(&self) -> (vector: Result<Vector, Error>)
        requires
            self.wf(),
        ensures
            vector matches Ok(vector) && {
                &&& vector.wf()
                &&& vector.ty == self.ty
                &&& vector.len == self.len
                &&& forall|i: int| alike(#[trigger] vector.datum(i), self.datum(i))
                &&& match self.body {
                    Body::Flat(data) => if self.len <= u32::MAX && 2 * run_count(
                        &*data,
                        &self.validity,
                        self.len as nat,
                    ) < self.len {
                        vector.body matches Body::Runs { ends, .. } && ends@.len() == run_count(
                            &*data,
                            &self.validity,
                            self.len as nat,
                        )
                    } else {
                        vector == *self
                    },
                    _ => vector == *self,
                }
            },
    {
        let data = match &self.body {
            Body::Flat(data) => data,
            _ => return Ok(self.dup()),
        };
        if self.len as u64 > u32::MAX as u64 {
            return Ok(self.dup());
        }
        let ends = boundaries(data, &self.validity, self.len);
        proof {
            lemma_ends_count(ends@, ends@.len() as int);
        }
        if ends.len() as u64 * 2 >= self.len as u64 {
            return Ok(self.dup());
        }
        let mut starts: Vec<u32> = Vec::new();
        let mut run: usize = 0;
        while run < ends.len()
            invariant
                run <= ends@.len(),
                starts@.len() == run,
                forall|k: int|
                    0 <= k < run ==> #[trigger] starts@[k] == if k == 0 {
                        0
                    } else {
                        ends@[k - 1]
                    },
            decreases ends.len() - run,
        {
            starts.push(
                if run == 0 {
                    0
                } else {
                    ends[run - 1]
                },
            );
            run += 1;
        }
        let values = match self.gather(starts.as_slice()) {
            Ok(values) => values,
            Err(error) => return Err(error),
        };
        let ghost stops = ends@;
        match Vector::runs(ends, values) {
            Ok(vector) => {
                assert forall|i: int| alike(#[trigger] vector.datum(i), self.datum(i)) by {
                    if 0 <= i < self.len {
                        lemma_run_exists(stops, i);
                        let run = run_of_row(stops, i)->Some_0;
                        let start = starts@[run] as int;
                        assert(widened(starts@)[run] == starts@[run]);
                        assert(values.datum(run) == self.datum(start));
                        assert forall|r: int| start < r <= i implies !(#[trigger] breaks_at(
                            &**data,
                            &self.validity,
                            r,
                        )) || data.layout() is Empty by {
                            if !(data.layout() is Empty) && breaks_at(&**data, &self.validity, r) {
                                assert(stops.contains(r as u32));
                                let k = choose|k: int|
                                    0 <= k < stops.len() && stops[k] == r as u32;
                                if k < run {
                                    assert(k < run - 1 ==> stops[k] < stops[run - 1]);
                                } else if k > run {
                                    assert(stops[run] < stops[k]);
                                }
                            }
                        }
                        self.lemma_run_is_alike(&**data, start, i);
                    }
                }
                Ok(vector)
            },
            Err(error) => Err(error),
        }
    }

    proof fn lemma_run_is_alike(&self, data: &Data, start: int, row: int)
        requires
            self.wf(),
            self.body == Body::Flat(Arc::new(*data)),
            0 <= start <= row < self.len,
            forall|r: int|
                start < r <= row ==> !(#[trigger] breaks_at(data, &self.validity, r))
                    || data.layout() is Empty,
        ensures
            alike(self.datum(start), self.datum(row)),
        decreases row - start,
    {
        if start < row {
            self.lemma_run_is_alike(data, start, row - 1);
            assert(!breaks_at(data, &self.validity, row) || data.layout() is Empty);
            assert(alike(self.datum(row - 1), self.datum(row)));
        }
    }
}

/// A number takes as many bits as it needs and no more.
pub proof fn law_a_number_takes_the_bits_it_needs(range: nat)
    ensures
        range < pow2(bits_needed(range)),
        range > 0 ==> bits_needed(range) > 0 && pow2((bits_needed(range) - 1) as nat) <= range,
        range == 0 ==> bits_needed(range) == 0,
    decreases range,
{
    lemma2_to64();
    if range > 0 {
        law_a_number_takes_the_bits_it_needs(range / 2);
        lemma_pow2_unfold(bits_needed(range));
        if range / 2 > 0 {
            lemma_pow2_unfold(bits_needed(range / 2));
        } else {
            assert(bits_needed(0) == 0);
        }
    }
}

/// The lowest and the highest of a run are among its integers, and no integer of it is outside them.
pub proof fn law_a_run_lies_between_its_ends(data: &Data, count: nat, at: int) -> (ends: (int, int))
    requires
        0 <= at < count,
    ensures
        0 <= ends.0 < count && data.integer(ends.0) == lowest(data, count),
        0 <= ends.1 < count && data.integer(ends.1) == highest(data, count),
        lowest(data, count) <= data.integer(at) <= highest(data, count),
{
    lemma_span(data, count, at);
    lemma_ends_of_span(data, count)
}

/// Packed, every integer of a run is the base and a code of the width, every code is a value the run
/// could hold, the width is the least its range takes, and the words come to at most half of what the
/// run takes laid out flat.
pub proof fn law_a_packed_run_holds_every_integer(data: &Data, len: nat, at: int)
    requires
        packing_plan(data, len) is Some,
        0 <= at < len,
    ensures
        ({
            let (width, base) = packing_plan(data, len)->Some_0;
            &&& 1 <= width <= 63
            &&& base <= data.integer(at) < base + pow2(width)
            &&& layout_low(data.layout()) <= base
            &&& base + pow2(width) - 1 <= layout_high(data.layout())
            &&& pow2((width - 1) as nat) <= highest(data, len) - lowest(data, len) < pow2(width)
            &&& base == lowest(data, len) || base + pow2(width) - 1 == layout_high(data.layout())
            &&& 16 * words_needed(len as int, width as int) <= len * slot_bytes(data.layout())
        }),
{
    let (low, high) = law_a_run_lies_between_its_ends(data, len, at);
    lemma_span(data, len, low);
    law_a_number_takes_the_bits_it_needs((highest(data, len) - lowest(data, len)) as nat);
}

/// A run of integers that differ is left flat only where packing it would not come to half of what it
/// takes, or where the codes of its range would not all be values of its type.
pub proof fn law_a_run_that_pays_is_packed(data: &Data, len: nat, width: nat)
    requires
        is_exact_layout(data.layout()),
        0 < len,
        1 <= width <= 63,
        layout_low(data.layout()) <= lowest(data, len),
        highest(data, len) <= layout_high(data.layout()),
        pow2((width - 1) as nat) <= highest(data, len) - lowest(data, len) < pow2(width),
        layout_low(data.layout()) + pow2(width) - 1 <= layout_high(data.layout()),
        16 * words_needed(len as int, width as int) <= len * slot_bytes(data.layout()),
    ensures
        packing_plan(data, len) is Some,
        (packing_plan(data, len)->Some_0).0 == width,
{
    let range = (highest(data, len) - lowest(data, len)) as nat;
    law_a_number_takes_the_bits_it_needs(range);
    let needed = bits_needed(range);
    if needed < width {
        if needed < width - 1 {
            lemma_pow2_strictly_increases(needed, (width - 1) as nat);
        }
    }
    if needed > width {
        if needed - 1 > width {
            lemma_pow2_strictly_increases(width, (needed - 1) as nat);
        }
    }
    assert(needed == width);
    lemma2_to64();
    lemma2_to64_rest();
    if width < 63 {
        lemma_pow2_strictly_increases(width, 63);
    }
}

/// Values are alike where they are the same, and where both are a zero of a float.
pub proof fn law_alike_values_differ_at_most_in_the_sign_of_a_zero(left: Datum, right: Datum)
    ensures
        alike(left, left),
        alike(left, right) && left != right ==> (left is Float && right is Float) || (left is Double
            && right is Double),
        alike(left, right) && left != right && left is Float ==> (left->Float_0 == 0 && right->Float_0
            == 0x8000_0000) || (left->Float_0 == 0x8000_0000 && right->Float_0 == 0),
        alike(left, right) && left != right && left is Double ==> (left->Double_0 == 0
            && right->Double_0 == 0x8000_0000_0000_0000) || (left->Double_0 == 0x8000_0000_0000_0000
            && right->Double_0 == 0),
{
}

} // verus!
