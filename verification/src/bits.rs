//! Integers kept in as many bits as they need, end to end in 64 bit words.

use vstd::arithmetic::power2::*;
use vstd::bits::*;
use vstd::prelude::*;

verus! {

/// The widest a packed code is allowed to be.
///
/// One short of a word, so that a mask is a shift of less than a whole word and reading a code
/// asks once whether it straddles two words.
pub const PACKED_WIDTH_MAX: u32 = 63;

/// Bit `at` of a word.
pub open spec fn word_bit(word: u64, at: u64) -> bool {
    (word >> at) & 1 == 1
}

/// Bit `at` of a run of words read low end first, and zero past their end.
pub open spec fn bit_in(words: Seq<u64>, at: int) -> bool {
    &&& 0 <= at
    &&& at / 64 < words.len()
    &&& word_bit(words[at / 64], (at % 64) as u64)
}

/// The number whose binary digits are the `width` bits starting at `bit`, lowest first.
pub open spec fn code_in(words: Seq<u64>, bit: int, width: nat) -> nat
    decreases width,
{
    if width == 0 {
        0
    } else {
        code_in(words, bit, (width - 1) as nat) + if bit_in(words, bit + width - 1) {
            pow2((width - 1) as nat)
        } else {
            0
        }
    }
}

/// The largest code of that many bits.
pub open spec fn top_code(width: nat) -> int {
    pow2(width) - 1
}

/// How many words hold `len` codes of `width` bits.
pub open spec fn words_needed(len: int, width: int) -> int {
    (len * width + 63) / 64
}

spec fn low_digits(word: u64, width: nat) -> nat
    decreases width,
{
    if width == 0 {
        0
    } else {
        low_digits(word, (width - 1) as nat) + if word_bit(word, (width - 1) as u64) {
            pow2((width - 1) as nat)
        } else {
            0
        }
    }
}

spec fn low_mask(width: u64) -> u64 {
    ((1u64 << width) - 1) as u64
}

proof fn lemma_low_digits(word: u64, width: nat)
    requires
        width <= 63,
    ensures
        low_digits(word, width) == word & low_mask(width as u64),
    decreases width,
{
    if width == 0 {
        assert(word & (((1u64 << 0u64) - 1) as u64) == 0) by (bit_vector);
    } else {
        let below = (width - 1) as u64;
        lemma_low_digits(word, (width - 1) as nat);
        lemma_u64_pow2_no_overflow((width - 1) as nat);
        lemma_u64_shl_is_mul(1, below);
        let next = width as u64;
        assert((word & (((1u64 << next) - 1) as u64)) == (word & (((1u64 << below) - 1) as u64)) + (
        if (word >> below) & 1 == 1 {
            1u64 << below
        } else {
            0u64
        })) by (bit_vector)
            requires
                below < 63,
                next == below + 1,
        ;
    }
}

/// The mask of `width` bits is the largest code of that width.
proof fn lemma_mask(width: u32)
    requires
        1 <= width <= 63,
    ensures
        u64::MAX >> ((64 - width) as u32) == low_mask(width as u64),
        low_mask(width as u64) == top_code(width as nat),
        0 < top_code(width as nat) < 0x8000_0000_0000_0000,
{
    let back = (64 - width) as u32;
    let wide = width as u64;
    assert(u64::MAX >> back == (((1u64 << wide) - 1) as u64)) by (bit_vector)
        requires
            1 <= width <= 63,
            back == 64 - width,
            wide == width,
    ;
    assert(0 < ((1u64 << wide) - 1) && ((1u64 << wide) - 1) < 0x8000_0000_0000_0000u64)
        by (bit_vector)
        requires
            1 <= wide <= 63,
    ;
    lemma_u64_pow2_no_overflow(width as nat);
    lemma_u64_shl_is_mul(1, wide);
}

proof fn lemma_digits_agree(words: Seq<u64>, bit: int, width: nat, code: u64)
    requires
        0 <= bit,
        width <= 63,
        forall|k: int| 0 <= k < width ==> word_bit(code, k as u64) == #[trigger] bit_in(
            words,
            bit + k,
        ),
    ensures
        code_in(words, bit, width) == low_digits(code, width),
    decreases width,
{
    if width > 0 {
        lemma_digits_agree(words, bit, (width - 1) as nat, code);
        assert(bit_in(words, bit + (width - 1)) == word_bit(code, (width - 1) as u64));
    }
}

/// A word whose bits are the ones at `bit` and nothing above them is the code there.
pub(crate) proof fn lemma_code_is(words: Seq<u64>, bit: int, width: u32, code: u64)
    requires
        0 <= bit,
        1 <= width <= 63,
        code <= top_code(width as nat),
        forall|k: int| 0 <= k < width ==> word_bit(code, k as u64) == #[trigger] bit_in(
            words,
            bit + k,
        ),
    ensures
        code_in(words, bit, width as nat) == code,
{
    lemma_digits_agree(words, bit, width as nat, code);
    lemma_low_digits(code, width as nat);
    lemma_mask(width);
    let mask = low_mask(width as u64);
    let wide = width as u64;
    assert(code & mask == code) by (bit_vector)
        requires
            mask == (((1u64 << wide) - 1) as u64),
            code <= mask,
            1 <= wide <= 63,
    ;
}

/// Two runs of words with the same bits in a range have the same code there.
pub proof fn lemma_same_bits_same_code(left: Seq<u64>, right: Seq<u64>, bit: int, width: nat)
    requires
        forall|k: int|
            0 <= k < width ==> #[trigger] bit_in(left, bit + k) == bit_in(right, bit + k),
    ensures
        code_in(left, bit, width) == code_in(right, bit, width),
    decreases width,
{
    if width > 0 {
        lemma_same_bits_same_code(left, right, bit, (width - 1) as nat);
        assert(bit_in(left, bit + (width - 1)) == bit_in(right, bit + (width - 1)));
    }
}

/// A code that starts past the words is zero.
pub proof fn lemma_code_past(words: Seq<u64>, bit: int, width: nat)
    requires
        bit >= words.len() * 64,
    ensures
        code_in(words, bit, width) == 0,
    decreases width,
{
    if width > 0 {
        lemma_code_past(words, bit, (width - 1) as nat);
    }
}

/// A code of `width` bits is never past the largest one.
pub proof fn lemma_code_bound(words: Seq<u64>, bit: int, width: nat)
    ensures
        0 <= code_in(words, bit, width) <= top_code(width),
    decreases width,
{
    if width == 0 {
        lemma2_to64();
    } else {
        lemma_code_bound(words, bit, (width - 1) as nat);
        lemma_pow2_unfold(width);
    }
}

/// The largest code of a width leaves room in a signed word.
pub proof fn lemma_top_code(width: u32)
    requires
        1 <= width <= 63,
    ensures
        0 < top_code(width as nat) < 0x8000_0000_0000_0000,
{
    lemma_mask(width);
}

/// The largest code of that many bits.
pub(crate) fn largest_code(width: u32) -> (code: u64)
    requires
        1 <= width <= 63,
    ensures
        code == top_code(width as nat),
{
    proof {
        lemma_mask(width);
    }
    u64::MAX >> (64 - width)
}

/// How many words hold `len` codes of `width` bits.
pub(crate) fn words_for(len: usize, width: u32) -> (words: usize)
    requires
        width <= 64,
    ensures
        words == words_needed(len as int, width as int),
{
    proof {
        assert(len * width <= len * 64) by (nonlinear_arith)
            requires
                width <= 64,
                len >= 0,
        ;
    }
    let bits: u128 = len as u128 * width as u128;
    ((bits + 63) / 64) as usize
}

/// The bit a packed row starts at.
pub(crate) fn bit_of(offset: usize, row: usize, width: u32) -> (bit: u128)
    requires
        width <= 64,
    ensures
        bit == (offset + row) * width,
{
    let rows: u128 = offset as u128 + row as u128;
    proof {
        assert(rows * width <= rows * 64) by (nonlinear_arith)
            requires
                width <= 64,
                rows >= 0,
        ;
    }
    rows * width as u128
}

/// A word of a run, and zero past its end.
fn word_at(words: &[u64], at: u128) -> (word: u64)
    ensures
        word == if at < words@.len() {
            words@[at as int]
        } else {
            0
        },
{
    let held: usize = words.len();
    if at < held as u128 {
        words[at as usize]
    } else {
        0
    }
}

/// The `width` bits starting at `bit`, low end first, and zero for bits past the end of the words.
pub(crate) fn code_at(words: &[u64], bit: u128, width: u32) -> (code: u64)
    requires
        1 <= width <= PACKED_WIDTH_MAX,
    ensures
        code == code_in(words@, bit as int, width as nat),
        code <= top_code(width as nat),
{
    let word: u128 = bit / 64;
    let shift: u32 = (bit % 64) as u32;
    let mask: u64 = u64::MAX >> (64 - width);
    let first: u64 = word_at(words, word);
    let low: u64 = first >> shift;
    let taken: u32 = 64 - shift;
    proof {
        lemma_mask(width);
    }
    if taken >= width {
        let code: u64 = low & mask;
        proof {
            assert(code <= mask) by (bit_vector)
                requires
                    code == low & mask,
            ;
            assert forall|k: int| 0 <= k < width implies word_bit(code, k as u64)
                == #[trigger] bit_in(words@, bit + k) by {
                let at = k as u64;
                let from = (shift + k) as u64;
                assert((((first >> shift) & mask) >> at) & 1 == (first >> from) & 1) by (bit_vector)
                    requires
                        1 <= width <= 63,
                        mask == (((1u64 << (width as u64)) - 1) as u64),
                        at < width,
                        shift < 64,
                        from == shift + at,
                        from < 64,
                ;
                assert((bit + k) / 64 == word);
                assert((bit + k) % 64 == from);
                assert((0u64 >> from) & 1 == 0) by (bit_vector);
            }
            lemma_code_is(words@, bit as int, width, code);
        }
        return code;
    }
    let second: u64 = word_at(words, word + 1);
    let high: u64 = second << taken;
    let code: u64 = (low | high) & mask;
    proof {
        assert(code <= mask) by (bit_vector)
            requires
                code == (low | high) & mask,
        ;
        assert forall|k: int| 0 <= k < width implies word_bit(code, k as u64) == #[trigger] bit_in(
            words@,
            bit + k,
        ) by {
            let at = k as u64;
            if shift + k < 64 {
                let from = (shift + k) as u64;
                assert(((((first >> shift) | (second << taken)) & mask) >> at) & 1 == (first >> from)
                    & 1) by (bit_vector)
                    requires
                        1 <= width <= 63,
                        mask == (((1u64 << (width as u64)) - 1) as u64),
                        at < width,
                        taken == 64 - shift,
                        0 < taken < width,
                        from == shift + at,
                        from < 64,
                ;
                assert((bit + k) / 64 == word);
                assert((bit + k) % 64 == from);
                assert((0u64 >> from) & 1 == 0) by (bit_vector);
            } else {
                let from = (shift + k - 64) as u64;
                assert(((((first >> shift) | (second << taken)) & mask) >> at) & 1 == (second
                    >> from) & 1) by (bit_vector)
                    requires
                        1 <= width <= 63,
                        mask == (((1u64 << (width as u64)) - 1) as u64),
                        at < width,
                        taken == 64 - shift,
                        0 < taken < width,
                        from == shift + at - 64,
                        shift + at >= 64,
                ;
                assert((bit + k) / 64 == word + 1);
                assert((bit + k) % 64 == from);
                assert((0u64 >> from) & 1 == 0) by (bit_vector);
            }
        }
        lemma_code_is(words@, bit as int, width, code);
    }
    code
}

/// Writes `width` bits of `code` starting at `bit`, over words that started out zero there.
pub(crate) fn write_code(words: &mut Vec<u64>, bit: u128, width: u32, code: u64)
    requires
        1 <= width <= PACKED_WIDTH_MAX,
        code <= top_code(width as nat),
        bit + width <= old(words)@.len() * 64,
    ensures
        final(words)@.len() == old(words)@.len(),
        forall|p: int|
            #![trigger bit_in(final(words)@, p)]
            bit_in(final(words)@, p) == (bit_in(old(words)@, p) || (bit <= p < bit + width
                && word_bit(code, (p - bit) as u64))),
{
    let ghost before = words@;
    let held: usize = words.len();
    let word: usize = (bit / 64) as usize;
    let shift: u32 = (bit % 64) as u32;
    let taken: u32 = 64 - shift;
    let first: u64 = words[word];
    words[word] = first | (code << shift);
    let ghost mask = low_mask(width as u64);
    proof {
        lemma_mask(width);
    }
    if taken < width {
        let second: u64 = words[word + 1];
        words[word + 1] = second | (code >> taken);
        proof {
            assert forall|p: int| #![trigger bit_in(words@, p)] bit_in(words@, p) == (bit_in(
                before,
                p,
            ) || (bit <= p < bit + width && word_bit(code, (p - bit) as u64))) by {
                if p >= 0 && p / 64 == word {
                    let at = (p % 64) as u64;
                    let from = (at - shift) as u64;
                    assert(((first | (code << shift)) >> at) & 1 == 1 <==> ((first >> at) & 1 == 1
                        || (at >= shift && (code >> ((at - shift) as u64)) & 1 == 1)))
                        by (bit_vector)
                        requires
                            at < 64,
                            shift < 64,
                    ;
                } else if p >= 0 && p / 64 == word + 1 {
                    let at = (p % 64) as u64;
                    let from = (at + taken) as u64;
                    assert(((second | (code >> taken)) >> at) & 1 == 1 <==> ((second >> at) & 1 == 1
                        || (from < wide(width) && (code >> from) & 1 == 1))) by {
                        let wid = width as u64;
                        assert(((second | (code >> taken)) >> at) & 1 == 1 <==> ((second >> at) & 1
                            == 1 || (from < wid && (code >> from) & 1 == 1))) by (bit_vector)
                            requires
                                at < 64,
                                0 < taken < 64,
                                from == at + taken,
                                1 <= wid <= 63,
                                code <= (((1u64 << wid) - 1) as u64),
                        ;
                    }
                }
            }
        }
    } else {
        proof {
            assert forall|p: int| #![trigger bit_in(words@, p)] bit_in(words@, p) == (bit_in(
                before,
                p,
            ) || (bit <= p < bit + width && word_bit(code, (p - bit) as u64))) by {
                if p >= 0 && p / 64 == word {
                    let at = (p % 64) as u64;
                    let wid = width as u64;
                    assert(((first | (code << shift)) >> at) & 1 == 1 <==> ((first >> at) & 1 == 1
                        || (at >= shift && at - shift < wid && (code >> ((at - shift) as u64)) & 1
                        == 1))) by (bit_vector)
                        requires
                            at < 64,
                            shift < 64,
                            1 <= wid <= 63,
                            code <= (((1u64 << wid) - 1) as u64),
                    ;
                }
            }
        }
    }
}

spec fn wide(width: u32) -> u64 {
    width as u64
}

/// The smallest and largest of `at`, or `None` when it is empty.
pub fn extent(at: &[u32]) -> (ends: Option<(u32, u32)>)
    ensures
        ends is None <==> at@.len() == 0,
        ends matches Some((low, high)) ==> {
            &&& at@.contains(low)
            &&& at@.contains(high)
            &&& forall|i: int| 0 <= i < at@.len() ==> low <= #[trigger] at@[i] <= high
        },
{
    if at.len() == 0 {
        return None;
    }
    let mut low: u32 = at[0];
    let mut high: u32 = at[0];
    let mut row: usize = 1;
    while row < at.len()
        invariant
            1 <= row <= at.len(),
            at@.contains(low),
            at@.contains(high),
            forall|i: int| 0 <= i < row ==> low <= #[trigger] at@[i] <= high,
        decreases at.len() - row,
    {
        if at[row] < low {
            low = at[row];
        }
        if at[row] > high {
            high = at[row];
        }
        row += 1;
    }
    Some((low, high))
}

/// Whether every one of `codes` is below `len`.
///
/// An `or` of every code is at least as large as each of them, so when it is below `len` every
/// code is too. Anything the `or` cannot settle takes the largest code.
pub fn below(codes: &[u32], len: usize) -> (inside: bool)
    ensures
        inside == forall|i: int| 0 <= i < codes@.len() ==> #[trigger] codes@[i] < len,
{
    if len > u32::MAX as usize {
        return true;
    }
    let mut bits: u32 = 0;
    let mut row: usize = 0;
    while row < codes.len()
        invariant
            row <= codes.len(),
            forall|i: int| 0 <= i < row ==> #[trigger] codes@[i] <= bits,
        decreases codes.len() - row,
    {
        let code: u32 = codes[row];
        let was: u32 = bits;
        bits = was | code;
        assert(was | code >= was && was | code >= code) by (bit_vector);
        row += 1;
    }
    if codes.len() == 0 || (bits as usize) < len {
        return true;
    }
    let mut highest: u32 = 0;
    row = 0;
    while row < codes.len()
        invariant
            row <= codes.len(),
            forall|i: int| 0 <= i < row ==> #[trigger] codes@[i] <= highest,
            highest == 0 || codes@.contains(highest),
        decreases codes.len() - row,
    {
        if codes[row] > highest {
            highest = codes[row];
        }
        row += 1;
    }
    proof {
        if highest == 0 {
            assert(codes@[0] == 0);
        }
    }
    (highest as usize) < len
}

/// The bits of a packed vector and what they mean, for a kernel that wants to stay in code space.
#[derive(Debug, Clone, Copy)]
pub struct Packed<'a> {
    words: &'a [u64],
    width: u32,
    base: i128,
    offset: usize,
}

impl<'a> Packed<'a> {
    pub closed spec fn held(&self) -> Seq<u64> {
        self.words@
    }

    pub closed spec fn bits_each(&self) -> u32 {
        self.width
    }

    pub closed spec fn zero(&self) -> i128 {
        self.base
    }

    pub closed spec fn start(&self) -> usize {
        self.offset
    }

    /// A width that leaves a mask to take, and no value past what an `i128` holds.
    pub open spec fn wf(&self) -> bool {
        &&& 1 <= self.bits_each() <= PACKED_WIDTH_MAX
        &&& self.zero() + top_code(self.bits_each() as nat) <= i128::MAX
    }

    /// The code of a row, which is the bits from `(start + row) * width` on.
    pub open spec fn row_code(&self, row: int) -> nat {
        code_in(
            self.held(),
            (self.start() + row) * self.bits_each(),
            self.bits_each() as nat,
        )
    }

    pub fn new(words: &'a [u64], width: u32, base: i128, offset: usize) -> (packed: Packed<
        'a,
    >)
        ensures
            packed.held() == words@,
            packed.bits_each() == width,
            packed.zero() == base,
            packed.start() == offset,
    {
        Packed { words, width, base, offset }
    }

    /// Packed words. A persisted vector also records [`Self::offset`].
    pub fn words(&self) -> (words: &'a [u64])
        ensures
            words@ == self.held(),
    {
        self.words
    }

    /// How many rows of the words come before the first value.
    pub fn offset(&self) -> (offset: usize)
        ensures
            offset == self.start(),
    {
        self.offset
    }

    /// How many bits one code takes, between one and [`PACKED_WIDTH_MAX`].
    pub fn width(&self) -> (width: u32)
        ensures
            width == self.bits_each(),
    {
        self.width
    }

    /// What zero means, so that the value of a row is the base plus its code.
    pub fn base(&self) -> (base: i128)
        ensures
            base == self.zero(),
    {
        self.base
    }

    /// The largest value this vector can be holding, whatever it is actually holding.
    pub fn ceiling(&self) -> (top: i128)
        requires
            self.wf(),
        ensures
            top == self.zero() + top_code(self.bits_each() as nat),
    {
        self.base + self.mask() as i128
    }

    /// The code of row `row`, which is its value minus [`Self::base`], and zero past the words.
    pub fn code(&self, row: usize) -> (code: u64)
        requires
            self.wf(),
        ensures
            code == self.row_code(row as int),
            code <= top_code(self.bits_each() as nat),
            (self.start() + row) * self.bits_each() >= self.held().len() * 64 ==> code == 0,
    {
        let bit: u128 = bit_of(self.offset, row, self.width);
        proof {
            if bit >= self.words@.len() * 64 {
                lemma_code_past(self.words@, bit as int, self.width as nat);
            }
        }
        code_at(self.words, bit, self.width)
    }

    /// Which code a value would have, and `None` for a value this vector cannot be holding.
    pub fn code_of(&self, value: i128) -> (code: Option<u64>)
        requires
            self.wf(),
        ensures
            code is Some <==> self.zero() <= value <= self.zero() + top_code(
                self.bits_each() as nat,
            ),
            code matches Some(code) ==> self.zero() + code == value,
    {
        let mask: u64 = self.mask();
        if value < self.base || value > self.base + mask as i128 {
            return None;
        }
        Some((value - self.base) as u64)
    }

    /// The largest code the width allows.
    fn mask(&self) -> (mask: u64)
        requires
            self.wf(),
        ensures
            mask == top_code(self.bits_each() as nat),
    {
        largest_code(self.width)
    }

    /// The codes of rows `from` to `from + out.len()`, in one pass over the words.
    pub fn unpack(&self, from: usize, out: &mut [u64])
        requires
            self.wf(),
        ensures
            final(out)@.len() == old(out)@.len(),
            forall|i: int|
                0 <= i < final(out)@.len() ==> #[trigger] final(out)@[i] == self.row_code(from + i),
    {
        let mut at: usize = 0;
        let len: usize = out.len();
        while at < len
            invariant
                at <= len,
                len == out@.len(),
                self.wf(),
                forall|i: int| 0 <= i < at ==> #[trigger] out@[i] == self.row_code(from + i),
            decreases len - at,
        {
            proof {
                let rows = self.offset + from;
                let width = self.width as int;
                assert(rows * width <= rows * 64 && at * width <= at * 64 && rows * width + at
                    * width == (rows + at) * width) by (nonlinear_arith)
                    requires
                        0 <= width <= 64,
                        rows >= 0,
                        at >= 0,
                ;
                assert(self.offset + (from + at) == rows + at);
            }
            let bit: u128 = bit_of(self.offset, from, self.width) + at as u128 * self.width as u128;
            out[at] = code_at(self.words, bit, self.width);
            at += 1;
        }
    }

    /// The code of each of `rows` rows `at` names, in order.
    ///
    /// Rows close together are read out of their span unpacked whole. Rows spread too far apart for
    /// that to pay are read a code at a time.
    pub fn codes_at<M: Fn(usize) -> usize>(&self, at: M, rows: usize) -> (codes: Vec<u64>)
        requires
            self.wf(),
            forall|i: usize| i < rows ==> #[trigger] call_requires(at, (i,)),
        ensures
            codes@.len() == rows,
            forall|i: int|
                #![trigger codes@[i]]
                0 <= i < rows ==> codes@[i] <= top_code(self.bits_each() as nat) && exists|row: usize|
                    #[trigger] call_ensures(at, (i as usize,), row) && codes@[i] == self.row_code(
                        row as int,
                    ),
    {
        let mut named: Vec<usize> = Vec::new();
        let mut low: usize = usize::MAX;
        let mut high: usize = 0;
        let mut index: usize = 0;
        while index < rows
            invariant
                index <= rows,
                named@.len() == index,
                forall|i: usize| i < rows ==> #[trigger] call_requires(at, (i,)),
                forall|i: int|
                    0 <= i < index ==> call_ensures(at, (i as usize,), #[trigger] named@[i]) && low
                        <= named@[i] <= high,
                index == 0 ==> high == 0,
                index > 0 ==> exists|i: int| 0 <= i < index && #[trigger] named@[i] == high,
            decreases rows - index,
        {
            let ghost before = named@;
            let ghost top = if index > 0 {
                choose|i: int| 0 <= i < index && #[trigger] named@[i] == high
            } else {
                0
            };
            assert(index > 0 ==> before[top] == high && 0 <= top < index);
            let row: usize = at(index);
            if row < low {
                low = row;
            }
            if row > high {
                high = row;
            }
            named.push(row);
            assert(named@[if high == row { index as int } else { top }] == high);
            index += 1;
        }
        let mut codes: Vec<u64> = Vec::new();
        if rows == 0 {
            return codes;
        }
        assert(call_ensures(at, (0usize,), named@[0]));
        if spread_out(high - low, rows) {
            let mut index: usize = 0;
            while index < rows
                invariant
                    index <= rows,
                    codes@.len() == index,
                    named@.len() == rows,
                    self.wf(),
                    forall|i: int|
                        0 <= i < rows ==> call_ensures(at, (i as usize,), #[trigger] named@[i]),
                    forall|i: int|
                        0 <= i < index ==> #[trigger] codes@[i] == self.row_code(named@[i] as int),
                decreases rows - index,
            {
                codes.push(self.code(named[index]));
                index += 1;
            }
        } else {
            let span: usize = high - low;
            let mut run: Vec<u64> = vec![0u64; span + 1];
            self.unpack(low, run.as_mut_slice());
            let mut index: usize = 0;
            while index < rows
                invariant
                    index <= rows,
                    codes@.len() == index,
                    named@.len() == rows,
                    run@.len() == high - low + 1,
                    forall|i: int| 0 <= i < rows ==> low <= #[trigger] named@[i] <= high,
                    forall|i: int|
                        0 <= i < run@.len() ==> #[trigger] run@[i] == self.row_code(low + i),
                    forall|i: int|
                        0 <= i < index ==> #[trigger] codes@[i] == self.row_code(named@[i] as int),
                decreases rows - index,
            {
                let row: usize = named[index];
                codes.push(run[row - low]);
                index += 1;
            }
        }
        assert forall|i: int| #![trigger codes@[i]] 0 <= i < rows implies codes@[i] <= top_code(
            self.bits_each() as nat,
        ) && exists|row: usize|
            #[trigger] call_ensures(at, (i as usize,), row) && codes@[i] == self.row_code(
                row as int,
            ) by {
            assert(call_ensures(at, (i as usize,), named@[i]));
            assert(codes@[i] == self.row_code(named@[i] as int));
            lemma_code_bound(
                self.held(),
                (self.start() + named@[i]) * self.bits_each(),
                self.bits_each() as nat,
            );
        }
        codes
    }

    /// The value of each row `at` names, in order, made from its code by `value`.
    pub fn values_at<T, F: Fn(u64) -> T>(&self, at: &[u32], value: F) -> (values: Vec<T>)
        requires
            self.wf(),
            forall|code: u64|
                code <= top_code(self.bits_each() as nat) ==> #[trigger] call_requires(
                    value,
                    (code,),
                ),
        ensures
            values@.len() == at@.len(),
            forall|i: int|
                0 <= i < at@.len() ==> call_ensures(
                    value,
                    (self.row_code(at@[i] as int) as u64,),
                    #[trigger] values@[i],
                ),
    {
        let mut values: Vec<T> = Vec::new();
        let (low, high): (usize, usize) = match extent(at) {
            None => return values,
            Some((low, high)) => (low as usize, high as usize),
        };
        if spread_out(high - low, at.len()) {
            let mut index: usize = 0;
            while index < at.len()
                invariant
                    index <= at.len(),
                    values@.len() == index,
                    self.wf(),
                            forall|code: u64|
                        code <= top_code(self.bits_each() as nat) ==> #[trigger] call_requires(
                            value,
                            (code,),
                        ),
                    forall|i: int|
                        0 <= i < index ==> call_ensures(
                            value,
                            (self.row_code(at@[i] as int) as u64,),
                            #[trigger] values@[i],
                        ),
                decreases at.len() - index,
            {
                let code: u64 = self.code(at[index] as usize);
                values.push(value(code));
                index += 1;
            }
            return values;
        }
        let span: usize = high - low;
        let mut run: Vec<u64> = vec![0u64; span + 1];
        self.unpack(low, run.as_mut_slice());
        let mut index: usize = 0;
        while index < at.len()
            invariant
                index <= at.len(),
                values@.len() == index,
                run@.len() == high - low + 1,
                forall|i: int| 0 <= i < at@.len() ==> low <= #[trigger] at@[i] <= high,
                forall|i: int| 0 <= i < run@.len() ==> #[trigger] run@[i] == self.row_code(low + i),
                forall|code: u64|
                    code <= top_code(self.bits_each() as nat) ==> #[trigger] call_requires(
                        value,
                        (code,),
                    ),
                forall|i: int|
                    0 <= i < index ==> call_ensures(
                        value,
                        (self.row_code(at@[i] as int) as u64,),
                        #[trigger] values@[i],
                    ),
            decreases at.len() - index,
        {
            let row: usize = at[index] as usize;
            let code: u64 = run[row - low];
            proof {
                lemma_code_bound(
                    self.held(),
                    (self.start() + row) * self.bits_each(),
                    self.bits_each() as nat,
                );
            }
            values.push(value(code));
            index += 1;
        }
        values
    }
}

/// Whether a span is too wide to be worth unpacking whole for that many rows.
fn spread_out(span: usize, rows: usize) -> (far: bool)
    requires
        rows > 0,
    ensures
        far == (span >= if rows * 4 <= usize::MAX {
            rows * 4
        } else {
            usize::MAX as int
        }),
{
    match rows.checked_mul(4) {
        Some(reach) => span >= reach,
        None => span == usize::MAX,
    }
}

/// The words for so many codes hold all their bits, and one fewer would not.
pub proof fn law_words_are_as_few_as_hold_the_codes(len: int, width: int)
    requires
        0 <= len,
        0 <= width,
    ensures
        words_needed(len, width) * 64 >= len * width,
        len * width > 0 ==> (words_needed(len, width) - 1) * 64 < len * width,
        len * width == 0 ==> words_needed(len, width) == 0,
{
    assert(len * width >= 0) by (nonlinear_arith)
        requires
            0 <= len,
            0 <= width,
    ;
}

/// The largest code of so many bits has every one of them set: one bit more doubles it and adds one.
pub proof fn law_the_largest_code_is_all_ones(width: nat)
    ensures
        top_code(0) == 0,
        top_code(width + 1) == 2 * top_code(width) + 1,
{
    lemma2_to64();
    lemma_pow2_unfold((width + 1) as nat);
}

/// A row's code stands behind the codes of the rows before it, all of one width.
pub proof fn law_a_code_stands_behind_those_before_it<'a>(packed: Packed<'a>, row: int)
    requires
        packed.wf(),
        0 <= row,
    ensures
        packed.row_code(row) == code_in(
            packed.held(),
            packed.start() * packed.bits_each() + row * packed.bits_each(),
            packed.bits_each() as nat,
        ),
{
    let width = packed.bits_each() as int;
    let start = packed.start() as int;
    assert((start + row) * width == start * width + row * width) by (nonlinear_arith);
}

/// The ends of some places are among them and hold all the others between them, and places are below a
/// length where the last of them is.
pub proof fn law_places_lie_between_their_ends(
    at: &[u32],
    ends: Option<(u32, u32)>,
    len: usize,
    inside: bool,
)
    requires
        call_ensures(extent, (at,), ends),
        call_ensures(below, (at, len), inside),
    ensures
        ends is None <==> at@.len() == 0,
        ends is Some ==> (forall|i: int|
            0 <= i < at@.len() ==> (ends->Some_0).0 <= #[trigger] at@[i] <= (ends->Some_0).1),
        ends is Some ==> at@.contains((ends->Some_0).0) && at@.contains((ends->Some_0).1),
        ends is Some && (ends->Some_0).1 < len ==> inside,
        ends is None ==> inside,
{
    if ends is Some {
        if (ends->Some_0).1 < len {
            assert forall|i: int| 0 <= i < at@.len() implies #[trigger] at@[i] < len by {
                assert(at@[i] <= (ends->Some_0).1);
            }
        }
    }
}

/// A packed value is the base and its code, so the code of a value that a row holds is the row's own,
/// and a value no code stands for has none.
pub proof fn law_a_code_is_how_far_a_value_is_above_the_base<'a>(
    packed: &Packed<'a>,
    row: usize,
    code: u64,
    value: i128,
    found: Option<u64>,
    top: i128,
)
    requires
        packed.wf(),
        call_ensures(Packed::<'a>::code, (packed, row), code),
        call_ensures(Packed::<'a>::code_of, (packed, value), found),
        call_ensures(Packed::<'a>::ceiling, (packed,), top),
    ensures
        value == packed.zero() + code ==> found == Some(code),
        found is Some ==> packed.zero() + found->Some_0 == value,
        value < packed.zero() || value > top ==> found is None,
        packed.zero() <= value <= top ==> found is Some,
        packed.zero() + code <= top,
{
}

} // verus!
