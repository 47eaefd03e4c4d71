//! Reading single rows, and what a vector says of itself without being read.

use super::{run_from, run_of_row, sequence_at, source_row, wrap64, Body, Form, Vector, NO_ROW};
use crate::bits::{bit_of, code_at, lemma_code_bound, Packed};
use crate::data::{bytes_as, increasing_ends, integer_value, value_from, Data};
use crate::fsst::{codes_of, Coded};
use crate::strings::StringView;
use crate::types::{LogicalType, Value};
use crate::validity::Validity;
use std::sync::Arc;
use vstd::arithmetic::div_mod::*;
use vstd::prelude::*;


verus! {

/// The first run past a row is the one whose end is above it and whose start is not.
pub proof fn lemma_run_found(ends: Seq<u32>, row: int, run: int, from: nat)
    requires
        increasing_ends(ends),
        from <= run < ends.len(),
        ends[run] > row,
        run == 0 || ends[run - 1] <= row,
    ensures
        run_from(ends, row, from) == Some(run),
    decreases run - from,
{
    if from < run {
        assert(from < run - 1 ==> ends[from as int] < ends[run - 1]);
        lemma_run_found(ends, row, run, from + 1);
    }
}

/// A row at or past every end is in no run.
pub proof fn lemma_run_missing(ends: Seq<u32>, row: int, from: nat)
    requires
        forall|i: int| 0 <= i < ends.len() ==> #[trigger] ends[i] <= row,
    ensures
        run_from(ends, row, from) is None,
    decreases ends.len() - from,
{
    if from < ends.len() {
        lemma_run_missing(ends, row, from + 1);
    }
}

/// What a run that was found is.
pub proof fn lemma_run_is(ends: Seq<u32>, row: int, from: nat)
    requires
        increasing_ends(ends),
        from == 0 || (from <= ends.len() && ends[from - 1] <= row),
    ensures
        match run_from(ends, row, from) {
            Some(run) => from <= run < ends.len() && ends[run] > row && (run == 0 || ends[run - 1]
                <= row),
            None => ends.len() == 0 || ends.last() <= row,
        },
    decreases ends.len() - from,
{
    if from < ends.len() && ends[from as int] <= row {
        lemma_run_is(ends, row, from + 1);
    }
}

/// Every row below the last end is in a run.
pub proof fn lemma_run_exists(ends: Seq<u32>, row: int)
    requires
        increasing_ends(ends),
        0 <= row,
        ends.len() > 0 ==> row < ends.last(),
        ends.len() > 0,
    ensures
        run_of_row(ends, row) matches Some(run) && 0 <= run < ends.len() && ends[run] > row && (run
            == 0 || ends[run - 1] <= row),
{
    lemma_run_is(ends, row, 0);
}

/// There are no more runs than rows.
pub proof fn lemma_ends_count(ends: Seq<u32>, upto: int)
    requires
        increasing_ends(ends),
        0 <= upto <= ends.len(),
    ensures
        upto > 0 ==> ends[upto - 1] >= upto,
        upto <= u32::MAX,
    decreases upto,
{
    if upto > 1 {
        lemma_ends_count(ends, upto - 1);
        assert(ends[upto - 2] < ends[upto - 1]);
    }
}

/// Which run holds `row`, given ends that are exclusive and increasing.
pub(crate) fn run_holding(ends: &[u32], row: usize) -> (run: Option<usize>)
    requires
        increasing_ends(ends@),
    ensures
        match run {
            Some(run) => run_of_row(ends@, row as int) == Some(run as int) && run < ends@.len(),
            None => run_of_row(ends@, row as int) is None,
        },
{
    let mut low: usize = 0;
    let mut high: usize = ends.len();
    while low < high
        invariant
            low <= high <= ends@.len(),
            increasing_ends(ends@),
            forall|i: int| 0 <= i < low ==> #[trigger] ends@[i] <= row,
            forall|i: int| high <= i < ends@.len() ==> #[trigger] ends@[i] > row,
        decreases high - low,
    {
        let middle: usize = low + (high - low) / 2;
        if ends[middle] as usize <= row {
            low = middle + 1;
        } else {
            high = middle;
        }
    }
    if low < ends.len() {
        proof {
            lemma_run_found(ends@, row as int, low as int, 0);
        }
        Some(low)
    } else {
        proof {
            lemma_run_missing(ends@, row as int, 0);
        }
        None
    }
}

/// Which source row a gathered row names, and `None` when it names none.
pub(crate) fn row_of(rids: &[u32], offset: usize, index: usize) -> (row: Option<usize>)
    ensures
        match row {
            Some(row) => source_row(rids@, offset + index) == Some(row as int),
            None => source_row(rids@, offset + index) is None,
        },
{
    if offset >= rids.len() || index >= rids.len() - offset {
        return None;
    }
    let rid: u32 = rids[offset + index];
    if rid != NO_ROW {
        Some(rid as usize)
    } else {
        None
    }
}

proof fn lemma_wrap(x: int, turns: int)
    ensures
        wrap64(x + turns * 0x1_0000_0000_0000_0000) == wrap64(x),
{
    lemma_mod_multiples_vanish(
        turns,
        x + 0x8000_0000_0000_0000,
        0x1_0000_0000_0000_0000,
    );
    assert(0x1_0000_0000_0000_0000 * turns + (x + 0x8000_0000_0000_0000) == x + turns
        * 0x1_0000_0000_0000_0000 + 0x8000_0000_0000_0000) by (nonlinear_arith);
}

/// A 64 bit sequence at a row.
pub(crate) fn sequence_value(start: i64, step: i64, index: usize) -> (value: i64)
    ensures
        value == sequence_at(start, step, index as int),
{
    let wide: u64 = index as u64;
    let at: i64 = if wide <= 0x7fff_ffff_ffff_ffff {
        wide as i64
    } else {
        (wide - 0x8000_0000_0000_0000) as i64 + i64::MIN
    };
    let risen: i64 = step.wrapping_mul(at);
    let value: i64 = start.wrapping_add(risen);
    proof {
        let range: int = 0x1_0000_0000_0000_0000;
        let product = step * at;
        let turns = product / range;
        lemma_fundamental_div_mod(product, range);
        let carry: int = if product % range > i64::MAX {
            1
        } else {
            0
        };
        assert(risen == product - (turns + carry) * range) by {
            assert((turns + carry) * range == turns * range + carry * range) by (nonlinear_arith);
            assert(range * turns == turns * range) by (nonlinear_arith);
        }
        lemma_wrap(start + risen, turns + carry);
        assert(start + product == (start + risen) + (turns + carry) * range);
        let back: int = if wide <= 0x7fff_ffff_ffff_ffff {
            0
        } else {
            1
        };
        assert(at == index - back * range);
        assert(step * index == product + (step * back) * range) by (nonlinear_arith)
            requires
                product == step * at,
                at == index - back * range,
        ;
        lemma_wrap(start + product, step * back);
        assert(wrap64(start + risen) == value) by {
            let x = start + risen;
            assert(-range <= x < range);
            lemma_small_wrap(x);
        }
    }
    value
}

pub(crate) proof fn lemma_small_wrap(x: int)
    requires
        -0x1_0000_0000_0000_0000 <= x < 0x1_0000_0000_0000_0000,
    ensures
        wrap64(x) == if x > i64::MAX {
            x - 0x1_0000_0000_0000_0000
        } else if x < i64::MIN {
            x + 0x1_0000_0000_0000_0000
        } else {
            x
        },
{
    let range: int = 0x1_0000_0000_0000_0000;
    let half: int = 0x8000_0000_0000_0000;
    let y = x + half;
    if x > i64::MAX {
        lemma_mod_multiples_vanish(-1, y, range);
        lemma_small_mod((y - range) as nat, range as nat);
    } else if x < i64::MIN {
        lemma_mod_multiples_vanish(1, y, range);
        lemma_small_mod((y + range) as nat, range as nat);
    } else {
        lemma_small_mod(y as nat, range as nat);
    }
}

impl Vector {
    /// What kind of values these are.
    pub fn logical_type(&self) -> (ty: &LogicalType)
        ensures
            *ty == self.ty,
    {
        &self.ty
    }

    /// How many values there are.
    pub fn len(&self) -> (len: usize)
        ensures
            len == self.len,
    {
        self.len
    }

    /// Whether there are no values.
    pub fn is_empty(&self) -> (empty: bool)
        ensures
            empty == (self.len == 0),
    {
        self.len == 0
    }

    /// Which of the values are not null, at this level and no deeper.
    ///
    /// Not the same question as [`Self::is_null_at`]: a dictionary, a run length vector and a gather
    /// keep their nulls in the values they point at.
    pub fn validity(&self) -> (validity: &Validity)
        ensures
            *validity == self.validity,
    {
        &self.validity
    }

    /// Which physical form this vector is in.
    pub fn form(&self) -> (form: Form)
        ensures
            form == self.shape(),
    {
        match &self.body {
            Body::Flat(_) => Form::Flat,
            Body::Constant(_) => Form::Constant,
            Body::Sequence { .. } => Form::Sequence,
            Body::Dictionary { .. } => Form::Dictionary,
            Body::Packed { .. } => Form::BitPacked,
            Body::Views { .. } => Form::StringView,
            Body::ExternalText { .. } => Form::StringView,
            Body::Coded { .. } => Form::Fsst,
            Body::Runs { .. } => Form::Rle,
            Body::Nested { .. } => Form::List,
            Body::Fields { .. } => Form::Struct,
            Body::Gathered { .. } => Form::Gathered,
        }
    }

    /// Which physical form this vector is in.
    pub open spec fn shape(&self) -> Form {
        match &self.body {
            Body::Flat(_) => Form::Flat,
            Body::Constant(_) => Form::Constant,
            Body::Sequence { .. } => Form::Sequence,
            Body::Dictionary { .. } => Form::Dictionary,
            Body::Packed { .. } => Form::BitPacked,
            Body::Views { .. } => Form::StringView,
            Body::ExternalText { .. } => Form::StringView,
            Body::Coded { .. } => Form::Fsst,
            Body::Runs { .. } => Form::Rle,
            Body::Nested { .. } => Form::List,
            Body::Fields { .. } => Form::Struct,
            Body::Gathered { .. } => Form::Gathered,
        }
    }

    /// The data, for a flat vector, and `None` for any other form.
    pub fn data(&self) -> (data: Option<&Data>)
        ensures
            match data {
                Some(data) => self.body matches Body::Flat(held) && *data == *held,
                None => !(self.body is Flat),
            },
    {
        match &self.body {
            Body::Flat(data) => Some(data),
            _ => None,
        }
    }

    /// The one value, for a constant vector, and `None` for any other form.
    pub fn constant_value(&self) -> (value: Option<&Value>)
        ensures
            match value {
                Some(value) => self.body matches Body::Constant(held) && *value == *held,
                None => !(self.body is Constant),
            },
    {
        match &self.body {
            Body::Constant(value) => Some(value),
            _ => None,
        }
    }

    /// The codes and the values, for a dictionary vector, and `None` for any other form.
    pub fn dictionary_parts(&self) -> (parts: Option<(&[u32], &Vector)>)
        ensures
            match parts {
                Some((codes, values)) => self.body matches Body::Dictionary {
                    codes: held,
                    values: of,
                    ..
                } && codes@ == held@ && *values == *of,
                None => !(self.body is Dictionary),
            },
    {
        match &self.body {
            Body::Dictionary { codes, values, .. } => Some((codes.as_slice(), values)),
            _ => None,
        }
    }

    /// The codes and the shared dictionary handle for a dictionary vector.
    pub fn shared_dictionary_parts(&self) -> (parts: Option<(&[u32], &Arc<Vector>)>)
        ensures
            match parts {
                Some((codes, values)) => self.body matches Body::Dictionary {
                    codes: held,
                    values: of,
                    ..
                } && codes@ == held@ && *values == of,
                None => !(self.body is Dictionary),
            },
    {
        match &self.body {
            Body::Dictionary { codes, values, .. } => Some((codes.as_slice(), values)),
            _ => None,
        }
    }

    /// Stable codes and their shared values, when storage guarantees one code space across pages.
    pub fn stable_dictionary_parts(&self) -> (parts: Option<(&[u32], &Arc<Vector>)>)
        ensures
            match parts {
                Some((codes, values)) => self.body matches Body::Dictionary {
                    codes: held,
                    values: of,
                    stable: true,
                } && codes@ == held@ && *values == of,
                None => !(self.body matches Body::Dictionary { stable: true, .. }),
            },
    {
        match &self.body {
            Body::Dictionary { codes, values, stable } => if *stable {
                Some((codes.as_slice(), values))
            } else {
                None
            },
            _ => None,
        }
    }

    /// The run ends and the run values, for a run length vector, and `None` for any other form.
    pub fn run_parts(&self) -> (parts: Option<(&[u32], &Vector)>)
        ensures
            match parts {
                Some((ends, values)) => self.body matches Body::Runs { ends: held, values: of }
                    && ends@ == held@ && *values == *of,
                None => !(self.body is Runs),
            },
    {
        match &self.body {
            Body::Runs { ends, values } => Some((ends.as_slice(), values)),
            _ => None,
        }
    }

    /// Where each row's value is, for the two forms that keep their values somewhere else.
    ///
    /// A kernel writing `values[at[row]]` does not care whether a dictionary stores the positions
    /// or a run length vector works them out.
    pub fn positions(&self) -> (parts: Option<(Vec<u32>, &Vector)>)
        requires
            self.wf(),
        ensures
            match parts {
                Some((at, values)) => {
                    &&& self.body is Dictionary || self.body is Runs
                    &&& at@.len() == self.len
                    &&& self.body matches Body::Dictionary { codes, values: of, .. } ==> at@
                        == codes@ && *values == *of
                    &&& self.body matches Body::Runs { ends, values: of } ==> *values == *of
                        && forall|i: int|
                        0 <= i < self.len ==> run_of_row(ends@, i) == Some(#[trigger] at@[i] as int)
                },
                None => !(self.body is Dictionary || self.body is Runs),
            },
    {
        match &self.body {
            Body::Dictionary { codes, values, .. } => {
                let mut at: Vec<u32> = Vec::new();
                at.extend_from_slice(codes.as_slice());
                assert(at@ =~= codes@);
                Some((at, values))
            },
            Body::Runs { ends, values } => {
                let mut at: Vec<u32> = Vec::new();
                let mut run: usize = 0;
                proof {
                    lemma_ends_count(ends@, ends@.len() as int);
                }
                while run < ends.len()
                    invariant
                        run <= ends@.len(),
                        ends@.len() <= u32::MAX,
                        increasing_ends(ends@),
                        at@.len() == if run == 0 {
                            0
                        } else {
                            ends@[run - 1] as int
                        },
                        forall|i: int|
                            0 <= i < at@.len() ==> run_of_row(ends@, i) == Some(
                                #[trigger] at@[i] as int,
                            ),
                    decreases ends.len() - run,
                {
                    let stop: usize = ends[run] as usize;
                    while at.len() < stop
                        invariant
                            run < ends@.len() <= u32::MAX,
                            increasing_ends(ends@),
                            stop == ends@[run as int],
                            at@.len() <= stop,
                            run > 0 ==> at@.len() >= ends@[run - 1],
                            forall|i: int|
                                0 <= i < at@.len() ==> run_of_row(ends@, i) == Some(
                                    #[trigger] at@[i] as int,
                                ),
                        decreases stop - at.len(),
                    {
                        proof {
                            lemma_run_found(ends@, at@.len() as int, run as int, 0);
                        }
                        at.push(run as u32);
                    }
                    run += 1;
                }
                Some((at, values))
            },
            _ => None,
        }
    }

    /// The bits and what they mean, for a bit packed vector, and `None` for any other form.
    pub fn packed_parts(&self) -> (parts: Option<Packed<'_>>)
        requires
            self.wf(),
        ensures
            match parts {
                Some(packed) => self.body matches Body::Packed { words, width, base, offset }
                    && packed.held() == words@ && packed.bits_each() == width && packed.zero()
                    == base && packed.start() == offset && packed.wf(),
                None => !(self.body is Packed),
            },
    {
        match &self.body {
            Body::Packed { words, width, base, offset } => Some(
                Packed::new(words.as_slice(), *width, *base, *offset),
            ),
            _ => None,
        }
    }

    /// The views and the arena, for either form that stores strings, and `None` for the rest.
    pub fn text_parts(&self) -> (parts: Option<(&[StringView], &[u8])>)
        ensures
            match parts {
                Some((views, bytes)) => match &self.body {
                    Body::Flat(data) => **data matches Data::Varlen(column) && views@
                        == column.views@ && bytes@ == column.arena@,
                    Body::Views { views: held, arena } => views@ == held@ && bytes@ == arena@,
                    _ => false,
                },
                None => !(self.body is Views) && !(self.body matches Body::Flat(data)
                    && *data is Varlen),
            },
    {
        match &self.body {
            Body::Flat(data) => match &**data {
                Data::Varlen(column) => Some((column.views(), column.arena())),
                _ => None,
            },
            Body::Views { views, arena } => Some((views.as_slice(), arena.as_slice())),
            _ => None,
        }
    }

    /// The views and the arena they point into, for a vector of string views and nothing else.
    pub fn shared_views(&self) -> (parts: Option<(&[StringView], &Arc<Vec<u8>>)>)
        ensures
            match parts {
                Some((views, bytes)) => self.body matches Body::Views { views: held, arena }
                    && views@ == held@ && *bytes == arena,
                None => !(self.body is Views),
            },
    {
        match &self.body {
            Body::Views { views, arena } => Some((views.as_slice(), arena)),
            _ => None,
        }
    }

    /// The codes and the table, for an FSST vector, and `None` for any other form.
    pub fn coded_parts(&self) -> (parts: Option<Coded<'_>>)
        ensures
            match parts {
                Some(coded) => self.body matches Body::Coded { stream, spans, table }
                    && coded.codes_held() == stream@ && coded.spans_held() == spans@
                    && coded.table_held() == *table,
                None => !(self.body is Coded),
            },
    {
        match &self.body {
            Body::Coded { stream, spans, table } => Some(
                Coded::new(stream.as_slice(), spans.as_slice(), table),
            ),
            _ => None,
        }
    }

    /// The start and the step, for a sequence vector, and `None` for any other form.
    pub fn sequence_parts(&self) -> (parts: Option<(i64, i64)>)
        ensures
            match parts {
                Some((start, step)) => self.body == (Body::Sequence { start, step }),
                None => !(self.body is Sequence),
            },
    {
        match &self.body {
            Body::Sequence { start, step } => Some((*start, *step)),
            _ => None,
        }
    }

    /// The entries and the child, for a list vector, and `None` for any other form.
    pub fn list_parts(&self) -> (parts: Option<(&[(u32, u32)], &Vector)>)
        ensures
            match parts {
                Some((entries, child)) => self.body matches Body::Nested {
                    entries: held,
                    child: of,
                } && entries@ == held@ && *child == *of,
                None => !(self.body is Nested),
            },
    {
        match &self.body {
            Body::Nested { entries, child } => Some((entries.as_slice(), child)),
            _ => None,
        }
    }

    /// The children, for a struct vector, and `None` for any other form.
    pub fn struct_parts(&self) -> (parts: Option<&[Arc<Vector>]>)
        ensures
            match parts {
                Some(children) => self.body matches Body::Fields { children: held } && children@
                    == held@,
                None => !(self.body is Fields),
            },
    {
        match &self.body {
            Body::Fields { children } => Some(children.as_slice()),
            _ => None,
        }
    }

    /// The entries and the two columns, for a map vector, and `None` for anything else.
    pub fn map_parts(&self) -> (parts: Option<(&[(u32, u32)], &Vector, &Vector)>)
        requires
            self.wf(),
        ensures
            parts is Some <==> self.body is Nested && self.ty is Mapping,
            parts matches Some((entries, keys, values)) ==> self.body matches Body::Nested {
                entries: held,
                child,
            } && entries@ == held@ && (child.body matches Body::Fields { children } && *keys
                == *children@[0] && *values == *children@[1]),
    {
        if !matches!(self.ty, LogicalType::Mapping(_, _)) {
            return None;
        }
        match &self.body {
            Body::Nested { entries, child } => match &child.body {
                Body::Fields { children } => if children.len() == 2 {
                    Some((entries.as_slice(), &children[0], &children[1]))
                } else {
                    None
                },
                _ => None,
            },
            _ => None,
        }
    }

    /// The source and the ids of a gathered vector, and `None` for any other form.
    pub fn gathered_parts(&self) -> (parts: Option<(&Arc<Vector>, &[u32])>)
        requires
            self.wf(),
        ensures
            match parts {
                Some((source, ids)) => self.body matches Body::Gathered {
                    source: of,
                    rids,
                    offset,
                } && *source == of && ids@ == rids@.subrange(offset as int, offset + self.len),
                None => !(self.body is Gathered),
            },
    {
        match &self.body {
            Body::Gathered { source, rids, offset } => {
                let held: usize = rids.len();
                assert(*offset + self.len <= held);
                Some(
                    (
                        source,
                        vstd::slice::slice_subrange(rids.as_slice(), *offset, *offset + self.len),
                    ),
                )
            },
            _ => None,
        }
    }

    /// Whether a kernel over this vector should fold over the source once and then index, which
    /// is when the source is shorter than the rows being answered.
    pub fn fold_over_source(&self) -> (fold: bool)
        ensures
            fold == (self.body matches Body::Gathered { source, .. } && source.len < self.len),
    {
        match &self.body {
            Body::Gathered { source, .. } => source.len < self.len,
            _ => false,
        }
    }

    /// Whether the row at `index` is null, in whichever form the vector is in.
    ///
    /// Reads through a dictionary, a run or a gather to the value it stands for. A row past the end
    /// is null.
    pub fn is_null_at(&self, index: usize) -> (null: bool)
        requires
            self.wf(),
        ensures
            null == self.null_at(index as int),
        decreases self,
    {
        if index >= self.len || !self.validity.is_valid(index) {
            return true;
        }
        match &self.body {
            Body::Dictionary { codes, values, .. } => values.is_null_at(codes[index] as usize),
            Body::Runs { ends, values } => match run_holding(ends.as_slice(), index) {
                Some(run) => values.is_null_at(run),
                None => true,
            },
            Body::Gathered { source, rids, offset } => match row_of(
                rids.as_slice(),
                *offset,
                index,
            ) {
                Some(row) => source.is_null_at(row),
                None => true,
            },
            _ => false,
        }
    }

    /// Whether no row in range is null, answered without reading a row.
    ///
    /// The cheap side of [`Self::is_null_at`]. A false means only that the cheap answer was not
    /// available, so a caller that gets one still has to ask row by row.
    pub fn never_null(&self) -> (never: bool)
        requires
            self.wf(),
        ensures
            never == self.clear_of_nulls(),
        decreases self,
    {
        if self.validity.has_nulls(self.len) {
            return false;
        }
        match &self.body {
            Body::Dictionary { values, .. } => values.never_null(),
            Body::Runs { values, .. } => values.never_null(),
            Body::Gathered { source, rids, offset } => {
                if !source.never_null() {
                    return false;
                }
                let mut row: usize = 0;
                let held: usize = rids.len();
                while row < self.len
                    invariant
                        row <= self.len,
                        held == rids@.len(),
                        *offset + self.len <= held,
                        self.body == (Body::Gathered {
                            source: *source,
                            rids: *rids,
                            offset: *offset,
                        }),
                        forall|i: int|
                            0 <= i < row ==> #[trigger] source_row(rids@, *offset + i) is Some,
                    decreases self.len - row,
                {
                    if rids[*offset + row] == NO_ROW {
                        assert(source_row(rids@, *offset + row) is None);
                        return false;
                    }
                    row += 1;
                }
                true
            },
            _ => true,
        }
    }

    /// Whether no level this vector reads through holds a null.
    pub open spec fn clear_of_nulls(&self) -> bool
        decreases self,
    {
        &&& forall|i: int| 0 <= i < self.len ==> #[trigger] self.validity.valid(i)
        &&& match &self.body {
            Body::Dictionary { values, .. } => values.clear_of_nulls(),
            Body::Runs { values, .. } => values.clear_of_nulls(),
            Body::Gathered { source, rids, offset } => source.clear_of_nulls() && forall|i: int|
                0 <= i < self.len ==> #[trigger] source_row(rids@, *offset + i) is Some,
            _ => true,
        }
    }

    /// Whether the vector holds no nulls at all, asked once rather than a row at a time.
    pub fn none_null(&self) -> (none: bool)
        requires
            self.wf(),
        ensures
            none == self.clear_of_nulls(),
    {
        self.never_null()
    }

    /// The value at `index`, as a single value, and null where reading it fails.
    pub fn value_at(&self, index: usize) -> (value: Value)
        requires
            self.wf(),
        ensures
            value.datum() == self.datum(index as int),
        decreases self,
    {
        if index >= self.len || !self.validity.is_valid(index) {
            return Value::Null;
        }
        match &self.body {
            Body::Constant(value) => value.dup(),
            Body::Sequence { start, step } => Value::BigInt(sequence_value(*start, *step, index)),
            Body::Dictionary { codes, values, .. } => values.value_at(codes[index] as usize),
            Body::Runs { ends, values } => match run_holding(ends.as_slice(), index) {
                Some(run) => values.value_at(run),
                None => Value::Null,
            },
            Body::Gathered { source, rids, offset } => match row_of(
                rids.as_slice(),
                *offset,
                index,
            ) {
                Some(row) => source.value_at(row),
                None => Value::Null,
            },
            Body::Packed { words, width, base, offset } => {
                let bit: u128 = bit_of(*offset, index, *width);
                proof {
                    lemma_code_bound(words@, bit as int, *width as nat);
                }
                let code: u64 = code_at(words.as_slice(), bit, *width);
                integer_value(&self.ty, *base + code as i128)
            },
            Body::Views { views, arena } => match views[index].bytes_in(arena.as_slice()) {
                Some(bytes) => bytes_as(&self.ty, bytes),
                None => Value::Null,
            },
            Body::ExternalText { text } => match text.bytes_at(index) {
                Ok(Some(bytes)) => bytes_as(&self.ty, bytes),
                _ => Value::Null,
            },
            Body::Coded { stream, spans, table } => match codes_of(
                stream.as_slice(),
                spans[index],
            ) {
                Some(part) => {
                    let mut out: Vec<u8> = Vec::new();
                    match table.decompress(part, &mut out) {
                        Ok(_) => {
                            assert(out@ =~= self.decompressed(index as int)->Some_0);
                            bytes_as(&self.ty, out.as_slice())
                        },
                        Err(_) => Value::Null,
                    }
                },
                None => Value::Null,
            },
            Body::Nested { entries, child } => {
                let (start, count): (u32, u32) = entries[index];
                match &self.ty {
                    LogicalType::Mapping(key, value) => {
                        let mut pairs: Vec<(Value, Value)> = Vec::new();
                        match &child.body {
                            Body::Fields { children } => {
                                assert(child.wf());
                                assert(children@[0].wf() && children@[1].wf());
                                let mut k: u32 = 0;
                                while k < count
                                    invariant
                                        k <= count,
                                        start + count <= child.len <= usize::MAX,
                                        self.body == (Body::Nested {
                                            entries: *entries,
                                            child: *child,
                                        }),
                                        child.body == (Body::Fields { children: *children }),
                                        children@.len() == 2,
                                        children@[0].wf() && children@[1].wf(),
                                        pairs@.len() == k,
                                        forall|i: int|
                                            0 <= i < k ==> (#[trigger] pairs@[i]).0.datum()
                                                == children@[0].datum(start + i)
                                                && pairs@[i].1.datum() == children@[1].datum(
                                                start + i,
                                            ),
                                    decreases count - k,
                                {
                                    assert(decreases_to!(*self => *(self.body->child)));
                                    assert(decreases_to!(*(self.body->child) => self.body->child.body->Fields_children@[0]));
                                    assert(decreases_to!(*(self.body->child) => self.body->child.body->Fields_children@[1]));
                                    let at: usize = start as usize + k as usize;
                                    let one = children[0].value_at(at);
                                    let other = children[1].value_at(at);
                                    pairs.push((one, other));
                                    k += 1;
                                }
                            },
                            _ => {},
                        }
                        let value = Value::Mapping {
                            key: key.dup(),
                            value: value.dup(),
                            entries: pairs,
                        };
                        assert(value.datum()->Mapping_entries =~= self.datum(
                            index as int,
                        )->Mapping_entries);
                        value
                    },
                    _ => {
                        let mut values: Vec<Value> = Vec::new();
                        let mut k: u32 = 0;
                        while k < count
                            invariant
                                k <= count,
                                start + count <= child.len <= usize::MAX,
                                child.wf(),
                                self.body == (Body::Nested { entries: *entries, child: *child }),
                                values@.len() == k,
                                forall|i: int|
                                    0 <= i < k ==> (#[trigger] values@[i]).datum() == child.datum(
                                        start + i,
                                    ),
                            decreases count - k,
                        {
                            assert(decreases_to!(*self => *(self.body->child)));
                            let at: usize = start as usize + k as usize;
                            values.push(child.value_at(at));
                            k += 1;
                        }
                        let value = Value::List { element: child.ty.dup(), values };
                        assert(value.datum()->List_values =~= self.datum(index as int)->List_values);
                        value
                    },
                }
            },
            Body::Fields { children } => {
                let mut held: Vec<(String, Value)> = Vec::new();
                if let LogicalType::Struct(fields) = &self.ty {
                    let mut f: usize = 0;
                    while f < children.len()
                        invariant
                            f <= children@.len(),
                            fields@.len() == children@.len(),
                            self.ty == LogicalType::Struct(*fields),
                            self.body == (Body::Fields { children: *children }),
                            forall|i: int|
                                0 <= i < children@.len() ==> (#[trigger] children@[i]).wf(),
                            held@.len() == f,
                            forall|i: int|
                                0 <= i < f ==> (#[trigger] held@[i]).0@ == fields@[i].name@
                                    && held@[i].1.datum() == children@[i].datum(index as int),
                        decreases children.len() - f,
                    {
                        assert(decreases_to!(*self => self.body->Fields_children@[f as int]));
                        let value = children[f].value_at(index);
                        held.push((fields[f].name.clone(), value));
                        f += 1;
                    }
                }
                let value = Value::Struct(held);
                assert(value.datum()->Struct_0 =~= self.datum(index as int)->Struct_0);
                value
            },
            Body::Flat(data) => value_from(&self.ty, data, index),
        }
    }

    /// One value of this vector's type, built out of bytes the caller already holds.
    pub fn value_of(&self, bytes: &[u8]) -> (value: Value)
        ensures
            value.datum() == crate::data::bytes_datum(self.ty, bytes@),
    {
        bytes_as(&self.ty, bytes)
    }

    /// Every value in order, as single values.
    pub fn iter(&self) -> (values: Vec<Value>)
        requires
            self.wf(),
        ensures
            values@.len() == self.len,
            forall|i: int| 0 <= i < self.len ==> (#[trigger] values@[i]).datum() == self.datum(i),
    {
        let mut values: Vec<Value> = Vec::new();
        let mut row: usize = 0;
        while row < self.len
            invariant
                row <= self.len,
                self.wf(),
                values@.len() == row,
                forall|i: int| 0 <= i < row ==> (#[trigger] values@[i]).datum() == self.datum(i),
            decreases self.len - row,
        {
            values.push(self.value_at(row));
            row += 1;
        }
        values
    }

    /// The signed integer at `index`, widened, read without building a value.
    ///
    /// `None` for a null, for an index past the end, for a column of any other type, and for the
    /// forms whose rows are not an integer anywhere.
    pub fn signed_at(&self, index: usize) -> (value: Option<i128>)
        requires
            self.wf(),
        ensures
            match value {
                Some(x) => self.signed_read(index as int) == Some(x as int),
                None => self.signed_read(index as int) is None,
            },
        decreases self,
    {
        if index >= self.len || !self.validity.is_valid(index) {
            return None;
        }
        match &self.body {
            Body::Flat(data) => data.signed_at(index),
            Body::Constant(value) => match &**value {
                Value::TinyInt(x) => Some(*x as i128),
                Value::SmallInt(x) => Some(*x as i128),
                Value::Integer(x) => Some(*x as i128),
                Value::Date(x) => Some(*x as i128),
                Value::BigInt(x) => Some(*x as i128),
                Value::Time(x) => Some(*x as i128),
                Value::Timestamp(x) => Some(*x as i128),
                Value::HugeInt(x) => Some(*x),
                Value::Decimal { unscaled, .. } => Some(*unscaled),
                _ => None,
            },
            Body::Sequence { start, step } => Some(sequence_value(*start, *step, index) as i128),
            Body::Dictionary { codes, values, .. } => values.signed_at(codes[index] as usize),
            Body::Runs { ends, values } => match run_holding(ends.as_slice(), index) {
                Some(run) => values.signed_at(run),
                None => None,
            },
            Body::Gathered { source, rids, offset } => match row_of(
                rids.as_slice(),
                *offset,
                index,
            ) {
                Some(row) => source.signed_at(row),
                None => None,
            },
            Body::Packed { words, width, base, offset } => {
                let bit: u128 = bit_of(*offset, index, *width);
                proof {
                    lemma_code_bound(words@, bit as int, *width as nat);
                }
                Some(*base + code_at(words.as_slice(), bit, *width) as i128)
            },
            _ => None,
        }
    }
}

} // verus!
