//! Which rows of a column hold a value and which are null.

use std::sync::Arc;
use vstd::prelude::*;

verus! {

/// Which rows are not null. A column with no nulls or nothing else carries no mask at all.
#[derive(Debug, PartialEq)]
pub enum Validity {
    AllValid,
    AllInvalid,
    /// One flag per row, and null past the last of them.
    Mask(Arc<Vec<bool>>),
}

impl Validity {
    /// Whether row `at` holds a value.
    pub open spec fn valid(&self, at: int) -> bool {
        match self {
            Validity::AllValid => true,
            Validity::AllInvalid => false,
            Validity::Mask(mask) => 0 <= at < mask@.len() && mask@[at],
        }
    }

    pub fn is_valid(&self, index: usize) -> (valid: bool)
        ensures
            valid == self.valid(index as int),
    {
        match self {
            Validity::AllValid => true,
            Validity::AllInvalid => false,
            Validity::Mask(mask) => index < mask.len() && mask[index],
        }
    }

    /// Whether any of the first `len` rows is null.
    pub fn has_nulls(&self, len: usize) -> (nulls: bool)
        ensures
            nulls == exists|i: int| 0 <= i < len && !#[trigger] self.valid(i),
    {
        match self {
            Validity::AllValid => false,
            Validity::AllInvalid => {
                assert(len > 0 ==> !self.valid(0));
                len > 0
            },
            Validity::Mask(mask) => {
                let mut row: usize = 0;
                while row < len
                    invariant
                        row <= len,
                        *self == Validity::Mask(*mask),
                        forall|i: int| 0 <= i < row ==> #[trigger] self.valid(i),
                    decreases len - row,
                {
                    if row >= mask.len() || !mask[row] {
                        assert(!self.valid(row as int));
                        return true;
                    }
                    row += 1;
                }
                false
            },
        }
    }

    /// One row per flag. A run of nothing but values, or of nothing but nulls, keeps no mask.
    pub fn from_run(live: &[bool]) -> (validity: Validity)
        ensures
            forall|i: int| 0 <= i < live@.len() ==> #[trigger] validity.valid(i) == live@[i],
            validity is AllValid <==> forall|i: int| 0 <= i < live@.len() ==> #[trigger] live@[i],
            validity is AllInvalid ==> live@.len() > 0,
    {
        let mut all: bool = true;
        let mut none: bool = true;
        let mut mask: Vec<bool> = Vec::new();
        let mut row: usize = 0;
        while row < live.len()
            invariant
                row <= live.len(),
                mask@ == live@.subrange(0, row as int),
                all == forall|i: int| 0 <= i < row ==> #[trigger] live@[i],
                none == forall|i: int| 0 <= i < row ==> !#[trigger] live@[i],
            decreases live.len() - row,
        {
            let ghost was_all = all;
            let ghost was_none = none;
            if live[row] {
                none = false;
                assert(live@[row as int]);
            } else {
                all = false;
                assert(!live@[row as int]);
            }
            mask.push(live[row]);
            assert(mask@ =~= live@.subrange(0, row + 1));
            row += 1;
        }
        if all {
            Validity::AllValid
        } else if none {
            Validity::AllInvalid
        } else {
            Validity::Mask(Arc::new(mask))
        }
    }

    /// One row per answer of `live`, which is asked about each of the first `len` rows once.
    pub fn from_iter<F: Fn(usize) -> bool>(len: usize, live: F) -> (validity: Validity)
        requires
            forall|i: usize| i < len ==> #[trigger] call_requires(live, (i,)),
        ensures
            forall|i: usize| i < len ==> call_ensures(live, (i,), #[trigger] validity.valid(i as int)),
    {
        let mut run: Vec<bool> = Vec::new();
        let mut row: usize = 0;
        while row < len
            invariant
                row <= len,
                run@.len() == row,
                forall|i: usize| i < len ==> #[trigger] call_requires(live, (i,)),
                forall|i: usize| i < row ==> call_ensures(live, (i,), #[trigger] run@[i as int]),
            decreases len - row,
        {
            run.push(live(row));
            row += 1;
        }
        let validity = Validity::from_run(run.as_slice());
        assert forall|i: usize| i < len implies call_ensures(
            live,
            (i,),
            #[trigger] validity.valid(i as int),
        ) by {
            assert(validity.valid(i as int) == run@[i as int]);
        }
        validity
    }

    /// The rows from `at` on, `len` of them.
    pub fn slice(&self, at: usize, len: usize) -> (cut: Validity)
        requires
            at + len <= usize::MAX,
        ensures
            forall|i: int| 0 <= i < len ==> #[trigger] cut.valid(i) == self.valid(at + i),
            *self is AllValid ==> cut is AllValid,
    {
        match self {
            Validity::AllValid => Validity::AllValid,
            Validity::AllInvalid => Validity::AllInvalid,
            Validity::Mask(_) => {
                let mut run: Vec<bool> = Vec::new();
                let mut row: usize = 0;
                while row < len
                    invariant
                        row <= len,
                        run@.len() == row,
                        at + len <= usize::MAX,
                        forall|i: int| 0 <= i < row ==> #[trigger] run@[i] == self.valid(at + i),
                    decreases len - row,
                {
                    run.push(self.is_valid(at + row));
                    row += 1;
                }
                let cut = Validity::from_run(run.as_slice());
                assert forall|i: int| 0 <= i < len implies #[trigger] cut.valid(i) == self.valid(
                    at + i,
                ) by {
                    assert(run@[i] == self.valid(at + i));
                }
                cut
            },
        }
    }

    /// The same validity again.
    pub fn dup(&self) -> (copy: Validity)
        ensures
            copy == *self,
    {
        match self {
            Validity::AllValid => Validity::AllValid,
            Validity::AllInvalid => Validity::AllInvalid,
            Validity::Mask(mask) => Validity::Mask(mask.clone()),
        }
    }
}

impl Clone for Validity {
    fn clone(&self) -> (copy: Self)
        ensures
            copy == *self,
    {
        self.dup()
    }
}

/// A row holds a value where its flag says so. Without flags every row does, or none, and past the last
/// flag none does.
pub proof fn law_a_row_is_null_where_its_flag_says_so(flags: Arc<Vec<bool>>, at: int)
    requires
        0 <= at,
    ensures
        Validity::AllValid.valid(at),
        !Validity::AllInvalid.valid(at),
        at < flags@.len() ==> Validity::Mask(flags).valid(at) == flags@[at],
        at >= flags@.len() ==> !Validity::Mask(flags).valid(at),
{
}

/// Flags become a mask that says of every row what its flag says, and a cut of a mask says of every row
/// what the mask says of the row it was cut from.
pub proof fn law_a_mask_says_what_its_flags_say(
    live: &[bool],
    validity: Validity,
    at: usize,
    len: usize,
    cut: Validity,
    nulls: bool,
    i: int,
)
    requires
        call_ensures(Validity::from_run, (live,), validity),
        call_ensures(Validity::slice, (&validity, at, len), cut),
        call_ensures(Validity::has_nulls, (&validity, live@.len() as usize), nulls),
        live@.len() <= usize::MAX,
    ensures
        0 <= i < live@.len() ==> validity.valid(i) == live@[i],
        0 <= i < len && at + i < live@.len() ==> cut.valid(i) == live@[at + i],
        0 <= i < live@.len() && !live@[i] ==> nulls,
        nulls ==> exists|k: int| 0 <= k < live@.len() && !#[trigger] live@[k],
{
    if 0 <= i < live@.len() {
        assert(validity.valid(i) == live@[i]);
    }
    if 0 <= i < len && at + i < live@.len() {
        assert(cut.valid(i) == validity.valid(at + i));
    }
    if nulls {
        let k = choose|k: int| 0 <= k < live@.len() && !#[trigger] validity.valid(k);
        assert(!live@[k]);
    }
}

} // verus!
