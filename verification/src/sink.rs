//! One instance of a load into a file: the stripe it is gathering, and what it counted.

use crate::result::Chunk;
use crate::types::{About, Datum, Error, ErrorCode, Failure, Field, Subject};
use crate::vector::Vector;
use vstd::prelude::*;
use vstd::string::*;

verus! {

/// How many rows a load asks the scan under it to gather small row groups into, as one morsel.
pub const GATHER_ROWS: usize = 131_072;

/// Where an instance stands in its source, the chunks of the stripe it is gathering, and what it
/// counted on the way.
///
/// A stripe is a contiguous run of the source in order, so each instance groups its own chunks and
/// hands over whole stripes.
pub struct NativePlace {
    pub morsel: u64,
    pub chunk: u64,
    pub held: Vec<((u64, u64), Chunk)>,
    /// What `held` was charged, given back once its stripe is written.
    pub holding: u64,
    /// Whether the instance's clock runs.
    pub started: bool,
    pub inside_wall: u64,
    pub inside_cpu: u64,
    pub rows: u64,
    pub bytes: u64,
}

/// Two counts together, no further than the largest.
pub open spec fn capped(left: u64, right: int) -> u64 {
    if left + right > u64::MAX {
        u64::MAX
    } else {
        (left + right) as u64
    }
}

/// What is left of a count, nothing where more is taken than there is.
pub open spec fn less(left: u64, right: u64) -> u64 {
    if right > left {
        0
    } else {
        (left - right) as u64
    }
}

/// Whether a column has a null row, wherever its form keeps that: in a mask, in the values it points
/// at, or in a row id that names no row.
pub open spec fn shows_null(column: Vector) -> bool {
    exists|row: int| 0 <= row < column.len && #[trigger] column.null_at(row)
}

/// Whether a column that may hold no null has one, or is not there.
pub open spec fn breaks(fields: Seq<Field>, chunk: Chunk, at: int) -> bool {
    fields[at].not_null && (at >= chunk.columns@.len() || shows_null(chunk.columns@[at]))
}

/// The refusal of a null in a column that may hold none.
pub open spec fn not_null_failure(table: Seq<char>, field: Seq<char>) -> Failure {
    Failure {
        code: ErrorCode::Constraint,
        message: "NOT NULL constraint failed: "@ + table + "."@ + field,
        about: About::Nothing,
    }
}

fn has_null(column: &Vector) -> (yes: bool)
    requires
        column.wf(),
    ensures
        yes == shows_null(*column),
{
    let mut row: usize = 0;
    while row < column.len
        invariant
            row <= column.len,
            column.wf(),
            forall|r: int| 0 <= r < row ==> !#[trigger] column.null_at(r),
        decreases column.len - row,
    {
        if column.is_null_at(row) {
            assert(column.null_at(row as int));
            return true;
        }
        row += 1;
    }
    false
}

impl NativePlace {
    /// An instance that was handed nothing yet.
    pub fn new() -> (place: NativePlace)
        ensures
            place.wf(),
            place.held@.len() == 0,
            place.morsel == 0 && place.chunk == 0 && place.holding == 0 && place.inside_wall == 0
                && place.inside_cpu == 0 && place.rows == 0 && place.bytes == 0,
            !place.started,
    {
        NativePlace {
            morsel: 0,
            chunk: 0,
            held: Vec::new(),
            holding: 0,
            started: false,
            inside_wall: 0,
            inside_cpu: 0,
            rows: 0,
            bytes: 0,
        }
    }

    /// The chunks of a stripe are a run of one morsel, in order.
    pub open spec fn wf(&self) -> bool {
        &&& self.held@.len() <= self.chunk || self.chunk == u64::MAX
        &&& forall|i: int|
            0 <= i < self.held@.len() ==> (#[trigger] self.held@[i]).0.0 == self.morsel
        &&& self.chunk < u64::MAX ==> forall|i: int|
            0 <= i < self.held@.len() ==> (#[trigger] self.held@[i]).0.1 == self.chunk
                - self.held@.len() + i
    }

    /// Starts the instance's clock the first time it is called, and says whether this was that time.
    pub fn start(&mut self) -> (first: bool)
        ensures
            first == !old(self).started,
            *final(self) == (NativePlace { started: true, ..*old(self) }),
    {
        let first = !self.started;
        self.started = true;
        first
    }

    /// Takes the stripe the instance is holding, with what it was charged, or `None` where it holds
    /// nothing.
    pub fn hand_over(&mut self) -> (stripe: Option<(Vec<((u64, u64), Chunk)>, u64)>)
        requires
            old(self).wf(),
        ensures
            final(self).wf(),
            final(self).held@.len() == 0,
            final(self).morsel == old(self).morsel && final(self).chunk == old(self).chunk
                && final(self).started == old(self).started && final(self).rows == old(self).rows
                && final(self).bytes == old(self).bytes && final(self).inside_wall
                == old(self).inside_wall && final(self).inside_cpu == old(self).inside_cpu,
            match stripe {
                Some((parts, holding)) => parts == old(self).held && parts@.len() > 0 && holding
                    == old(self).holding && final(self).holding == 0,
                None => old(self).held@.len() == 0 && *final(self) == *old(self),
            },
    {
        if self.held.len() == 0 {
            return None;
        }
        let mut parts: Vec<((u64, u64), Chunk)> = Vec::new();
        std::mem::swap(&mut self.held, &mut parts);
        let holding = self.holding;
        self.holding = 0;
        Some((parts, holding))
    }

    /// Adds the time a stripe took inside the writer.
    pub fn spent(&mut self, wall: u64, cpu: u64)
        ensures
            *final(self) == (NativePlace {
                inside_wall: capped(old(self).inside_wall, wall as int),
                inside_cpu: capped(old(self).inside_cpu, cpu as int),
                ..*old(self)
            }),
    {
        self.inside_wall = self.inside_wall.saturating_add(wall);
        self.inside_cpu = self.inside_cpu.saturating_add(cpu);
    }

    /// Goes on to another morsel, which a stripe never spans.
    pub fn at(&mut self, morsel: u64)
        requires
            old(self).held@.len() == 0,
        ensures
            final(self).wf(),
            *final(self) == (NativePlace { morsel, chunk: 0, ..*old(self) }),
    {
        self.morsel = morsel;
        self.chunk = 0;
    }

    /// Takes one more chunk into the stripe, and says whether the stripe is then full. A null in a
    /// column that may hold none is refused before anything is counted.
    pub fn sink(
        &mut self,
        table: &str,
        fields: &Vec<Field>,
        chunk: Chunk,
        footprint: u64,
        stripe: usize,
    ) -> (full: Result<bool, Error>)
        requires
            old(self).wf(),
            chunk.wf(),
        ensures
            final(self).wf(),
            match full {
                Ok(full) => {
                    &&& forall|at: int| 0 <= at < fields@.len() ==> !#[trigger] breaks(fields@, chunk, at)
                    &&& final(self).held@ == old(self).held@.push(
                        ((old(self).morsel, old(self).chunk), chunk),
                    )
                    &&& final(self).morsel == old(self).morsel
                    &&& final(self).chunk == capped(old(self).chunk, 1)
                    &&& final(self).rows == capped(old(self).rows, chunk.len as int)
                    &&& final(self).bytes == capped(old(self).bytes, footprint as int)
                    &&& final(self).holding == capped(old(self).holding, footprint as int)
                    &&& final(self).started
                    &&& final(self).inside_wall == old(self).inside_wall
                    &&& final(self).inside_cpu == old(self).inside_cpu
                    &&& full == (final(self).held@.len() == stripe)
                },
                Err(error) => *final(self) == *old(self) && exists|at: int|
                    {
                        &&& 0 <= at < fields@.len()
                        &&& #[trigger] breaks(fields@, chunk, at)
                        &&& forall|below: int| 0 <= below < at ==> !breaks(fields@, chunk, below)
                        &&& if at < chunk.columns@.len() {
                            error@ == not_null_failure(table@, fields@[at].name@)
                        } else {
                            error@ == (Failure {
                                code: ErrorCode::Internal,
                                message: "a chunk with fewer columns than its table"@,
                                about: About::Nothing,
                            })
                        }
                    },
            },
    {
        let mut at: usize = 0;
        while at < fields.len()
            invariant
                at <= fields@.len(),
                chunk.wf(),
                *self == *old(self),
                self.wf(),
                forall|below: int| 0 <= below < at ==> !#[trigger] breaks(fields@, chunk, below),
            decreases fields.len() - at,
        {
            if fields[at].not_null && at >= chunk.columns.len() {
                assert(breaks(fields@, chunk, at as int));
                return Err(Error::internal("a chunk with fewer columns than its table"));
            }
            if fields[at].not_null && has_null(&chunk.columns[at]) {
                let mut message = "NOT NULL constraint failed: ".to_owned();
                message.append(table);
                message.append(".");
                message.append(fields[at].name.as_str());
                assert(breaks(fields@, chunk, at as int));
                return Err(Error { code: ErrorCode::Constraint, message, about: Subject::Nothing });
            }
            at += 1;
        }
        self.started = true;
        let rows: u64 = chunk.len as u64;
        self.rows = self.rows.saturating_add(rows);
        self.bytes = self.bytes.saturating_add(footprint);
        self.holding = self.holding.saturating_add(footprint);
        self.held.push(((self.morsel, self.chunk), chunk));
        self.chunk = self.chunk.saturating_add(1);
        Ok(self.held.len() == stripe)
    }

    /// What the instance adds to the load's profile at its end: the wall and processor time outside
    /// the writer, the bytes and the rows. `None` where its clock never ran.
    pub fn combine(&self, wall: u64, cpu: u64) -> (share: Option<(u64, u64, u64, u64)>)
        ensures
            share == if self.started {
                Some(
                    (less(wall, self.inside_wall), less(cpu, self.inside_cpu), self.bytes, self.rows),
                )
            } else {
                None
            },
    {
        if self.started {
            Some(
                (
                    wall.saturating_sub(self.inside_wall),
                    cpu.saturating_sub(self.inside_cpu),
                    self.bytes,
                    self.rows,
                ),
            )
        } else {
            None
        }
    }
}

/// Counts add up as far as the largest there is, and what is taken from one leaves no less than
/// nothing.
pub proof fn law_counts_stop_at_their_ends(left: u64, right: u64)
    ensures
        left + right <= 0xffff_ffff_ffff_ffff ==> capped(left, right as int) == left + right,
        left + right > 0xffff_ffff_ffff_ffff ==> capped(left, right as int) == 0xffff_ffff_ffff_ffff,
        left >= right ==> less(left, right) == left - right,
        left < right ==> less(left, right) == 0,
{
}

/// A null row in a column that may hold none is refused, and so is a chunk without that column. A
/// column that may hold nulls never refuses anything.
pub proof fn law_a_null_is_refused_where_none_may_be(
    fields: Seq<Field>,
    chunk: Chunk,
    at: int,
    row: int,
)
    requires
        0 <= at < fields.len(),
    ensures
        !fields[at].not_null ==> !breaks(fields, chunk, at),
        fields[at].not_null && at >= chunk.columns@.len() ==> breaks(fields, chunk, at),
        fields[at].not_null && at < chunk.columns@.len() && 0 <= row < chunk.columns@[at].len
            && chunk.columns@[at].null_at(row) ==> breaks(fields, chunk, at),
        at < chunk.columns@.len() && 0 <= row < chunk.columns@[at].len && !breaks(fields, chunk, at)
            && fields[at].not_null ==> !chunk.columns@[at].null_at(row),
{
}

/// A column that is refused is one that may hold no null and is missing or holds one.
pub proof fn law_what_is_refused_holds_a_null(fields: Seq<Field>, chunk: Chunk, at: int) -> (row: int)
    requires
        0 <= at < fields.len(),
        breaks(fields, chunk, at),
    ensures
        fields[at].not_null,
        at >= chunk.columns@.len() || (0 <= row < chunk.columns@[at].len
            && chunk.columns@[at].null_at(row) && chunk.columns@[at].datum(row) == Datum::Null),
{
    if at < chunk.columns@.len() {
        let column = chunk.columns@[at];
        let row = choose|row: int| 0 <= row < column.len && #[trigger] column.null_at(row);
        crate::vector::laws::law_a_null_row_reads_as_null(&column, row);
        row
    } else {
        0
    }
}

/// An instance that ran says its rows and its bytes, and the time it spent outside the writer. One that
/// never ran says nothing.
pub proof fn law_an_instance_says_the_time_outside_the_writer(
    place: NativePlace,
    wall: u64,
    cpu: u64,
    share: Option<(u64, u64, u64, u64)>,
)
    requires
        call_ensures(NativePlace::combine, (&place, wall, cpu), share),
    ensures
        share is Some <==> place.started,
        share is Some ==> ({
            let (outside, busy, bytes, rows) = share->Some_0;
            &&& rows == place.rows
            &&& bytes == place.bytes
            &&& wall >= place.inside_wall ==> outside + place.inside_wall == wall
            &&& cpu >= place.inside_cpu ==> busy + place.inside_cpu == cpu
        }),
{
}

/// A null where none may be breaks a constraint, and the failure names the table and the column.
pub proof fn law_a_refused_null_names_its_column(table: Seq<char>, field: Seq<char>)
    ensures
        not_null_failure(table, field).code is Constraint,
        not_null_failure(table, field).message == "NOT NULL constraint failed: "@ + (table
            + seq!['.'] + field),
{
    reveal_strlit(".");
    assert("."@ =~= seq!['.']);
    assert("NOT NULL constraint failed: "@ + table + "."@ + field
        =~= "NOT NULL constraint failed: "@ + (table + seq!['.'] + field));
}

} // verus!
