//! What a bound statement does first, under the transaction and the settings it runs in.

use crate::cache::{
    binds_again, files_of, law_mirrors_are_the_large_files_asked_for, mirrors_upto, still_good, wanted_mirrors, CachedNativeAggregate,
};
use crate::route::{Insert, Kind, Load, Target};
use crate::transaction::{Ledger, Transaction};
use crate::types::{About, Error, ErrorCode, Failure};
use vstd::prelude::*;

verus! {

/// A bound statement, as far as it decides which way it goes.
pub enum Bound {
    /// A query, with the files it read directly and could have read through a mirror.
    Query { asked: Vec<(String, bool, u64)> },
    Explain { analyze: bool, statistics: bool },
    /// A setting. A pragma turns one over rather than giving it a value.
    Setting { pragma: bool },
    Transaction(Transaction),
    Checkpoint,
    CreateTable { from_query: bool, taken: bool },
    CreateView,
    DropTable,
    Insert(Insert),
}

/// What a statement does once it is bound.
pub enum Move {
    /// The mirrors are built, and the statement is bound again without asking for any.
    Rebind(Vec<(String, bool)>),
    /// The query runs, and its plan may be kept.
    Query { remember: bool },
    Explain { analyze: bool, statistics: bool },
    Toggle,
    Apply,
    Transaction(Transaction),
    Checkpoint { persist: bool },
    CreateTable(Load),
    CreateView,
    DropTable,
    Insert(Load),
}

/// What a statement runs under.
pub struct Under<'a, C> {
    pub ledger: &'a Ledger<C>,
    /// The name of the default catalog.
    pub database: &'a str,
    pub target: Target,
    /// Whether files are mirrored, and how many rows one has to have.
    pub mirrors: bool,
    pub least_rows: u64,
    /// The files that could not be mirrored.
    pub declined: &'a Vec<(String, bool)>,
    /// Whether the statement has parameters.
    pub parameters: bool,
}

impl Bound {
    /// What the statement is.
    pub open spec fn is_kind(&self) -> Kind {
        match self {
            Bound::Query { .. } => Kind::Query,
            Bound::Explain { .. } => Kind::Explain,
            Bound::Setting { .. } => Kind::Setting,
            Bound::Transaction(_) => Kind::Transaction,
            Bound::Checkpoint => Kind::Checkpoint,
            Bound::CreateTable { .. } => Kind::CreateTable,
            Bound::CreateView => Kind::CreateView,
            Bound::DropTable => Kind::DropTable,
            Bound::Insert(_) => Kind::Insert,
        }
    }

    /// Whether the statement changes what the database holds.
    pub open spec fn changes(&self) -> bool {
        self is CreateTable || self is CreateView || self is DropTable || self is Insert
    }

    pub fn kind(&self) -> (kind: Kind)
        ensures
            kind == self.is_kind(),
    {
        match self {
            Bound::Query { .. } => Kind::Query,
            Bound::Explain { .. } => Kind::Explain,
            Bound::Setting { .. } => Kind::Setting,
            Bound::Transaction(_) => Kind::Transaction,
            Bound::Checkpoint => Kind::Checkpoint,
            Bound::CreateTable { .. } => Kind::CreateTable,
            Bound::CreateView => Kind::CreateView,
            Bound::DropTable => Kind::DropTable,
            Bound::Insert(_) => Kind::Insert,
        }
    }
}

impl<'a, C> Under<'a, C> {
    /// The mirrors a statement wants.
    pub open spec fn wants(&self, bound: Bound) -> Seq<(Seq<char>, bool)> {
        match bound {
            Bound::Query { asked } => if self.mirrors {
                mirrors_upto(asked@, self.least_rows, self.declined@, asked@.len())
            } else {
                seq![]
            },
            _ => seq![],
        }
    }

    /// Whether a statement is bound again once its mirrors are in: the first time it is bound, and
    /// only where it wants one or was bound without the bounds of a file it asked about.
    pub open spec fn rebinds(&self, bound: Bound, mirror: bool) -> bool {
        mirror && (self.wants(bound).len() > 0 || (self.mirrors && (bound matches Bound::Query {
            asked,
        } && asked@.len() > 0)))
    }

    /// Whether the transaction forbids a statement.
    pub open spec fn forbids(&self, bound: Bound) -> bool {
        bound.changes() && (self.ledger.open matches Some(open) && open.read_only)
    }

    fn mirrors_for(&self, bound: &Bound) -> (wanted: (Vec<(String, bool)>, usize))
        ensures
            files_of(wanted.0@) == self.wants(*bound),
            wanted.0@.len() == self.wants(*bound).len(),
            wanted.1 == match *bound {
                Bound::Query { asked } => asked@.len(),
                _ => 0,
            },
    {
        match bound {
            Bound::Query { asked } => {
                let wanted = wanted_mirrors(
                    true,
                    self.mirrors,
                    asked,
                    self.least_rows,
                    self.declined,
                );
                assert(files_of(wanted@).len() == wanted@.len());
                (wanted, asked.len())
            },
            _ => {
                let wanted: Vec<(String, bool)> = Vec::new();
                assert(files_of(wanted@) =~= seq![]);
                (wanted, 0)
            },
        }
    }

    /// What a statement on the path that only reads does. One that is not a query is refused there.
    pub fn query_move(&self, bound: &Bound, mirror: bool) -> (next: Result<Move, Error>)
        ensures
            match next {
                Ok(Move::Rebind(wanted)) => self.rebinds(*bound, mirror) && files_of(wanted@)
                    == self.wants(*bound),
                Ok(Move::Query { remember }) => !self.rebinds(*bound, mirror) && *bound is Query
                    && remember,
                Ok(Move::Explain { analyze, statistics }) => *bound == (Bound::Explain {
                    analyze,
                    statistics,
                }),
                Ok(_) => false,
                Err(error) => !(*bound is Query) && !(*bound is Explain) && error@ == (Failure {
                    code: ErrorCode::NotImplemented,
                    message: "a statement that is not a query, on the query path"@,
                    about: About::Nothing,
                }),
            },
    {
        let (wanted, asked) = self.mirrors_for(bound);
        let query = match bound {
            Bound::Query { .. } => true,
            _ => false,
        };
        if binds_again(mirror, self.mirrors, wanted.len(), query, asked) {
            return Ok(Move::Rebind(wanted));
        }
        match bound.kind().reads_only() {
            Ok(()) => {},
            Err(error) => return Err(error),
        }
        match bound {
            Bound::Explain { analyze, statistics } => Ok(
                Move::Explain { analyze: *analyze, statistics: *statistics },
            ),
            _ => Ok(Move::Query { remember: true }),
        }
    }

    /// What a statement does. One that writes is refused in a read only transaction before anything
    /// else happens, and a plan is kept only for a statement without parameters.
    pub fn execute_move(&self, bound: &Bound, mirror: bool) -> (next: Result<Move, Error>)
        ensures
            match next {
                Ok(Move::Rebind(wanted)) => self.rebinds(*bound, mirror) && files_of(wanted@)
                    == self.wants(*bound),
                Ok(next) => !self.rebinds(*bound, mirror) && !self.forbids(*bound) && next
                    == match *bound {
                    Bound::Query { .. } => Move::Query { remember: !self.parameters },
                    Bound::Explain { analyze, statistics } => Move::Explain {
                        analyze,
                        statistics,
                    },
                    Bound::Setting { pragma } => if pragma {
                        Move::Toggle
                    } else {
                        Move::Apply
                    },
                    Bound::Transaction(kind) => Move::Transaction(kind),
                    Bound::Checkpoint => Move::Checkpoint {
                        persist: self.target.has_path && self.target.writable,
                    },
                    Bound::CreateTable { from_query, taken } => Move::CreateTable(
                        self.target.load_of_create(from_query, taken),
                    ),
                    Bound::CreateView => Move::CreateView,
                    Bound::DropTable => Move::DropTable,
                    Bound::Insert(insert) => Move::Insert(self.target.load_of_insert(insert)),
                },
                Err(error) => self.forbids(*bound) && error@ == (Failure {
                    code: ErrorCode::Transaction,
                    message: "Cannot write to database \"\""@ + self.database@
                        + "\"\" - transaction is launched in read-only mode"@,
                    about: About::Nothing,
                }),
            },
    {
        let (wanted, asked) = self.mirrors_for(bound);
        let query = match bound {
            Bound::Query { .. } => true,
            _ => false,
        };
        if binds_again(mirror, self.mirrors, wanted.len(), query, asked) {
            return Ok(Move::Rebind(wanted));
        }
        match self.ledger.may_write(bound.kind().writes(), self.database) {
            Ok(()) => {},
            Err(error) => return Err(error),
        }
        Ok(
            match bound {
                Bound::Query { .. } => Move::Query { remember: !self.parameters },
                Bound::Explain { analyze, statistics } => Move::Explain {
                    analyze: *analyze,
                    statistics: *statistics,
                },
                Bound::Setting { pragma } => if *pragma {
                    Move::Toggle
                } else {
                    Move::Apply
                },
                Bound::Transaction(kind) => Move::Transaction(*kind),
                Bound::Checkpoint => Move::Checkpoint { persist: self.target.persists() },
                Bound::CreateTable { from_query, taken } => Move::CreateTable(
                    self.target.create_load(*from_query, *taken),
                ),
                Bound::CreateView => Move::CreateView,
                Bound::DropTable => Move::DropTable,
                Bound::Insert(insert) => Move::Insert(self.target.insert_load(insert)),
            },
        )
    }
}

/// The revision of the settings once a move is made: a setting that was turned over or given a value
/// makes it another.
pub open spec fn revision_after(revision: u64, made: Move) -> u64 {
    if made is Toggle || made is Apply {
        if revision == u64::MAX {
            0
        } else {
            (revision + 1) as u64
        }
    } else {
        revision
    }
}

/// The revision of the settings once a move is made.
pub fn settings_revision(revision: u64, made: &Move) -> (after: u64)
    ensures
        after == revision_after(revision, *made),
{
    match made {
        Move::Toggle | Move::Apply => if revision == u64::MAX {
            0
        } else {
            revision + 1
        },
        _ => revision,
    }
}

/// A plan kept before a setting was turned over or given a value is not used after it.
pub proof fn law_a_setting_forgets_the_kept_plan<P>(
    kept: CachedNativeAggregate<P>,
    sql: Seq<char>,
    generation: u64,
    revision: u64,
    made: Move,
)
    requires
        made is Toggle || made is Apply,
        kept.settings_revision == revision,
    ensures
        !still_good(kept, sql, generation, revision_after(revision, made)),
{
}

/// A statement is bound at most twice: the second time it is not bound again.
pub proof fn law_a_statement_is_bound_at_most_twice<C>(under: Under<C>, bound: Bound)
    ensures
        !under.rebinds(bound, false),
{
}

/// A load writes the file directly only where no transaction is open, so that everything a
/// transaction did can be rolled back.
pub proof fn law_a_transaction_writes_no_file(target: Target, insert: Insert, query: bool, taken: bool)
    requires
        target.transacting,
    ensures
        target.load_of_create(query, taken) is ThroughTable,
        target.load_of_insert(insert) is ThroughTable,
{
}

/// In a transaction that only reads, every statement that changes the database is forbidden: one that
/// creates or drops a table, creates a view or writes rows. Everything else may run there, and outside
/// such a transaction nothing is forbidden.
pub proof fn law_a_reading_transaction_forbids_changes<C>(under: Under<C>, bound: Bound)
    ensures
        under.ledger.open is Some && (under.ledger.open->Some_0).read_only ==> (under.forbids(bound)
            == match bound {
            Bound::CreateTable { .. } | Bound::CreateView | Bound::DropTable | Bound::Insert(
                _,
            ) => true,
            Bound::Query { .. } | Bound::Explain { .. } | Bound::Setting { .. } | Bound::Transaction(
                _,
            ) | Bound::Checkpoint => false,
        }),
        under.ledger.open is None || !(under.ledger.open->Some_0).read_only ==> !under.forbids(bound),
{
}

/// Only a query wants mirrors, and only while files are mirrored at all. The first time it is bound it
/// is bound again where it asked about any file, and it is never bound again without mirrors.
pub proof fn law_only_a_query_is_bound_again<C>(under: Under<C>, bound: Bound, mirror: bool)
    ensures
        !under.mirrors || !(bound is Query) ==> under.wants(bound).len() == 0 && !under.rebinds(
            bound,
            mirror,
        ),
        under.mirrors && bound is Query ==> (under.rebinds(bound, mirror) <==> mirror && bound->asked@.len()
            > 0),
{
    if under.mirrors && bound is Query {
        let from = law_mirrors_are_the_large_files_asked_for(
            bound->asked@,
            under.least_rows,
            under.declined@,
            bound->asked@.len(),
        );
        if under.wants(bound).len() > 0 {
            assert(0 <= from[0] < bound->asked@.len());
        }
    }
}

/// Turning a setting over or giving it a value makes the revision of the settings the next one, and
/// nothing else does.
pub proof fn law_a_revision_counts_settings(revision: u64, made: Move)
    ensures
        made is Toggle || made is Apply ==> revision_after(revision, made) != revision,
        (made is Toggle || made is Apply) && revision < u64::MAX ==> revision_after(revision, made)
            == revision + 1,
        match made {
            Move::Toggle | Move::Apply => true,
            _ => revision_after(revision, made) == revision,
        },
{
}

/// A statement that changes the database fails in a transaction that only reads, and every other goes
/// the way of its kind once its mirrors are in: a query runs, and its plan is kept where nothing in it
/// is a parameter; a pragma turns its setting over and any other setting is given its value; a
/// checkpoint writes where the database is in a file it may write; rows and tables go where their
/// target takes them.
pub proof fn law_a_statement_goes_the_way_of_its_kind<'a, C>(
    under: &Under<'a, C>,
    bound: &Bound,
    next: Result<Move, Error>,
)
    requires
        call_ensures(Under::<'a, C>::execute_move, (under, bound, false), next),
    ensures
        under.ledger.open is Some && (under.ledger.open->Some_0).read_only && (*bound is CreateTable
            || *bound is CreateView || *bound is DropTable || *bound is Insert) <==> next is Err,
        next is Err ==> next->Err_0@.code is Transaction,
        next is Ok ==> match *bound {
            Bound::Query { .. } => next->Ok_0 == (Move::Query { remember: !under.parameters }),
            Bound::Explain { analyze, statistics } => next->Ok_0 == (Move::Explain {
                analyze,
                statistics,
            }),
            Bound::Setting { pragma } => (next->Ok_0 is Toggle <==> pragma) && (next->Ok_0 is Apply
                <==> !pragma),
            Bound::Transaction(kind) => next->Ok_0 == Move::Transaction(kind),
            Bound::Checkpoint => next->Ok_0 == (Move::Checkpoint {
                persist: under.target.has_path && under.target.writable,
            }),
            Bound::CreateTable { from_query, taken } => next->Ok_0 == Move::CreateTable(
                under.target.load_of_create(from_query, taken),
            ),
            Bound::CreateView => next->Ok_0 is CreateView,
            Bound::DropTable => next->Ok_0 is DropTable,
            Bound::Insert(insert) => next->Ok_0 == Move::Insert(
                under.target.load_of_insert(insert),
            ),
        },
{
}

/// On the path that only reads, a query runs and an explanation is given, and nothing else is done.
pub proof fn law_the_reading_path_only_reads<'a, C>(
    under: &Under<'a, C>,
    bound: &Bound,
    next: Result<Move, Error>,
)
    requires
        call_ensures(Under::<'a, C>::query_move, (under, bound, false), next),
    ensures
        next is Ok <==> *bound is Query || *bound is Explain,
        *bound is Query ==> next->Ok_0 == (Move::Query { remember: true }),
        *bound is Explain ==> next->Ok_0 is Explain,
        next is Err ==> next->Err_0@.code is NotImplemented,
{
}

/// The first time a query that asked about files is bound, it is bound again, with the mirrors it wants.
pub proof fn law_a_query_waits_for_its_mirrors<'a, C>(
    under: &Under<'a, C>,
    bound: &Bound,
    next: Result<Move, Error>,
)
    requires
        call_ensures(Under::<'a, C>::execute_move, (under, bound, true), next),
        *bound is Query,
    ensures
        under.mirrors && bound->asked@.len() > 0 ==> next is Ok && next->Ok_0 is Rebind && files_of(
            next->Ok_0->Rebind_0@,
        ) == mirrors_upto(
            bound->asked@,
            under.least_rows,
            under.declined@,
            bound->asked@.len(),
        ),
        !under.mirrors || bound->asked@.len() == 0 ==> next is Ok && next->Ok_0 is Query,
{
    if under.mirrors {
        let from = law_mirrors_are_the_large_files_asked_for(
            bound->asked@,
            under.least_rows,
            under.declined@,
            bound->asked@.len(),
        );
        if under.wants(*bound).len() > 0 {
            assert(0 <= from[0] < bound->asked@.len());
        }
    }
}

} // verus!
