//! Which way a statement goes.

use crate::types::{About, Error, ErrorCode, Failure};
use vstd::prelude::*;

verus! {

/// What a bound statement is.
#[derive(Debug, Clone, Copy, PartialEq, Eq, Structural)]
pub enum Kind {
    Query,
    Explain,
    Setting,
    Transaction,
    Checkpoint,
    CreateTable,
    CreateView,
    DropTable,
    Insert,
}

impl Kind {
    /// Whether a statement changes what the database holds.
    pub fn writes(self) -> (yes: bool)
        ensures
            yes == (self is CreateTable || self is CreateView || self is DropTable
                || self is Insert),
    {
        match self {
            Kind::CreateTable | Kind::CreateView | Kind::DropTable | Kind::Insert => true,
            _ => false,
        }
    }

    /// Whether a statement is one the path that only reads can run. One that writes is refused there
    /// rather than run.
    pub fn reads_only(self) -> (admitted: Result<(), Error>)
        ensures
            match admitted {
                Ok(()) => self is Query || self is Explain,
                Err(error) => !(self is Query || self is Explain) && error@ == (Failure {
                    code: ErrorCode::NotImplemented,
                    message: "a statement that is not a query, on the query path"@,
                    about: About::Nothing,
                }),
            },
    {
        match self {
            Kind::Query | Kind::Explain => Ok(()),
            _ => Err(Error::not_implemented("a statement that is not a query, on the query path")),
        }
    }
}

/// How a load reaches the file.
#[derive(Debug, Clone, Copy, PartialEq, Eq, Structural)]
pub enum Load {
    /// Through the table in memory, and the file at the next checkpoint.
    ThroughTable,
    /// Straight into a new file that is renamed over the database, which is only safe while there is
    /// nothing in the database to lose.
    FreshFile,
    /// Straight into the file as a generation of its own, where the file can take one.
    WhereAppendable,
}

/// The database a load goes into.
#[derive(Debug, Clone, Copy)]
pub struct Target {
    /// Whether it is held in a file at all, and may write it.
    pub has_path: bool,
    pub writable: bool,
    /// Whether the file is there already.
    pub path_exists: bool,
    /// Whether a transaction is open, which a file that was written could not be rolled back out of.
    pub transacting: bool,
    /// How many tables the catalog would store.
    pub stored_tables: usize,
    /// Whether the table loaded is a temporary one, which never reaches the file.
    pub temporary: bool,
}

impl Target {
    /// Whether a statement may write the file without being a checkpoint.
    pub open spec fn open_to_loads(&self) -> bool {
        self.has_path && self.writable && !self.temporary && !self.transacting
    }

    /// Where the rows of a table created out of a query go.
    pub open spec fn load_of_create(&self, from_query: bool, taken: bool) -> Load {
        if !self.open_to_loads() || !from_query || taken {
            Load::ThroughTable
        } else if !self.path_exists && self.stored_tables == 0 {
            Load::FreshFile
        } else {
            Load::WhereAppendable
        }
    }

    /// Where the rows of an insert go.
    pub open spec fn load_of_insert(&self, insert: Insert) -> Load {
        if !self.open_to_loads() || !insert.is_plain() || !insert.empty {
            Load::ThroughTable
        } else if !self.path_exists && self.stored_tables == 1 {
            Load::FreshFile
        } else {
            Load::WhereAppendable
        }
    }

    /// Whether a checkpoint, or closing the database, writes anything at all. One held in memory and
    /// one opened read only succeed and write nothing.
    pub fn persists(&self) -> (yes: bool)
        ensures
            yes == (self.has_path && self.writable),
    {
        self.has_path && self.writable
    }

    fn takes_loads(&self) -> (yes: bool)
        ensures
            yes == self.open_to_loads(),
    {
        self.has_path && self.writable && !self.temporary && !self.transacting
    }

    /// How the rows of a table created out of a query reach the file. Only a name the catalog does
    /// not have yet can go straight into it, because replacing a table may read the table replaced.
    pub fn create_load(&self, from_query: bool, taken: bool) -> (load: Load)
        ensures
            load == self.load_of_create(from_query, taken),
    {
        if !self.takes_loads() || !from_query || taken {
            Load::ThroughTable
        } else if !self.path_exists && self.stored_tables == 0 {
            Load::FreshFile
        } else {
            Load::WhereAppendable
        }
    }

    /// How the rows of an insert reach the file. Only plain rows into an empty table can go straight
    /// into it: a key, a foreign key, a check or a returning list needs the table.
    pub fn insert_load(&self, insert: &Insert) -> (load: Load)
        ensures
            load == self.load_of_insert(*insert),
    {
        if !self.takes_loads() || !insert.plain() || !insert.empty {
            Load::ThroughTable
        } else if !self.path_exists && self.stored_tables == 1 {
            Load::FreshFile
        } else {
            Load::WhereAppendable
        }
    }
}

/// An insert, as far as it decides how its rows go.
#[derive(Debug, Clone, Copy)]
pub struct Insert {
    /// Whether it only adds rows, rather than updating or deleting.
    pub appends: bool,
    pub returning: bool,
    pub checks: bool,
    /// Whether the table is there, has a key or a foreign key, and has no rows.
    pub found: bool,
    pub keys: bool,
    pub foreign: bool,
    pub empty: bool,
}

impl Insert {
    /// Whether nothing has to be asked of the rows.
    pub open spec fn is_plain(&self) -> bool {
        self.appends && !self.returning && !self.checks && self.found && !self.keys && !self.foreign
    }

    fn plain(&self) -> (yes: bool)
        ensures
            yes == self.is_plain(),
    {
        self.appends && !self.returning && !self.checks && self.found && !self.keys && !self.foreign
    }
}

/// What creating a table or a view does.
#[derive(Debug, Clone, Copy, PartialEq, Eq, Structural)]
pub enum Create {
    /// It is there, and that is enough.
    Nothing,
    /// The one of that name goes, after whatever fills the new one has been read.
    Replace,
    Make,
}

/// What creating a table does, by its two modifiers and whether a table has the name. A view of that
/// name is left for the catalog to refuse.
pub fn creates(if_not_exists: bool, or_replace: bool, is_table: bool) -> (step: Create)
    ensures
        step == if if_not_exists && is_table {
            Create::Nothing
        } else if or_replace && is_table {
            Create::Replace
        } else {
            Create::Make
        },
{
    if if_not_exists && is_table {
        Create::Nothing
    } else if or_replace && is_table {
        Create::Replace
    } else {
        Create::Make
    }
}

/// What creating a view does, by its two modifiers, whether anything has the name, and whether a
/// view has it.
pub fn creates_view(if_not_exists: bool, or_replace: bool, taken: bool, is_view: bool) -> (step:
    Create)
    ensures
        step == if if_not_exists && taken {
            Create::Nothing
        } else if or_replace && is_view {
            Create::Replace
        } else {
            Create::Make
        },
{
    if if_not_exists && taken {
        Create::Nothing
    } else if or_replace && is_view {
        Create::Replace
    } else {
        Create::Make
    }
}

/// Rows go straight into the file only where it may be written and nothing has to be asked of them:
/// the database is in a file it may write, no transaction could be rolled back, the table is not a
/// temporary one, and for an insert it is there and empty, has no key, foreign key or check, and
/// neither updates, deletes nor returns rows. A new file is started only while there is none and no
/// other table to lose.
pub proof fn law_rows_reach_the_file_directly_only_where_nothing_is_asked_of_them(
    target: Target,
    insert: Insert,
    from_query: bool,
    taken: bool,
)
    ensures
        !target.has_path || !target.writable || target.temporary || target.transacting
            ==> target.load_of_insert(insert) is ThroughTable && target.load_of_create(
            from_query,
            taken,
        ) is ThroughTable,
        !insert.appends || insert.returning || insert.checks || !insert.found || insert.keys
            || insert.foreign || !insert.empty ==> target.load_of_insert(insert) is ThroughTable,
        !from_query || taken ==> target.load_of_create(from_query, taken) is ThroughTable,
        target.load_of_insert(insert) is FreshFile ==> !target.path_exists && target.stored_tables
            == 1,
        target.load_of_create(from_query, taken) is FreshFile ==> !target.path_exists
            && target.stored_tables == 0,
        target.has_path && target.writable && !target.temporary && !target.transacting
            && insert.appends && !insert.returning && !insert.checks && insert.found && !insert.keys
            && !insert.foreign && insert.empty ==> !(target.load_of_insert(insert) is ThroughTable),
        target.has_path && target.writable && !target.temporary && !target.transacting && from_query
            && !taken ==> !(target.load_of_create(from_query, taken) is ThroughTable),
        target.path_exists ==> !(target.load_of_insert(insert) is FreshFile)
            && !(target.load_of_create(from_query, taken) is FreshFile),
        !target.path_exists && target.stored_tables == 1 ==> !(target.load_of_insert(
            insert,
        ) is WhereAppendable),
        !target.path_exists && target.stored_tables == 0 ==> !(target.load_of_create(
            from_query,
            taken,
        ) is WhereAppendable),
{
}

/// A table that is there stays where it only has to be there, goes where it is to be replaced, and is
/// in the way otherwise. Where no table has the name, one is made whatever the modifiers say.
pub proof fn law_a_table_that_is_there_is_kept_or_replaced(
    if_not_exists: bool,
    or_replace: bool,
    is_table: bool,
    step: Create,
)
    requires
        call_ensures(creates, (if_not_exists, or_replace, is_table), step),
    ensures
        !is_table ==> step is Make,
        is_table && if_not_exists ==> step is Nothing,
        is_table && !if_not_exists && or_replace ==> step is Replace,
        is_table && !if_not_exists && !or_replace ==> step is Make,
{
}

/// A view takes the place of a view only, and is not made where anything has its name and that is
/// enough.
pub proof fn law_a_view_takes_the_place_of_a_view(
    if_not_exists: bool,
    or_replace: bool,
    taken: bool,
    is_view: bool,
    step: Create,
)
    requires
        call_ensures(creates_view, (if_not_exists, or_replace, taken, is_view), step),
    ensures
        taken && if_not_exists ==> step is Nothing,
        !(taken && if_not_exists) && or_replace && is_view ==> step is Replace,
        !(taken && if_not_exists) && !(or_replace && is_view) ==> step is Make,
{
}

/// Creating and dropping tables, creating views and writing rows change the database, and nothing else
/// does. Queries and explanations only read it.
pub proof fn law_what_writes_and_what_reads(kind: Kind, writes: bool, admitted: Result<(), Error>)
    requires
        call_ensures(Kind::writes, (kind,), writes),
        call_ensures(Kind::reads_only, (kind,), admitted),
    ensures
        writes == match kind {
            Kind::CreateTable | Kind::CreateView | Kind::DropTable | Kind::Insert => true,
            Kind::Query
            | Kind::Explain
            | Kind::Setting
            | Kind::Transaction
            | Kind::Checkpoint => false,
        },
        admitted is Ok <==> kind is Query || kind is Explain,
        writes ==> admitted is Err,
{
}

} // verus!
