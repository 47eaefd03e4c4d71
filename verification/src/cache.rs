//! What a database keeps between statements, and when it is out of date.

use crate::checkpoint::{same_name, QualifiedName};
use crate::links::{linked_parts, related, related_upto, Linked, Relationship};
use crate::types::same_text;
use std::sync::Arc;
use vstd::prelude::*;

verus! {

/// A plan kept for the statement it was made for, with the catalog and the settings it was made
/// under.
pub struct CachedNativeAggregate<P> {
    pub sql: String,
    pub catalog_generation: u64,
    pub settings_revision: u64,
    pub plan: Arc<P>,
}

/// Whether a kept plan is the one a statement would be planned as now.
pub open spec fn still_good<P>(
    held: CachedNativeAggregate<P>,
    sql: Seq<char>,
    generation: u64,
    revision: u64,
) -> bool {
    held.sql@ == sql && held.catalog_generation == generation && held.settings_revision == revision
}

/// The kept plan, while the statement, the catalog and the settings are the ones it was made under.
pub fn cached_native_aggregate<P>(
    held: &Option<CachedNativeAggregate<P>>,
    sql: &str,
    generation: u64,
    revision: u64,
) -> (plan: Option<Arc<P>>)
    ensures
        plan == match *held {
            Some(kept) => if still_good(kept, sql@, generation, revision) {
                Some(kept.plan)
            } else {
                None
            },
            None => None,
        },
{
    match held {
        Some(kept) => if same_text(kept.sql.as_str(), sql) && kept.catalog_generation == generation
            && kept.settings_revision == revision {
            Some(kept.plan.clone())
        } else {
            None
        },
        None => None,
    }
}

/// Keeps a plan that can be used again, in place of the one kept before it.
pub fn remember_native_aggregate<P>(
    held: &mut Option<CachedNativeAggregate<P>>,
    sql: &str,
    reusable: bool,
    generation: u64,
    revision: u64,
    plan: Arc<P>,
)
    ensures
        if reusable {
            *final(held) matches Some(kept) && still_good(kept, sql@, generation, revision)
                && kept.plan == plan
        } else {
            *final(held) == *old(held)
        },
{
    if reusable {
        *held = Some(
            CachedNativeAggregate {
                sql: sql.to_owned(),
                catalog_generation: generation,
                settings_revision: revision,
                plan,
            },
        );
    }
}

/// Where a table keeps its rows.
#[derive(Debug, Clone, Copy, PartialEq, Eq, Structural)]
pub enum RowsPlace {
    Memory,
    Native,
    /// Rows in memory beside the file.
    Grown,
}

/// Where a distinct count comes from.
#[derive(Debug, Clone, Copy, PartialEq, Eq, Structural)]
pub enum Provenance {
    /// Counted as the rows arrived.
    Sketch,
    /// The entries of a dictionary in the file.
    Dictionary,
}

/// A table of the catalog as it is measured. A column that has no exact distinct count says none.
pub struct TableMeasure {
    pub name: QualifiedName,
    pub place: RowsPlace,
    pub rows: usize,
    pub columns: Vec<(String, Option<u64>)>,
}

/// What is known of a table.
pub struct TableFacts {
    pub name: QualifiedName,
    pub rows: u64,
    pub distincts: Vec<(String, Option<(u64, Provenance)>)>,
}

/// What the optimizer is told about a catalog, and the generation of the catalog it was read at.
pub struct Facts {
    pub generation: u64,
    pub tables: Vec<TableFacts>,
}

/// Where a table's distinct counts come from, which is a property of the table and not of a column.
pub open spec fn provenance_of(place: RowsPlace) -> Provenance {
    match place {
        RowsPlace::Native => Provenance::Dictionary,
        _ => Provenance::Sketch,
    }
}

/// Whether what is known of a table is what its measure says, the distinct counts only where they
/// are wanted.
pub open spec fn facts_of(facts: TableFacts, table: TableMeasure, distinct: bool) -> bool {
    &&& same_name(facts.name, table.name)
    &&& facts.rows == table.rows
    &&& facts.distincts@.len() == table.columns@.len()
    &&& forall|c: int|
        0 <= c < table.columns@.len() ==> (#[trigger] facts.distincts@[c]).0@
            == table.columns@[c].0@ && facts.distincts@[c].1 == match table.columns@[c].1 {
            Some(count) => if distinct {
                Some((count, provenance_of(table.place)))
            } else {
                None
            },
            None => None,
        }
}

/// Whether some facts are what was measured of those tables.
pub open spec fn facts_are(
    facts: Facts,
    tables: Seq<TableMeasure>,
    generation: u64,
    distinct: bool,
) -> bool {
    &&& facts.generation == generation
    &&& facts.tables@.len() == tables.len()
    &&& forall|i: int|
        0 <= i < tables.len() ==> facts_of(#[trigger] facts.tables@[i], tables[i], distinct)
}

fn copy_name(name: &QualifiedName) -> (copy: QualifiedName)
    ensures
        same_name(copy, *name),
{
    QualifiedName {
        catalog: name.catalog.clone(),
        schema: name.schema.clone(),
        table: name.table.clone(),
    }
}

/// Everything the optimizer is told about a catalog, read once.
pub fn measured(tables: &Vec<TableMeasure>, generation: u64) -> (facts: Facts)
    ensures
        facts_are(facts, tables@, generation, true),
{
    let mut found: Vec<TableFacts> = Vec::new();
    let mut at: usize = 0;
    while at < tables.len()
        invariant
            at <= tables@.len(),
            found@.len() == at,
            forall|i: int| 0 <= i < at ==> facts_of(#[trigger] found@[i], tables@[i], true),
        decreases tables.len() - at,
    {
        let provenance = match tables[at].place {
            RowsPlace::Native => Provenance::Dictionary,
            RowsPlace::Memory => Provenance::Sketch,
            RowsPlace::Grown => Provenance::Sketch,
        };
        let mut distincts: Vec<(String, Option<(u64, Provenance)>)> = Vec::new();
        let mut c: usize = 0;
        while c < tables[at].columns.len()
            invariant
                at < tables@.len(),
                c <= tables@[at as int].columns@.len(),
                provenance == provenance_of(tables@[at as int].place),
                distincts@.len() == c,
                forall|i: int|
                    0 <= i < c ==> (#[trigger] distincts@[i]).0@
                        == tables@[at as int].columns@[i].0@ && distincts@[i].1
                        == match tables@[at as int].columns@[i].1 {
                        Some(count) => Some((count, provenance)),
                        None => None,
                    },
            decreases tables@[at as int].columns@.len() - c,
        {
            let distinct: Option<(u64, Provenance)> = match tables[at].columns[c].1 {
                Some(count) => Some((count, provenance)),
                None => None,
            };
            distincts.push((tables[at].columns[c].0.clone(), distinct));
            c += 1;
        }
        found.push(
            TableFacts {
                name: copy_name(&tables[at].name),
                rows: tables[at].rows as u64,
                distincts,
            },
        );
        at += 1;
    }
    Facts { generation, tables: found }
}

/// The counts for a catalog, read again if the ones in hand are of another generation of it and
/// used again if not.
pub fn facts(held: &Arc<Facts>, tables: &Vec<TableMeasure>, generation: u64) -> (current: Arc<Facts>)
    ensures
        if held.generation == generation {
            current == *held
        } else {
            facts_are(*current, tables@, generation, true)
        },
{
    if held.generation != generation {
        Arc::new(measured(tables, generation))
    } else {
        held.clone()
    }
}

/// Whether some facts are others without their distinct counts.
pub open spec fn stripped(less: Facts, facts: Facts) -> bool {
    &&& less.generation == facts.generation
    &&& less.tables@.len() == facts.tables@.len()
    &&& forall|i: int|
        0 <= i < less.tables@.len() ==> {
            &&& same_name((#[trigger] less.tables@[i]).name, facts.tables@[i].name)
            &&& less.tables@[i].rows == facts.tables@[i].rows
            &&& less.tables@[i].distincts@.len() == facts.tables@[i].distincts@.len()
            &&& forall|c: int|
                0 <= c < less.tables@[i].distincts@.len() ==> (
                #[trigger] less.tables@[i].distincts@[c]).1 is None && less.tables@[i].distincts@[c].0@
                    == facts.tables@[i].distincts@[c].0@
        }
}

impl Facts {
    /// The same row counts and no distinct count, since a row count is the length of the table
    /// rather than something that was measured.
    pub fn without_distincts(&self) -> (less: Facts)
        ensures
            stripped(less, *self),
    {
        let mut found: Vec<TableFacts> = Vec::new();
        let mut at: usize = 0;
        while at < self.tables.len()
            invariant
                at <= self.tables@.len(),
                found@.len() == at,
                forall|i: int|
                    0 <= i < at ==> {
                        &&& same_name((#[trigger] found@[i]).name, self.tables@[i].name)
                        &&& found@[i].rows == self.tables@[i].rows
                        &&& found@[i].distincts@.len() == self.tables@[i].distincts@.len()
                        &&& forall|c: int|
                            0 <= c < found@[i].distincts@.len() ==> (
                            #[trigger] found@[i].distincts@[c]).1 is None
                                && found@[i].distincts@[c].0@ == self.tables@[i].distincts@[c].0@
                    },
            decreases self.tables.len() - at,
        {
            let mut distincts: Vec<(String, Option<(u64, Provenance)>)> = Vec::new();
            let mut c: usize = 0;
            while c < self.tables[at].distincts.len()
                invariant
                    at < self.tables@.len(),
                    c <= self.tables@[at as int].distincts@.len(),
                    distincts@.len() == c,
                    forall|i: int|
                        0 <= i < c ==> (#[trigger] distincts@[i]).1 is None && distincts@[i].0@
                            == self.tables@[at as int].distincts@[i].0@,
                decreases self.tables@[at as int].distincts@.len() - c,
            {
                distincts.push((self.tables[at].distincts[c].0.clone(), None));
                c += 1;
            }
            found.push(
                TableFacts {
                    name: copy_name(&self.tables[at].name),
                    rows: self.tables[at].rows,
                    distincts,
                },
            );
            at += 1;
        }
        Facts { generation: self.generation, tables: found }
    }
}

/// The counts the optimizer is allowed to plan from, which is all of them unless statistics are off.
pub fn estimates(held: &Arc<Facts>, statistics: bool) -> (allowed: Arc<Facts>)
    ensures
        if statistics {
            allowed == *held
        } else {
            stripped(*allowed, **held)
        },
{
    if statistics {
        held.clone()
    } else {
        Arc::new(held.without_distincts())
    }
}

/// The relationships found for a declaration at a generation of the catalog.
pub struct Related {
    pub generation: u64,
    pub declared: String,
    pub found: Arc<Vec<Linked>>,
}

/// The relationships the optimizer is told about. None are while the graph layer is off or nothing
/// is declared, and what was found before is used again while the catalog and the declaration are
/// the ones it was found for.
pub fn relationships(
    held: &mut Related,
    enabled: bool,
    declared: &str,
    generation: u64,
    links: &Vec<Relationship>,
    stored: &Vec<Option<(u64, u64)>>,
) -> (found: Arc<Vec<Linked>>)
    requires
        stored@.len() == links@.len(),
    ensures
        if !enabled || declared@.len() == 0 {
            found@.len() == 0 && *final(held) == *old(held)
        } else if old(held).generation == generation && old(held).declared@ == declared@ {
            found == old(held).found && *final(held) == *old(held)
        } else {
            &&& linked_parts(found@) == related_upto(links@, stored@, links@.len())
            &&& final(held).found == found
            &&& final(held).generation == generation
            &&& final(held).declared@ == declared@
        },
{
    if !enabled || same_text(declared, "") {
        proof {
            reveal_strlit("");
            assert(declared@.len() == 0 || declared@ != ""@);
        }
        return Arc::new(Vec::new());
    }
    proof {
        reveal_strlit("");
        if declared@.len() == 0 {
            assert(declared@ =~= ""@);
        }
    }
    if held.generation != generation || !same_text(held.declared.as_str(), declared) {
        let found = Arc::new(related(links, stored));
        *held = Related { generation, declared: declared.to_owned(), found: found.clone() };
        return found;
    }
    held.found.clone()
}

/// Whether a file was one the database already failed to mirror.
pub open spec fn was_declined(declined: Seq<(String, bool)>, path: Seq<char>, binary: bool) -> bool {
    exists|i: int|
        0 <= i < declined.len() && (#[trigger] declined[i]).0@ == path && declined[i].1 == binary
}

/// The files among the first `count` asked for that are large enough to mirror and were not
/// declined.
pub open spec fn mirrors_upto(
    asked: Seq<(String, bool, u64)>,
    least: u64,
    declined: Seq<(String, bool)>,
    count: nat,
) -> Seq<(Seq<char>, bool)>
    decreases count,
{
    if count == 0 {
        seq![]
    } else {
        let before = mirrors_upto(asked, least, declined, (count - 1) as nat);
        let (path, binary, rows) = asked[count - 1];
        if rows >= least && !was_declined(declined, path@, binary) {
            before.push((path@, binary))
        } else {
            before
        }
    }
}

/// What some files are called.
pub open spec fn files_of(files: Seq<(String, bool)>) -> Seq<(Seq<char>, bool)> {
    Seq::new(files.len(), |i: int| (files[i].0@, files[i].1))
}

fn declined_before(declined: &Vec<(String, bool)>, path: &str, binary: bool) -> (yes: bool)
    ensures
        yes == was_declined(declined@, path@, binary),
{
    let mut at: usize = 0;
    while at < declined.len()
        invariant
            at <= declined@.len(),
            forall|i: int|
                0 <= i < at ==> !((#[trigger] declined@[i]).0@ == path@ && declined@[i].1 == binary),
        decreases declined.len() - at,
    {
        if declined[at].1 == binary && same_text(declined[at].0.as_str(), path) {
            assert(declined@[at as int].0@ == path@);
            return true;
        }
        at += 1;
    }
    false
}

/// The files a query read directly and would rather have read through a mirror, less the ones this
/// database already failed to mirror. Only a query asks.
pub fn wanted_mirrors(
    query: bool,
    enabled: bool,
    asked: &Vec<(String, bool, u64)>,
    least: u64,
    declined: &Vec<(String, bool)>,
) -> (wanted: Vec<(String, bool)>)
    ensures
        files_of(wanted@) == if query && enabled {
            mirrors_upto(asked@, least, declined@, asked@.len())
        } else {
            seq![]
        },
{
    let mut wanted: Vec<(String, bool)> = Vec::new();
    assert(files_of(wanted@) =~= seq![]);
    if !query || !enabled {
        return wanted;
    }
    let mut at: usize = 0;
    while at < asked.len()
        invariant
            at <= asked@.len(),
            files_of(wanted@) == mirrors_upto(asked@, least, declined@, at as nat),
        decreases asked.len() - at,
    {
        if asked[at].2 >= least && !declined_before(declined, asked[at].0.as_str(), asked[at].1) {
            let ghost before = wanted@;
            wanted.push((asked[at].0.clone(), asked[at].1));
            assert(files_of(wanted@) =~= files_of(before).push(
                (asked@[at as int].0@, asked@[at as int].1),
            ));
        }
        at += 1;
    }
    wanted
}

/// Whether a statement is bound again once the mirrors are in. It is where it wants one, and where
/// an outlined plan asked for one at all, because the reads that asked were bound without their
/// bounds. It is not bound a third time.
pub fn binds_again(mirror: bool, enabled: bool, wanted: usize, query: bool, asked: usize) -> (yes:
    bool)
    ensures
        yes == (mirror && (wanted > 0 || (enabled && query && asked > 0))),
{
    mirror && (wanted > 0 || (enabled && query && asked > 0))
}

/// Remembers a file that could not be mirrored, so that the next statement does not try again.
pub fn mirrored(declined: &mut Vec<(String, bool)>, path: &str, binary: bool, added: bool)
    ensures
        forall|file: Seq<char>, kind: bool| #[trigger]
            was_declined(final(declined)@, file, kind) == (was_declined(old(declined)@, file, kind)
                || (!added && file == path@ && kind == binary)),
{
    if added || declined_before(declined, path, binary) {
        return;
    }
    let ghost before = declined@;
    declined.push((path.to_owned(), binary));
    proof {
        assert forall|file: Seq<char>, kind: bool| #[trigger]
            was_declined(declined@, file, kind) == (was_declined(before, file, kind) || (file
                == path@ && kind == binary)) by {
            if was_declined(before, file, kind) {
                let i = choose|i: int|
                    0 <= i < before.len() && (#[trigger] before[i]).0@ == file && before[i].1
                        == kind;
                assert(declined@[i].0@ == file);
            }
            assert(declined@[before.len() as int].0@ == path@);
            if was_declined(declined@, file, kind) {
                let i = choose|i: int|
                    0 <= i < declined@.len() && (#[trigger] declined@[i]).0@ == file
                        && declined@[i].1 == kind;
                if i < before.len() {
                    assert(before[i].0@ == file);
                }
            }
        }
    }
}

/// A file that could not be mirrored is not asked for again.
pub proof fn law_a_declined_file_is_not_wanted(
    asked: Seq<(String, bool, u64)>,
    least: u64,
    declined: Seq<(String, bool)>,
    count: nat,
    at: int,
)
    requires
        count <= asked.len(),
        0 <= at < mirrors_upto(asked, least, declined, count).len(),
    ensures
        !was_declined(
            declined,
            mirrors_upto(asked, least, declined, count)[at].0,
            mirrors_upto(asked, least, declined, count)[at].1,
        ),
    decreases count,
{
    let before = mirrors_upto(asked, least, declined, (count - 1) as nat);
    if at < before.len() {
        law_a_declined_file_is_not_wanted(asked, least, declined, (count - 1) as nat, at);
    }
}

/// A kept plan is used only for the statement it was made for, letter by letter, and only while
/// neither the catalog nor a setting has changed.
pub proof fn law_a_kept_plan_answers_what_it_was_made_for<P>(
    kept: CachedNativeAggregate<P>,
    sql: Seq<char>,
    generation: u64,
    revision: u64,
)
    ensures
        still_good(kept, kept.sql@, kept.catalog_generation, kept.settings_revision),
        still_good(kept, sql, generation, revision) ==> sql.len() == kept.sql@.len() && (forall|
            i: int,
        |
            0 <= i < sql.len() ==> #[trigger] sql[i] == kept.sql@[i]),
        generation != kept.catalog_generation ==> !still_good(kept, sql, generation, revision),
        revision != kept.settings_revision ==> !still_good(kept, sql, generation, revision),
{
}

/// Facts are the tables of the catalog, each under its own name and with as many rows as it has. A
/// column's distinct count is the one that was measured, out of the dictionary where the rows are all
/// in the file and out of the sketch otherwise, and one that was not measured is not made up.
pub proof fn law_facts_say_what_was_measured(
    facts: Facts,
    tables: Seq<TableMeasure>,
    generation: u64,
    at: int,
)
    requires
        facts_are(facts, tables, generation, true),
        0 <= at < tables.len(),
    ensures
        facts.generation == generation,
        facts.tables@.len() == tables.len(),
        facts.tables@[at].name.catalog@ == tables[at].name.catalog@,
        facts.tables@[at].name.schema@ == tables[at].name.schema@,
        facts.tables@[at].name.table@ == tables[at].name.table@,
        facts.tables@[at].rows == tables[at].rows,
        facts.tables@[at].distincts@.len() == tables[at].columns@.len(),
        forall|c: int|
            0 <= c < tables[at].columns@.len() ==> {
                let (name, distinct) = #[trigger] facts.tables@[at].distincts@[c];
                &&& name@ == tables[at].columns@[c].0@
                &&& distinct is Some <==> tables[at].columns@[c].1 is Some
                &&& distinct is Some ==> (distinct->Some_0).0 == tables[at].columns@[c].1->Some_0
                &&& distinct is Some && tables[at].place is Native ==> (distinct->Some_0).1
                    is Dictionary
                &&& distinct is Some && (tables[at].place is Memory || tables[at].place is Grown)
                    ==> (distinct->Some_0).1 is Sketch
            },
{
    assert(facts_of(facts.tables@[at], tables[at], true));
}

/// With statistics off the rows of a table are still known, and the distinct counts of its columns are
/// not.
pub proof fn law_rows_are_known_without_statistics(less: &Facts, facts: &Facts, at: int)
    requires
        stripped(*less, *facts),
        0 <= at < facts.tables@.len(),
    ensures
        less.generation == facts.generation,
        less.tables@.len() == facts.tables@.len(),
        less.tables@[at].name.table@ == facts.tables@[at].name.table@,
        less.tables@[at].rows == facts.tables@[at].rows,
        less.tables@[at].distincts@.len() == facts.tables@[at].distincts@.len(),
        forall|c: int|
            0 <= c < less.tables@[at].distincts@.len() ==> (
            #[trigger] less.tables@[at].distincts@[c]).1 is None,
{
    assert(same_name(less.tables@[at].name, facts.tables@[at].name));
}

/// The mirrors that are wanted are the files that were asked for, in the order they were, that have at
/// least so many rows and were not declined in the form they were asked for in. A file that is left
/// out is too small or was declined.
pub proof fn law_mirrors_are_the_large_files_asked_for(
    asked: Seq<(String, bool, u64)>,
    least: u64,
    declined: Seq<(String, bool)>,
    count: nat,
) -> (from: Seq<int>)
    requires
        count <= asked.len(),
    ensures
        from.len() == mirrors_upto(asked, least, declined, count).len(),
        forall|k: int| 0 <= k < from.len() ==> 0 <= #[trigger] from[k] < count,
        forall|j: int, k: int| 0 <= j < k < from.len() ==> #[trigger] from[j] < #[trigger] from[k],
        forall|k: int|
            0 <= k < from.len() ==> mirrors_upto(asked, least, declined, count)[k] == (
                asked[#[trigger] from[k]].0@,
                asked[from[k]].1,
            ) && asked[from[k]].2 >= least,
        forall|k: int, d: int|
            0 <= k < from.len() && 0 <= d < declined.len() ==> {
                ||| (#[trigger] declined[d]).0@ != asked[#[trigger] from[k]].0@
                ||| declined[d].1 != asked[from[k]].1
            },
        forall|i: int|
            0 <= i < count && (#[trigger] asked[i]).2 >= least && !from.contains(i) ==> exists|d: int|
                0 <= d < declined.len() && (#[trigger] declined[d]).0@ == asked[i].0@
                    && declined[d].1 == asked[i].1,
    decreases count,
{
    if count == 0 {
        Seq::empty()
    } else {
        let before = law_mirrors_are_the_large_files_asked_for(
            asked,
            least,
            declined,
            (count - 1) as nat,
        );
        let less = mirrors_upto(asked, least, declined, (count - 1) as nat);
        let more = mirrors_upto(asked, least, declined, count);
        let (path, binary, rows) = asked[count - 1];
        let from = if rows >= least && !was_declined(declined, path@, binary) {
            before.push(count - 1)
        } else {
            before
        };
        assert forall|k: int| 0 <= k < before.len() implies more[k] == less[k] && #[trigger] from[k]
            == before[k] by {}
        assert forall|i: int|
            0 <= i < count && (#[trigger] asked[i]).2 >= least && !from.contains(
                i,
            ) implies exists|d: int|
            0 <= d < declined.len() && (#[trigger] declined[d]).0@ == asked[i].0@ && declined[d].1
                == asked[i].1 by {
            if i < count - 1 {
                if before.contains(i) {
                    let k = choose|k: int| 0 <= k < before.len() && before[k] == i;
                    assert(from[k] == i);
                }
                assert(!before.contains(i));
            } else if !was_declined(declined, path@, binary) {
                assert(from[from.len() - 1] == i);
            }
        }
        from
    }
}

/// A kept plan is handed out for the statement it was kept for and no other, and nothing is handed out
/// where nothing is kept.
pub proof fn law_a_plan_is_handed_out_for_its_own_statement<P>(
    kept: CachedNativeAggregate<P>,
    sql: &str,
    generation: u64,
    revision: u64,
    plan: Option<Arc<P>>,
    none: Option<Arc<P>>,
)
    requires
        call_ensures(
            cached_native_aggregate::<P>,
            (&Some(kept), sql, generation, revision),
            plan,
        ),
        call_ensures(
            cached_native_aggregate::<P>,
            (&None::<CachedNativeAggregate<P>>, sql, generation, revision),
            none,
        ),
    ensures
        none is None,
        plan is Some ==> plan == Some(kept.plan),
        plan is Some <==> kept.sql@ == sql@ && kept.catalog_generation == generation
            && kept.settings_revision == revision,
{
}

/// A statement is bound again only the first time, and then where it wants a mirror or a query asked
/// about a file that may have one.
pub proof fn law_a_statement_is_bound_again_for_its_mirrors(
    mirror: bool,
    enabled: bool,
    wanted: usize,
    query: bool,
    asked: usize,
    yes: bool,
)
    requires
        call_ensures(binds_again, (mirror, enabled, wanted, query, asked), yes),
    ensures
        !mirror ==> !yes,
        mirror && wanted > 0 ==> yes,
        mirror && enabled && query && asked > 0 ==> yes,
        wanted == 0 && (!enabled || !query || asked == 0) ==> !yes,
{
}

/// Counts are read again only where the catalog has moved on, and with statistics off no distinct count
/// is told.
pub proof fn law_counts_are_read_once_for_a_generation(
    held: Arc<Facts>,
    tables: Vec<TableMeasure>,
    generation: u64,
    current: Arc<Facts>,
    allowed: Arc<Facts>,
    statistics: bool,
    at: int,
    c: int,
)
    requires
        call_ensures(facts, (&held, &tables, generation), current),
        call_ensures(estimates, (&held, statistics), allowed),
    ensures
        current.generation == generation,
        held.generation == generation ==> current == held,
        held.generation != generation ==> current.tables@.len() == tables@.len(),
        statistics ==> allowed == held,
        allowed.tables@.len() == held.tables@.len(),
        !statistics && 0 <= at < held.tables@.len() ==> allowed.tables@[at].rows
            == held.tables@[at].rows,
        !statistics && 0 <= at < held.tables@.len() && 0 <= c < held.tables@[at].distincts@.len()
            ==> allowed.tables@[at].distincts@[c].1 is None,
{
    if !statistics && 0 <= at < held.tables@.len() {
        law_rows_are_known_without_statistics(&*allowed, &*held, at);
    }
}

} // verus!
