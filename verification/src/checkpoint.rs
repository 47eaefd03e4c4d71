//! What a checkpoint has to write, given what the file already holds.

use crate::types::same_text;
use vstd::prelude::*;
use vstd::string::*;

verus! {

/// A table's whole name.
#[derive(Debug, PartialEq)]
pub struct QualifiedName {
    pub catalog: String,
    pub schema: String,
    pub table: String,
}

/// A table of the catalog, as far as writing it goes.
#[derive(Debug)]
pub struct TableState {
    pub name: QualifiedName,
    /// Whether its rows are already in the file.
    pub native: bool,
    /// Whether the row order it declares is the one the file says.
    pub declared: bool,
}

/// A view of the catalog or of the file. The columns are a cache and say nothing of what it is.
#[derive(Debug)]
pub struct ViewEntry {
    pub name: String,
    pub sql: String,
    pub statement: String,
    pub aliases: Vec<String>,
    pub columns: Vec<String>,
}

/// What the committed file says it holds.
#[derive(Debug)]
pub struct Held {
    pub tables: Vec<String>,
    pub views: Vec<ViewEntry>,
}

/// What a checkpoint does.
#[derive(Debug)]
pub enum Checkpoint {
    /// The file already holds exactly what the catalog does.
    Nothing,
    /// There is no table, and the file has to say so.
    WriteEmpty,
    /// Only the views moved: a new catalog naming the same pages.
    Restate,
    /// The tables that are not in the file go on the end of it, and the rest are carried forward.
    Append(Vec<usize>),
    /// The file and the catalog disagree about which tables exist, so all of them are written.
    Rewrite,
}

/// The names of some texts, as a set.
pub open spec fn text_set(names: Seq<String>) -> Set<Seq<char>> {
    Set::new(|name: Seq<char>| exists|i: int| 0 <= i < names.len() && (#[trigger] names[i])@ == name)
}

/// The unqualified names of some tables, as a set.
pub open spec fn table_set(tables: Seq<TableState>) -> Set<Seq<char>> {
    Set::new(
        |name: Seq<char>|
            exists|i: int| 0 <= i < tables.len() && (#[trigger] tables[i]).name.table@ == name,
    )
}

/// The unqualified names of the tables whose rows are in the file, as a set.
pub open spec fn native_set(tables: Seq<TableState>) -> Set<Seq<char>> {
    Set::new(
        |name: Seq<char>|
            exists|i: int|
                0 <= i < tables.len() && (#[trigger] tables[i]).native && tables[i].name.table@
                    == name,
    )
}

/// Whether every table is in the file with the row order it declares.
pub open spec fn all_clean(tables: Seq<TableState>) -> bool {
    forall|i: int| 0 <= i < tables.len() ==> (#[trigger] tables[i]).native && tables[i].declared
}

/// Whether two lists of texts say the same.
pub open spec fn same_texts(left: Seq<String>, right: Seq<String>) -> bool {
    left.len() == right.len() && forall|i: int|
        0 <= i < left.len() ==> (#[trigger] left[i])@ == right[i]@
}

/// Whether two views are the same view, ignoring the column cache on each.
pub open spec fn same_view(left: ViewEntry, right: ViewEntry) -> bool {
    &&& left.name@ == right.name@
    &&& left.sql@ == right.sql@
    &&& left.statement@ == right.statement@
    &&& same_texts(left.aliases@, right.aliases@)
}

/// Whether two lists of views are the same views.
pub open spec fn views_agree(held: Seq<ViewEntry>, wanted: Seq<ViewEntry>) -> bool {
    held.len() == wanted.len() && forall|i: int|
        0 <= i < held.len() ==> same_view(#[trigger] held[i], wanted[i])
}

/// Whether a list is of the tables whose names are not those of tables in the file, in order.
pub open spec fn lists_dirty(tables: Seq<TableState>, dirty: Seq<usize>) -> bool {
    &&& forall|k: int|
        0 <= k < dirty.len() ==> (#[trigger] dirty[k]) < tables.len() && !native_set(
            tables,
        ).contains(tables[dirty[k] as int].name.table@)
    &&& forall|j: int, k: int| 0 <= j < k < dirty.len() ==> #[trigger] dirty[j] < #[trigger] dirty[k]
    &&& forall|i: int|
        0 <= i < tables.len() && !native_set(tables).contains(
            (#[trigger] tables[i]).name.table@,
        ) ==> dirty.contains(i as usize)
}

fn holds_text(names: &Vec<String>, name: &str) -> (found: bool)
    ensures
        found == text_set(names@).contains(name@),
{
    let mut at: usize = 0;
    while at < names.len()
        invariant
            at <= names@.len(),
            forall|i: int| 0 <= i < at ==> (#[trigger] names@[i])@ != name@,
        decreases names.len() - at,
    {
        if same_text(names[at].as_str(), name) {
            assert(names@[at as int]@ == name@);
            return true;
        }
        at += 1;
    }
    false
}

fn holds_native(tables: &Vec<TableState>, name: &str) -> (found: bool)
    ensures
        found == native_set(tables@).contains(name@),
{
    let mut at: usize = 0;
    while at < tables.len()
        invariant
            at <= tables@.len(),
            forall|i: int|
                0 <= i < at ==> !((#[trigger] tables@[i]).native && tables@[i].name.table@ == name@),
        decreases tables.len() - at,
    {
        if tables[at].native && same_text(tables[at].name.table.as_str(), name) {
            assert(tables@[at as int].native);
            return true;
        }
        at += 1;
    }
    false
}

fn holds_table(tables: &Vec<TableState>, name: &str) -> (found: bool)
    ensures
        found == table_set(tables@).contains(name@),
{
    let mut at: usize = 0;
    while at < tables.len()
        invariant
            at <= tables@.len(),
            forall|i: int| 0 <= i < at ==> (#[trigger] tables@[i]).name.table@ != name@,
        decreases tables.len() - at,
    {
        if same_text(tables[at].name.table.as_str(), name) {
            assert(tables@[at as int].name.table@ == name@);
            return true;
        }
        at += 1;
    }
    false
}

/// Whether a file names exactly the tables of the catalog.
fn names_same(held: &Vec<String>, tables: &Vec<TableState>) -> (same: bool)
    ensures
        same == (text_set(held@) == table_set(tables@)),
{
    let mut at: usize = 0;
    while at < held.len()
        invariant
            at <= held@.len(),
            forall|i: int|
                0 <= i < at ==> table_set(tables@).contains((#[trigger] held@[i])@),
        decreases held.len() - at,
    {
        if !holds_table(tables, held[at].as_str()) {
            assert(text_set(held@).contains(held@[at as int]@));
            return false;
        }
        at += 1;
    }
    let mut at: usize = 0;
    while at < tables.len()
        invariant
            at <= tables@.len(),
            forall|i: int|
                0 <= i < at ==> text_set(held@).contains((#[trigger] tables@[i]).name.table@),
        decreases tables.len() - at,
    {
        if !holds_text(held, tables[at].name.table.as_str()) {
            assert(table_set(tables@).contains(tables@[at as int].name.table@));
            return false;
        }
        at += 1;
    }
    assert(text_set(held@) =~= table_set(tables@));
    true
}

/// Whether a file names exactly the tables the catalog says are in it.
fn names_native(held: &Vec<String>, tables: &Vec<TableState>) -> (same: bool)
    ensures
        same == (text_set(held@) == native_set(tables@)),
{
    let mut at: usize = 0;
    while at < held.len()
        invariant
            at <= held@.len(),
            forall|i: int|
                0 <= i < at ==> native_set(tables@).contains((#[trigger] held@[i])@),
        decreases held.len() - at,
    {
        if !holds_native(tables, held[at].as_str()) {
            assert(text_set(held@).contains(held@[at as int]@));
            return false;
        }
        at += 1;
    }
    let mut at: usize = 0;
    while at < tables.len()
        invariant
            at <= tables@.len(),
            forall|i: int|
                0 <= i < at && (#[trigger] tables@[i]).native ==> text_set(held@).contains(
                    tables@[i].name.table@,
                ),
        decreases tables.len() - at,
    {
        if tables[at].native && !holds_text(held, tables[at].name.table.as_str()) {
            assert(tables@[at as int].native);
            assert(native_set(tables@).contains(tables@[at as int].name.table@));
            return false;
        }
        at += 1;
    }
    assert(text_set(held@) =~= native_set(tables@));
    true
}

fn texts_agree(left: &Vec<String>, right: &Vec<String>) -> (same: bool)
    ensures
        same == same_texts(left@, right@),
{
    if left.len() != right.len() {
        return false;
    }
    let mut at: usize = 0;
    while at < left.len()
        invariant
            at <= left@.len(),
            left@.len() == right@.len(),
            forall|i: int| 0 <= i < at ==> (#[trigger] left@[i])@ == right@[i]@,
        decreases left.len() - at,
    {
        if !same_text(left[at].as_str(), right[at].as_str()) {
            assert(left@[at as int]@ != right@[at as int]@);
            return false;
        }
        at += 1;
    }
    true
}

/// Whether two lists of views are the same views, ignoring the column cache on each.
pub fn same_views(held: &Vec<ViewEntry>, wanted: &Vec<ViewEntry>) -> (same: bool)
    ensures
        same == views_agree(held@, wanted@),
{
    if held.len() != wanted.len() {
        return false;
    }
    let mut at: usize = 0;
    while at < held.len()
        invariant
            at <= held@.len(),
            held@.len() == wanted@.len(),
            forall|i: int| 0 <= i < at ==> same_view(#[trigger] held@[i], wanted@[i]),
        decreases held.len() - at,
    {
        if !same_text(held[at].name.as_str(), wanted[at].name.as_str()) || !same_text(
            held[at].sql.as_str(),
            wanted[at].sql.as_str(),
        ) || !same_text(held[at].statement.as_str(), wanted[at].statement.as_str())
            || !texts_agree(&held[at].aliases, &wanted[at].aliases) {
            assert(!same_view(held@[at as int], wanted@[at as int]));
            return false;
        }
        at += 1;
    }
    true
}

/// Which tables are not in the file, by place.
fn dirty_tables(tables: &Vec<TableState>) -> (dirty: Vec<usize>)
    ensures
        lists_dirty(tables@, dirty@),
{
    let mut dirty: Vec<usize> = Vec::new();
    let mut at: usize = 0;
    while at < tables.len()
        invariant
            at <= tables@.len(),
            forall|k: int|
                0 <= k < dirty@.len() ==> (#[trigger] dirty@[k]) < at && !native_set(
                    tables@,
                ).contains(tables@[dirty@[k] as int].name.table@),
            forall|j: int, k: int|
                0 <= j < k < dirty@.len() ==> #[trigger] dirty@[j] < #[trigger] dirty@[k],
            forall|i: int|
                0 <= i < at && !native_set(tables@).contains((#[trigger] tables@[i]).name.table@)
                    ==> dirty@.contains(i as usize),
        decreases tables.len() - at,
    {
        let ghost before = dirty@;
        if !holds_native(tables, tables[at].name.table.as_str()) {
            dirty.push(at);
            assert(dirty@[before.len() as int] == at);
        }
        assert forall|i: int|
            0 <= i < at + 1 && !native_set(tables@).contains(
                (#[trigger] tables@[i]).name.table@,
            ) implies dirty@.contains(i as usize) by {
            if i < at {
                let k = choose|k: int| 0 <= k < before.len() && before[k] == i as usize;
                assert(dirty@[k] == i as usize);
            }
        }
        at += 1;
    }
    dirty
}

/// Whether the file already holds exactly the tables and the views of the catalog.
pub open spec fn nothing_to_write(
    tables: Seq<TableState>,
    views: Seq<ViewEntry>,
    held: Option<&Held>,
) -> bool {
    all_clean(tables) && (held matches Some(held) && text_set(held.tables@) == table_set(tables)
        && views_agree(held.views@, views))
}

/// Whether only the views differ.
pub open spec fn only_views_moved(tables: Seq<TableState>, held: Option<&Held>) -> bool {
    all_clean(tables) && (held matches Some(held) && text_set(held.tables@) == table_set(tables))
}

/// Whether the file can be carried forward: it names tables, and exactly the ones the catalog says
/// are in it.
pub open spec fn carries(tables: Seq<TableState>, held: Option<&Held>) -> bool {
    held matches Some(held) && held.tables@.len() > 0 && text_set(held.tables@) == native_set(
        tables,
    )
}

/// What a checkpoint does with a catalog of those tables and views over a file that holds that, or
/// over no file.
pub fn plan_checkpoint(
    tables: &Vec<TableState>,
    views: &Vec<ViewEntry>,
    held: Option<&Held>,
) -> (plan: Checkpoint)
    ensures
        match plan {
            Checkpoint::Nothing => nothing_to_write(tables@, views@, held),
            Checkpoint::WriteEmpty => !nothing_to_write(tables@, views@, held) && tables@.len()
                == 0,
            Checkpoint::Restate => !nothing_to_write(tables@, views@, held) && tables@.len() > 0
                && only_views_moved(tables@, held),
            Checkpoint::Append(dirty) => !only_views_moved(tables@, held) && tables@.len() > 0
                && carries(tables@, held) && dirty@.len() > 0 && lists_dirty(tables@, dirty@),
            Checkpoint::Rewrite => !only_views_moved(tables@, held) && tables@.len() > 0 && (
            !carries(tables@, held) || forall|i: int|
                0 <= i < tables@.len() ==> native_set(tables@).contains(
                    (#[trigger] tables@[i]).name.table@,
                )),
        },
{
    let mut clean: bool = true;
    let mut at: usize = 0;
    while at < tables.len()
        invariant
            at <= tables@.len(),
            clean == forall|i: int|
                0 <= i < at ==> (#[trigger] tables@[i]).native && tables@[i].declared,
        decreases tables.len() - at,
    {
        if !(tables[at].native && tables[at].declared) {
            clean = false;
            assert(!(tables@[at as int].native && tables@[at as int].declared));
        }
        at += 1;
    }
    assert(clean == all_clean(tables@));
    if clean {
        if let Some(held) = held {
            if names_same(&held.tables, tables) && same_views(&held.views, views) {
                return Checkpoint::Nothing;
            }
        }
    }
    if tables.len() == 0 {
        return Checkpoint::WriteEmpty;
    }
    if clean {
        if let Some(held) = held {
            if names_same(&held.tables, tables) {
                return Checkpoint::Restate;
            }
        }
    }
    if let Some(held) = held {
        if held.tables.len() > 0 && names_native(&held.tables, tables) {
            let dirty = dirty_tables(tables);
            if dirty.len() > 0 {
                return Checkpoint::Append(dirty);
            }
            assert forall|i: int| 0 <= i < tables@.len() implies native_set(tables@).contains(
                (#[trigger] tables@[i]).name.table@,
            ) by {
                if !native_set(tables@).contains(tables@[i].name.table@) {
                    assert(dirty@.contains(i as usize));
                }
            }
        }
    }
    Checkpoint::Rewrite
}

/// A checkpoint over a file that already holds exactly what the catalog does writes nothing.
pub proof fn law_a_second_checkpoint_writes_nothing(
    tables: Seq<TableState>,
    views: Seq<ViewEntry>,
    held: Held,
)
    requires
        all_clean(tables),
        held.tables@.len() == tables.len(),
        forall|i: int| 0 <= i < tables.len() ==> (#[trigger] held.tables@[i])@ == tables[i].name.table@,
        held.views@ == views,
    ensures
        nothing_to_write(tables, views, Some(&held)),
{
    let left = text_set(held.tables@);
    let right = table_set(tables);
    assert forall|name: Seq<char>| #[trigger] left.contains(name) == right.contains(name) by {
        if left.contains(name) {
            let i = choose|i: int|
                0 <= i < held.tables@.len() && (#[trigger] held.tables@[i])@ == name;
            assert(tables[i].name.table@ == name);
        }
        if right.contains(name) {
            let i = choose|i: int| 0 <= i < tables.len() && (#[trigger] tables[i]).name.table@ == name;
            assert(held.tables@[i]@ == name);
        }
    }
    assert(left =~= right);
}

/// Appending leaves no table out: each is one the file carries forward or one that is appended.
pub proof fn law_appending_leaves_no_table_out(
    tables: Seq<TableState>,
    held: Held,
    dirty: Seq<usize>,
    at: int,
)
    requires
        carries(tables, Some(&held)),
        lists_dirty(tables, dirty),
        0 <= at < tables.len(),
    ensures
        text_set(held.tables@).contains(tables[at].name.table@) || dirty.contains(at as usize),
{
}

/// Whether two names are the same whole name.
pub open spec fn same_name(left: QualifiedName, right: QualifiedName) -> bool {
    left.catalog@ == right.catalog@ && left.schema@ == right.schema@ && left.table@ == right.table@
}

pub fn equal_names(left: &QualifiedName, right: &QualifiedName) -> (same: bool)
    ensures
        same == same_name(*left, *right),
{
    same_text(left.catalog.as_str(), right.catalog.as_str()) && same_text(
        left.schema.as_str(),
        right.schema.as_str(),
    ) && same_text(left.table.as_str(), right.table.as_str())
}

/// Whether a committed table of that name has rows, which a load would collide with.
pub open spec fn collides(held: Seq<(String, u64)>, target: QualifiedName) -> bool {
    exists|i: int|
        0 <= i < held.len() && (#[trigger] held[i]).0@ == target.table@ && held[i].1 > 0
}

/// Whether every table but the target is in the file, each under a name of its own.
pub open spec fn others_stored(tables: Seq<TableState>, target: QualifiedName) -> bool {
    &&& forall|i: int|
        0 <= i < tables.len() && !same_name((#[trigger] tables[i]).name, target) ==> tables[i].native
    &&& forall|i: int, j: int|
        0 <= i < j < tables.len() && !same_name((#[trigger] tables[i]).name, target) && !same_name(
            (#[trigger] tables[j]).name,
            target,
        ) ==> tables[i].name.table@ != tables[j].name.table@
}

/// The unqualified names of the tables but the target, as a set.
pub open spec fn other_set(tables: Seq<TableState>, target: QualifiedName) -> Set<Seq<char>> {
    Set::new(
        |name: Seq<char>|
            exists|i: int|
                0 <= i < tables.len() && !same_name((#[trigger] tables[i]).name, target)
                    && tables[i].name.table@ == name,
    )
}

/// The names the file would carry forward past the target, as a set.
pub open spec fn carried_set(held: Seq<(String, u64)>, target: QualifiedName) -> Set<Seq<char>> {
    Set::new(
        |name: Seq<char>|
            name != target.table@ && exists|i: int|
                0 <= i < held.len() && (#[trigger] held[i]).0@ == name,
    )
}

/// Whether a table can be written straight into the file as its own generation.
///
/// The writer carries forward the tables the file names and nothing else, so the file and the
/// catalog have to already agree about which those are. The target is counted out of both sides,
/// and a committed table of its name is in the way only if it has rows.
pub fn appendable(
    committed: Option<&Vec<(String, u64)>>,
    tables: &Vec<TableState>,
    target: &QualifiedName,
) -> (yes: bool)
    ensures
        yes == (committed matches Some(held) && !collides(held@, *target) && others_stored(
            tables@,
            *target,
        ) && carried_set(held@, *target) == other_set(tables@, *target)),
{
    let held: &Vec<(String, u64)> = match committed {
        Some(held) => held,
        None => return false,
    };
    let mut at: usize = 0;
    while at < held.len()
        invariant
            at <= held@.len(),
            committed == Some(held),
            forall|i: int|
                0 <= i < at ==> !((#[trigger] held@[i]).0@ == target.table@ && held@[i].1 > 0),
            forall|i: int|
                0 <= i < at && (#[trigger] held@[i]).0@ != target.table@ ==> other_set(
                    tables@,
                    *target,
                ).contains(held@[i].0@),
        decreases held.len() - at,
    {
        if same_text(held[at].0.as_str(), target.table.as_str()) {
            if held[at].1 > 0 {
                assert(held@[at as int].0@ == target.table@);
                return false;
            }
        } else {
            if !holds_other(tables, target, held[at].0.as_str()) {
                assert(carried_set(held@, *target).contains(held@[at as int].0@));
                return false;
            }
        }
        at += 1;
    }
    let mut at: usize = 0;
    while at < tables.len()
        invariant
            at <= tables@.len(),
            committed == Some(held),
            forall|i: int|
                0 <= i < at && !same_name((#[trigger] tables@[i]).name, *target)
                    ==> tables@[i].native && carried_set(held@, *target).contains(
                    tables@[i].name.table@,
                ),
            forall|i: int, j: int|
                0 <= i < j < at && !same_name((#[trigger] tables@[i]).name, *target) && !same_name(
                    (#[trigger] tables@[j]).name,
                    *target,
                ) ==> tables@[i].name.table@ != tables@[j].name.table@,
        decreases tables.len() - at,
    {
        if !equal_names(&tables[at].name, target) {
            if !tables[at].native {
                assert(!same_name(tables@[at as int].name, *target));
                return false;
            }
            if same_text(tables[at].name.table.as_str(), target.table.as_str()) || !holds_held(
                held,
                tables[at].name.table.as_str(),
            ) {
                assert(!same_name(tables@[at as int].name, *target));
                assert(other_set(tables@, *target).contains(tables@[at as int].name.table@));
                assert(!carried_set(held@, *target).contains(tables@[at as int].name.table@));
                return false;
            }
            let mut other: usize = 0;
            while other < at
                invariant
                    other <= at < tables@.len(),
                    committed == Some(held),
                    !same_name(tables@[at as int].name, *target),
                    forall|i: int|
                        0 <= i < other && !same_name((#[trigger] tables@[i]).name, *target)
                            ==> tables@[i].name.table@ != tables@[at as int].name.table@,
                decreases at - other,
            {
                if !equal_names(&tables[other].name, target) && same_text(
                    tables[other].name.table.as_str(),
                    tables[at].name.table.as_str(),
                ) {
                    assert(!same_name(tables@[other as int].name, *target));
                    return false;
                }
                other += 1;
            }
        }
        at += 1;
    }
    proof {
        let carried = carried_set(held@, *target);
        let others = other_set(tables@, *target);
        assert forall|name: Seq<char>| #[trigger] carried.contains(name) == others.contains(
            name,
        ) by {
            if carried.contains(name) {
                let i = choose|i: int| 0 <= i < held@.len() && (#[trigger] held@[i]).0@ == name;
                assert(held@[i].0@ != target.table@);
            }
            if others.contains(name) {
                let i = choose|i: int|
                    0 <= i < tables@.len() && !same_name((#[trigger] tables@[i]).name, *target)
                        && tables@[i].name.table@ == name;
                assert(carried.contains(tables@[i].name.table@));
            }
        }
        assert(carried =~= others);
    }
    true
}

fn holds_other(tables: &Vec<TableState>, target: &QualifiedName, name: &str) -> (found: bool)
    ensures
        found == other_set(tables@, *target).contains(name@),
{
    let mut at: usize = 0;
    while at < tables.len()
        invariant
            at <= tables@.len(),
            forall|i: int|
                0 <= i < at ==> !(!same_name((#[trigger] tables@[i]).name, *target)
                    && tables@[i].name.table@ == name@),
        decreases tables.len() - at,
    {
        if !equal_names(&tables[at].name, target) && same_text(
            tables[at].name.table.as_str(),
            name,
        ) {
            assert(!same_name(tables@[at as int].name, *target));
            return true;
        }
        at += 1;
    }
    false
}

fn holds_held(held: &Vec<(String, u64)>, name: &str) -> (found: bool)
    ensures
        found == exists|i: int| 0 <= i < held@.len() && (#[trigger] held@[i]).0@ == name@,
{
    let mut at: usize = 0;
    while at < held.len()
        invariant
            at <= held@.len(),
            forall|i: int| 0 <= i < at ==> (#[trigger] held@[i]).0@ != name@,
        decreases held.len() - at,
    {
        if same_text(held[at].0.as_str(), name) {
            assert(held@[at as int].0@ == name@);
            return true;
        }
        at += 1;
    }
    false
}

/// A checkpoint writes nothing only where every table's rows are in the file in the order it declares,
/// the file names each of the tables and no other, and its views are the catalog's: each with the same
/// name, the same text, the same statement and the same aliases. Where a table is named in the file,
/// and which table a name in the file is of, is what is handed back.
pub proof fn law_nothing_is_written_only_where_nothing_changed(
    tables: Seq<TableState>,
    views: Seq<ViewEntry>,
    held: Held,
    at: int,
) -> (places: (int, int))
    requires
        nothing_to_write(tables, views, Some(&held)),
    ensures
        forall|i: int|
            0 <= i < tables.len() ==> (#[trigger] tables[i]).native && tables[i].declared,
        0 <= at < tables.len() ==> 0 <= places.0 < held.tables@.len() && held.tables@[places.0]@
            == tables[at].name.table@,
        0 <= at < held.tables@.len() ==> 0 <= places.1 < tables.len()
            && tables[places.1].name.table@ == held.tables@[at]@,
        held.views@.len() == views.len(),
        0 <= at < views.len() ==> held.views@[at].name@ == views[at].name@ && held.views@[at].sql@
            == views[at].sql@ && held.views@[at].statement@ == views[at].statement@
            && held.views@[at].aliases@.len() == views[at].aliases@.len(),
        0 <= at < views.len() ==> forall|a: int|
            0 <= a < views[at].aliases@.len() ==> held.views@[at].aliases@[a]@
                == #[trigger] views[at].aliases@[a]@,
{
    if 0 <= at < views.len() {
        assert(same_view(held.views@[at], views[at]));
        assert forall|a: int| 0 <= a < views[at].aliases@.len() implies held.views@[at].aliases@[a]@
            == #[trigger] views[at].aliases@[a]@ by {
            assert(held.views@[at].aliases@[a]@ == views[at].aliases@[a]@);
        }
    }
    let first = if 0 <= at < tables.len() {
        let name = tables[at].name.table@;
        assert(table_set(tables).contains(name));
        assert(text_set(held.tables@).contains(name));
        choose|k: int| 0 <= k < held.tables@.len() && (#[trigger] held.tables@[k])@ == name
    } else {
        0
    };
    let second = if 0 <= at < held.tables@.len() {
        let name = held.tables@[at]@;
        assert(text_set(held.tables@).contains(name));
        assert(table_set(tables).contains(name));
        choose|i: int| 0 <= i < tables.len() && (#[trigger] tables[i]).name.table@ == name
    } else {
        0
    };
    (first, second)
}

/// A checkpoint that finds a table out of the file, or in another order there, a table the file does
/// not name, or a name no table has, has something to write, and more than the views.
pub proof fn law_a_changed_table_is_written(
    tables: Seq<TableState>,
    views: Seq<ViewEntry>,
    held: Option<&Held>,
    at: int,
)
    requires
        held is None || (0 <= at < tables.len() && (!tables[at].native || !tables[at].declared
            || forall|k: int|
            0 <= k < held->Some_0.tables@.len() ==> (#[trigger] held->Some_0.tables@[k])@
                != tables[at].name.table@)) || (0 <= at < held->Some_0.tables@.len() && forall|i: int|
            0 <= i < tables.len() ==> (#[trigger] tables[i]).name.table@
                != held->Some_0.tables@[at]@),
    ensures
        !nothing_to_write(tables, views, held),
        !only_views_moved(tables, held),
{
    if held is Some {
        let named = held->Some_0.tables@;
        if 0 <= at < tables.len() {
            assert(table_set(tables).contains(tables[at].name.table@));
        }
        if 0 <= at < named.len() {
            assert(text_set(named).contains(named[at]@));
        }
    }
}

/// The file is carried forward only where it names a table, and exactly the tables whose rows it
/// holds. What is appended then is every table no table in the file has the name of, each once and in
/// order.
pub proof fn law_what_is_appended_is_what_the_file_lacks(
    tables: Seq<TableState>,
    held: Held,
    dirty: Seq<usize>,
    name: Seq<char>,
    at: int,
)
    requires
        carries(tables, Some(&held)),
        lists_dirty(tables, dirty),
    ensures
        held.tables@.len() > 0,
        (exists|k: int| 0 <= k < held.tables@.len() && (#[trigger] held.tables@[k])@ == name)
            <==> (exists|i: int|
            0 <= i < tables.len() && (#[trigger] tables[i]).native && tables[i].name.table@ == name),
        0 <= at < tables.len() && tables.len() <= usize::MAX ==> ((exists|k: int|
            0 <= k < dirty.len() && #[trigger] dirty[k] == at) <==> forall|i: int|
            0 <= i < tables.len() && (#[trigger] tables[i]).native ==> tables[i].name.table@
                != tables[at].name.table@),
        forall|j: int, k: int|
            0 <= j < k < dirty.len() ==> #[trigger] dirty[j] < #[trigger] dirty[k] < tables.len(),
{
    assert(text_set(held.tables@).contains(name) == native_set(tables).contains(name));
    if 0 <= at < tables.len() && tables.len() <= usize::MAX {
        if forall|i: int|
            0 <= i < tables.len() && (#[trigger] tables[i]).native ==> tables[i].name.table@
                != tables[at].name.table@ {
            assert(!native_set(tables).contains(tables[at].name.table@));
            assert(dirty.contains(at as usize));
            let k = choose|k: int| 0 <= k < dirty.len() && dirty[k] == at as usize;
            assert(dirty[k] == at);
        }
        if exists|k: int| 0 <= k < dirty.len() && #[trigger] dirty[k] == at {
            let k = choose|k: int| 0 <= k < dirty.len() && #[trigger] dirty[k] == at;
            assert(!native_set(tables).contains(tables[dirty[k] as int].name.table@));
            assert forall|i: int|
                0 <= i < tables.len() && (#[trigger] tables[i]).native implies tables[i].name.table@
                != tables[at].name.table@ by {
                if tables[i].name.table@ == tables[at].name.table@ {
                    assert(native_set(tables).contains(tables[at].name.table@));
                }
            }
        }
    }
}

/// A table is written straight into the file only where no committed table of its name has rows, every
/// other table is in the file, under a name no other of them has, and the file names each of those and
/// nothing else.
pub proof fn law_a_generation_leaves_no_other_table_behind(
    held: Seq<(String, u64)>,
    tables: Seq<TableState>,
    target: QualifiedName,
    at: int,
)
    requires
        !collides(held, target),
        others_stored(tables, target),
        carried_set(held, target) == other_set(tables, target),
    ensures
        0 <= at < held.len() && held[at].0@ == target.table@ ==> held[at].1 == 0,
        0 <= at < held.len() && held[at].0@ != target.table@ ==> exists|i: int|
            0 <= i < tables.len() && (#[trigger] tables[i]).name.table@ == held[at].0@
                && tables[i].native,
        0 <= at < tables.len() && !(tables[at].name.catalog@ == target.catalog@
            && tables[at].name.schema@ == target.schema@ && tables[at].name.table@
            == target.table@) ==> tables[at].native && exists|k: int|
            0 <= k < held.len() && (#[trigger] held[k]).0@ == tables[at].name.table@,
{
    if 0 <= at < held.len() && held[at].0@ != target.table@ {
        assert(carried_set(held, target).contains(held[at].0@));
        assert(other_set(tables, target).contains(held[at].0@));
        let i = choose|i: int|
            0 <= i < tables.len() && !same_name((#[trigger] tables[i]).name, target)
                && tables[i].name.table@ == held[at].0@;
        assert(tables[i].native);
    }
    if 0 <= at < tables.len() && !(tables[at].name.catalog@ == target.catalog@
        && tables[at].name.schema@ == target.schema@ && tables[at].name.table@ == target.table@) {
        assert(!same_name(tables[at].name, target));
        assert(other_set(tables, target).contains(tables[at].name.table@));
        assert(carried_set(held, target).contains(tables[at].name.table@));
    }
}

/// Where every table is in the file in the order it declares, the file names just those tables, and
/// the views are the same, nothing is written.
pub proof fn law_what_has_not_changed_is_not_written(
    tables: Seq<TableState>,
    views: Seq<ViewEntry>,
    held: &Held,
)
    requires
        forall|i: int| 0 <= i < tables.len() ==> (#[trigger] tables[i]).native && tables[i].declared,
        held.tables@.len() == tables.len(),
        forall|i: int|
            0 <= i < tables.len() ==> (#[trigger] held.tables@[i])@ == tables[i].name.table@,
        held.views@ == views,
    ensures
        nothing_to_write(tables, views, Some(held)),
{
    let named = text_set(held.tables@);
    let wanted = table_set(tables);
    assert forall|name: Seq<char>| named.contains(name) <==> wanted.contains(name) by {
        if named.contains(name) {
            let i = choose|i: int|
                0 <= i < held.tables@.len() && (#[trigger] held.tables@[i])@ == name;
            assert(tables[i].name.table@ == name);
        }
        if wanted.contains(name) {
            let i = choose|i: int| 0 <= i < tables.len() && (#[trigger] tables[i]).name.table@ == name;
            assert(held.tables@[i]@ == name);
        }
    }
    assert(named =~= wanted);
    assert forall|i: int| 0 <= i < views.len() implies same_view(
        #[trigger] held.views@[i],
        views[i],
    ) by {}
}

/// Two names are the same where their three parts are, letter by letter.
pub proof fn law_a_name_is_its_three_parts(left: QualifiedName, right: QualifiedName)
    ensures
        left.catalog@ != right.catalog@ ==> !same_name(left, right),
        left.schema@ != right.schema@ ==> !same_name(left, right),
        left.table@ != right.table@ ==> !same_name(left, right),
        left.catalog@ == right.catalog@ && left.schema@ == right.schema@ && left.table@
            == right.table@ ==> same_name(left, right),
{
}

} // verus!
