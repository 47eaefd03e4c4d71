//! The relationships somebody declared between tables, and what of them a file can hold.

use crate::checkpoint::QualifiedName;
use crate::native::{
    field_names, find_column, first_named, law_the_first_of_a_name_is_found,
};
use crate::scan::{equal_but_case, lowered};
use crate::types::Field;
use vstd::prelude::*;

verus! {

/// A table of the catalog, as far as a relationship names it.
pub struct TableShape {
    pub name: QualifiedName,
    pub columns: Vec<Field>,
    /// Whether its rows are all in the file.
    pub native: bool,
}

/// One side of a relationship.
#[derive(Debug)]
pub struct Side {
    pub table: String,
    pub columns: Vec<String>,
}

/// A declared relationship.
#[derive(Debug)]
pub struct Relationship {
    pub child: Side,
    pub parent: Side,
}

/// A relationship between two columns that are there, the tables by their place in the catalog.
#[derive(Debug, Clone, Copy, PartialEq, Eq, Structural)]
pub struct Edge {
    pub child: usize,
    pub child_column: usize,
    pub parent: usize,
    pub parent_column: usize,
}

/// What the files say of a declared relationship.
#[derive(Debug, Clone, Copy, PartialEq, Eq, Structural)]
pub enum LinkState {
    /// No link is stored.
    Declared,
    /// A link is stored, and some child matched nothing.
    Built,
    /// A link is stored, and every child row found a parent through it.
    Verified,
}

/// A relationship the optimizer is told about.
#[derive(Debug)]
pub struct Linked {
    pub child: String,
    pub child_key: String,
    pub parent: String,
    pub parent_key: String,
    pub state: LinkState,
}

/// What building the graph sections of a file takes: the parent columns to map, table by table, the
/// links to build after them, and the tables to point at the file again.
pub struct IndexPlan {
    pub key_maps: Vec<(usize, Vec<usize>)>,
    pub edges: Vec<Edge>,
    pub rebind: Vec<usize>,
}

/// What the tables are called.
pub open spec fn table_names(tables: Seq<TableShape>) -> Seq<Seq<char>> {
    Seq::new(tables.len(), |i: int| tables[i].name.table@)
}

/// The first table of a name, but for case.
pub open spec fn table_at(tables: Seq<TableShape>, name: Seq<char>) -> Option<int> {
    first_named(table_names(tables), name, 0)
}

/// The table and the column that one side of one column names, if both are there.
pub open spec fn side_at(tables: Seq<TableShape>, side: Side) -> Option<(int, int)> {
    if side.columns@.len() != 1 {
        None
    } else {
        match table_at(tables, side.table@) {
            Some(table) => match first_named(
                field_names(tables[table].columns@),
                side.columns@[0]@,
                0,
            ) {
                Some(column) => Some((table, column)),
                None => None,
            },
            None => None,
        }
    }
}

proof fn lemma_first_named(names: Seq<Seq<char>>, wanted: Seq<char>, from: nat)
    ensures
        first_named(names, wanted, from) matches Some(at) ==> from <= at < names.len(),
    decreases names.len() - from,
{
    if from < names.len() {
        lemma_first_named(names, wanted, from + 1);
    }
}

/// The first table of that name in any schema of any database.
pub fn table_named(tables: &Vec<TableShape>, name: &str) -> (found: Option<usize>)
    ensures
        match found {
            Some(at) => at < tables@.len() && table_at(tables@, name@) == Some(at as int),
            None => table_at(tables@, name@) is None,
        },
{
    let mut at: usize = 0;
    while at < tables.len()
        invariant
            at <= tables@.len(),
            table_at(tables@, name@) == first_named(table_names(tables@), name@, at as nat),
        decreases tables.len() - at,
    {
        assert(table_names(tables@)[at as int] == tables@[at as int].name.table@);
        if equal_but_case(tables[at].name.table.as_str(), name) {
            return Some(at);
        }
        at += 1;
    }
    None
}

/// The table and the column a side names.
fn side_named(tables: &Vec<TableShape>, side: &Side) -> (found: Option<(usize, usize)>)
    ensures
        match found {
            Some((table, column)) => table < tables@.len() && column
                < tables@[table as int].columns@.len() && side_at(tables@, *side) == Some(
                (table as int, column as int),
            ),
            None => side_at(tables@, *side) is None,
        },
{
    if side.columns.len() != 1 {
        return None;
    }
    match table_named(tables, side.table.as_str()) {
        Some(table) => match find_column(&tables[table].columns, side.columns[0].as_str()) {
            Some(column) => Some((table, column)),
            None => None,
        },
        None => None,
    }
}

/// The edge of a declared relationship, if both its sides are there.
pub open spec fn edge_of(tables: Seq<TableShape>, link: Relationship) -> Option<Edge> {
    match (side_at(tables, link.child), side_at(tables, link.parent)) {
        (Some(child), Some(parent)) => Some(
            Edge {
                child: child.0 as usize,
                child_column: child.1 as usize,
                parent: parent.0 as usize,
                parent_column: parent.1 as usize,
            },
        ),
        _ => None,
    }
}

/// The edges of the first `count` declared relationships, passing over the ones a side of is not
/// there.
pub open spec fn edges_upto(
    tables: Seq<TableShape>,
    declared: Seq<Relationship>,
    count: nat,
) -> Seq<Edge>
    decreases count,
{
    if count == 0 {
        seq![]
    } else {
        let before = edges_upto(tables, declared, (count - 1) as nat);
        match edge_of(tables, declared[count - 1]) {
            Some(edge) => before.push(edge),
            None => before,
        }
    }
}

/// The links to build for the declared relationships.
pub fn edges_of(tables: &Vec<TableShape>, declared: &Vec<Relationship>) -> (edges: Vec<Edge>)
    ensures
        edges@ == edges_upto(tables@, declared@, declared@.len()),
{
    let mut edges: Vec<Edge> = Vec::new();
    let mut at: usize = 0;
    while at < declared.len()
        invariant
            at <= declared@.len(),
            edges@ == edges_upto(tables@, declared@, at as nat),
        decreases declared.len() - at,
    {
        if let Some((child, child_column)) = side_named(tables, &declared[at].child) {
            if let Some((parent, parent_column)) = side_named(tables, &declared[at].parent) {
                edges.push(Edge { child, child_column, parent, parent_column });
            }
        }
        at += 1;
    }
    edges
}

/// Key maps as numbers.
pub open spec fn maps_of(maps: Seq<(usize, Vec<usize>)>) -> Seq<(usize, Seq<usize>)> {
    Seq::new(maps.len(), |i: int| (maps[i].0, maps[i].1@))
}

/// Where a table stands among the key maps.
pub open spec fn map_at(maps: Seq<(usize, Seq<usize>)>, table: usize, from: nat) -> Option<int>
    decreases maps.len() - from,
{
    if from >= maps.len() {
        None
    } else if maps[from as int].0 == table {
        Some(from as int)
    } else {
        map_at(maps, table, from + 1)
    }
}

/// The key maps with one more column wanted. A table has one entry, and a column is in it once.
pub open spec fn with_column(
    maps: Seq<(usize, Seq<usize>)>,
    table: usize,
    column: usize,
) -> Seq<(usize, Seq<usize>)> {
    match map_at(maps, table, 0) {
        Some(at) => if maps[at].1.contains(column) {
            maps
        } else {
            maps.update(at, (table, maps[at].1.push(column)))
        },
        None => maps.push((table, seq![column])),
    }
}

/// The key maps the first `count` declared relationships want, on the parent side.
pub open spec fn maps_upto(
    tables: Seq<TableShape>,
    declared: Seq<Relationship>,
    count: nat,
) -> Seq<(usize, Seq<usize>)>
    decreases count,
{
    if count == 0 {
        seq![]
    } else {
        let before = maps_upto(tables, declared, (count - 1) as nat);
        match side_at(tables, declared[count - 1].parent) {
            Some((table, column)) => with_column(before, table as usize, column as usize),
            None => before,
        }
    }
}

fn holds_place(places: &Vec<usize>, wanted: usize) -> (found: bool)
    ensures
        found == places@.contains(wanted),
{
    let mut at: usize = 0;
    while at < places.len()
        invariant
            at <= places@.len(),
            forall|i: int| 0 <= i < at ==> places@[i] != wanted,
        decreases places.len() - at,
    {
        if places[at] == wanted {
            return true;
        }
        at += 1;
    }
    false
}

/// Adds a column to the key maps.
fn want_column(held: Vec<(usize, Vec<usize>)>, table: usize, column: usize) -> (more: Vec<
    (usize, Vec<usize>),
>)
    ensures
        maps_of(more@) == with_column(maps_of(held@), table, column),
{
    let mut maps = held;
    let ghost before = maps@;
    let mut at: usize = 0;
    while at < maps.len()
        invariant
            at <= maps@.len(),
            maps@ == before,
            before == held@,
            map_at(maps_of(before), table, 0) == map_at(maps_of(before), table, at as nat),
        decreases maps.len() - at,
    {
        if maps[at].0 == table {
            assert(maps_of(before)[at as int] == (table, before[at as int].1@));
            if !holds_place(&maps[at].1, column) {
                let mut columns = copy_places(&maps[at].1);
                columns.push(column);
                maps.set(at, (table, columns));
                assert(maps_of(maps@) =~= maps_of(before).update(
                    at as int,
                    (table, before[at as int].1@.push(column)),
                ));
            }
            return maps;
        }
        at += 1;
    }
    maps.push((table, vec![column]));
    assert(maps@.last().1@ =~= seq![column]);
    assert(maps_of(maps@) =~= maps_of(before).push((table, seq![column])));
    maps
}

fn copy_places(places: &Vec<usize>) -> (copy: Vec<usize>)
    ensures
        copy@ == places@,
{
    let mut copy: Vec<usize> = Vec::new();
    let mut at: usize = 0;
    while at < places.len()
        invariant
            at <= places@.len(),
            copy@ == places@.subrange(0, at as int),
        decreases places.len() - at,
    {
        copy.push(places[at]);
        assert(copy@ =~= places@.subrange(0, at + 1));
        at += 1;
    }
    assert(copy@ =~= places@);
    copy
}

/// The tables to point at the file again: the mapped parents, and then the children of the first
/// `count` edges that are not among them.
pub open spec fn rebind_upto(
    maps: Seq<(usize, Seq<usize>)>,
    edges: Seq<Edge>,
    count: nat,
) -> Seq<usize>
    decreases count,
{
    if count == 0 {
        Seq::new(maps.len(), |i: int| maps[i].0)
    } else {
        let before = rebind_upto(maps, edges, (count - 1) as nat);
        if before.contains(edges[count - 1].child) {
            before
        } else {
            before.push(edges[count - 1].child)
        }
    }
}

/// What to build for the declared relationships. Nothing is refused: a relationship naming a table
/// or a column that is not there is passed over, and where no parent column is there to map there
/// is nothing to build.
pub fn index(tables: &Vec<TableShape>, declared: &Vec<Relationship>) -> (plan: IndexPlan)
    ensures
        maps_of(plan.key_maps@) == maps_upto(tables@, declared@, declared@.len()),
        plan.edges@ == edges_upto(tables@, declared@, declared@.len()),
        plan.rebind@ == rebind_upto(maps_of(plan.key_maps@), plan.edges@, plan.edges@.len()),
{
    let mut maps: Vec<(usize, Vec<usize>)> = Vec::new();
    assert(maps_of(maps@) =~= seq![]);
    let mut at: usize = 0;
    while at < declared.len()
        invariant
            at <= declared@.len(),
            maps_of(maps@) == maps_upto(tables@, declared@, at as nat),
        decreases declared.len() - at,
    {
        if let Some((table, column)) = side_named(tables, &declared[at].parent) {
            maps = want_column(maps, table, column);
        }
        at += 1;
    }
    let edges = edges_of(tables, declared);
    let mut rebind: Vec<usize> = Vec::new();
    let mut at: usize = 0;
    while at < maps.len()
        invariant
            at <= maps@.len(),
            rebind@.len() == at,
            forall|i: int| 0 <= i < at ==> #[trigger] rebind@[i] == maps@[i].0,
        decreases maps.len() - at,
    {
        rebind.push(maps[at].0);
        at += 1;
    }
    assert(rebind@ =~= rebind_upto(maps_of(maps@), edges@, 0));
    let mut at: usize = 0;
    while at < edges.len()
        invariant
            at <= edges@.len(),
            rebind@ == rebind_upto(maps_of(maps@), edges@, at as nat),
        decreases edges.len() - at,
    {
        if !holds_place(&rebind, edges[at].child) {
            rebind.push(edges[at].child);
        }
        at += 1;
    }
    IndexPlan { key_maps: maps, edges, rebind }
}

/// The edge a stored link would be found under: both tables have to be in the file, since a row id
/// is a position in a table of it.
pub fn stored_edge(tables: &Vec<TableShape>, link: &Relationship) -> (edge: Option<Edge>)
    ensures
        edge == match edge_of(tables@, *link) {
            Some(found) => if tables@[found.child as int].native
                && tables@[found.parent as int].native {
                Some(found)
            } else {
                None
            },
            None => None,
        },
{
    match side_named(tables, &link.child) {
        Some((child, child_column)) => match side_named(tables, &link.parent) {
            Some((parent, parent_column)) => if tables[child].native && tables[parent].native {
                Some(Edge { child, child_column, parent, parent_column })
            } else {
                None
            },
            None => None,
        },
        None => None,
    }
}

/// What a stored link says: the children it linked, and the children there are.
pub open spec fn state_of(held: Option<(u64, u64)>) -> LinkState {
    match held {
        Some((linked, children)) => if linked == children {
            LinkState::Verified
        } else {
            LinkState::Built
        },
        None => LinkState::Declared,
    }
}

/// The first `count` declared relationships as the optimizer is told about them. One that is not of
/// one column on each side is left out, and one no file answers for is not.
pub open spec fn related_upto(
    declared: Seq<Relationship>,
    held: Seq<Option<(u64, u64)>>,
    count: nat,
) -> Seq<(Seq<char>, Seq<char>, Seq<char>, Seq<char>, LinkState)>
    decreases count,
{
    if count == 0 {
        seq![]
    } else {
        let before = related_upto(declared, held, (count - 1) as nat);
        let link = declared[count - 1];
        if link.child.columns@.len() == 1 && link.parent.columns@.len() == 1 {
            before.push(
                (
                    link.child.table@,
                    link.child.columns@[0]@,
                    link.parent.table@,
                    link.parent.columns@[0]@,
                    state_of(held[count - 1]),
                ),
            )
        } else {
            before
        }
    }
}

/// What some linked relationships say.
pub open spec fn linked_parts(links: Seq<Linked>) -> Seq<
    (Seq<char>, Seq<char>, Seq<char>, Seq<char>, LinkState),
> {
    Seq::new(
        links.len(),
        |i: int|
            (
                links[i].child@,
                links[i].child_key@,
                links[i].parent@,
                links[i].parent_key@,
                links[i].state,
            ),
    )
}

/// Every declared relationship, with whether the files answer for it.
pub fn related(declared: &Vec<Relationship>, held: &Vec<Option<(u64, u64)>>) -> (found: Vec<Linked>)
    requires
        held@.len() == declared@.len(),
    ensures
        linked_parts(found@) == related_upto(declared@, held@, declared@.len()),
{
    let mut found: Vec<Linked> = Vec::new();
    assert(linked_parts(found@) =~= seq![]);
    let mut at: usize = 0;
    while at < declared.len()
        invariant
            at <= declared@.len() == held@.len(),
            linked_parts(found@) == related_upto(declared@, held@, at as nat),
        decreases declared.len() - at,
    {
        let link = &declared[at];
        if link.child.columns.len() == 1 && link.parent.columns.len() == 1 {
            let state = match held[at] {
                Some((linked, children)) => if linked == children {
                    LinkState::Verified
                } else {
                    LinkState::Built
                },
                None => LinkState::Declared,
            };
            let ghost before = found@;
            let one = Linked {
                child: link.child.table.clone(),
                child_key: link.child.columns[0].clone(),
                parent: link.parent.table.clone(),
                parent_key: link.parent.columns[0].clone(),
                state,
            };
            found.push(one);
            assert(linked_parts(found@) =~= linked_parts(before).push(
                (one.child@, one.child_key@, one.parent@, one.parent_key@, one.state),
            ));
        }
        at += 1;
    }
    found
}

/// Every edge names tables and columns that are there, and every table a link joins is one the
/// index points at the file again.
pub proof fn law_edges_are_there(tables: Seq<TableShape>, declared: Seq<Relationship>, at: int)
    requires
        tables.len() <= usize::MAX,
        forall|i: int| 0 <= i < tables.len() ==> (#[trigger] tables[i]).columns@.len() <= usize::MAX,
        0 <= at < edges_upto(tables, declared, declared.len()).len(),
    ensures
        ({
            let edges = edges_upto(tables, declared, declared.len());
            let maps = maps_upto(tables, declared, declared.len());
            let edge = edges[at];
            &&& edge.child < tables.len()
            &&& edge.child_column < tables[edge.child as int].columns@.len()
            &&& edge.parent < tables.len()
            &&& edge.parent_column < tables[edge.parent as int].columns@.len()
            &&& rebind_upto(maps, edges, edges.len()).contains(edge.child)
            &&& rebind_upto(maps, edges, edges.len()).contains(edge.parent)
        }),
{
    let edges = edges_upto(tables, declared, declared.len());
    let maps = maps_upto(tables, declared, declared.len());
    lemma_edge(tables, declared, declared.len(), at);
    lemma_rebound(maps, edges, edges.len(), at);
    let i = choose|i: int| 0 <= i < maps.len() && (#[trigger] maps[i]).0 == edges[at].parent;
    assert(rebind_upto(maps, edges, 0)[i] == edges[at].parent);
    lemma_rebind_grows(maps, edges, edges.len(), edges[at].parent);
}

/// An edge's parent has a key map, since its parent column is one that was wanted.
proof fn lemma_edge(tables: Seq<TableShape>, declared: Seq<Relationship>, count: nat, at: int)
    requires
        tables.len() <= usize::MAX,
        forall|i: int| 0 <= i < tables.len() ==> (#[trigger] tables[i]).columns@.len() <= usize::MAX,
        count <= declared.len(),
        0 <= at < edges_upto(tables, declared, count).len(),
    ensures
        ({
            let edge = edges_upto(tables, declared, count)[at];
            let maps = maps_upto(tables, declared, count);
            &&& edge.child < tables.len()
            &&& edge.child_column < tables[edge.child as int].columns@.len()
            &&& edge.parent < tables.len()
            &&& edge.parent_column < tables[edge.parent as int].columns@.len()
            &&& exists|i: int| 0 <= i < maps.len() && (#[trigger] maps[i]).0 == edge.parent
        }),
    decreases count,
{
    let link = declared[count - 1];
    let before = edges_upto(tables, declared, (count - 1) as nat);
    let few = maps_upto(tables, declared, (count - 1) as nat);
    let maps = maps_upto(tables, declared, count);
    lemma_first_named(table_names(tables), link.child.table@, 0);
    lemma_first_named(table_names(tables), link.parent.table@, 0);
    if let Some(table) = table_at(tables, link.child.table@) {
        lemma_first_named(field_names(tables[table].columns@), link.child.columns@[0]@, 0);
    }
    if let Some(table) = table_at(tables, link.parent.table@) {
        lemma_first_named(field_names(tables[table].columns@), link.parent.columns@[0]@, 0);
    }
    if let Some((table, column)) = side_at(tables, link.parent) {
        lemma_with_column(few, table as usize, column as usize);
    }
    if at < before.len() {
        lemma_edge(tables, declared, (count - 1) as nat, at);
        let i = choose|i: int| 0 <= i < few.len() && (#[trigger] few[i]).0 == before[at].parent;
        assert(maps[i].0 == few[i].0);
    }
}

proof fn lemma_map_at(maps: Seq<(usize, Seq<usize>)>, table: usize, from: nat)
    ensures
        map_at(maps, table, from) matches Some(at) ==> from <= at < maps.len() && maps[at].0
            == table,
    decreases maps.len() - from,
{
    if from < maps.len() {
        lemma_map_at(maps, table, from + 1);
    }
}

proof fn lemma_with_column(maps: Seq<(usize, Seq<usize>)>, table: usize, column: usize)
    ensures
        with_column(maps, table, column).len() >= maps.len(),
        forall|i: int|
            0 <= i < maps.len() ==> (#[trigger] with_column(maps, table, column)[i]).0
                == maps[i].0,
        exists|i: int|
            0 <= i < with_column(maps, table, column).len() && (#[trigger] with_column(
                maps,
                table,
                column,
            )[i]).0 == table,
{
    lemma_map_at(maps, table, 0);
    let more = with_column(maps, table, column);
    match map_at(maps, table, 0) {
        Some(at) => {
            assert(more[at].0 == table);
        },
        None => {
            assert(more[maps.len() as int].0 == table);
        },
    }
}

proof fn lemma_rebind_grows(
    maps: Seq<(usize, Seq<usize>)>,
    edges: Seq<Edge>,
    count: nat,
    table: usize,
)
    requires
        rebind_upto(maps, edges, 0).contains(table),
    ensures
        rebind_upto(maps, edges, count).contains(table),
    decreases count,
{
    if count > 0 {
        lemma_rebind_grows(maps, edges, (count - 1) as nat, table);
        let before = rebind_upto(maps, edges, (count - 1) as nat);
        let i = choose|i: int| 0 <= i < before.len() && before[i] == table;
        assert(rebind_upto(maps, edges, count)[i] == table);
    }
}

proof fn lemma_rebound(maps: Seq<(usize, Seq<usize>)>, edges: Seq<Edge>, count: nat, at: int)
    requires
        0 <= at < count <= edges.len(),
    ensures
        rebind_upto(maps, edges, count).contains(edges[at].child),
    decreases count,
{
    let before = rebind_upto(maps, edges, (count - 1) as nat);
    let after = rebind_upto(maps, edges, count);
    if at < count - 1 {
        lemma_rebound(maps, edges, (count - 1) as nat, at);
        let i = choose|i: int| 0 <= i < before.len() && before[i] == edges[at].child;
        assert(after[i] == edges[at].child);
    } else if !before.contains(edges[at].child) {
        assert(after[before.len() as int] == edges[at].child);
    }
}

/// Whether a side names that column of that table: it has one column, and of all the tables and all the
/// columns of the table these are the first of those names, but for case.
pub open spec fn is_named_by(tables: Seq<TableShape>, side: Side, table: int, column: int) -> bool {
    &&& side.columns@.len() == 1
    &&& 0 <= table < tables.len()
    &&& lowered(tables[table].name.table@) == lowered(side.table@)
    &&& forall|i: int|
        0 <= i < table ==> lowered(#[trigger] table_names(tables)[i]) != lowered(side.table@)
    &&& 0 <= column < tables[table].columns@.len()
    &&& lowered(tables[table].columns@[column].name@) == lowered(side.columns@[0]@)
    &&& forall|i: int|
        0 <= i < column ==> lowered(#[trigger] field_names(tables[table].columns@)[i]) != lowered(
            side.columns@[0]@,
        )
}

/// Whether an edge is a relationship as it was declared, from the child's column to the parent's.
pub open spec fn joins(tables: Seq<TableShape>, link: Relationship, edge: Edge) -> bool {
    &&& is_named_by(tables, link.child, edge.child as int, edge.child_column as int)
    &&& is_named_by(tables, link.parent, edge.parent as int, edge.parent_column as int)
}

/// A side is there exactly where a table of its name has a column of its name.
pub proof fn law_a_side_is_the_column_it_names(
    tables: Seq<TableShape>,
    side: Side,
    table: int,
    column: int,
)
    ensures
        side_at(tables, side) == Some((table, column)) <==> is_named_by(tables, side, table, column),
{
    let names = table_names(tables);
    law_the_first_of_a_name_is_found(names, side.table@, 0);
    if let Some(found) = table_at(tables, side.table@) {
        assert(names[found] == tables[found].name.table@);
        let columns = field_names(tables[found].columns@);
        law_the_first_of_a_name_is_found(columns, side.columns@[0]@, 0);
        if let Some(at) = first_named(columns, side.columns@[0]@, 0) {
            assert(columns[at] == tables[found].columns@[at].name@);
        }
        if is_named_by(tables, side, table, column) {
            assert(names[table] == tables[table].name.table@);
            assert(table == found);
            assert(columns[column] == tables[found].columns@[column].name@);
        }
    } else if is_named_by(tables, side, table, column) {
        assert(names[table] == tables[table].name.table@);
    }
}

/// The edges are the declared relationships whose columns are there, each as it was declared and in
/// the order they were declared in. One that gives no edge joins nothing that is there.
pub proof fn law_edges_are_what_was_declared(
    tables: Seq<TableShape>,
    declared: Seq<Relationship>,
    count: nat,
) -> (from: Seq<int>)
    requires
        tables.len() <= usize::MAX,
        forall|i: int| 0 <= i < tables.len() ==> (#[trigger] tables[i]).columns@.len() <= usize::MAX,
        count <= declared.len(),
    ensures
        from.len() == edges_upto(tables, declared, count).len(),
        forall|k: int| 0 <= k < from.len() ==> 0 <= #[trigger] from[k] < count,
        forall|k: int|
            0 <= k < from.len() ==> joins(
                tables,
                declared[#[trigger] from[k]],
                edges_upto(tables, declared, count)[k],
            ),
        forall|j: int, k: int| 0 <= j < k < from.len() ==> #[trigger] from[j] < #[trigger] from[k],
        forall|i: int, edge: Edge|
            0 <= i < count && #[trigger] joins(tables, declared[i], edge) ==> from.contains(i),
    decreases count,
{
    if count == 0 {
        Seq::empty()
    } else {
        let before = law_edges_are_what_was_declared(tables, declared, (count - 1) as nat);
        let link = declared[count - 1];
        if let Some((t, c)) = side_at(tables, link.child) {
            law_a_side_is_the_column_it_names(tables, link.child, t, c);
        }
        if let Some((t, c)) = side_at(tables, link.parent) {
            law_a_side_is_the_column_it_names(tables, link.parent, t, c);
        }
        let from = if edge_of(tables, link) is Some {
            before.push(count - 1)
        } else {
            before
        };
        let edges = edges_upto(tables, declared, count);
        assert forall|k: int| 0 <= k < from.len() implies joins(
            tables,
            declared[#[trigger] from[k]],
            edges[k],
        ) by {
            if k < before.len() {
                assert(from[k] == before[k]);
            }
        }
        assert forall|i: int, edge: Edge|
            0 <= i < count && #[trigger] joins(tables, declared[i], edge) implies from.contains(
            i,
        ) by {
            if i < count - 1 {
                assert(before.contains(i));
                let k = choose|k: int| 0 <= k < before.len() && before[k] == i;
                assert(from[k] == i);
            } else {
                law_a_side_is_the_column_it_names(
                    tables,
                    link.child,
                    edge.child as int,
                    edge.child_column as int,
                );
                law_a_side_is_the_column_it_names(
                    tables,
                    link.parent,
                    edge.parent as int,
                    edge.parent_column as int,
                );
                assert(from[from.len() - 1] == i);
            }
        }
        from
    }
}

/// The relationships the optimizer is told about are the declared ones of one column on each side, in
/// the order they were declared in and under the names they were declared with. A stored link that
/// found a parent for every child is verified, any other is built, and without a stored link a
/// relationship is only declared.
pub proof fn law_related_are_what_was_declared(
    declared: Seq<Relationship>,
    held: Seq<Option<(u64, u64)>>,
    count: nat,
) -> (from: Seq<int>)
    requires
        count <= declared.len() == held.len(),
    ensures
        from.len() == related_upto(declared, held, count).len(),
        forall|k: int| 0 <= k < from.len() ==> 0 <= #[trigger] from[k] < count,
        forall|j: int, k: int| 0 <= j < k < from.len() ==> #[trigger] from[j] < #[trigger] from[k],
        forall|i: int|
            0 <= i < count && (#[trigger] declared[i]).child.columns@.len() == 1
                && declared[i].parent.columns@.len() == 1 ==> from.contains(i),
        forall|k: int|
            0 <= k < from.len() ==> {
                let (child, child_key, parent, parent_key, state) = related_upto(
                    declared,
                    held,
                    count,
                )[k];
                let link = declared[#[trigger] from[k]];
                &&& link.child.columns@.len() == 1
                &&& link.parent.columns@.len() == 1
                &&& child == link.child.table@
                &&& child_key == link.child.columns@[0]@
                &&& parent == link.parent.table@
                &&& parent_key == link.parent.columns@[0]@
                &&& state is Declared <==> held[from[k]] is None
                &&& state is Verified <==> held[from[k]] is Some && (held[from[k]]->Some_0).0 == (
                held[from[k]]->Some_0).1
            },
    decreases count,
{
    if count == 0 {
        Seq::empty()
    } else {
        let before = law_related_are_what_was_declared(declared, held, (count - 1) as nat);
        let less = related_upto(declared, held, (count - 1) as nat);
        let more = related_upto(declared, held, count);
        let link = declared[count - 1];
        let from = if link.child.columns@.len() == 1 && link.parent.columns@.len() == 1 {
            before.push(count - 1)
        } else {
            before
        };
        assert forall|i: int|
            0 <= i < count && (#[trigger] declared[i]).child.columns@.len() == 1
                && declared[i].parent.columns@.len() == 1 implies from.contains(i) by {
            if i < count - 1 {
                assert(before.contains(i));
                let k = choose|k: int| 0 <= k < before.len() && before[k] == i;
                assert(from[k] == i);
            } else {
                assert(from[from.len() - 1] == i);
            }
        }
        assert forall|k: int| 0 <= k < before.len() implies more[k] == less[k] && #[trigger] from[k]
            == before[k] by {}
        from
    }
}

/// Every parent column of a declared relationship that is there is mapped, in the entry of its table.
pub proof fn law_every_parent_column_is_mapped(
    tables: Seq<TableShape>,
    declared: Seq<Relationship>,
    count: nat,
    i: int,
    table: usize,
    column: usize,
) -> (k: int)
    requires
        0 <= i < count <= declared.len(),
        is_named_by(tables, declared[i].parent, table as int, column as int),
    ensures
        0 <= k < maps_upto(tables, declared, count).len(),
        maps_upto(tables, declared, count)[k].0 == table,
        maps_upto(tables, declared, count)[k].1.contains(column),
    decreases count,
{
    let before = maps_upto(tables, declared, (count - 1) as nat);
    if i == count - 1 {
        law_a_side_is_the_column_it_names(
            tables,
            declared[i].parent,
            table as int,
            column as int,
        );
        lemma_map_at(before, table, 0);
        match map_at(before, table, 0) {
            Some(at) => {
                if !before[at].1.contains(column) {
                    let more = before[at].1.push(column);
                    assert(more[before[at].1.len() as int] == column);
                }
                at
            },
            None => {
                assert(seq![column][0] == column);
                before.len() as int
            },
        }
    } else {
        let k = law_every_parent_column_is_mapped(
            tables,
            declared,
            (count - 1) as nat,
            i,
            table,
            column,
        );
        if let Some((t, c)) = side_at(tables, declared[count - 1].parent) {
            lemma_map_at(before, t as usize, 0);
            if let Some(at) = map_at(before, t as usize, 0) {
                let held = before[at].1;
                if at == k && !held.contains(c as usize) {
                    let p = choose|p: int| 0 <= p < held.len() && held[p] == column;
                    assert(held.push(c as usize)[p] == column);
                }
            }
        }
        k
    }
}

/// Every column that is mapped is the parent column of a declared relationship.
pub proof fn law_only_parent_columns_are_mapped(
    tables: Seq<TableShape>,
    declared: Seq<Relationship>,
    count: nat,
    k: int,
    p: int,
) -> (i: int)
    requires
        tables.len() <= usize::MAX,
        forall|i: int| 0 <= i < tables.len() ==> (#[trigger] tables[i]).columns@.len() <= usize::MAX,
        count <= declared.len(),
        0 <= k < maps_upto(tables, declared, count).len(),
        0 <= p < maps_upto(tables, declared, count)[k].1.len(),
    ensures
        0 <= i < count,
        is_named_by(
            tables,
            declared[i].parent,
            maps_upto(tables, declared, count)[k].0 as int,
            maps_upto(tables, declared, count)[k].1[p] as int,
        ),
    decreases count,
{
    let before = maps_upto(tables, declared, (count - 1) as nat);
    if k < before.len() && p < before[k].1.len() {
        if let Some((t, c)) = side_at(tables, declared[count - 1].parent) {
            lemma_map_at(before, t as usize, 0);
        }
        law_only_parent_columns_are_mapped(tables, declared, (count - 1) as nat, k, p)
    } else {
        let (t, c) = side_at(tables, declared[count - 1].parent)->0;
        lemma_map_at(before, t as usize, 0);
        law_a_side_is_the_column_it_names(tables, declared[count - 1].parent, t, c);
        count - 1
    }
}

/// A table has one entry among the key maps, and no column is in it twice.
pub proof fn law_a_table_is_mapped_once(
    tables: Seq<TableShape>,
    declared: Seq<Relationship>,
    count: nat,
)
    requires
        count <= declared.len(),
    ensures
        forall|j: int, k: int|
            0 <= j < k < maps_upto(tables, declared, count).len() ==> (#[trigger] maps_upto(
                tables,
                declared,
                count,
            )[j]).0 != (#[trigger] maps_upto(tables, declared, count)[k]).0,
        forall|k: int|
            0 <= k < maps_upto(tables, declared, count).len() ==> (#[trigger] maps_upto(
                tables,
                declared,
                count,
            )[k]).1.no_duplicates(),
    decreases count,
{
    if count > 0 {
        law_a_table_is_mapped_once(tables, declared, (count - 1) as nat);
        let before = maps_upto(tables, declared, (count - 1) as nat);
        if let Some((t, c)) = side_at(tables, declared[count - 1].parent) {
            lemma_map_at(before, t as usize, 0);
            lemma_map_missing(before, t as usize, 0);
            if let Some(at) = map_at(before, t as usize, 0) {
                let held = before[at].1;
                if !held.contains(c as usize) {
                    assert(held.no_duplicates());
                    assert(held.push(c as usize).no_duplicates());
                }
            }
        }
    }
}

proof fn lemma_map_missing(maps: Seq<(usize, Seq<usize>)>, table: usize, from: nat)
    ensures
        map_at(maps, table, from) is None ==> forall|i: int|
            from <= i < maps.len() ==> (#[trigger] maps[i]).0 != table,
    decreases maps.len() - from,
{
    if from < maps.len() {
        lemma_map_missing(maps, table, from + 1);
    }
}

/// A table that is pointed at the file again is a mapped one or the child of an edge.
pub proof fn law_only_what_was_built_is_rebound(
    maps: Seq<(usize, Seq<usize>)>,
    edges: Seq<Edge>,
    count: nat,
    p: int,
) -> (i: int)
    requires
        count <= edges.len(),
        0 <= p < rebind_upto(maps, edges, count).len(),
    ensures
        ({
            let table = rebind_upto(maps, edges, count)[p];
            ||| 0 <= i < maps.len() && maps[i].0 == table
            ||| 0 <= i < count && edges[i].child == table
        }),
    decreases count,
{
    if count == 0 {
        p
    } else if p < rebind_upto(maps, edges, (count - 1) as nat).len() {
        law_only_what_was_built_is_rebound(maps, edges, (count - 1) as nat, p)
    } else {
        count - 1
    }
}

/// No table is pointed at the file twice.
pub proof fn law_a_table_is_rebound_once(
    maps: Seq<(usize, Seq<usize>)>,
    edges: Seq<Edge>,
    count: nat,
)
    requires
        count <= edges.len(),
        forall|j: int, k: int|
            0 <= j < k < maps.len() ==> (#[trigger] maps[j]).0 != (#[trigger] maps[k]).0,
    ensures
        rebind_upto(maps, edges, count).no_duplicates(),
    decreases count,
{
    if count > 0 {
        law_a_table_is_rebound_once(maps, edges, (count - 1) as nat);
    }
}

/// A stored link is looked for only between tables whose rows are all in the file, and under the
/// columns the relationship names.
pub proof fn law_a_link_is_stored_between_tables_in_the_file(
    tables: Vec<TableShape>,
    link: Relationship,
    edge: Option<Edge>,
    joined: Edge,
)
    requires
        call_ensures(stored_edge, (&tables, &link), edge),
        joins(tables@, link, joined),
    ensures
        edge is Some <==> tables@[joined.child as int].native && tables@[joined.parent as int].native,
        edge is Some ==> edge == Some(joined),
{
    law_a_side_is_the_column_it_names(
        tables@,
        link.child,
        joined.child as int,
        joined.child_column as int,
    );
    law_a_side_is_the_column_it_names(
        tables@,
        link.parent,
        joined.parent as int,
        joined.parent_column as int,
    );
}

} // verus!
