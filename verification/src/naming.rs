//! The names a database and its tables go by.

use crate::types::same_text;
use vstd::prelude::*;
use vstd::string::*;

verus! {

/// Whether a path names a database held in memory: `:memory:` and the empty text both do.
pub fn in_memory(path: &str) -> (yes: bool)
    ensures
        yes == (path@.len() == 0 || path@ == ":memory:"@),
{
    path.unicode_len() == 0 || same_text(path, ":memory:")
}

/// How many characters the root of a path takes.
pub open spec fn root_of(path: Seq<char>) -> int {
    if path.len() > 0 && path[0] == '/' {
        1
    } else {
        0
    }
}

/// Where the component that ends at `end` starts.
pub open spec fn component_start(path: Seq<char>, end: int) -> int
    decreases end,
{
    if end <= root_of(path) {
        root_of(path)
    } else if path[end - 1] == '/' {
        end
    } else {
        component_start(path, end - 1)
    }
}

/// Whether the component that ends at `end` says nothing: it is empty, or a dot that is not the
/// start of a path without a root.
pub open spec fn says_nothing(path: Seq<char>, end: int) -> bool {
    let start = component_start(path, end);
    ||| start == end
    ||| start + 1 == end && path[start] == '.' && start > 0
}

/// Where a path ends without the components at its end that say nothing.
pub open spec fn last_end(path: Seq<char>, end: int) -> int
    decreases end,
{
    if end <= root_of(path) {
        root_of(path)
    } else if says_nothing(path, end) {
        last_end(path, end - 1)
    } else {
        end
    }
}

/// The directory a path's name lives in: the path without its last component, and the current
/// directory where that leaves nothing or where there is no last component.
pub open spec fn directory(path: Seq<char>) -> Seq<char> {
    let end = last_end(path, path.len() as int);
    let rest = last_end(path, component_start(path, end));
    if end <= root_of(path) || rest <= 0 {
        seq!['.']
    } else {
        path.subrange(0, rest)
    }
}

fn start_of(path: &str, end: usize) -> (start: usize)
    requires
        root_of(path@) <= end <= path@.len(),
    ensures
        start == component_start(path@, end as int),
        root_of(path@) <= start <= end,
{
    let root: usize = if path.unicode_len() > 0 && path.get_char(0) == '/' {
        1
    } else {
        0
    };
    let mut at: usize = end;
    while at > root && path.get_char(at - 1) != '/'
        invariant
            root == root_of(path@),
            root <= at <= end <= path@.len(),
            component_start(path@, end as int) == component_start(path@, at as int),
        decreases at,
    {
        at -= 1;
    }
    at
}

fn end_of(path: &str, end: usize) -> (last: usize)
    requires
        root_of(path@) <= end <= path@.len(),
    ensures
        last == last_end(path@, end as int),
        root_of(path@) <= last <= end,
{
    let root: usize = if path.unicode_len() > 0 && path.get_char(0) == '/' {
        1
    } else {
        0
    };
    let mut at: usize = end;
    while at > root
        invariant
            root == root_of(path@),
            root <= at <= end <= path@.len(),
            last_end(path@, end as int) == last_end(path@, at as int),
        decreases at,
    {
        let start = start_of(path, at);
        if start == at || (start + 1 == at && path.get_char(start) == '.' && start > 0) {
            at -= 1;
        } else {
            return at;
        }
    }
    root
}

/// The directory a path's name lives in. A bare file name has an empty parent rather than none, and
/// the directory it means is the current one.
pub fn directory_of<'a>(path: &'a str) -> (parent: &'a str)
    ensures
        parent@ == directory(path@),
{
    proof {
        reveal_strlit(".");
        assert("."@ =~= seq!['.']);
    }
    let len: usize = path.unicode_len();
    let root: usize = if len > 0 && path.get_char(0) == '/' {
        1
    } else {
        0
    };
    let end = end_of(path, len);
    if end <= root {
        return ".";
    }
    let start = start_of(path, end);
    let rest = end_of(path, start);
    if rest == 0 {
        return ".";
    }
    path.substring_char(0, rest)
}

/// Where the part that starts at `from` ends: at the next dot, or with the name.
pub open spec fn part_end(name: Seq<char>, from: int) -> int
    decreases name.len() - from,
{
    if from >= name.len() {
        name.len() as int
    } else if name[from] == '.' {
        from
    } else {
        part_end(name, from + 1)
    }
}

proof fn lemma_part_end(name: Seq<char>, from: int)
    requires
        0 <= from <= name.len(),
    ensures
        from <= part_end(name, from) <= name.len(),
    decreases name.len() - from,
{
    if from < name.len() && name[from] != '.' {
        lemma_part_end(name, from + 1);
    }
}

/// The parts of a name between its dots, from a place on.
pub open spec fn parts_from(name: Seq<char>, from: int) -> Seq<Seq<char>>
    decreases name.len() - from,
    when 0 <= from <= name.len()
    via parts_shrink
{
    let end = part_end(name, from);
    let part = name.subrange(from, end);
    if end >= name.len() {
        seq![part]
    } else {
        seq![part] + parts_from(name, end + 1)
    }
}

#[via_fn]
proof fn parts_shrink(name: Seq<char>, from: int) {
    lemma_part_end(name, from);
}

/// The parts of a table's name, which are the table, or the schema and the table, or the catalog as
/// well.
pub fn name_parts<'a>(name: &'a str) -> (parts: Vec<&'a str>)
    ensures
        parts@.len() == parts_from(name@, 0).len(),
        forall|i: int| 0 <= i < parts@.len() ==> (#[trigger] parts@[i])@ == parts_from(name@, 0)[i],
{
    let len: usize = name.unicode_len();
    let mut parts: Vec<&'a str> = Vec::new();
    let ghost mut done: Seq<Seq<char>> = Seq::empty();
    let mut from: usize = 0;
    assert(done + parts_from(name@, 0) =~= parts_from(name@, 0));
    loop
        invariant
            from <= len,
            len == name@.len(),
            parts_from(name@, 0) == done + parts_from(name@, from as int),
            parts@.len() == done.len(),
            forall|i: int| 0 <= i < parts@.len() ==> (#[trigger] parts@[i])@ == done[i],
        decreases len - from,
    {
        let mut end: usize = from;
        while end < len && name.get_char(end) != '.'
            invariant
                from <= end <= len,
                len == name@.len(),
                part_end(name@, from as int) == part_end(name@, end as int),
            decreases len - end,
        {
            end += 1;
        }
        let ghost part = name@.subrange(from as int, end as int);
        parts.push(name.substring_char(from, end));
        if end >= len {
            assert(parts_from(name@, from as int) =~= seq![part]);
            assert(parts_from(name@, 0) =~= done.push(part));
            return parts;
        }
        proof {
            assert(done + (seq![part] + parts_from(name@, end + 1)) =~= done.push(part)
                + parts_from(name@, end + 1));
            done = done.push(part);
        }
        from = end + 1;
    }
}

/// A column as a statement writes it.
#[derive(Debug)]
pub struct ColumnText {
    pub name: String,
    pub ty: String,
    pub not_null: bool,
}

/// A column of a statement that creates a table.
pub open spec fn column_sql(column: ColumnText) -> Seq<char> {
    let plain = column.name@ + " "@ + column.ty@;
    if column.not_null {
        plain + " NOT NULL"@
    } else {
        plain
    }
}

/// The first `count` columns of a statement that creates a table.
pub open spec fn columns_sql(columns: Seq<ColumnText>, count: nat) -> Seq<char>
    decreases count,
{
    if count == 0 {
        seq![]
    } else if count == 1 {
        column_sql(columns[0])
    } else {
        columns_sql(columns, (count - 1) as nat) + ", "@ + column_sql(columns[count - 1])
    }
}

/// The statement that creates a table of those columns.
pub fn table_sql(table: &str, columns: &Vec<ColumnText>) -> (sql: String)
    ensures
        sql@ == "CREATE TABLE "@ + table@ + "("@ + columns_sql(columns@, columns@.len()) + ");"@,
{
    let mut sql = "CREATE TABLE ".to_owned();
    sql.append(table);
    sql.append("(");
    let ghost head = sql@;
    let mut at: usize = 0;
    assert(sql@ =~= head + columns_sql(columns@, 0));
    while at < columns.len()
        invariant
            at <= columns@.len(),
            sql@ == head + columns_sql(columns@, at as nat),
        decreases columns.len() - at,
    {
        if at > 0 {
            sql.append(", ");
        }
        let ghost before = sql@;
        sql.append(columns[at].name.as_str());
        sql.append(" ");
        sql.append(columns[at].ty.as_str());
        if columns[at].not_null {
            sql.append(" NOT NULL");
        }
        assert(sql@ =~= before + column_sql(columns@[at as int]));
        assert(sql@ =~= head + columns_sql(columns@, (at + 1) as nat));
        at += 1;
    }
    sql.append(");");
    assert(sql@ =~= "CREATE TABLE "@ + table@ + "("@ + columns_sql(columns@, columns@.len())
        + ");"@);
    sql
}

proof fn lemma_component(path: Seq<char>, start: int, end: int)
    requires
        root_of(path) <= start <= end <= path.len(),
        start == root_of(path) || path[start - 1] == '/',
        forall|i: int| start <= i < end ==> #[trigger] path[i] != '/',
    ensures
        component_start(path, end) == start,
    decreases end,
{
    if start < end {
        assert(path[end - 1] != '/');
        lemma_component(path, start, end - 1);
    }
}

/// The start of the component that ends at `end`.
proof fn lemma_component_is(path: Seq<char>, end: int)
    requires
        root_of(path) <= end <= path.len(),
    ensures
        root_of(path) <= component_start(path, end) <= end,
        component_start(path, end) == root_of(path) || path[component_start(path, end) - 1] == '/',
        forall|i: int| component_start(path, end) <= i < end ==> #[trigger] path[i] != '/',
    decreases end,
{
    if end > root_of(path) && path[end - 1] != '/' {
        lemma_component_is(path, end - 1);
    }
}

proof fn lemma_same_component(left: Seq<char>, right: Seq<char>, end: int)
    requires
        0 <= end <= left.len(),
        end <= right.len(),
        root_of(left) == root_of(right),
        forall|i: int| 0 <= i < end ==> left[i] == right[i],
    ensures
        component_start(left, end) == component_start(right, end),
    decreases end,
{
    if end > root_of(left) && left[end - 1] != '/' {
        lemma_same_component(left, right, end - 1);
    }
}

proof fn lemma_same_last_end(left: Seq<char>, right: Seq<char>, end: int)
    requires
        0 <= end <= left.len(),
        end <= right.len(),
        root_of(left) == root_of(right),
        forall|i: int| 0 <= i < end ==> left[i] == right[i],
    ensures
        last_end(left, end) == last_end(right, end),
    decreases end,
{
    if end > root_of(left) {
        lemma_same_component(left, right, end);
        lemma_component_is(left, end);
        lemma_same_last_end(left, right, end - 1);
    }
}

/// A name lives in the directory before its last slash, a name of its own in the current directory
/// and one right under the root in the root, and a slash after a name says nothing.
pub proof fn law_a_name_lives_in_what_stands_before_it(parent: Seq<char>, name: Seq<char>)
    requires
        name.len() > 0,
        forall|i: int| 0 <= i < name.len() ==> #[trigger] name[i] != '/',
        name != seq!['.'],
    ensures
        directory(name) == seq!['.'],
        directory(name + seq!['/']) == seq!['.'],
        directory(seq!['/'] + name) == seq!['/'],
        parent.len() > 0 && parent.last() != '/' && !(parent.len() > 1 && parent.last() == '.'
            && parent[parent.len() - 2] == '/') ==> directory(parent + seq!['/'] + name) == parent
            && directory(parent + seq!['/'] + name + seq!['/']) == parent,
        directory(Seq::empty()) == seq!['.'],
        directory(seq!['/']) == seq!['.'],
{
    let len = name.len() as int;
    // A name alone.
    lemma_component(name, 0, len);
    if name[0] == '.' && len == 1 {
        assert(name =~= seq!['.']);
    }
    assert(last_end(name, len) == len);
    assert(last_end(name, 0) == 0);
    // With a slash after it.
    let slashed = name + seq!['/'];
    assert forall|i: int| 0 <= i < len implies #[trigger] slashed[i] != '/' by {
        assert(slashed[i] == name[i]);
    }
    assert(slashed[0] == name[0]);
    assert(slashed[len] == '/');
    assert(component_start(slashed, len + 1) == len + 1);
    assert(last_end(slashed, len + 1) == last_end(slashed, len));
    lemma_component(slashed, 0, len);
    assert(last_end(slashed, len) == len);
    assert(last_end(slashed, 0) == 0);
    // Under the root.
    let rooted = seq!['/'] + name;
    assert(rooted[0] == '/');
    assert forall|i: int| 1 <= i < len + 1 implies #[trigger] rooted[i] != '/' by {
        assert(rooted[i] == name[i - 1]);
    }
    lemma_component(rooted, 1, len + 1);
    if len == 1 && rooted[1] == '.' {
        assert(name =~= seq!['.']);
    }
    assert(last_end(rooted, len + 1) == len + 1);
    assert(last_end(rooted, 1) == 1);
    assert(rooted.subrange(0, 1) =~= seq!['/']);
    // Under a directory.
    if parent.len() > 0 && parent.last() != '/' && !(parent.len() > 1 && parent.last() == '.'
        && parent[parent.len() - 2] == '/') {
        let path = parent + seq!['/'] + name;
        lemma_under(parent, name, path);
        let closed = path + seq!['/'];
        let end = path.len() as int;
        assert(closed[end] == '/');
        assert(component_start(closed, end + 1) == end + 1);
        lemma_same_last_end(path, closed, end);
        lemma_component_is(path, end);
        lemma_same_component(path, closed, end);
        let start = component_start(path, end);
        lemma_same_last_end(path, closed, start);
        lemma_last_end_bound(path, start);
        lemma_last_end_bound(path, end);
        let rest = last_end(path, start);
        assert(closed.subrange(0, rest) =~= path.subrange(0, rest));
    }
    assert(last_end(Seq::<char>::empty(), 0) == 0);
}

proof fn lemma_last_end_bound(path: Seq<char>, end: int)
    requires
        root_of(path) <= end <= path.len(),
    ensures
        root_of(path) <= last_end(path, end) <= end,
    decreases end,
{
    if end > root_of(path) && says_nothing(path, end) {
        lemma_last_end_bound(path, end - 1);
    }
}

proof fn lemma_under(parent: Seq<char>, name: Seq<char>, path: Seq<char>)
    requires
        path == parent + seq!['/'] + name,
        name.len() > 0,
        forall|i: int| 0 <= i < name.len() ==> #[trigger] name[i] != '/',
        name != seq!['.'],
        parent.len() > 0,
        parent.last() != '/',
        !(parent.len() > 1 && parent.last() == '.' && parent[parent.len() - 2] == '/'),
    ensures
        directory(path) == parent,
        root_of(path) < last_end(path, path.len() as int),
{
    let before = parent.len() as int;
    let end = path.len() as int;
    assert(path[before] == '/');
    assert(path[0] == parent[0]);
    assert forall|i: int| before + 1 <= i < end implies #[trigger] path[i] != '/' by {
        assert(path[i] == name[i - before - 1]);
    }
    lemma_component(path, before + 1, end);
    if name.len() == 1 && path[before + 1] == '.' {
        assert(name[0] == '.');
        assert(name =~= seq!['.']);
    }
    assert(last_end(path, end) == end);
    assert(component_start(path, before + 1) == before + 1);
    assert(last_end(path, before + 1) == last_end(path, before));
    assert(path[before - 1] == parent.last());
    lemma_component_is(path, before);
    let start = component_start(path, before);
    assert(start < before);
    if start + 1 == before && path[start] == '.' && start > 0 {
        assert(path[start - 1] == '/');
        assert(parent[parent.len() - 2] == path[start - 1]);
    }
    assert(!says_nothing(path, before));
    assert(last_end(path, before) == before);
    assert(path.subrange(0, before) =~= parent);
}

proof fn lemma_parts_of_rest(name: Seq<char>, from: int, at: int)
    requires
        0 <= from <= at <= name.len(),
    ensures
        parts_from(name, at) == parts_from(name.subrange(from, name.len() as int), at - from),
    decreases name.len() - at,
{
    let rest = name.subrange(from, name.len() as int);
    lemma_part_end(name, at);
    lemma_end_of_rest(name, from, at);
    let end = part_end(name, at);
    assert(name.subrange(at, end) =~= rest.subrange(at - from, end - from));
    if end < name.len() {
        lemma_parts_of_rest(name, from, end + 1);
    }
}

proof fn lemma_end_of_rest(name: Seq<char>, from: int, at: int)
    requires
        0 <= from <= at <= name.len(),
    ensures
        part_end(name, at) == from + part_end(name.subrange(from, name.len() as int), at - from),
    decreases name.len() - at,
{
    if at < name.len() && name[at] != '.' {
        lemma_end_of_rest(name, from, at + 1);
    }
}

proof fn lemma_end_is(name: Seq<char>, from: int, end: int)
    requires
        0 <= from <= end <= name.len(),
        forall|i: int| from <= i < end ==> #[trigger] name[i] != '.',
        end < name.len() ==> name[end] == '.',
    ensures
        part_end(name, from) == end,
    decreases end - from,
{
    if from < end {
        assert(name[from] != '.');
        lemma_end_is(name, from + 1, end);
    }
}

/// A name without a dot is its one part, and a dot ends a part and starts the next.
pub proof fn law_the_parts_of_a_name_are_told_apart_by_dots(part: Seq<char>, rest: Seq<char>)
    requires
        forall|i: int| 0 <= i < part.len() ==> #[trigger] part[i] != '.',
    ensures
        parts_from(part, 0) == seq![part],
        parts_from(part + seq!['.'] + rest, 0) == seq![part] + parts_from(rest, 0),
{
    let len = part.len() as int;
    lemma_end_is(part, 0, len);
    assert(part.subrange(0, len) =~= part);
    let name = part + seq!['.'] + rest;
    assert forall|i: int| 0 <= i < len implies #[trigger] name[i] != '.' by {
        assert(name[i] == part[i]);
    }
    assert(name[len] == '.');
    lemma_end_is(name, 0, len);
    assert(name.subrange(0, len) =~= part);
    lemma_parts_of_rest(name, len + 1, len + 1);
    assert(name.subrange(len + 1, name.len() as int) =~= rest);
}

/// A column is written as its name, a space and its type, with `NOT NULL` after it exactly where it
/// may hold no null, and columns are written in order with a comma and a space between two.
pub proof fn law_columns_are_written_in_order(columns: Seq<ColumnText>, column: ColumnText)
    ensures
        column_sql(column) == column.name@ + " "@ + column.ty@ + if column.not_null {
            " NOT NULL"@
        } else {
            ""@
        },
        columns_sql(seq![column], 1) == column_sql(column),
        columns.len() > 0 ==> columns_sql(columns.push(column), columns.len() + 1) == columns_sql(
            columns,
            columns.len(),
        ) + ", "@ + column_sql(column),
        columns_sql(columns, 0) == Seq::<char>::empty(),
{
    reveal_strlit("");
    assert(column.name@ + " "@ + column.ty@ + ""@ =~= column.name@ + " "@ + column.ty@);
    lemma_same_columns(columns, columns.push(column), columns.len());
}

proof fn lemma_same_columns(left: Seq<ColumnText>, right: Seq<ColumnText>, count: nat)
    requires
        count <= left.len(),
        count <= right.len(),
        forall|i: int| 0 <= i < count ==> left[i] == right[i],
    ensures
        columns_sql(left, count) == columns_sql(right, count),
    decreases count,
{
    if count > 1 {
        lemma_same_columns(left, right, (count - 1) as nat);
    }
}

/// A database is in memory where it is given no path, or the one name that stands for memory.
pub proof fn law_only_no_path_is_memory(path: &str, yes: bool)
    requires
        call_ensures(in_memory, (path,), yes),
    ensures
        path@.len() == 0 ==> yes,
        path@ == seq![':', 'm', 'e', 'm', 'o', 'r', 'y', ':'] ==> yes,
        yes && path@.len() > 0 ==> path@ == seq![':', 'm', 'e', 'm', 'o', 'r', 'y', ':'],
{
    reveal_strlit(":memory:");
    assert(":memory:"@ =~= seq![':', 'm', 'e', 'm', 'o', 'r', 'y', ':']);
}

/// The statement that makes a table names it and then, between one pair of brackets, its columns.
pub proof fn law_a_table_is_written_with_its_columns(
    table: &str,
    columns: &Vec<ColumnText>,
    sql: String,
)
    requires
        call_ensures(table_sql, (table, columns), sql),
    ensures
        sql@ == seq!['C', 'R', 'E', 'A', 'T', 'E', ' ', 'T', 'A', 'B', 'L', 'E', ' '] + table@
            + seq!['('] + columns_sql(columns@, columns@.len()) + seq![')', ';'],
{
    reveal_strlit("CREATE TABLE ");
    reveal_strlit("(");
    reveal_strlit(");");
    assert("CREATE TABLE "@ =~= seq![
        'C',
        'R',
        'E',
        'A',
        'T',
        'E',
        ' ',
        'T',
        'A',
        'B',
        'L',
        'E',
        ' ',
    ]);
    assert("("@ =~= seq!['(']);
    assert(");"@ =~= seq![')', ';']);
}

} // verus!
