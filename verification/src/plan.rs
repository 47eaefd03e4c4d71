//! Which plans of a summary can be kept and run again.

use crate::checkpoint::{equal_names, same_name, QualifiedName};
use crate::shape::{literal_filter, simple_literal_filter, Ast};
use crate::types::same_text;
use vstd::prelude::*;

verus! {

/// An expression of a plan.
#[derive(Debug)]
pub enum PlanExpr {
    /// A column of the operator with that index.
    Column { table: u32, column: u32 },
    Aggregate { name: String, args: Vec<PlanExpr>, distinct: bool, filter: bool },
    Other,
}

/// An operator of a plan.
#[derive(Debug)]
pub enum Node {
    Project { input: Box<Node>, exprs: Vec<PlanExpr> },
    Aggregate { input: Box<Node>, index: u32, groups: Vec<PlanExpr>, aggregates: Vec<PlanExpr> },
    Filter { input: Box<Node>, predicate: PlanExpr },
    Get { source: QualifiedName, index: u32, columns: Vec<String> },
    Other,
}

/// Whether an expression is a column of that operator.
pub open spec fn reads(expr: PlanExpr, index: u32) -> bool {
    expr matches PlanExpr::Column { table, .. } && table == index
}

/// Whether a projection hands on the columns of an operator as they are, all of them and in order.
pub open spec fn hands_on(exprs: Seq<PlanExpr>, index: u32, width: nat) -> bool {
    &&& exprs.len() > 0
    &&& exprs.len() == width
    &&& forall|i: int|
        0 <= i < exprs.len() ==> (#[trigger] exprs[i] matches PlanExpr::Column { table, column }
            && table == index && column == i)
}

/// Whether an expression is that aggregate over so many plain columns of an operator, with no filter
/// and every value counted.
pub open spec fn direct(expr: PlanExpr, name: Seq<char>, arguments: nat, index: u32) -> bool {
    expr matches PlanExpr::Aggregate { name: called, args, distinct, filter } && called@ == name
        && !distinct && !filter && args@.len() == arguments && forall|i: int|
        0 <= i < args@.len() ==> reads(#[trigger] args@[i], index)
}

/// Whether a summary is one that can be kept: a count of the rows, an average, or a sum, a count and
/// an average together. Under a filter only the count can, and without one the count reads no
/// column.
pub open spec fn supported(
    aggregates: Seq<PlanExpr>,
    index: u32,
    columns: nat,
    filtered: bool,
) -> bool {
    if aggregates.len() == 1 {
        ||| direct(aggregates[0], "count_star"@, 0, index) && (filtered || columns == 0)
        ||| !filtered && direct(aggregates[0], "avg"@, 1, index)
    } else {
        &&& aggregates.len() == 3
        &&& !filtered
        &&& direct(aggregates[0], "sum"@, 1, index)
        &&& direct(aggregates[1], "count_star"@, 0, index)
        &&& direct(aggregates[2], "avg"@, 1, index)
    }
}

/// The table a summary that can be kept reads.
pub open spec fn summary_source(ast: Ast, plan: Node) -> Option<QualifiedName> {
    match plan {
        Node::Project { input, exprs } => match *input {
            Node::Aggregate { input, index, groups, aggregates } => {
                let filtered = *input is Filter;
                let below = match *input {
                    Node::Filter { input, .. } => *input,
                    other => other,
                };
                match below {
                    Node::Get { source, index: read, columns } => if hands_on(
                        exprs@,
                        index,
                        aggregates@.len(),
                    ) && groups@.len() == 0 && (filtered ==> literal_filter(ast)) && supported(
                        aggregates@,
                        read,
                        columns@.len(),
                        filtered,
                    ) {
                        Some(source)
                    } else {
                        None
                    },
                    _ => None,
                }
            },
            _ => None,
        },
        _ => None,
    }
}

fn hands_on_columns(exprs: &Vec<PlanExpr>, index: u32, width: usize) -> (yes: bool)
    ensures
        yes == hands_on(exprs@, index, width as nat),
{
    if exprs.len() == 0 || exprs.len() != width {
        return false;
    }
    let mut at: usize = 0;
    while at < exprs.len()
        invariant
            at <= exprs@.len(),
            forall|i: int|
                0 <= i < at ==> (#[trigger] exprs@[i] matches PlanExpr::Column { table, column }
                    && table == index && column == i),
        decreases exprs.len() - at,
    {
        match &exprs[at] {
            PlanExpr::Column { table, column } if *table == index && *column as usize == at => {},
            _ => {
                assert(!(exprs@[at as int] matches PlanExpr::Column { table, column } && table
                    == index && column == at));
                return false;
            },
        }
        at += 1;
    }
    true
}

fn all_read(args: &Vec<PlanExpr>, index: u32) -> (yes: bool)
    ensures
        yes == forall|i: int| 0 <= i < args@.len() ==> reads(#[trigger] args@[i], index),
{
    let mut at: usize = 0;
    while at < args.len()
        invariant
            at <= args@.len(),
            forall|i: int| 0 <= i < at ==> reads(#[trigger] args@[i], index),
        decreases args.len() - at,
    {
        match &args[at] {
            PlanExpr::Column { table, .. } if *table == index => {},
            _ => {
                assert(!reads(args@[at as int], index));
                return false;
            },
        }
        at += 1;
    }
    true
}

fn direct_aggregate(expr: &PlanExpr, wanted: &str, arguments: usize, index: u32) -> (yes: bool)
    ensures
        yes == direct(*expr, wanted@, arguments as nat, index),
{
    match expr {
        PlanExpr::Aggregate { name, args, distinct, filter } => !*distinct && !*filter
            && same_text(name.as_str(), wanted) && args.len() == arguments && all_read(args, index),
        _ => false,
    }
}

fn can_be_kept(aggregates: &Vec<PlanExpr>, index: u32, columns: usize, filtered: bool) -> (yes: bool)
    ensures
        yes == supported(aggregates@, index, columns as nat, filtered),
{
    if aggregates.len() == 1 {
        (direct_aggregate(&aggregates[0], "count_star", 0, index) && (filtered || columns == 0))
            || (!filtered && direct_aggregate(&aggregates[0], "avg", 1, index))
    } else {
        aggregates.len() == 3 && !filtered && direct_aggregate(&aggregates[0], "sum", 1, index)
            && direct_aggregate(&aggregates[1], "count_star", 0, index) && direct_aggregate(
            &aggregates[2],
            "avg",
            1,
            index,
        )
    }
}

/// The table a summary that can be kept reads, by the plan and by the statement it was written as.
/// A filter is accepted only when its written form has no changing calls.
fn kept_source<'a>(ast: &Ast, plan: &'a Node) -> (source: Option<&'a QualifiedName>)
    ensures
        match source {
            Some(source) => summary_source(*ast, *plan) == Some(*source),
            None => summary_source(*ast, *plan) is None,
        },
{
    let (input, exprs) = match plan {
        Node::Project { input, exprs } => (input, exprs),
        _ => return None,
    };
    let (input, index, groups, aggregates) = match &**input {
        Node::Aggregate { input, index, groups, aggregates } => (input, *index, groups, aggregates),
        _ => return None,
    };
    if !hands_on_columns(exprs, index, aggregates.len()) || groups.len() != 0 {
        return None;
    }
    let (below, filtered) = match &**input {
        Node::Filter { input, .. } => {
            if !simple_literal_filter(ast) {
                return None;
            }
            (&**input, true)
        },
        other => (other, false),
    };
    match below {
        Node::Get { source, index, columns } => if can_be_kept(
            aggregates,
            *index,
            columns.len(),
            filtered,
        ) {
            Some(source)
        } else {
            None
        },
        _ => None,
    }
}

/// Whether a table is among some names.
pub open spec fn is_listed(names: Seq<QualifiedName>, wanted: QualifiedName) -> bool {
    exists|i: int| 0 <= i < names.len() && same_name(#[trigger] names[i], wanted)
}

/// Direct counts, one average, and the three summaries together, over a table whose rows are in the
/// file, can be kept.
pub fn is_native_summary_aggregate(ast: &Ast, plan: &Node, native: &Vec<QualifiedName>) -> (yes:
    bool)
    ensures
        yes == (summary_source(*ast, *plan) matches Some(source) && is_listed(native@, source)),
{
    match kept_source(ast, plan) {
        Some(source) => {
            let mut at: usize = 0;
            while at < native.len()
                invariant
                    at <= native@.len(),
                    summary_source(*ast, *plan) == Some(*source),
                    forall|i: int| 0 <= i < at ==> !same_name(#[trigger] native@[i], *source),
                decreases native.len() - at,
            {
                if equal_names(&native[at], source) {
                    assert(same_name(native@[at as int], *source));
                    return true;
                }
                at += 1;
            }
            false
        },
        None => false,
    }
}

/// Whether an expression is an aggregate of that name over so many columns of the operator, and nothing
/// but that.
pub open spec fn plainly(expr: PlanExpr, name: Seq<char>, arguments: nat, index: u32) -> bool {
    match expr {
        PlanExpr::Aggregate { name: called, args, distinct, filter } => {
            &&& called@ == name
            &&& distinct == false
            &&& filter == false
            &&& args@.len() == arguments
            &&& forall|i: int|
                0 <= i < args@.len() ==> {
                    &&& #[trigger] args@[i] is Column
                    &&& args@[i]->table == index
                }
        },
        _ => false,
    }
}

/// A plan that can be kept hands on, in order, every value of a summary of a whole table without
/// groups. The summary is a count of the rows, an average, or a sum, a count of the rows and an
/// average. Where rows are left out first, it counts them, and the filter compares a column with a
/// number that stands in the statement.
pub proof fn law_a_plan_that_can_be_kept_summarises_one_table(ast: Ast, plan: Node)
    requires
        summary_source(ast, plan) is Some,
    ensures
        plan is Project,
        ({
            let exprs = plan->exprs@;
            let under = *plan->Project_input;
            let aggregates = under->aggregates@;
            let read = *under->Aggregate_input;
            let get = if read is Filter {
                *read->Filter_input
            } else {
                read
            };
            &&& under is Aggregate
            &&& under->groups@.len() == 0
            &&& exprs.len() == aggregates.len()
            &&& forall|i: int|
                0 <= i < exprs.len() ==> {
                    &&& #[trigger] exprs[i] is Column
                    &&& exprs[i]->table == under->Aggregate_index
                    &&& exprs[i]->column == i
                }
            &&& get is Get
            &&& summary_source(ast, plan) == Some(get->source)
            &&& read is Filter ==> literal_filter(ast) && aggregates.len() == 1 && plainly(
                aggregates[0],
                "count_star"@,
                0,
                get->Get_index,
            )
            &&& !(read is Filter) ==> {
                ||| aggregates.len() == 1 && plainly(aggregates[0], "avg"@, 1, get->Get_index)
                ||| aggregates.len() == 1 && get->columns@.len() == 0 && plainly(
                    aggregates[0],
                    "count_star"@,
                    0,
                    get->Get_index,
                )
                ||| aggregates.len() == 3 && plainly(aggregates[0], "sum"@, 1, get->Get_index)
                    && plainly(aggregates[1], "count_star"@, 0, get->Get_index) && plainly(
                    aggregates[2],
                    "avg"@,
                    1,
                    get->Get_index,
                )
            }
        }),
{
}

/// Every such plan can be kept.
pub proof fn law_a_summary_of_one_table_can_be_kept(
    ast: Ast,
    exprs: Vec<PlanExpr>,
    read: Node,
    index: u32,
    aggregates: Vec<PlanExpr>,
    groups: Vec<PlanExpr>,
    plan: Node,
)
    requires
        plan is Project,
        plan->exprs == exprs,
        *plan->Project_input is Aggregate,
        (*plan->Project_input)->Aggregate_index == index,
        (*plan->Project_input)->aggregates == aggregates,
        (*plan->Project_input)->groups == groups,
        *(*plan->Project_input)->Aggregate_input == read,
        groups@.len() == 0,
        exprs@.len() == aggregates@.len(),
        forall|i: int|
            0 <= i < exprs@.len() ==> {
                &&& #[trigger] exprs@[i] is Column
                &&& exprs@[i]->table == index
                &&& exprs@[i]->column == i
            },
        ({
            ||| read is Get && aggregates@.len() == 1 && plainly(
                aggregates@[0],
                "avg"@,
                1,
                read->Get_index,
            )
            ||| read is Get && read->columns@.len() == 0 && aggregates@.len() == 1 && plainly(
                aggregates@[0],
                "count_star"@,
                0,
                read->Get_index,
            )
            ||| read is Get && aggregates@.len() == 3 && plainly(
                aggregates@[0],
                "sum"@,
                1,
                read->Get_index,
            ) && plainly(aggregates@[1], "count_star"@, 0, read->Get_index) && plainly(
                aggregates@[2],
                "avg"@,
                1,
                read->Get_index,
            )
            ||| read is Filter && *read->Filter_input is Get && literal_filter(ast)
                && aggregates@.len() == 1 && plainly(
                aggregates@[0],
                "count_star"@,
                0,
                (*read->Filter_input)->Get_index,
            )
        }),
    ensures
        summary_source(ast, plan) is Some,
{
    assert(hands_on(exprs@, index, aggregates@.len()));
}

/// A plan is kept only where the table it reads is one of those in the file, under its whole name.
pub proof fn law_a_plan_is_kept_for_a_table_in_the_file(
    ast: Ast,
    plan: Node,
    native: Vec<QualifiedName>,
    yes: bool,
    i: int,
)
    requires
        call_ensures(is_native_summary_aggregate, (&ast, &plan, &native), yes),
        0 <= i < native@.len(),
    ensures
        summary_source(ast, plan) is None ==> !yes,
        summary_source(ast, plan) is Some && native@[i].catalog@ == (summary_source(
            ast,
            plan,
        )->Some_0).catalog@ && native@[i].schema@ == (summary_source(ast, plan)->Some_0).schema@
            && native@[i].table@ == (summary_source(ast, plan)->Some_0).table@ ==> yes,
{
    if summary_source(ast, plan) is Some {
        assert(same_name(native@[i], summary_source(ast, plan)->Some_0) ==> is_listed(
            native@,
            summary_source(ast, plan)->Some_0,
        ));
    }
}

} // verus!
