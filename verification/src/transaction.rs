//! The one transaction a database may have open, and the catalog it can go back to.

use crate::types::{About, Error, ErrorCode, Failure, Subject};
use std::sync::Arc;
use vstd::prelude::*;
use vstd::string::*;

verus! {

/// A statement that opens or closes a transaction.
#[derive(Debug, Clone, Copy, PartialEq, Eq, Structural)]
pub enum Transaction {
    Begin { read_only: bool },
    Commit,
    Rollback,
}

/// A transaction that was begun and that nothing has closed yet.
///
/// The catalog as it was at the beginning is kept whole, and rolling back puts it back.
#[derive(Debug)]
pub struct Open<C> {
    /// What the catalog was when the transaction began.
    pub before: Arc<C>,
    /// Whether a statement failed inside it, after which only closing it runs and both ways of
    /// closing it roll back.
    pub aborted: bool,
    /// Whether it was begun read only.
    pub read_only: bool,
}

/// The catalog as it stands, and the transaction it stands in.
#[derive(Debug)]
pub struct Ledger<C> {
    pub catalog: Arc<C>,
    pub open: Option<Open<C>>,
}

/// Whether an error inside a transaction aborts it: a statement that did not parse never reached
/// the transaction, and one that is not run yet leaves it open.
pub open spec fn aborts(code: ErrorCode) -> bool {
    !(code is Parser) && !(code is NotImplemented)
}

impl<C> Ledger<C> {
    /// A catalog outside any transaction.
    pub fn new(catalog: Arc<C>) -> (ledger: Ledger<C>)
        ensures
            ledger.catalog == catalog,
            ledger.open is None,
    {
        Ledger { catalog, open: None }
    }

    /// Whether the open transaction, if there is one, is one a statement failed in.
    pub open spec fn aborted(&self) -> bool {
        self.open matches Some(open) && open.aborted
    }

    /// Whether a transaction is open, which keeps a load from writing the file directly, since a
    /// file that was written cannot be rolled back.
    pub fn transacting(&self) -> (yes: bool)
        ensures
            yes == self.open is Some,
    {
        self.open.is_some()
    }

    /// Whether a statement may run at all. In an aborted transaction only the statement closing it
    /// does.
    pub fn may_run(&self, closing: bool) -> (admitted: Result<(), Error>)
        ensures
            admitted is Ok <==> admits(self.open, closing),
            match admitted {
                Ok(()) => closing || !self.aborted(),
                Err(error) => !closing && self.aborted() && error@ == (Failure {
                    code: ErrorCode::Transaction,
                    message: "Current transaction is aborted (please ROLLBACK)"@,
                    about: About::Nothing,
                }),
            },
    {
        match &self.open {
            Some(open) if open.aborted && !closing => Err(
                Error::transaction("Current transaction is aborted (please ROLLBACK)"),
            ),
            _ => Ok(()),
        }
    }

    /// What a statement's outcome does to the transaction it ran in.
    pub fn settle(&mut self, failed: Option<ErrorCode>)
        ensures
            (final(self).catalog, final(self).open) == after(
                (old(self).catalog, old(self).open),
                Event::Outcome(failed),
            ),
            final(self).catalog == old(self).catalog,
            match old(self).open {
                Some(open) => final(self).open == Some(
                    Open {
                        before: open.before,
                        aborted: open.aborted || (failed matches Some(code) && aborts(code)),
                        read_only: open.read_only,
                    },
                ),
                None => final(self).open is None,
            },
    {
        let abort = match failed {
            Some(code) => match code {
                ErrorCode::Parser | ErrorCode::NotImplemented => false,
                _ => true,
            },
            None => false,
        };
        if abort {
            if let Some(open) = &mut self.open {
                open.aborted = true;
            }
        }
    }

    /// Whether a statement may write, which one in a read only transaction may not.
    pub fn may_write(&self, writes: bool, database: &str) -> (allowed: Result<(), Error>)
        ensures
            allowed is Ok <==> allows(self.open, writes),
            match allowed {
                Ok(()) => !writes || !(self.open matches Some(open) && open.read_only),
                Err(error) => writes && (self.open matches Some(open) && open.read_only) && error@
                    == (Failure {
                    code: ErrorCode::Transaction,
                    message: "Cannot write to database \"\""@ + database@
                        + "\"\" - transaction is launched in read-only mode"@,
                    about: About::Nothing,
                }),
            },
    {
        match &self.open {
            Some(open) if open.read_only && writes => {
                let mut message = "Cannot write to database \"\"".to_owned();
                message.append(database);
                message.append("\"\" - transaction is launched in read-only mode");
                Err(Error { code: ErrorCode::Transaction, message, about: Subject::Nothing })
            },
            _ => Ok(()),
        }
    }

    /// Opens or closes a transaction, with a refusal for the statement that does not fit.
    pub fn transaction(&mut self, kind: Transaction) -> (done: Result<(), Error>)
        ensures
            (final(self).catalog, final(self).open) == after(
                (old(self).catalog, old(self).open),
                Event::Close(kind),
            ),
            match kind {
                Transaction::Begin { read_only } => if old(self).open is None {
                    done is Ok && final(self).catalog == old(self).catalog && final(self).open
                        == Some(
                        Open { before: old(self).catalog, aborted: false, read_only },
                    )
                } else {
                    *final(self) == *old(self) && (done matches Err(error) && error@ == (Failure {
                        code: ErrorCode::Transaction,
                        message: "cannot start a transaction within a transaction"@,
                        about: About::Nothing,
                    }))
                },
                Transaction::Commit => match old(self).open {
                    Some(open) => done is Ok && final(self).open is None && final(self).catalog
                        == if open.aborted {
                        open.before
                    } else {
                        old(self).catalog
                    },
                    None => *final(self) == *old(self) && (done matches Err(error) && error@ == (
                    Failure {
                        code: ErrorCode::Transaction,
                        message: "cannot commit - no transaction is active"@,
                        about: About::Nothing,
                    })),
                },
                Transaction::Rollback => match old(self).open {
                    Some(open) => done is Ok && final(self).open is None && final(self).catalog
                        == open.before,
                    None => *final(self) == *old(self) && (done matches Err(error) && error@ == (
                    Failure {
                        code: ErrorCode::Transaction,
                        message: "cannot rollback - no transaction is active"@,
                        about: About::Nothing,
                    })),
                },
            },
    {
        match kind {
            Transaction::Begin { read_only } => {
                if self.open.is_some() {
                    return Err(
                        Error::transaction("cannot start a transaction within a transaction"),
                    );
                }
                self.open = Some(Open { before: self.catalog.clone(), aborted: false, read_only });
            },
            Transaction::Commit => match &self.open {
                Some(open) => {
                    if open.aborted {
                        self.catalog = open.before.clone();
                    }
                    self.open = None;
                },
                None => {
                    return Err(Error::transaction("cannot commit - no transaction is active"));
                },
            },
            Transaction::Rollback => match &self.open {
                Some(open) => {
                    self.catalog = open.before.clone();
                    self.open = None;
                },
                None => {
                    return Err(Error::transaction("cannot rollback - no transaction is active"));
                },
            },
        }
        Ok(())
    }

    /// What a statement left the catalog as.
    pub fn change(&mut self, catalog: Arc<C>)
        ensures
            (final(self).catalog, final(self).open) == after(
                (old(self).catalog, old(self).open),
                Event::Change(catalog),
            ),
            final(self).catalog == catalog,
            final(self).open == old(self).open,
    {
        self.catalog = catalog;
    }

    /// The catalog the file gets when the database goes away: what an open transaction changed
    /// never committed.
    pub fn last(&self) -> (catalog: Arc<C>)
        ensures
            catalog == last_of((self.catalog, self.open)),
            catalog == match self.open {
                Some(open) => open.before,
                None => self.catalog,
            },
    {
        match &self.open {
            Some(open) => open.before.clone(),
            None => self.catalog.clone(),
        }
    }
}

/// Whether a statement may run in a transaction: none but the one closing it in an aborted one.
pub open spec fn admits<C>(open: Option<Open<C>>, closing: bool) -> bool {
    closing || !(open matches Some(open) && open.aborted)
}

/// Whether a statement may write in a transaction.
pub open spec fn allows<C>(open: Option<Open<C>>, writes: bool) -> bool {
    !writes || !(open matches Some(open) && open.read_only)
}

/// The catalog the file gets when the database goes away.
pub open spec fn last_of<C>(state: (Arc<C>, Option<Open<C>>)) -> Arc<C> {
    match state.1 {
        Some(open) => open.before,
        None => state.0,
    }
}

/// One thing that happens to a ledger.
pub enum Event<C> {
    Change(C),
    Outcome(Option<ErrorCode>),
    Close(Transaction),
}

/// What an event makes of a catalog and the transaction it stands in.
pub open spec fn after<C>(state: (Arc<C>, Option<Open<C>>), event: Event<Arc<C>>) -> (
    Arc<C>,
    Option<Open<C>>,
) {
    match event {
        Event::Change(catalog) => (catalog, state.1),
        Event::Outcome(failed) => (
            state.0,
            match state.1 {
                Some(open) => Some(
                    Open {
                        before: open.before,
                        aborted: open.aborted || (failed matches Some(code) && aborts(code)),
                        read_only: open.read_only,
                    },
                ),
                None => None,
            },
        ),
        Event::Close(Transaction::Begin { read_only }) => match state.1 {
            Some(_) => state,
            None => (
                state.0,
                Some(Open { before: state.0, aborted: false, read_only }),
            ),
        },
        Event::Close(Transaction::Commit) => match state.1 {
            Some(open) => (
                if open.aborted {
                    open.before
                } else {
                    state.0
                },
                None,
            ),
            None => state,
        },
        Event::Close(Transaction::Rollback) => match state.1 {
            Some(open) => (open.before, None),
            None => state,
        },
    }
}

/// What some events make of a catalog, one after another.
pub open spec fn after_all<C>(
    state: (Arc<C>, Option<Open<C>>),
    events: Seq<Event<Arc<C>>>,
) -> (Arc<C>, Option<Open<C>>)
    decreases events.len(),
{
    if events.len() == 0 {
        state
    } else {
        after(after_all(state, events.drop_last()), events.last())
    }
}

/// Whether an event closes no transaction.
pub open spec fn stays_open<C>(event: Event<Arc<C>>) -> bool {
    !(event matches Event::Close(Transaction::Commit)) && !(event matches Event::Close(
        Transaction::Rollback,
    ))
}

/// Whatever statements did inside a transaction, what it keeps to go back to is the catalog it
/// began with.
pub proof fn lemma_before_is_kept<C>(catalog: Arc<C>, read_only: bool, events: Seq<Event<Arc<C>>>)
    requires
        forall|i: int| 0 <= i < events.len() ==> stays_open(#[trigger] events[i]),
    ensures
        after_all(
            (catalog, Some(Open { before: catalog, aborted: false, read_only })),
            events,
        ).1 matches Some(open) && open.before == catalog && open.read_only == read_only,
    decreases events.len(),
{
    if events.len() > 0 {
        assert forall|i: int| 0 <= i < events.drop_last().len() implies stays_open(
            #[trigger] events.drop_last()[i],
        ) by {
            assert(stays_open(events[i]));
        }
        lemma_before_is_kept(catalog, read_only, events.drop_last());
        assert(stays_open(events[events.len() - 1]));
    }
}

/// A transaction that is rolled back leaves the catalog as it found it, whatever ran inside it.
pub proof fn law_rollback_undoes_everything<C>(
    catalog: Arc<C>,
    read_only: bool,
    events: Seq<Event<Arc<C>>>,
)
    requires
        forall|i: int| 0 <= i < events.len() ==> stays_open(#[trigger] events[i]),
    ensures
        ({
            let begun = after((catalog, None), Event::Close(Transaction::Begin { read_only }));
            after(after_all(begun, events), Event::Close(Transaction::Rollback)) == (
                catalog,
                None::<Open<C>>,
            )
        }),
{
    lemma_before_is_kept(catalog, read_only, events);
}

/// A transaction a statement failed in is rolled back by committing it as well.
pub proof fn law_a_failed_transaction_cannot_commit<C>(
    catalog: Arc<C>,
    read_only: bool,
    events: Seq<Event<Arc<C>>>,
    at: int,
)
    requires
        forall|i: int| 0 <= i < events.len() ==> stays_open(#[trigger] events[i]),
        0 <= at < events.len(),
        events[at] matches Event::Outcome(Some(code)) && aborts(code),
    ensures
        ({
            let begun = after((catalog, None), Event::Close(Transaction::Begin { read_only }));
            after(after_all(begun, events), Event::Close(Transaction::Commit)) == (
                catalog,
                None::<Open<C>>,
            )
        }),
{
    lemma_before_is_kept(catalog, read_only, events);
    lemma_abort_lasts(catalog, read_only, events, at);
}

/// A statement that fails for any reason but that it did not parse or is not run yet aborts the
/// transaction it ran in. From then on, whatever comes before the transaction is closed, no other
/// statement runs in it, and both ways of closing it put back the catalog it began with.
pub proof fn law_a_failed_statement_dooms_its_transaction<C>(
    catalog: Arc<C>,
    read_only: bool,
    events: Seq<Event<Arc<C>>>,
    at: int,
    code: ErrorCode,
)
    requires
        forall|i: int|
            0 <= i < events.len() ==> events[i] != Event::<Arc<C>>::Close(Transaction::Commit)
                && events[i] != Event::<Arc<C>>::Close(Transaction::Rollback),
        0 <= at < events.len(),
        events[at] == Event::<Arc<C>>::Outcome(Some(code)),
        code is Internal || code is Conversion || code is Constraint || code is Transaction
            || code is InvalidInput || code is Io,
    ensures
        ({
            let begun = after(
                (catalog, None::<Open<C>>),
                Event::Close(Transaction::Begin { read_only }),
            );
            let ran = after_all(begun, events);
            &&& !admits(ran.1, false)
            &&& admits(ran.1, true)
            &&& after(ran, Event::Close(Transaction::Commit)) == (catalog, None::<Open<C>>)
            &&& after(ran, Event::Close(Transaction::Rollback)) == (catalog, None::<Open<C>>)
            &&& last_of(ran) == catalog
        }),
{
    assert forall|i: int| 0 <= i < events.len() implies stays_open(#[trigger] events[i]) by {
        assert(events[i] != Event::<Arc<C>>::Close(Transaction::Commit) && events[i] != Event::<
            Arc<C>,
        >::Close(Transaction::Rollback));
    }
    lemma_before_is_kept(catalog, read_only, events);
    lemma_abort_lasts(catalog, read_only, events, at);
}

/// A statement that ran, one that did not parse and one that is not run yet all leave the
/// transaction as it was, and no outcome touches the catalog or a transaction that is not open.
pub proof fn law_other_outcomes_leave_the_transaction<C>(
    catalog: Arc<C>,
    open: Option<Open<C>>,
    code: ErrorCode,
)
    ensures
        after((catalog, open), Event::Outcome(None)) == (catalog, open),
        code is Parser || code is NotImplemented ==> after(
            (catalog, open),
            Event::Outcome(Some(code)),
        ) == (catalog, open),
        after((catalog, None::<Open<C>>), Event::Outcome(Some(code))) == (
            catalog,
            None::<Open<C>>,
        ),
{
}

/// A transaction in which every statement ran commits what the last of them left, and until then the
/// file would get the catalog it began with.
pub proof fn law_a_clean_transaction_commits_its_last_change<C>(
    catalog: Arc<C>,
    read_only: bool,
    events: Seq<Event<Arc<C>>>,
    changed: Arc<C>,
)
    requires
        forall|i: int|
            0 <= i < events.len() ==> events[i] is Change || events[i] == Event::<
                Arc<C>,
            >::Outcome(None),
    ensures
        ({
            let begun = after(
                (catalog, None::<Open<C>>),
                Event::Close(Transaction::Begin { read_only }),
            );
            let ran = after(after_all(begun, events), Event::Change(changed));
            &&& admits(ran.1, false)
            &&& allows(ran.1, true) == !read_only
            &&& allows(ran.1, false)
            &&& last_of(ran) == catalog
            &&& after(ran, Event::Close(Transaction::Commit)) == (changed, None::<Open<C>>)
            &&& last_of(after(ran, Event::Close(Transaction::Commit))) == changed
        }),
    decreases events.len(),
{
    lemma_clean(catalog, read_only, events);
}

proof fn lemma_clean<C>(catalog: Arc<C>, read_only: bool, events: Seq<Event<Arc<C>>>)
    requires
        forall|i: int|
            0 <= i < events.len() ==> events[i] is Change || events[i] == Event::<
                Arc<C>,
            >::Outcome(None),
    ensures
        after_all(
            (catalog, Some(Open { before: catalog, aborted: false, read_only })),
            events,
        ).1 == Some(Open { before: catalog, aborted: false, read_only }),
    decreases events.len(),
{
    if events.len() > 0 {
        assert forall|i: int| 0 <= i < events.drop_last().len() implies events.drop_last()[i] is Change
            || events.drop_last()[i] == Event::<Arc<C>>::Outcome(None) by {
            assert(events[i] is Change || events[i] == Event::<Arc<C>>::Outcome(None));
        }
        lemma_clean(catalog, read_only, events.drop_last());
        let last = events[events.len() - 1];
        assert(last is Change || last == Event::<Arc<C>>::Outcome(None));
    }
}

/// Outside a transaction every statement runs, may write, and is kept at once.
pub proof fn law_outside_a_transaction_nothing_is_held_back<C>(
    catalog: Arc<C>,
    changed: Arc<C>,
    flag: bool,
)
    ensures
        admits(None::<Open<C>>, flag),
        allows(None::<Open<C>>, flag),
        last_of(after((catalog, None::<Open<C>>), Event::Change(changed))) == changed,
        after((catalog, None::<Open<C>>), Event::Close(Transaction::Commit)) == (
            catalog,
            None::<Open<C>>,
        ),
        after((catalog, None::<Open<C>>), Event::Close(Transaction::Rollback)) == (
            catalog,
            None::<Open<C>>,
        ),
{
}

/// A transaction begun inside another changes nothing, and a transaction begun read only lets nothing
/// be written while it is open.
pub proof fn law_a_transaction_does_not_nest<C>(
    catalog: Arc<C>,
    open: Open<C>,
    read_only: bool,
)
    ensures
        after((catalog, Some(open)), Event::Close(Transaction::Begin { read_only })) == (
            catalog,
            Some(open),
        ),
        open.read_only ==> !allows(Some(open), true),
{
}

proof fn lemma_abort_lasts<C>(
    catalog: Arc<C>,
    read_only: bool,
    events: Seq<Event<Arc<C>>>,
    at: int,
)
    requires
        forall|i: int| 0 <= i < events.len() ==> stays_open(#[trigger] events[i]),
        0 <= at < events.len(),
        events[at] matches Event::Outcome(Some(code)) && aborts(code),
    ensures
        after_all(
            (catalog, Some(Open { before: catalog, aborted: false, read_only })),
            events,
        ).1 matches Some(open) && open.aborted,
    decreases events.len(),
{
    let fewer = events.drop_last();
    assert forall|i: int| 0 <= i < fewer.len() implies stays_open(#[trigger] fewer[i]) by {
        assert(stays_open(events[i]));
    }
    lemma_before_is_kept(catalog, read_only, fewer);
    assert(stays_open(events[events.len() - 1]));
    if at < events.len() - 1 {
        lemma_abort_lasts(catalog, read_only, fewer, at);
    }
}

/// While a transaction is open the last catalog that was committed is the one from before it, and
/// otherwise it is the catalog.
pub proof fn law_the_last_catalog_is_the_committed_one<C>(
    ledger: &Ledger<C>,
    transacting: bool,
    last: Arc<C>,
)
    requires
        call_ensures(Ledger::<C>::transacting, (ledger,), transacting),
        call_ensures(Ledger::<C>::last, (ledger,), last),
    ensures
        transacting <==> ledger.open is Some,
        transacting ==> last == (ledger.open->Some_0).before,
        !transacting ==> last == ledger.catalog,
{
}

/// In a transaction a statement failed in only its end may run, and in one that only reads nothing may
/// be written. Both are refused as a transaction's errors are.
pub proof fn law_a_doomed_transaction_may_only_end<C>(
    ledger: &Ledger<C>,
    closing: bool,
    admitted: Result<(), Error>,
    writes: bool,
    database: &str,
    allowed: Result<(), Error>,
)
    requires
        call_ensures(Ledger::<C>::may_run, (ledger, closing), admitted),
        call_ensures(Ledger::<C>::may_write, (ledger, writes, database), allowed),
    ensures
        admitted is Err <==> !closing && ledger.open is Some && (ledger.open->Some_0).aborted,
        allowed is Err <==> writes && ledger.open is Some && (ledger.open->Some_0).read_only,
        admitted is Err ==> admitted->Err_0@.code is Transaction,
        allowed is Err ==> allowed->Err_0@.code is Transaction,
{
}

} // verus!
