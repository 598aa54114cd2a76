//! Running statements on a connection: in autocommit, or inside a
//! transaction.
use vstd::prelude::*;

use crate::error::Error;
use crate::query::ast::{Statement, StatementV};
use crate::query::executor::{execute_statement, meets, QueryResult};
use crate::query::semantics::{affected, defines, executed, holds_back, is_write};
use crate::query::variables::SystemVariables;
use crate::storage::api::{inserts, io_failure, same_but_counters, Storage};
use crate::storage::log::PlacedRow;
use crate::storage::model::StoreV;
use crate::storage::transaction::{fits_on, overlay, Suspended, Transaction};

verus! {

/// What a connection's statements run against.
pub enum Work<S: Storage> {
    /// Autocommit: the store itself.
    Direct(S),
    /// Between `BEGIN` and the matching `COMMIT` or `ROLLBACK`.
    Open(Transaction<S>),
}

impl<S: Storage> Work<S> {
    /// What the connection sees.
    pub open spec fn model(self) -> StoreV {
        match self {
            Work::Direct(s) => s.model(),
            Work::Open(t) => t.model(),
        }
    }

    /// The store below.
    pub open spec fn base(self) -> S {
        match self {
            Work::Direct(s) => s,
            Work::Open(t) => t.base(),
        }
    }

    /// The rows that are not committed yet.
    pub open spec fn pending(self) -> Seq<PlacedRow> {
        match self {
            Work::Direct(_) => Seq::empty(),
            Work::Open(t) => t.rows(),
        }
    }

    /// The tables that the open transaction holds the lock of.
    pub open spec fn locks(self) -> Seq<Seq<char>> {
        match self {
            Work::Direct(_) => Seq::empty(),
            Work::Open(t) => t.locks(),
        }
    }

    /// Whether everything is in good order.
    pub open spec fn wf(self) -> bool {
        match self {
            Work::Direct(s) => s.wf(),
            Work::Open(t) => t.wf(),
        }
    }

    /// Whether a transaction is open.
    pub open spec fn is_open(self) -> bool {
        self is Open
    }
}

/// Put a connection to work on a store: with the transaction that it had set
/// aside, if it had one.
pub fn attach<S: Storage>(storage: S, aside: Option<Suspended>) -> (r: Work<S>)
    requires
        storage.wf(),
        aside matches Some(t) ==> fits_on(storage.model(), t.rows()),
    ensures
        r.wf(),
        r.base() == storage,
        match aside {
            None => r == Work::Direct(storage),
            Some(t) => r.is_open() && r.pending() == t.rows() && r.locks() == t.locks()
                && r.model() == overlay(storage.model(), t.rows()),
        },
{
    match aside {
        None => Work::Direct(storage),
        Some(t) => Work::Open(Transaction::resume(storage, t)),
    }
}

/// Take a connection off its store, setting its transaction aside if it has
/// one open.
pub fn detach<S: Storage>(work: Work<S>) -> (r: (S, Option<Suspended>))
    requires
        work.wf(),
    ensures
        r.0.wf(),
        r.0 == work.base(),
        r.1 is Some == work.is_open(),
        r.1 matches Some(t) ==> t.rows() == work.pending() && t.locks() == work.locks()
            && fits_on(r.0.model(), t.rows()) && work.model() == overlay(r.0.model(), t.rows()),
{
    match work {
        Work::Direct(s) => (s, None),
        Work::Open(t) => {
            let (s, aside) = t.suspend();
            (s, Some(aside))
        },
    }
}

/// Whether `after` is what committing `before` leaves, with the outcome `r`:
/// every pending row goes in as one batch, or a failure outside the store
/// leaves none of them. The transaction is over either way.
pub open spec fn committed<S: Storage>(before: Work<S>, after: S, r: Result<(), Error>) -> bool {
    match before {
        Work::Direct(s) => after == s && r is Ok,
        Work::Open(t) => {
            &&& after.wf()
            &&& S::volatile() ==> !io_failure(r)
            &&& io_failure(r) || r is Ok
            &&& inserts(
                r,
                t.base().model(),
                after.model(),
                t.base().model().insert_batch(t.rows(), S::buffered()),
            )
            &&& r is Ok ==> same_but_counters(after.model(), t.model())
        },
    }
}

/// Commit the open transaction, if there is one, and hand the store back.
pub fn finish<S: Storage>(work: Work<S>) -> (r: (S, Result<(), Error>))
    requires
        work.wf(),
    ensures
        r.0.wf(),
        committed(work, r.0, r.1),
{
    match work {
        Work::Direct(s) => (s, Ok(())),
        Work::Open(t) => {
            let (outcome, s) = t.commit();
            (s, outcome)
        },
    }
}

/// Discard the open transaction, if there is one, and hand the store back.
pub fn abandon<S: Storage>(work: Work<S>) -> (r: S)
    requires
        work.wf(),
    ensures
        r == work.base(),
        r.wf(),
{
    match work {
        Work::Direct(s) => s,
        Work::Open(t) => t.rollback(),
    }
}

/// Whether an outcome is plain success or the failure of a commit.
pub open spec fn acknowledges(r: Result<QueryResult, Error>, commit: Result<(), Error>) -> bool {
    match commit {
        Ok(_) => r matches Ok(q) && q@ == affected(0),
        Err(e) => r matches Err(x) && x == e,
    }
}

/// Whether a statement ends the transaction that is open, if one is.
pub open spec fn ends_transaction(st: StatementV) -> bool {
    st is Begin || st is Commit || st is Rollback
}

/// Whether every row that waits for its commit goes to a locked table.
pub open spec fn covered(rows: Seq<PlacedRow>, locks: Seq<Seq<char>>) -> bool {
    forall|i: int| 0 <= i < rows.len() ==> locks.contains((#[trigger] rows[i]).table)
}

/// Whether a statement may run as far as locks go: what it inserts into is
/// locked, if its rows are going to wait.
pub open spec fn may_run<S: Storage>(work: Work<S>, st: StatementV) -> bool {
    match st {
        StatementV::Insert { table, .. } => work.is_open() ==> work.locks().contains(table),
        _ => true,
    }
}

/// Whether the locks are let go once a statement has run: always in
/// autocommit, and in a transaction when the statement ends it.
pub open spec fn lets_go<S: Storage>(work: Work<S>, st: StatementV) -> bool {
    !work.is_open() || ends_transaction(st)
}

/// Run a statement: transaction control is handled here, everything else goes
/// to the executor. `BEGIN` inside a transaction commits that one first.
pub fn run<S: Storage>(work: Work<S>, vars: &SystemVariables, statement: Statement) -> (r: (
    Work<S>,
    Result<QueryResult, Error>,
))
    requires
        work.wf(),
    ensures
        r.0.wf(),
        statement@ is Begin ==> exists|s: S, c: Result<(), Error>|
            #![trigger committed(work, s, c)]
            {
                &&& committed(work, s, c)
                &&& acknowledges(r.1, c)
                &&& r.0.base() == s
                &&& r.0.is_open() == (c is Ok)
                &&& r.0.pending() == Seq::<PlacedRow>::empty()
                &&& r.0.locks() == Seq::<Seq<char>>::empty()
                &&& r.0.model() == s.model()
            },
        statement@ is Commit ==> exists|s: S, c: Result<(), Error>|
            #![trigger committed(work, s, c)]
            committed(work, s, c) && acknowledges(r.1, c) && r.0 == Work::Direct(s),
        statement@ is Rollback ==> r.0 == Work::Direct(work.base()) && (r.1 matches Ok(q) && q@
            == affected(0)),
        r.0.locks() == (if lets_go(work, statement@) {
            Seq::empty()
        } else {
            work.locks()
        }),
        may_run(work, statement@) && covered(work.pending(), work.locks()) ==> covered(
            r.0.pending(),
            r.0.locks(),
        ),
        !ends_transaction(statement@) ==> {
            &&& r.0.is_open() == work.is_open()
            &&& work.is_open() ==> holds_back(statement@, work.pending(), r.0.pending())
            &&& io_failure(r.1) ==> is_write(statement@) && !S::volatile()
            &&& meets(
                r.1,
                r.0.model(),
                executed(
                    statement@,
                    work.model(),
                    vars@,
                    if work.is_open() {
                        true
                    } else {
                        S::buffered()
                    },
                ),
            )
            &&& !is_write(statement@) ==> r.0 == work
            &&& work.is_open() && statement@ is Insert ==> same_but_counters(
                r.0.base().committed(),
                work.base().committed(),
            )
            &&& work.is_open() && defines(statement@) ==> meets(
                r.1,
                r.0.base().committed(),
                executed(statement@, work.base().committed(), vars@, true),
            )
        },
{
    match &statement {
        Statement::Begin => {
            let (s, outcome) = finish(work);
            match outcome {
                Ok(()) => {
                    let t = Transaction::new(s);
                    (Work::Open(t), Ok(QueryResult::default()))
                },
                Err(e) => (Work::Direct(s), Err(e)),
            }
        },
        Statement::Commit => {
            let (s, outcome) = finish(work);
            match outcome {
                Ok(()) => (Work::Direct(s), Ok(QueryResult::default())),
                Err(e) => (Work::Direct(s), Err(e)),
            }
        },
        Statement::Rollback => (Work::Direct(abandon(work)), Ok(QueryResult::default())),
        _ => match work {
            Work::Direct(s) => {
                let mut store = s;
                let outcome = execute_statement(&mut store, vars, statement);
                (Work::Direct(store), outcome)
            },
            Work::Open(t) => {
                let mut tx = t;
                let ghost st = statement@;
                let outcome = execute_statement(&mut tx, vars, statement);
                proof {
                    if may_run(work, st) && covered(t.rows(), t.locks()) {
                        lemma_still_covered(st, t.rows(), tx.rows(), t.locks());
                    }
                }
                (Work::Open(tx), outcome)
            },
        },
    }
}

proof fn lemma_still_covered(
    st: StatementV,
    before: Seq<PlacedRow>,
    after: Seq<PlacedRow>,
    locks: Seq<Seq<char>>,
)
    requires
        covered(before, locks),
        holds_back(st, before, after),
        st matches StatementV::Insert { table, .. } ==> locks.contains(table),
    ensures
        covered(after, locks),
{
    assert forall|i: int| 0 <= i < after.len() implies locks.contains((#[trigger] after[i]).table) by {
        if i < before.len() {
            assert(after.take(before.len() as int)[i] == after[i]);
            assert(locks.contains(before[i].table));
        }
    }
}

/// Whether the locks that are held are let go once `statement` has run.
pub fn locks_released<S: Storage>(work: &Work<S>, statement: &Statement) -> (r: bool)
    ensures
        r == lets_go(*work, statement@),
{
    match work {
        Work::Direct(_) => true,
        Work::Open(_) => match statement {
            Statement::Begin | Statement::Commit | Statement::Rollback => true,
            _ => false,
        },
    }
}

/// The table whose write lock a statement needs before it runs: the target of
/// an `INSERT`, unless the open transaction holds that lock already.
pub fn lock_wanted<S: Storage>(work: &Work<S>, statement: &Statement) -> (r: Option<String>)
    ensures
        match statement@ {
            StatementV::Insert { table, .. } => match *work {
                Work::Direct(_) => r matches Some(t) && t@ == table,
                Work::Open(tx) => if tx.locks().contains(table) {
                    r is None
                } else {
                    r matches Some(t) && t@ == table
                },
            },
            _ => r is None,
        },
        r is None ==> may_run(*work, statement@),
{
    match statement {
        Statement::Insert { table, .. } => match work {
            Work::Direct(_) => Some(table.clone()),
            Work::Open(tx) => {
                if tx.needs_lock(table.as_str()) {
                    Some(table.clone())
                } else {
                    None
                }
            },
        },
        _ => None,
    }
}

/// Remember a lock that was acquired, for as long as the transaction lasts.
pub fn lock_held<S: Storage>(work: Work<S>, table: &str) -> (r: Work<S>)
    requires
        work.wf(),
    ensures
        r.wf(),
        r.model() == work.model(),
        r.base() == work.base(),
        r.pending() == work.pending(),
        r.is_open() == work.is_open(),
        r.locks() == (if work.is_open() && !work.locks().contains(table@) {
            work.locks().push(table@)
        } else {
            work.locks()
        }),
        forall|t: Seq<char>| #[trigger] work.locks().contains(t) ==> r.locks().contains(t),
        work.is_open() ==> r.locks().contains(table@),
        work matches Work::Direct(_) ==> r == work,
{
    match work {
        Work::Direct(s) => Work::Direct(s),
        Work::Open(t) => {
            let mut tx = t;
            tx.note_locked(table);
            proof {
                let more = t.locks().push(table@);
                assert(more[t.locks().len() as int] == table@);
                assert forall|x: Seq<char>| #[trigger] t.locks().contains(x) implies more.contains(
                    x,
                ) by {
                    assert(more[t.locks().index_of(x)] == x);
                }
            }
            Work::Open(tx)
        },
    }
}

} // verus!
