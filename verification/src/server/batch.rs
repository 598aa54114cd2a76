//! The statements of one query, run one after the other.
use vstd::prelude::*;

use crate::query::ast::{Statement, StatementV};
use crate::seqs::views;

verus! {

broadcast use crate::seqs::group_views;

/// What is left of a query: a failing statement ends it, and the rest are
/// skipped.
#[derive(Debug)]
pub struct Batch {
    /// The statements that are left, the next one last.
    left: Vec<Statement>,
    failed: bool,
}

/// The content of a [`Batch`].
pub ghost struct BatchV {
    /// The statements that are left, in order.
    pub left: Seq<StatementV>,
    pub failed: bool,
}

impl View for Batch {
    type V = BatchV;

    closed spec fn view(&self) -> BatchV {
        BatchV { left: views(self.left@).reverse(), failed: self.failed }
    }
}

impl BatchV {
    /// What to run next, and what is left then.
    pub open spec fn next(self) -> Option<(StatementV, BatchV)> {
        if self.failed || self.left.len() == 0 {
            None
        } else {
            Some((self.left[0], BatchV { left: self.left.drop_first(), ..self }))
        }
    }

    /// Whether another result follows the one of the statement that has just
    /// been run.
    pub open spec fn more_after(self, failed: bool) -> bool {
        !failed && self.left.len() > 0
    }

    /// The batch once the outcome of a statement is known.
    pub open spec fn settled(self, failed: bool) -> BatchV {
        BatchV { failed: self.failed || failed, ..self }
    }
}

impl Batch {
    pub fn new(statements: Vec<Statement>) -> (r: Self)
        ensures
            r@ == (BatchV { left: views(statements@), failed: false }),
    {
        let mut rest = statements;
        let mut left: Vec<Statement> = Vec::new();
        let ghost all = statements@;
        while rest.len() > 0
            invariant
                rest@ + left@.reverse() == all,
            decreases rest@.len(),
        {
            let ghost before = rest@ + left@.reverse();
            if let Some(s) = rest.pop() {
                left.push(s);
            }
            proof {
                assert(rest@ + left@.reverse() =~= before);
            }
        }
        proof {
            assert(left@.reverse() =~= all);
            assert(views(left@).reverse() =~= views(all));
        }
        Batch { left, failed: false }
    }

    /// The next statement to run, if there is one.
    pub fn next(&mut self) -> (r: Option<Statement>)
        ensures
            match old(self)@.next() {
                None => r is None && final(self)@ == old(self)@,
                Some((s, after)) => r matches Some(x) && x@ == s && final(self)@ == after,
            },
    {
        if self.failed {
            return None;
        }
        let ghost before = self.left@;
        let next = self.left.pop();
        proof {
            if before.len() > 0 {
                assert(views(before).reverse().drop_first() =~= views(self.left@).reverse());
            }
        }
        next
    }

    /// The statement has succeeded or failed: returns whether another result
    /// follows its own.
    pub fn settle(&mut self, failed: bool) -> (r: bool)
        ensures
            r == old(self)@.more_after(failed),
            final(self)@ == old(self)@.settled(failed),
    {
        if failed {
            self.failed = true;
        }
        !failed && self.left.len() > 0
    }
}

/// The results of a batch, in order: for each whether it is announced that
/// another follows. `outcomes` says for each statement whether it fails.
pub open spec fn announcements(batch: BatchV, outcomes: Seq<bool>) -> Seq<bool>
    decreases batch.left.len(),
{
    if outcomes.len() == 0 {
        Seq::empty()
    } else {
        match batch.next() {
            None => Seq::empty(),
            Some((_, after)) => seq![after.more_after(outcomes[0])] + announcements(
                after.settled(outcomes[0]),
                outcomes.drop_first(),
            ),
        }
    }
}

/// A client that reads on as long as another result is announced reads all of
/// a batch's results and no more: each is announced but the first, the batch
/// ends with the first failure, and without one every statement is run.
pub proof fn law_announcements_are_kept(batch: BatchV, outcomes: Seq<bool>)
    requires
        !batch.failed,
        batch.left.len() > 0,
        outcomes.len() == batch.left.len(),
    ensures
        ({
            let a = announcements(batch, outcomes);
            &&& 0 < a.len() <= batch.left.len()
            &&& forall|i: int| 0 <= i < a.len() ==> #[trigger] a[i] == (i + 1 < a.len())
            &&& forall|i: int| 0 <= i < a.len() - 1 ==> !#[trigger] outcomes[i]
            &&& a.len() < batch.left.len() ==> outcomes[a.len() - 1]
        }),
    decreases batch.left.len(),
{
    let a = announcements(batch, outcomes);
    let after = batch.next()->Some_0.1;
    let rest = announcements(after.settled(outcomes[0]), outcomes.drop_first());
    assert(a =~= seq![after.more_after(outcomes[0])] + rest);
    if outcomes[0] || batch.left.len() == 1 {
        assert(rest.len() == 0);
    } else {
        law_announcements_are_kept(after, outcomes.drop_first());
        assert(after.settled(false) == after);
        assert forall|i: int| 0 <= i < a.len() implies #[trigger] a[i] == (i + 1 < a.len()) by {
            if i > 0 {
                assert(a[i] == rest[i - 1]);
            }
        }
        assert forall|i: int| 0 <= i < a.len() - 1 implies !#[trigger] outcomes[i] by {
            if i > 0 {
                assert(outcomes[i] == outcomes.drop_first()[i - 1]);
            }
        }
        assert(outcomes.drop_first()[rest.len() - 1] == outcomes[a.len() - 1]);
    }
}

} // verus!
