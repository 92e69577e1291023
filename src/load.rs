use vstd::prelude::*;

use crate::error::LoadError;

verus! {

/// A step of the replace-load transaction, as a store connection runs it.
#[derive(Debug, Clone, Copy, PartialEq, Eq, Structural)]
pub enum LoadStep {
    /// Open the transaction.
    Begin,
    /// Delete every row of the table.
    DeleteAll,
    /// Insert the record at this index of the input.
    Insert(usize),
    /// Commit the transaction.
    Commit,
    /// Roll the transaction back.
    Rollback,
    /// Nothing is left to do.
    Done,
}

/// The step after `step` when it `succeeded` or not, for a load of `n` records.
/// A failure once the transaction is open always leads to a rollback; the commit
/// comes only after the delete and every insert, in input order, succeeded.
pub open spec fn next_step(step: LoadStep, n: int, succeeded: bool) -> LoadStep {
    match step {
        LoadStep::Begin => if succeeded {
            LoadStep::DeleteAll
        } else {
            LoadStep::Done
        },
        LoadStep::DeleteAll => if !succeeded {
            LoadStep::Rollback
        } else if n == 0 {
            LoadStep::Commit
        } else {
            LoadStep::Insert(0)
        },
        LoadStep::Insert(i) => if !succeeded {
            LoadStep::Rollback
        } else if i + 1 < n {
            LoadStep::Insert((i + 1) as usize)
        } else {
            LoadStep::Commit
        },
        LoadStep::Commit => LoadStep::Done,
        LoadStep::Rollback => LoadStep::Done,
        LoadStep::Done => LoadStep::Done,
    }
}

/// Decides the step of a load of `n` records that follows `step`.
pub fn next_load_step(step: LoadStep, n: usize, succeeded: bool) -> (r: LoadStep)
    ensures
        r == next_step(step, n as int, succeeded),
{
    match step {
        LoadStep::Begin => if succeeded {
            LoadStep::DeleteAll
        } else {
            LoadStep::Done
        },
        LoadStep::DeleteAll => if !succeeded {
            LoadStep::Rollback
        } else if n == 0 {
            LoadStep::Commit
        } else {
            LoadStep::Insert(0)
        },
        LoadStep::Insert(i) => if !succeeded {
            LoadStep::Rollback
        } else if n > 0 && i < n - 1 {
            LoadStep::Insert(i + 1)
        } else {
            LoadStep::Commit
        },
        LoadStep::Commit => LoadStep::Done,
        LoadStep::Rollback => LoadStep::Done,
        LoadStep::Done => LoadStep::Done,
    }
}

/// The error a load reports when `step` failed with the store's `message`:
/// a connection error when the transaction could not be opened, a write error otherwise.
pub fn load_failure(step: LoadStep, message: String) -> (r: LoadError)
    ensures
        step == LoadStep::Begin ==> r == LoadError::Connection(message),
        step != LoadStep::Begin ==> r == LoadError::Write(message),
{
    match step {
        LoadStep::Begin => LoadError::Connection(message),
        _ => LoadError::Write(message),
    }
}

/// The step reached from `step` after `k` successful steps.
pub open spec fn after_successes(step: LoadStep, n: int, k: nat) -> LoadStep
    decreases k,
{
    if k == 0 {
        step
    } else {
        after_successes(next_step(step, n, true), n, (k - 1) as nat)
    }
}

proof fn lemma_inserts_succeed(n: int, i: int, k: nat)
    requires
        0 <= i < n <= usize::MAX,
        i + k < n,
    ensures
        after_successes(LoadStep::Insert(i as usize), n, k) == LoadStep::Insert((i + k) as usize),
    decreases k,
{
    if k > 0 {
        lemma_inserts_succeed(n, i + 1, (k - 1) as nat);
    }
}

/// When every step succeeds, a load of `n` records opens the transaction,
/// deletes, makes the `n` inserts in input order, and then commits:
/// the commit is step `n + 2`, and no earlier step commits or rolls back.
pub proof fn lemma_successful_load_commits(n: int)
    requires
        0 <= n <= usize::MAX,
    ensures
        after_successes(LoadStep::Begin, n, (n + 2) as nat) == LoadStep::Commit,
        after_successes(LoadStep::Begin, n, 1) == LoadStep::DeleteAll,
        forall|i: int|
            0 <= i < n ==> #[trigger] after_successes(LoadStep::Begin, n, (i + 2) as nat)
                == LoadStep::Insert(i as usize),
{
    assert(after_successes(LoadStep::Begin, n, 1) == after_successes(LoadStep::DeleteAll, n, 0));
    assert forall|i: int| 0 <= i < n implies #[trigger] after_successes(LoadStep::Begin, n, (i + 2) as nat)
        == LoadStep::Insert(i as usize) by {
        assert(after_successes(LoadStep::Begin, n, (i + 2) as nat) == after_successes(
            LoadStep::DeleteAll,
            n,
            (i + 1) as nat,
        ));
        assert(after_successes(LoadStep::DeleteAll, n, (i + 1) as nat) == after_successes(
            LoadStep::Insert(0),
            n,
            i as nat,
        ));
        lemma_inserts_succeed(n, 0, i as nat);
    }
    assert(after_successes(LoadStep::Begin, n, (n + 2) as nat) == after_successes(
        LoadStep::DeleteAll,
        n,
        (n + 1) as nat,
    ));
    if n == 0 {
        assert(after_successes(LoadStep::DeleteAll, n, 1) == after_successes(
            LoadStep::Commit,
            n,
            0,
        ));
    } else {
        assert(after_successes(LoadStep::DeleteAll, n, (n + 1) as nat) == after_successes(
            LoadStep::Insert(0),
            n,
            n as nat,
        ));
        lemma_inserts_succeed(n, 0, (n - 1) as nat);
        assert(after_successes(LoadStep::Insert(0), n, n as nat) == after_successes(
            LoadStep::Insert((n - 1) as usize),
            n,
            1,
        )) by {
            lemma_after_successes_split(LoadStep::Insert(0), n, (n - 1) as nat, 1);
        }
        assert(after_successes(LoadStep::Insert((n - 1) as usize), n, 1) == after_successes(
            LoadStep::Commit,
            n,
            0,
        ));
    }
}

proof fn lemma_after_successes_split(step: LoadStep, n: int, a: nat, b: nat)
    ensures
        after_successes(step, n, a + b) == after_successes(after_successes(step, n, a), n, b),
    decreases a,
{
    if a > 0 {
        lemma_after_successes_split(next_step(step, n, true), n, (a - 1) as nat, b);
    }
}

} // verus!
