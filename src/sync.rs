//! What the synchronisation runner decides: the arguments of the transfer
//! tool, the outcome of each run and of the whole batch.

use vstd::prelude::*;

use crate::profile::ProfileSync;

verus! {

/// Why one synchronisation failed.
#[derive(Debug, Clone, PartialEq, Eq)]
pub enum SyncError {
    /// The transfer tool could not be started; holds the reason.
    Spawn(String),
    /// The transfer tool ended without success; holds its exit code, if any.
    Exit(Option<i32>),
}

/// The arguments of the transfer tool: archive mode, delete what the target
/// has beyond the source, then the source and the target as given.
pub open spec fn transfer_args(s: ProfileSync) -> Seq<Seq<char>> {
    seq![seq!['-', 'a'], seq!['-', '-', 'd', 'e', 'l', 'e', 't', 'e'], s.source@, s.target@]
}

/// The arguments that run rsync for one synchronisation.
pub fn rsync_args(sync: &ProfileSync) -> (r: Vec<String>)
    ensures
        r@.map_values(|a: String| a@) == transfer_args(*sync),
{
    proof {
        reveal_strlit("-a");
        reveal_strlit("--delete");
    }
    let mut r: Vec<String> = Vec::new();
    let a = "-a".to_owned();
    let d = "--delete".to_owned();
    assert(a@ =~= seq!['-', 'a']);
    assert(d@ =~= seq!['-', '-', 'd', 'e', 'l', 'e', 't', 'e']);
    r.push(a);
    r.push(d);
    r.push(sync.source.clone());
    r.push(sync.target.clone());
    assert(r@.map_values(|a: String| a@) =~= transfer_args(*sync));
    r
}

/// The outcome of one run of the tool: it could not be started
/// (`spawn_error`), or it ended, with `success` and an exit `code`.
pub fn task_result(spawn_error: Option<String>, success: bool, code: Option<i32>) -> (r: Result<
    (),
    SyncError,
>)
    ensures
        match spawn_error {
            Some(m) => r == Err::<(), SyncError>(SyncError::Spawn(m)),
            None => if success {
                r is Ok
            } else {
                r == Err::<(), SyncError>(SyncError::Exit(code))
            },
        },
{
    match spawn_error {
        Some(m) => Err(SyncError::Spawn(m)),
        None => if success {
            Ok(())
        } else {
            Err(SyncError::Exit(code))
        },
    }
}

/// The word shown beside a finished synchronisation.
pub open spec fn status_word(r: Result<(), SyncError>) -> Seq<char> {
    if r is Ok {
        seq!['d', 'o', 'n', 'e']
    } else {
        seq!['f', 'a', 'i', 'l', 'e', 'd']
    }
}

/// `done` or `failed`.
pub fn status_message(r: &Result<(), SyncError>) -> (s: String)
    ensures
        s@ == status_word(*r),
{
    proof {
        reveal_strlit("done");
        reveal_strlit("failed");
    }
    match r {
        Ok(()) => {
            let s = "done".to_owned();
            assert(s@ =~= seq!['d', 'o', 'n', 'e']);
            s
        },
        Err(_) => {
            let s = "failed".to_owned();
            assert(s@ =~= seq!['f', 'a', 'i', 'l', 'e', 'd']);
            s
        },
    }
}

/// How many of `rs` failed.
pub open spec fn failures(rs: Seq<Result<(), SyncError>>) -> nat
    decreases rs.len(),
{
    if rs.len() == 0 {
        0
    } else {
        failures(rs.drop_last()) + if rs.last() is Err {
            1nat
        } else {
            0nat
        }
    }
}

/// The number of failed synchronisations in a batch.
pub fn failed_count(results: &Vec<Result<(), SyncError>>) -> (n: usize)
    ensures
        n == failures(results@),
{
    let mut n: usize = 0;
    let mut i: usize = 0;
    while i < results.len()
        invariant
            i <= results@.len(),
            n == failures(results@.subrange(0, i as int)),
            n <= i,
        decreases results@.len() - i,
    {
        assert(results@.subrange(0, i + 1).drop_last() =~= results@.subrange(0, i as int));
        if results[i].is_err() {
            n = n + 1;
        }
        i = i + 1;
    }
    assert(results@.subrange(0, results@.len() as int) =~= results@);
    n
}

/// A batch succeeds when every synchronisation in it did.
pub fn batch_succeeded(results: &Vec<Result<(), SyncError>>) -> (r: bool)
    ensures
        r == (forall|i: int| 0 <= i < results@.len() ==> (#[trigger] results@[i]) is Ok),
{
    let mut i: usize = 0;
    while i < results.len()
        invariant
            i <= results@.len(),
            forall|j: int| 0 <= j < i ==> (#[trigger] results@[j]) is Ok,
        decreases results@.len() - i,
    {
        if results[i].is_err() {
            return false;
        }
        i = i + 1;
    }
    true
}

/// A batch has no failures exactly when every synchronisation in it
/// succeeded.
pub proof fn lemma_no_failures(rs: Seq<Result<(), SyncError>>)
    ensures
        failures(rs) == 0 <==> forall|i: int| 0 <= i < rs.len() ==> (#[trigger] rs[i]) is Ok,
    decreases rs.len(),
{
    if rs.len() > 0 {
        let init = rs.drop_last();
        lemma_no_failures(init);
        assert forall|i: int| 0 <= i < init.len() implies #[trigger] init[i] == rs[i] by {}
        if failures(rs) == 0 {
            assert forall|i: int| 0 <= i < rs.len() implies (#[trigger] rs[i]) is Ok by {
                if i < init.len() {
                    assert(init[i] is Ok);
                }
            }
        }
        if forall|i: int| 0 <= i < rs.len() ==> (#[trigger] rs[i]) is Ok {
            assert(rs[rs.len() - 1] is Ok);
            assert forall|i: int| 0 <= i < init.len() implies (#[trigger] init[i]) is Ok by {
                assert(rs[i] is Ok);
            }
        }
    }
}

/// When exactly one synchronisation of a batch fails, the batch counts one
/// failure and does not succeed, however many there are.
pub proof fn lemma_single_failure(rs: Seq<Result<(), SyncError>>, k: int)
    requires
        0 <= k < rs.len(),
        rs[k] is Err,
        forall|i: int| 0 <= i < rs.len() && i != k ==> (#[trigger] rs[i]) is Ok,
    ensures
        failures(rs) == 1,
        !(forall|i: int| 0 <= i < rs.len() ==> (#[trigger] rs[i]) is Ok),
    decreases rs.len(),
{
    let init = rs.drop_last();
    assert forall|i: int| 0 <= i < init.len() implies #[trigger] init[i] == rs[i] by {}
    if k == rs.len() - 1 {
        assert forall|i: int| 0 <= i < init.len() implies (#[trigger] init[i]) is Ok by {
            assert(rs[i] is Ok);
        }
        lemma_no_failures(init);
    } else {
        assert(rs[rs.len() - 1] is Ok);
        assert forall|i: int| 0 <= i < init.len() && i != k implies (#[trigger] init[i]) is Ok by {
            assert(rs[i] is Ok);
        }
        lemma_single_failure(init, k);
    }
}

} // verus!
