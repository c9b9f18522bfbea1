//! What holds of every answer of a worker, proved over its transition function.

use vstd::prelude::*;
use crate::job::{ExecutionUuid, FileStoreKey, FileUuid, WorkerJob, deps, has_key, key_of};
use crate::worker::{
    ActionView, WorkerEvent, WorkerState, accepts, ask_actions, first_occurrences, is_missing,
    keyed, lacked_keys, lemma_next_wf, lemma_scan, lemma_scan_stops, missing_keys, next,
    position_of, scan, scan_job, state_wf, waits, all_ready, lemma_provide_file_wf,
    lacked_before,
};

verus! {

/// Whether the actions ask for the stored file with this key.
pub open spec fn asks_for(actions: Seq<ActionView>, key: Seq<u8>) -> bool {
    exists|a: int| 0 <= a < actions.len() && actions[a] == ActionView::AskFile(key)
}

/// The answer to a job asks for each stored file at most once.
pub proof fn law_each_file_asked_once(s: WorkerState, job: WorkerJob, stored: Vec<bool>)
    requires
        state_wf(s),
        accepts(s, WorkerEvent::Work { job, stored }),
    ensures
        forall|a: int, b: int|
            0 <= a < next(s, WorkerEvent::Work { job, stored }).1.len() && 0 <= b < next(
                s,
                WorkerEvent::Work { job, stored },
            ).1.len() && a != b && (#[trigger] next(s, WorkerEvent::Work { job, stored }).1[a]) is AskFile
                ==> next(s, WorkerEvent::Work { job, stored }).1[a] != #[trigger] next(
                s,
                WorkerEvent::Work { job, stored },
            ).1[b],
{
    let r = scan_job(job, stored@);
    lemma_scan(job, stored@, deps(job).len());
    let acts = next(s, WorkerEvent::Work { job, stored }).1;
    let asks = ask_actions(r.asks);
    assert forall|a: int, b: int|
        0 <= a < acts.len() && 0 <= b < acts.len() && a != b && (#[trigger] acts[a]) is AskFile
            implies acts[a] != #[trigger] acts[b] by {
        if a < asks.len() && b < asks.len() {
            assert(r.asks[a] == r.missing[a].0);
            assert(r.asks[b] == r.missing[b].0);
        }
    }
}

/// Where every dependency of a job has a key, the answer asks for a stored file exactly when
/// a dependency that the store lacks has that key.
pub proof fn law_asks_what_the_store_lacks(
    s: WorkerState,
    job: WorkerJob,
    stored: Vec<bool>,
    key: Seq<u8>,
)
    requires
        state_wf(s),
        accepts(s, WorkerEvent::Work { job, stored }),
        forall|i: int| 0 <= i < deps(job).len() ==> has_key(job, #[trigger] deps(job)[i]),
    ensures
        asks_for(next(s, WorkerEvent::Work { job, stored }).1, key) <==> exists|i: int|
            0 <= i < deps(job).len() && !stored@[i] && key_of(job, #[trigger] deps(job)[i]) == key,
{
    let r = scan_job(job, stored@);
    lemma_scan(job, stored@, deps(job).len());
    assert(r.error is None);
    let acts = next(s, WorkerEvent::Work { job, stored }).1;
    let asks = ask_actions(r.asks);
    if asks_for(acts, key) {
        let a = choose|a: int| 0 <= a < acts.len() && acts[a] == ActionView::AskFile(key);
        if a == asks.len() {
            assert(acts[a] == ActionView::StartJob);
        }
        assert(r.asks[a] == key);
        assert(r.missing[a].0 == key);
        let u = r.missing[a].1[0];
        let i = choose|i: int| 0 <= i < deps(job).len() && #[trigger] deps(job)[i] == u && !stored@[i];
        assert(key_of(job, deps(job)[i]) == key);
    }
    if exists|i: int|
        0 <= i < deps(job).len() && !stored@[i] && key_of(job, #[trigger] deps(job)[i]) == key {
        let i = choose|i: int|
            0 <= i < deps(job).len() && !stored@[i] && key_of(job, #[trigger] deps(job)[i]) == key;
        assert(waits(r.missing, deps(job)[i], key));
        let p = choose|p: int|
            0 <= p < r.missing.len() && (#[trigger] r.missing[p]).0 == key && r.missing[p].1.contains(
                deps(job)[i],
            );
        assert(r.asks[p] == key);
        assert(acts[p] == ActionView::AskFile(key));
    }
}

/// The answer to a job with a dependency that has no key ends in a failure that names the
/// first such dependency, and leaves the state as it was.
pub proof fn law_missing_key_fails(s: WorkerState, job: WorkerJob, stored: Vec<bool>, i: int)
    requires
        state_wf(s),
        accepts(s, WorkerEvent::Work { job, stored }),
        0 <= i < deps(job).len(),
        !has_key(job, deps(job)[i]),
        forall|j: int| 0 <= j < i ==> has_key(job, #[trigger] deps(job)[j]),
    ensures
        next(s, WorkerEvent::Work { job, stored }).0 == s,
        next(s, WorkerEvent::Work { job, stored }).1.last() == ActionView::Fail(deps(job)[i]),
{
    let n = deps(job).len();
    lemma_scan(job, stored@, i as nat);
    if scan(job, stored@, i as nat).error is Some {
        let u = scan(job, stored@, i as nat).error->0;
        let k = choose|k: int|
            0 <= k < i && #[trigger] deps(job)[k] == u && !has_key(job, u) && keyed(job, k);
        assert(has_key(job, deps(job)[k]));
    }
    assert(scan(job, stored@, (i + 1) as nat).error == Some(deps(job)[i]));
    lemma_scan_stops(job, stored@, (i + 1) as nat, n);
}

/// A job starts only when it has all its dependencies in the store: it leaves the waiting
/// place for the running one, and no file is missing.
pub proof fn law_start_only_when_complete(s: WorkerState, e: WorkerEvent)
    requires
        state_wf(s),
        accepts(s, e),
        next(s, e).1.contains(ActionView::StartJob),
    ensures
        next(s, e).0.running is Some,
        next(s, e).0.waiting is None,
        next(s, e).0.missing.len() == 0,
        forall|i: int|
            0 <= i < deps(next(s, e).0.running->0).len() ==> next(s, e).0.ready.contains(
                #[trigger] deps(next(s, e).0.running->0)[i],
            ),
{
    lemma_next_wf(s, e);
    let acts = next(s, e).1;
    let a = choose|a: int| 0 <= a < acts.len() && acts[a] == ActionView::StartJob;
    match e {
        WorkerEvent::Work { job, stored } => {
            let r = scan_job(job, stored@);
            if r.error is Some {
                if a < ask_actions(r.asks).len() {
                    assert(acts[a] is AskFile);
                }
            } else if r.missing.len() != 0 {
                assert(acts[a] is AskFile);
            }
        },
        WorkerEvent::Disconnected => {
            if s.has_sandbox {
                assert(a == 0 || a == 1);
            }
        },
        _ => {},
    }
}

/// While a job runs, no event lets the worker start a job again.
pub proof fn law_start_once(s: WorkerState, e: WorkerEvent)
    requires
        state_wf(s),
        s.running is Some,
        accepts(s, e),
    ensures
        !next(s, e).1.contains(ActionView::StartJob),
{
    let acts = next(s, e).1;
    if acts.contains(ActionView::StartJob) {
        let a = choose|a: int| 0 <= a < acts.len() && acts[a] == ActionView::StartJob;
        match e {
            WorkerEvent::Disconnected => {
                if s.has_sandbox {
                    assert(a == 0 || a == 1);
                }
            },
            _ => {},
        }
    }
}

/// After the file arrives, nothing waits for it any more, the dependencies it provides are
/// ready, and the other files are still waited for in the same order.
pub proof fn law_provided_file_is_no_longer_missing(s: WorkerState, key: crate::job::FileStoreKey)
    requires
        state_wf(s),
        is_missing(s.missing, key@),
    ensures
        !is_missing(next(s, WorkerEvent::ProvideFile { key }).0.missing, key@),
        forall|q: int|
            0 <= q < s.missing[position_of(s.missing, key@)].1.len() ==> next(
                s,
                WorkerEvent::ProvideFile { key },
            ).0.ready.contains(#[trigger] s.missing[position_of(s.missing, key@)].1[q]),
        missing_keys(next(s, WorkerEvent::ProvideFile { key }).0.missing) == missing_keys(
            s.missing,
        ).remove(position_of(s.missing, key@)),
{
    let p = position_of(s.missing, key@);
    let t = next(s, WorkerEvent::ProvideFile { key }).0;
    if is_missing(t.missing, key@) {
        let a = choose|a: int| 0 <= a < t.missing.len() && (#[trigger] t.missing[a]).0 == key@;
        let a1 = if a < p { a } else { a + 1 };
        assert(t.missing[a] == s.missing[a1]);
    }
    assert forall|q: int| 0 <= q < s.missing[p].1.len() implies t.ready.contains(
        #[trigger] s.missing[p].1[q],
    ) by {
        assert(s.missing[p].1.to_set().contains(s.missing[p].1[q]));
    }
    assert(missing_keys(t.missing) =~= missing_keys(s.missing).remove(p));
}

/// Where every dependency of a job has a key, the answer to the job is the requests for the
/// keys of the dependencies that the store lacks, each once, in the order of their first
/// occurrence; the job starts at once exactly when the store lacks none.
pub proof fn law_requests_in_order_of_first_occurrence(s: WorkerState, job: WorkerJob, stored: Vec<bool>)
    requires
        state_wf(s),
        accepts(s, WorkerEvent::Work { job, stored }),
        keyed(job, deps(job).len() as int),
    ensures
        next(s, WorkerEvent::Work { job, stored }).1 == (if first_occurrences(
            lacked_keys(job, stored@, deps(job).len()),
        ).len() == 0 {
            seq![ActionView::StartJob]
        } else {
            ask_actions(first_occurrences(lacked_keys(job, stored@, deps(job).len())))
        }),
{
    let r = scan_job(job, stored@);
    lemma_scan(job, stored@, deps(job).len());
    if r.error is Some {
        let u = r.error->0;
        let k = choose|k: int|
            0 <= k < deps(job).len() && #[trigger] deps(job)[k] == u && !has_key(job, u) && keyed(job, k);
        assert(has_key(job, deps(job)[k]));
    }
    assert(r.asks.len() == r.missing.len());
    if r.asks.len() == 0 {
        assert(ask_actions(r.asks).push(ActionView::StartJob) =~= seq![ActionView::StartJob]);
    }
}

/// The worker's states and answers after the files with these keys arrive, one after the other.
pub open spec fn provide_all(s: WorkerState, keys: Seq<FileStoreKey>) -> (WorkerState, Seq<Seq<ActionView>>)
    decreases keys.len(),
{
    if keys.len() == 0 {
        (s, Seq::empty())
    } else {
        let (t, answer) = next(s, WorkerEvent::ProvideFile { key: keys[0] });
        let (u, rest) = provide_all(t, keys.drop_first());
        (u, seq![answer] + rest)
    }
}

/// When the files a waiting job needs arrive, each once and in any order, the job starts
/// exactly once, right after the last one: the answers to the others are empty, the answer to
/// the last starts the job, which then runs with all its dependencies ready.
pub proof fn law_files_arriving_start_the_job_once(s: WorkerState, keys: Seq<FileStoreKey>)
    requires
        state_wf(s),
        s.waiting is Some,
        keys.len() == s.missing.len(),
        forall|i: int| 0 <= i < keys.len() ==> is_missing(s.missing, (#[trigger] keys[i])@),
        forall|i: int, j: int|
            0 <= i < keys.len() && 0 <= j < keys.len() && i != j ==> (#[trigger] keys[i])@ != (
            #[trigger] keys[j])@,
    ensures
        provide_all(s, keys).1.len() == keys.len(),
        forall|i: int| 0 <= i < keys.len() - 1 ==> (#[trigger] provide_all(s, keys).1[i]) == Seq::<
            ActionView,
        >::empty(),
        provide_all(s, keys).1[keys.len() - 1] == seq![ActionView::StartJob],
        provide_all(s, keys).0.running == s.waiting,
        provide_all(s, keys).0.waiting is None,
        provide_all(s, keys).0.missing.len() == 0,
        all_ready(s.waiting->0, provide_all(s, keys).0.ready),
    decreases keys.len(),
{
    let k0 = keys[0];
    assert(is_missing(s.missing, keys[0]@));
    let (t, answer) = next(s, WorkerEvent::ProvideFile { key: k0 });
    lemma_provide_file_wf(s, k0);
    let p = position_of(s.missing, k0@);
    let rest = keys.drop_first();
    if keys.len() == 1 {
        assert(rest.len() == 0);
        assert(provide_all(t, rest) == (t, Seq::<Seq<ActionView>>::empty()));
        assert(provide_all(s, keys).1 =~= seq![answer]);
        assert(t.missing.len() == 0);
        assert(provide_all(s, keys).0 == t);
    } else {
        assert(t.missing.len() > 0);
        assert forall|i: int| 0 <= i < rest.len() implies is_missing(t.missing, (#[trigger] rest[i])@) by {
            assert(rest[i] == keys[i + 1]);
            assert(is_missing(s.missing, keys[i + 1]@));
            let q = choose|q: int| 0 <= q < s.missing.len() && (#[trigger] s.missing[q]).0 == keys[i + 1]@;
            assert(keys[i + 1]@ != keys[0]@);
            assert(q != p);
            let q1 = if q < p { q } else { q - 1 };
            assert(t.missing[q1] == s.missing[q]);
        }
        assert forall|i: int, j: int|
            0 <= i < rest.len() && 0 <= j < rest.len() && i != j implies (#[trigger] rest[i])@ != (
            #[trigger] rest[j])@ by {
            assert(rest[i] == keys[i + 1]);
            assert(rest[j] == keys[j + 1]);
        }
        assert(t.waiting == s.waiting);
        law_files_arriving_start_the_job_once(t, rest);
        let (u, answers) = provide_all(t, rest);
        assert(provide_all(s, keys).0 == u);
        assert(provide_all(s, keys).1 =~= seq![answer] + answers);
        assert forall|i: int| 0 <= i < keys.len() - 1 implies (#[trigger] provide_all(s, keys).1[i])
            == Seq::<ActionView>::empty() by {
            if i > 0 {
                assert(provide_all(s, keys).1[i] == answers[i - 1]);
            }
        }
        assert(provide_all(s, keys).1[keys.len() - 1] == answers[rest.len() - 1]);
    }
}

/// The dependency is one of the first `n`, at a place where the store holds it.
pub open spec fn stored_before(job: WorkerJob, stored: Seq<bool>, n: int, uuid: FileUuid) -> bool {
    exists|i: int| 0 <= i < n && #[trigger] deps(job)[i] == uuid && stored[i]
}

/// Only dependencies that the store holds become ready while the worker looks at a job.
proof fn lemma_scan_ready(job: WorkerJob, stored: Seq<bool>, n: nat)
    requires
        n <= deps(job).len(),
    ensures
        forall|u: FileUuid| #[trigger] scan(job, stored, n).ready.contains(u) ==> stored_before(
            job,
            stored,
            n as int,
            u,
        ),
    decreases n,
{
    if n > 0 {
        lemma_scan_ready(job, stored, (n - 1) as nat);
        let prev = scan(job, stored, (n - 1) as nat);
        let cur = scan(job, stored, n);
        assert forall|u: FileUuid| #[trigger] cur.ready.contains(u) implies stored_before(
            job,
            stored,
            n as int,
            u,
        ) by {
            if prev.ready.contains(u) {
                let i = choose|i: int| 0 <= i < n - 1 && #[trigger] deps(job)[i] == u && stored[i];
                assert(deps(job)[i] == u);
            } else {
                assert(deps(job)[n - 1] == u);
            }
        }
    }
}

/// A job with a key for every dependency is held exactly as it was received: it runs at once
/// when the store holds every dependency, and waits for files otherwise. Its ready
/// dependencies are exactly those that the store holds; the sandbox flag is unchanged.
pub proof fn law_work_holds_the_job_received(s: WorkerState, job: WorkerJob, stored: Vec<bool>)
    requires
        state_wf(s),
        accepts(s, WorkerEvent::Work { job, stored }),
        keyed(job, deps(job).len() as int),
    ensures
        (forall|i: int| 0 <= i < deps(job).len() ==> #[trigger] stored@[i]) ==> next(
            s,
            WorkerEvent::Work { job, stored },
        ).0.running == Some(job) && next(s, WorkerEvent::Work { job, stored }).0.waiting is None,
        !(forall|i: int| 0 <= i < deps(job).len() ==> #[trigger] stored@[i]) ==> next(
            s,
            WorkerEvent::Work { job, stored },
        ).0.waiting == Some(job) && next(s, WorkerEvent::Work { job, stored }).0.running is None,
        forall|u: FileUuid|
            #[trigger] next(s, WorkerEvent::Work { job, stored }).0.ready.contains(u)
                <==> stored_before(job, stored@, deps(job).len() as int, u),
        next(s, WorkerEvent::Work { job, stored }).0.has_sandbox == s.has_sandbox,
{
    let n = deps(job).len();
    let r = scan_job(job, stored@);
    lemma_scan(job, stored@, n);
    lemma_scan_ready(job, stored@, n);
    if r.error is Some {
        let u = r.error->0;
        let k = choose|k: int|
            0 <= k < n && #[trigger] deps(job)[k] == u && !has_key(job, u) && keyed(job, k);
        assert(has_key(job, deps(job)[k]));
    }
    if forall|i: int| 0 <= i < n ==> #[trigger] stored@[i] {
        if r.missing.len() > 0 {
            assert(r.missing[0].1.len() > 0);
            assert(lacked_before(job, stored@, n as int, r.missing[0].1[0]));
            let i = choose|i: int| 0 <= i < n && #[trigger] deps(job)[i] == r.missing[0].1[0] && !stored@[i];
            assert(stored@[i]);
        }
    } else {
        let i = choose|i: int| 0 <= i < n && !#[trigger] stored@[i];
        assert(waits(r.missing, deps(job)[i], key_of(job, deps(job)[i])));
    }
    assert forall|u: FileUuid|
        #[trigger] r.ready.contains(u) <== stored_before(job, stored@, n as int, u) by {
        if stored_before(job, stored@, n as int, u) {
            let i = choose|i: int| 0 <= i < n && #[trigger] deps(job)[i] == u && stored@[i];
            assert(r.ready.contains(deps(job)[i]));
        }
    }
}

/// A file that arrives keeps the job: the waiting job runs when it was the last file it
/// needed, and keeps waiting otherwise; the ready dependencies are those that were ready and
/// those the file provides, and nothing else; the sandbox flag is unchanged.
pub proof fn law_file_keeps_the_job(s: WorkerState, key: FileStoreKey)
    requires
        state_wf(s),
        is_missing(s.missing, key@),
    ensures
        s.missing.len() == 1 ==> next(s, WorkerEvent::ProvideFile { key }).0.running == s.waiting
            && next(s, WorkerEvent::ProvideFile { key }).0.waiting is None,
        s.missing.len() > 1 ==> next(s, WorkerEvent::ProvideFile { key }).0.waiting == s.waiting
            && next(s, WorkerEvent::ProvideFile { key }).0.running == s.running,
        forall|u: FileUuid|
            #[trigger] next(s, WorkerEvent::ProvideFile { key }).0.ready.contains(u) <==> (
            s.ready.contains(u) || s.missing[position_of(s.missing, key@)].1.contains(u)),
        next(s, WorkerEvent::ProvideFile { key }).0.has_sandbox == s.has_sandbox,
{
}

/// A request to kill a job never changes the worker's state; it kills the sandbox exactly
/// when the running job is the one named and its sandbox runs.
pub proof fn law_kill_keeps_the_state(s: WorkerState, execution: ExecutionUuid)
    ensures
        next(s, WorkerEvent::KillJob { execution }).0 == s,
        next(s, WorkerEvent::KillJob { execution }).1 == (if s.has_sandbox && s.running is Some
            && s.running->0.execution.uuid == execution {
            seq![ActionView::KillSandbox]
        } else {
            Seq::<ActionView>::empty()
        }),
{
}

/// A request to exit always stops the worker, whatever it holds, and changes nothing else.
pub proof fn law_exit_always_stops(s: WorkerState)
    ensures
        next(s, WorkerEvent::Exit).0 == s,
        next(s, WorkerEvent::Exit).1 == seq![ActionView::Stop],
{
}

/// A lost connection always stops the worker, after killing the sandbox exactly when one
/// runs, and changes nothing else.
pub proof fn law_disconnection_stops(s: WorkerState)
    ensures
        next(s, WorkerEvent::Disconnected).0 == s,
        next(s, WorkerEvent::Disconnected).1 == (if s.has_sandbox {
            seq![ActionView::KillSandbox, ActionView::Stop]
        } else {
            seq![ActionView::Stop]
        }),
{
}

/// Connecting asks for work and changes nothing.
pub proof fn law_connected_asks_for_work(s: WorkerState)
    ensures
        next(s, WorkerEvent::Connected).0 == s,
        next(s, WorkerEvent::Connected).1 == seq![ActionView::GetWork],
{
}

/// A started sandbox only sets the sandbox flag, and answers nothing.
pub proof fn law_sandbox_started_sets_only_the_flag(s: WorkerState)
    ensures
        next(s, WorkerEvent::SandboxStarted).0.has_sandbox,
        next(s, WorkerEvent::SandboxStarted).0.running == s.running,
        next(s, WorkerEvent::SandboxStarted).0.waiting == s.waiting,
        next(s, WorkerEvent::SandboxStarted).0.ready == s.ready,
        next(s, WorkerEvent::SandboxStarted).0.missing == s.missing,
        next(s, WorkerEvent::SandboxStarted).1 == Seq::<ActionView>::empty(),
{
}

/// The end of the running job leaves the worker without a running job, without sandbox and
/// without ready files, and asks for work; a waiting job and its missing files stay.
pub proof fn law_job_finished_frees_the_worker(s: WorkerState)
    ensures
        next(s, WorkerEvent::JobFinished).0.running is None,
        !next(s, WorkerEvent::JobFinished).0.has_sandbox,
        next(s, WorkerEvent::JobFinished).0.ready == Set::<FileUuid>::empty(),
        next(s, WorkerEvent::JobFinished).0.waiting == s.waiting,
        next(s, WorkerEvent::JobFinished).0.missing == s.missing,
        next(s, WorkerEvent::JobFinished).1 == seq![ActionView::GetWork],
{
}

} // verus!
