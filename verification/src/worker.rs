//! The decisions of a worker: what it does with each message of the server and each event
//! of the job it runs.
//!
//! The worker asks the server for work, receives a job, asks once for each stored file the
//! job needs and the worker lacks, starts the job when the last one arrives, kills the
//! sandbox of the job the server cancels, and stops when asked or disconnected.

use vstd::prelude::*;
use std::collections::HashSet;
use crate::job::{FileStoreKey, FileUuid, ExecutionUuid, WorkerJob, deps, has_key, key_of};
use crate::identity::{uuid_string, uuid_text};

verus! {

broadcast use vstd::std_specs::hash::group_hash_axioms;

/// A stored file that the waiting job needs, and the job's files that it provides.
pub struct MissingFile {
    pub key: FileStoreKey,
    pub uuids: Vec<FileUuid>,
}

/// An error that stops the worker.
#[derive(Clone, Debug, PartialEq, Eq)]
pub enum WorkerError {
    /// A dependency of the job has no store key in the job.
    MissingDependencyKey { uuid: FileUuid },
}

/// The text of an error that stops the worker.
pub open spec fn error_text(e: WorkerError) -> Seq<char> {
    match e {
        WorkerError::MissingDependencyKey { uuid } => "missing key for dependency "@ + uuid_text(uuid),
    }
}

impl WorkerError {
    /// The error as shown to humans, as in `missing key for dependency <uuid>`.
    pub fn message(&self) -> (r: String)
        ensures
            r@ == error_text(*self),
    {
        match self {
            WorkerError::MissingDependencyKey { uuid } => {
                let mut r = "missing key for dependency ".to_owned();
                let id = uuid_string(*uuid);
                r.append(id.as_str());
                r
            },
        }
    }
}

/// What the worker does in answer to an event, in order.
#[derive(Clone, Debug, PartialEq, Eq)]
pub enum WorkerAction {
    /// Send the server a request for work.
    GetWork,
    /// Send the server a request for the stored file with this key.
    AskFile(FileStoreKey),
    /// Start the job that has just become ready, in a sandbox.
    StartJob,
    /// Kill the process of the sandbox of the running job.
    KillSandbox,
    /// Stop with an error.
    Fail(WorkerError),
    /// Stop normally.
    Stop,
}

/// An action as a mathematical value.
pub enum ActionView {
    GetWork,
    AskFile(Seq<u8>),
    StartJob,
    KillSandbox,
    Fail(FileUuid),
    Stop,
}

impl View for WorkerAction {
    type V = ActionView;

    open spec fn view(&self) -> ActionView {
        match self {
            WorkerAction::GetWork => ActionView::GetWork,
            WorkerAction::AskFile(k) => ActionView::AskFile(k@),
            WorkerAction::StartJob => ActionView::StartJob,
            WorkerAction::KillSandbox => ActionView::KillSandbox,
            WorkerAction::Fail(WorkerError::MissingDependencyKey { uuid }) => ActionView::Fail(*uuid),
            WorkerAction::Stop => ActionView::Stop,
        }
    }
}

/// The actions of a list, as mathematical values.
pub open spec fn actions_view(actions: Seq<WorkerAction>) -> Seq<ActionView> {
    actions.map_values(|a: WorkerAction| a@)
}

/// What happens to a worker.
pub enum WorkerEvent {
    /// The worker is connected to the server.
    Connected,
    /// The server sends a job. `stored[i]` tells whether the file store already holds the
    /// file of the job's `i`-th dependency (false where the job has no key for it).
    Work { job: WorkerJob, stored: Vec<bool> },
    /// The server has sent, and the worker has stored, the file with this key.
    ProvideFile { key: FileStoreKey },
    /// The server asks the worker to exit.
    Exit,
    /// The server asks the worker to kill the job of this execution.
    KillJob { execution: ExecutionUuid },
    /// The connection to the server is lost.
    Disconnected,
    /// The sandbox of the running job has been created and started.
    SandboxStarted,
    /// The running job has finished and its results have been sent.
    JobFinished,
}

/// The state of a worker as a mathematical value.
#[verifier::ext_equal]
pub struct WorkerState {
    /// The job that waits for files from the server; none while a job runs.
    pub waiting: Option<WorkerJob>,
    /// The job that has all its files and runs (or is about to run) in a sandbox.
    pub running: Option<WorkerJob>,
    /// The dependencies of the waiting or running job whose file the store holds.
    pub ready: Set<FileUuid>,
    /// Whether a sandbox runs (or ran) for the running job.
    pub has_sandbox: bool,
    /// The stored files the waiting job needs, in the order they were asked, each with the
    /// dependencies it provides.
    pub missing: Seq<(Seq<u8>, Seq<FileUuid>)>,
}

/// Whether a file with this key is waited for.
pub open spec fn is_missing(missing: Seq<(Seq<u8>, Seq<FileUuid>)>, key: Seq<u8>) -> bool {
    exists|p: int| 0 <= p < missing.len() && (#[trigger] missing[p]).0 == key
}

/// The place of a waited-for key in the list.
pub open spec fn position_of(missing: Seq<(Seq<u8>, Seq<FileUuid>)>, key: Seq<u8>) -> int {
    choose|p: int| 0 <= p < missing.len() && (#[trigger] missing[p]).0 == key
}

/// No key is waited for twice.
pub open spec fn distinct_keys(missing: Seq<(Seq<u8>, Seq<FileUuid>)>) -> bool {
    forall|p: int, q: int|
        0 <= p < missing.len() && 0 <= q < missing.len() && p != q ==> (#[trigger] missing[p]).0
            != (#[trigger] missing[q]).0
}

/// The keys that are waited for, in order.
pub open spec fn missing_keys(missing: Seq<(Seq<u8>, Seq<FileUuid>)>) -> Seq<Seq<u8>> {
    missing.map_values(|e: (Seq<u8>, Seq<FileUuid>)| e.0)
}

/// The dependency waits for the file with this key.
pub open spec fn waits(missing: Seq<(Seq<u8>, Seq<FileUuid>)>, uuid: FileUuid, key: Seq<u8>) -> bool {
    exists|p: int| 0 <= p < missing.len() && (#[trigger] missing[p]).0 == key && missing[p].1.contains(uuid)
}

/// The first `n` dependencies of the job have a key.
pub open spec fn keyed(job: WorkerJob, n: int) -> bool {
    forall|i: int| 0 <= i < n ==> has_key(job, #[trigger] deps(job)[i])
}

/// Every waiting dependency waits for the file of its own key.
pub open spec fn keys_match(job: WorkerJob, missing: Seq<(Seq<u8>, Seq<FileUuid>)>) -> bool {
    forall|p: int, q: int|
        0 <= p < missing.len() && 0 <= q < (#[trigger] missing[p]).1.len() ==> has_key(
            job,
            #[trigger] missing[p].1[q],
        ) && key_of(job, missing[p].1[q]) == missing[p].0
}

/// Every dependency of the job among the first `n` has a key, and is ready or waits for the
/// file of its key; every waiting dependency waits for the file of its own key.
pub open spec fn accounted(
    job: WorkerJob,
    n: int,
    ready: Set<FileUuid>,
    missing: Seq<(Seq<u8>, Seq<FileUuid>)>,
) -> bool {
    &&& keyed(job, n)
    &&& forall|i: int|
        0 <= i < n ==> ready.contains(#[trigger] deps(job)[i]) || waits(
            missing,
            deps(job)[i],
            key_of(job, deps(job)[i]),
        )
    &&& keys_match(job, missing)
}

/// Every dependency of the job is ready.
pub open spec fn all_ready(job: WorkerJob, ready: Set<FileUuid>) -> bool {
    forall|i: int| 0 <= i < deps(job).len() ==> ready.contains(#[trigger] deps(job)[i])
}

/// The list of waited-for files is well formed: no key twice, no entry without dependencies.
pub open spec fn missing_wf(missing: Seq<(Seq<u8>, Seq<FileUuid>)>) -> bool {
    &&& distinct_keys(missing)
    &&& forall|p: int| 0 <= p < missing.len() ==> (#[trigger] missing[p]).1.len() > 0
}

/// The invariant of a worker's state: a job waits exactly while files are missing, no job
/// waits while one runs, every dependency of the waiting job is ready or waits for its file,
/// and every dependency of the running job is ready.
pub open spec fn state_wf(s: WorkerState) -> bool {
    &&& missing_wf(s.missing)
    &&& (s.missing.len() > 0 <==> s.waiting is Some)
    &&& !(s.waiting is Some && s.running is Some)
    &&& s.waiting matches Some(job) ==> accounted(job, deps(job).len() as int, s.ready, s.missing)
    &&& s.running matches Some(job) ==> all_ready(job, s.ready)
}

/// What the worker has found after looking at the first dependencies of a job.
pub struct Scan {
    pub ready: Set<FileUuid>,
    pub missing: Seq<(Seq<u8>, Seq<FileUuid>)>,
    pub asks: Seq<Seq<u8>>,
    pub error: Option<FileUuid>,
}

/// The dependency `uuid`, not in the store, waits for the file with key `key`; the file is
/// asked for if nothing waited for it yet.
pub open spec fn add_missing(s: Scan, key: Seq<u8>, uuid: FileUuid) -> Scan {
    if is_missing(s.missing, key) {
        let p = position_of(s.missing, key);
        Scan {
            ready: s.ready,
            missing: s.missing.update(p, (key, s.missing[p].1.push(uuid))),
            asks: s.asks,
            error: s.error,
        }
    } else {
        Scan {
            ready: s.ready,
            missing: s.missing.push((key, seq![uuid])),
            asks: s.asks.push(key),
            error: s.error,
        }
    }
}

/// The worker looks at the first `n` dependencies of a job in order, and stops at the first
/// one whose key the job lacks.
pub open spec fn scan(job: WorkerJob, stored: Seq<bool>, n: nat) -> Scan
    decreases n,
{
    if n == 0 {
        Scan { ready: Set::empty(), missing: Seq::empty(), asks: Seq::empty(), error: None }
    } else {
        let prev = scan(job, stored, (n - 1) as nat);
        let uuid = deps(job)[n - 1];
        if prev.error is Some {
            prev
        } else if !has_key(job, uuid) {
            Scan { ready: prev.ready, missing: prev.missing, asks: prev.asks, error: Some(uuid) }
        } else if stored[n - 1] {
            Scan { ready: prev.ready.insert(uuid), missing: prev.missing, asks: prev.asks, error: None }
        } else {
            add_missing(prev, key_of(job, uuid), uuid)
        }
    }
}

/// What the worker finds for a whole job.
pub open spec fn scan_job(job: WorkerJob, stored: Seq<bool>) -> Scan {
    scan(job, stored, deps(job).len())
}

/// The keys of the first `n` dependencies that the store lacks, in order, repeats included.
pub open spec fn lacked_keys(job: WorkerJob, stored: Seq<bool>, n: nat) -> Seq<Seq<u8>>
    decreases n,
{
    if n == 0 {
        Seq::empty()
    } else if stored[n - 1] {
        lacked_keys(job, stored, (n - 1) as nat)
    } else {
        lacked_keys(job, stored, (n - 1) as nat).push(key_of(job, deps(job)[n - 1]))
    }
}

/// The elements of a sequence in the order of their first occurrence, each once.
pub open spec fn first_occurrences(s: Seq<Seq<u8>>) -> Seq<Seq<u8>>
    decreases s.len(),
{
    if s.len() == 0 {
        s
    } else {
        let f = first_occurrences(s.drop_last());
        if f.contains(s.last()) {
            f
        } else {
            f.push(s.last())
        }
    }
}

/// The requests for files, as actions.
pub open spec fn ask_actions(asks: Seq<Seq<u8>>) -> Seq<ActionView> {
    asks.map_values(|k: Seq<u8>| ActionView::AskFile(k))
}

/// Whether a request to kill the job of this execution kills the sandbox.
pub open spec fn kills(s: WorkerState, execution: ExecutionUuid) -> bool {
    &&& s.running matches Some(job) && job.execution.uuid == execution
    &&& s.has_sandbox
}

/// Whether the worker accepts the event in this state. Elsewhere the worker fails: a job
/// while it holds one, a file it did not ask for, the end of a job that does not run.
pub open spec fn accepts(s: WorkerState, e: WorkerEvent) -> bool {
    match e {
        WorkerEvent::Work { job, stored } => s.waiting is None && s.running is None
            && stored@.len() == deps(job).len(),
        WorkerEvent::ProvideFile { key } => is_missing(s.missing, key@),
        WorkerEvent::JobFinished => s.running is Some,
        _ => true,
    }
}

/// The state after the event, and the actions that answer it.
pub open spec fn next(s: WorkerState, e: WorkerEvent) -> (WorkerState, Seq<ActionView>) {
    match e {
        WorkerEvent::Connected => (s, seq![ActionView::GetWork]),
        WorkerEvent::Work { job, stored } => {
            let r = scan_job(job, stored@);
            match r.error {
                Some(uuid) => (s, ask_actions(r.asks).push(ActionView::Fail(uuid))),
                None => if r.missing.len() == 0 {
                    (
                        WorkerState {
                            waiting: None,
                            running: Some(job),
                            ready: r.ready,
                            has_sandbox: s.has_sandbox,
                            missing: r.missing,
                        },
                        ask_actions(r.asks).push(ActionView::StartJob),
                    )
                } else {
                    (
                        WorkerState {
                            waiting: Some(job),
                            running: s.running,
                            ready: r.ready,
                            has_sandbox: s.has_sandbox,
                            missing: r.missing,
                        },
                        ask_actions(r.asks),
                    )
                },
            }
        },
        WorkerEvent::ProvideFile { key } => {
            let p = position_of(s.missing, key@);
            let missing = s.missing.remove(p);
            let ready = s.ready.union(s.missing[p].1.to_set());
            if missing.len() == 0 {
                (
                    WorkerState {
                        waiting: None,
                        running: s.waiting,
                        ready,
                        has_sandbox: s.has_sandbox,
                        missing,
                    },
                    seq![ActionView::StartJob],
                )
            } else {
                (
                    WorkerState {
                        waiting: s.waiting,
                        running: s.running,
                        ready,
                        has_sandbox: s.has_sandbox,
                        missing,
                    },
                    seq![],
                )
            }
        },
        WorkerEvent::Exit => (s, seq![ActionView::Stop]),
        WorkerEvent::KillJob { execution } => (
            s,
            if kills(s, execution) {
                seq![ActionView::KillSandbox]
            } else {
                seq![]
            },
        ),
        WorkerEvent::Disconnected => (
            s,
            if s.has_sandbox {
                seq![ActionView::KillSandbox, ActionView::Stop]
            } else {
                seq![ActionView::Stop]
            },
        ),
        WorkerEvent::SandboxStarted => (
            WorkerState {
                waiting: s.waiting,
                running: s.running,
                ready: s.ready,
                has_sandbox: true,
                missing: s.missing,
            },
            seq![],
        ),
        WorkerEvent::JobFinished => (
            WorkerState {
                waiting: s.waiting,
                running: None,
                ready: Set::empty(),
                has_sandbox: false,
                missing: s.missing,
            },
            seq![ActionView::GetWork],
        ),
    }
}

/// Every dependency that waits for a file is one of the first `n` and is not in the store.
pub open spec fn waiting_not_stored(
    job: WorkerJob,
    stored: Seq<bool>,
    n: int,
    missing: Seq<(Seq<u8>, Seq<FileUuid>)>,
) -> bool {
    forall|p: int, q: int|
        #![trigger missing[p].1[q]]
        0 <= p < missing.len() && 0 <= q < missing[p].1.len() ==> lacked_before(
            job,
            stored,
            n,
            missing[p].1[q],
        )
}

/// The dependency is one of the first `n`, at a place where the store lacks it.
pub open spec fn lacked_before(job: WorkerJob, stored: Seq<bool>, n: int, uuid: FileUuid) -> bool {
    exists|i: int| 0 <= i < n && #[trigger] deps(job)[i] == uuid && !stored[i]
}

/// Among the first `n` dependencies, those in the store are ready and the others wait for the
/// file of their key.
pub open spec fn seen(
    job: WorkerJob,
    stored: Seq<bool>,
    n: int,
    ready: Set<FileUuid>,
    missing: Seq<(Seq<u8>, Seq<FileUuid>)>,
) -> bool {
    forall|i: int|
        0 <= i < n ==> (stored[i] ==> ready.contains(#[trigger] deps(job)[i])) && (!stored[i]
            ==> waits(missing, deps(job)[i], key_of(job, deps(job)[i])))
}

/// Every entry of `prev` stays at its place in `cur`, with its key and its dependencies.
pub open spec fn grows(prev: Seq<(Seq<u8>, Seq<FileUuid>)>, cur: Seq<(Seq<u8>, Seq<FileUuid>)>) -> bool {
    &&& prev.len() <= cur.len()
    &&& forall|q: int|
        0 <= q < prev.len() ==> (#[trigger] cur[q]).0 == prev[q].0 && forall|x: FileUuid|
            #[trigger] prev[q].1.contains(x) ==> cur[q].1.contains(x)
}

/// A key is among the waited-for keys exactly when an entry waits for it.
pub proof fn lemma_missing_keys_contains(missing: Seq<(Seq<u8>, Seq<FileUuid>)>, key: Seq<u8>)
    ensures
        missing_keys(missing).contains(key) <==> is_missing(missing, key),
{
    if is_missing(missing, key) {
        let p = choose|p: int| 0 <= p < missing.len() && (#[trigger] missing[p]).0 == key;
        assert(missing_keys(missing)[p] == key);
    }
    if missing_keys(missing).contains(key) {
        let p = choose|p: int| 0 <= p < missing_keys(missing).len() && missing_keys(missing)[p] == key;
        assert(missing[p].0 == key);
    }
}

/// A dependency that waits keeps waiting while the list grows.
pub proof fn lemma_waits_grows(
    prev: Seq<(Seq<u8>, Seq<FileUuid>)>,
    cur: Seq<(Seq<u8>, Seq<FileUuid>)>,
    uuid: FileUuid,
    key: Seq<u8>,
)
    requires
        grows(prev, cur),
        waits(prev, uuid, key),
    ensures
        waits(cur, uuid, key),
{
    let q = choose|q: int| 0 <= q < prev.len() && (#[trigger] prev[q]).0 == key && prev[q].1.contains(uuid);
    assert(cur[q].0 == key && cur[q].1.contains(uuid));
}

/// Adding a waiting dependency keeps the list well formed and in step with the requests, lets
/// the list grow, and makes the dependency wait for its file; every dependency in the new list
/// is the added one, under its key, or was there before at the same place.
pub proof fn lemma_add_missing(s: Scan, key: Seq<u8>, uuid: FileUuid)
    requires
        missing_wf(s.missing),
        s.asks == missing_keys(s.missing),
    ensures
        missing_wf(add_missing(s, key, uuid).missing),
        add_missing(s, key, uuid).asks == missing_keys(add_missing(s, key, uuid).missing),
        add_missing(s, key, uuid).asks == (if s.asks.contains(key) {
            s.asks
        } else {
            s.asks.push(key)
        }),
        grows(s.missing, add_missing(s, key, uuid).missing),
        waits(add_missing(s, key, uuid).missing, uuid, key),
        forall|a: int, b: int|
            #![trigger add_missing(s, key, uuid).missing[a].1[b]]
            0 <= a < add_missing(s, key, uuid).missing.len() && 0 <= b < add_missing(
                s,
                key,
                uuid,
            ).missing[a].1.len() ==> (add_missing(s, key, uuid).missing[a].1[b] == uuid
                && add_missing(s, key, uuid).missing[a].0 == key) || (a < s.missing.len() && b
                < s.missing[a].1.len() && add_missing(s, key, uuid).missing[a].1[b]
                == s.missing[a].1[b]),
{
    let c = add_missing(s, key, uuid);
    lemma_missing_keys_contains(s.missing, key);
    if is_missing(s.missing, key) {
        let p = position_of(s.missing, key);
        assert(missing_keys(c.missing) =~= missing_keys(s.missing));
        assert(c.missing[p].1[s.missing[p].1.len() as int] == uuid);
        assert(c.missing[p].1.contains(uuid));
        assert forall|q: int| 0 <= q < s.missing.len() implies (#[trigger] c.missing[q]).0
            == s.missing[q].0 && forall|x: FileUuid| #[trigger]
            s.missing[q].1.contains(x) ==> c.missing[q].1.contains(x) by {
            if q == p {
                assert forall|x: FileUuid| #[trigger] s.missing[q].1.contains(x) implies c.missing[
                    q].1.contains(x) by {
                    let w = choose|w: int| 0 <= w < s.missing[q].1.len() && s.missing[q].1[w] == x;
                    assert(c.missing[q].1[w] == x);
                }
            }
        }
        assert forall|a: int, b: int|
            #![trigger c.missing[a].1[b]]
            0 <= a < c.missing.len() && 0 <= b < c.missing[a].1.len() implies (c.missing[a].1[b]
                == uuid && c.missing[a].0 == key) || (a < s.missing.len() && b < s.missing[a].1.len()
                && c.missing[a].1[b] == s.missing[a].1[b]) by {
            if a == p && b == s.missing[p].1.len() {
            } else {
                assert(c.missing[a].1[b] == s.missing[a].1[b]);
            }
        }
    } else {
        assert(missing_keys(c.missing) =~= missing_keys(s.missing).push(key));
        assert(distinct_keys(c.missing)) by {
            assert forall|a: int, b: int|
                0 <= a < c.missing.len() && 0 <= b < c.missing.len() && a != b implies (
                #[trigger] c.missing[a]).0 != (#[trigger] c.missing[b]).0 by {
                if a == s.missing.len() {
                    assert(s.missing[b].0 != key);
                } else if b == s.missing.len() {
                    assert(s.missing[a].0 != key);
                }
            }
        }
        let last = s.missing.len() as int;
        assert(c.missing[last].1[0] == uuid);
        assert(c.missing[last].1.contains(uuid));
        assert forall|q: int| 0 <= q < s.missing.len() implies (#[trigger] c.missing[q]).0
            == s.missing[q].0 && forall|x: FileUuid| #[trigger]
            s.missing[q].1.contains(x) ==> c.missing[q].1.contains(x) by {
            assert(c.missing[q] == s.missing[q]);
        }
        assert forall|a: int, b: int|
            #![trigger c.missing[a].1[b]]
            0 <= a < c.missing.len() && 0 <= b < c.missing[a].1.len() implies (c.missing[a].1[b]
                == uuid && c.missing[a].0 == key) || (a < s.missing.len() && b < s.missing[a].1.len()
                && c.missing[a].1[b] == s.missing[a].1[b]) by {
            if a < s.missing.len() {
                assert(c.missing[a] == s.missing[a]);
            }
        }
    }
}

/// What holds of the first `m` dependencies holds of the first `n`, for `m <= n`.
proof fn lemma_waiting_not_stored_more(
    job: WorkerJob,
    stored: Seq<bool>,
    m: int,
    n: int,
    missing: Seq<(Seq<u8>, Seq<FileUuid>)>,
)
    requires
        m <= n,
        waiting_not_stored(job, stored, m, missing),
    ensures
        waiting_not_stored(job, stored, n, missing),
{
    assert forall|p: int, q: int|
        #![trigger missing[p].1[q]]
        0 <= p < missing.len() && 0 <= q < missing[p].1.len() implies lacked_before(
        job,
        stored,
        n,
        missing[p].1[q],
    ) by {
        let i = choose|i: int| 0 <= i < m && #[trigger] deps(job)[i] == missing[p].1[q] && !stored[i];
        assert(deps(job)[i] == missing[p].1[q]);
    }
}

/// Looking at the dependencies one by one keeps the list of waited-for files well formed,
/// asks for each key once, in the order of the list and of the first dependency that needs
/// it, and accounts for every dependency seen; an error names the first dependency whose key
/// the job lacks.
pub proof fn lemma_scan(job: WorkerJob, stored: Seq<bool>, n: nat)
    requires
        n <= deps(job).len(),
        stored.len() == deps(job).len(),
    ensures
        missing_wf(scan(job, stored, n).missing),
        scan(job, stored, n).asks == missing_keys(scan(job, stored, n).missing),
        scan(job, stored, n).error matches Some(uuid) ==> exists|i: int|
            0 <= i < n && #[trigger] deps(job)[i] == uuid && !has_key(job, uuid) && keyed(job, i),
        waiting_not_stored(job, stored, n as int, scan(job, stored, n).missing),
        scan(job, stored, n).error is None ==> {
            &&& seen(job, stored, n as int, scan(job, stored, n).ready, scan(job, stored, n).missing)
            &&& accounted(job, n as int, scan(job, stored, n).ready, scan(job, stored, n).missing)
            &&& scan(job, stored, n).asks == first_occurrences(lacked_keys(job, stored, n))
        },
    decreases n,
{
    let cur = scan(job, stored, n);
    if n > 0 {
        let prev = scan(job, stored, (n - 1) as nat);
        lemma_scan(job, stored, (n - 1) as nat);
        let uuid = deps(job)[n - 1];
        if prev.error is Some {
            lemma_waiting_not_stored_more(job, stored, n - 1, n as int, prev.missing);
        } else if !has_key(job, uuid) {
            assert(deps(job)[n - 1] == uuid);
            lemma_waiting_not_stored_more(job, stored, n - 1, n as int, prev.missing);
        } else if stored[n - 1] {
            lemma_waiting_not_stored_more(job, stored, n - 1, n as int, prev.missing);
            assert forall|i: int| 0 <= i < n implies (stored[i] ==> cur.ready.contains(
                #[trigger] deps(job)[i],
            )) && (!stored[i] ==> waits(cur.missing, deps(job)[i], key_of(job, deps(job)[i]))) by {
                if i < n - 1 {
                }
            }
        } else {
            let key = key_of(job, uuid);
            lemma_add_missing(prev, key, uuid);
            let lk = lacked_keys(job, stored, (n - 1) as nat);
            assert(lacked_keys(job, stored, n).drop_last() =~= lk);
            assert forall|i: int| 0 <= i < n implies (stored[i] ==> cur.ready.contains(
                #[trigger] deps(job)[i],
            )) && (!stored[i] ==> waits(cur.missing, deps(job)[i], key_of(job, deps(job)[i]))) by {
                if i < n - 1 && !stored[i] {
                    lemma_waits_grows(prev.missing, cur.missing, deps(job)[i], key_of(job, deps(job)[i]));
                }
            }
            assert forall|a: int, b: int|
                0 <= a < cur.missing.len() && 0 <= b < (#[trigger] cur.missing[a]).1.len()
                    implies has_key(job, #[trigger] cur.missing[a].1[b]) && key_of(
                job,
                cur.missing[a].1[b],
            ) == cur.missing[a].0 by {
                if !(cur.missing[a].1[b] == uuid && cur.missing[a].0 == key) {
                    assert(prev.missing[a].1[b] == cur.missing[a].1[b]);
                }
            }
            assert forall|a: int, b: int|
                #![trigger cur.missing[a].1[b]]
                0 <= a < cur.missing.len() && 0 <= b < cur.missing[a].1.len() implies lacked_before(
                job,
                stored,
                n as int,
                cur.missing[a].1[b],
            ) by {
                if cur.missing[a].1[b] == uuid && cur.missing[a].0 == key {
                    assert(deps(job)[n - 1] == cur.missing[a].1[b]);
                } else {
                    assert(prev.missing[a].1[b] == cur.missing[a].1[b]);
                    assert(lacked_before(job, stored, n - 1, prev.missing[a].1[b]));
                    let i = choose|i: int|
                        0 <= i < n - 1 && #[trigger] deps(job)[i] == prev.missing[a].1[b] && !stored[i];
                    assert(deps(job)[i] == cur.missing[a].1[b]);
                }
            }
        }
        if cur.error is None {
            assert(keyed(job, n as int)) by {
                assert forall|i: int| 0 <= i < n implies has_key(job, #[trigger] deps(job)[i]) by {
                    if i < n - 1 {
                    }
                }
            }
        }
    }
}

/// Once the worker has stopped at a dependency without key, looking further changes nothing.
pub proof fn lemma_scan_stops(job: WorkerJob, stored: Seq<bool>, m: nat, n: nat)
    requires
        m <= n,
        scan(job, stored, m).error is Some,
    ensures
        scan(job, stored, n) == scan(job, stored, m),
    decreases n - m,
{
    if m < n {
        lemma_scan_stops(job, stored, m, (n - 1) as nat);
    }
}

/// Adding an element to a sequence adds it to the set of its elements.
pub proof fn lemma_push_to_set(s: Seq<FileUuid>, x: FileUuid)
    ensures
        s.push(x).to_set() == s.to_set().insert(x),
{
    assert forall|a: FileUuid| #[trigger] s.push(x).to_set().contains(a) == s.to_set().insert(x).contains(a) by {
        if s.contains(a) {
            let w = choose|w: int| 0 <= w < s.len() && s[w] == a;
            assert(s.push(x)[w] == a);
        }
        if a == x {
            assert(s.push(x)[s.len() as int] == a);
        }
        if s.push(x).contains(a) {
            let w = choose|w: int| 0 <= w < s.push(x).len() && s.push(x)[w] == a;
            if w < s.len() {
                assert(s[w] == a);
            }
        }
    }
    assert(s.push(x).to_set() =~= s.to_set().insert(x));
}

/// A file that arrives keeps the invariant: its dependencies become ready, the other waiting
/// dependencies keep waiting, and the job runs once nothing is missing.
pub proof fn lemma_provide_file_wf(s: WorkerState, key: FileStoreKey)
    requires
        state_wf(s),
        is_missing(s.missing, key@),
    ensures
        state_wf(next(s, WorkerEvent::ProvideFile { key }).0),
{
    let p = position_of(s.missing, key@);
    let t = next(s, WorkerEvent::ProvideFile { key }).0;
    let entry = s.missing[p];
    assert(s.waiting is Some);
    assert forall|a: int| 0 <= a < t.missing.len() implies #[trigger] t.missing[a] == s.missing[
        if a < p { a } else { a + 1 }] by {}
    assert(distinct_keys(t.missing)) by {
        assert forall|a: int, b: int|
            0 <= a < t.missing.len() && 0 <= b < t.missing.len() && a != b implies (
            #[trigger] t.missing[a]).0 != (#[trigger] t.missing[b]).0 by {
            let a1 = if a < p { a } else { a + 1 };
            let b1 = if b < p { b } else { b + 1 };
            assert(t.missing[a] == s.missing[a1]);
            assert(t.missing[b] == s.missing[b1]);
        }
    }
    assert forall|a: int| 0 <= a < t.missing.len() implies (#[trigger] t.missing[a]).1.len() > 0 by {
        let a1 = if a < p { a } else { a + 1 };
        assert(t.missing[a] == s.missing[a1]);
    }
    let job = s.waiting->0;
    assert forall|i: int| 0 <= i < deps(job).len() implies t.ready.contains(#[trigger] deps(job)[i])
        || waits(t.missing, deps(job)[i], key_of(job, deps(job)[i])) by {
        let d = deps(job)[i];
        if !s.ready.contains(d) {
            let q = choose|q: int|
                0 <= q < s.missing.len() && (#[trigger] s.missing[q]).0 == key_of(job, d)
                    && s.missing[q].1.contains(d);
            if q == p {
                assert(entry.1.to_set().contains(d));
            } else {
                let q1 = if q < p { q } else { q - 1 };
                assert(t.missing[q1] == s.missing[q]);
            }
        }
    }
    assert forall|a: int, b: int|
        0 <= a < t.missing.len() && 0 <= b < (#[trigger] t.missing[a]).1.len() implies has_key(
        job,
        #[trigger] t.missing[a].1[b],
    ) && key_of(job, t.missing[a].1[b]) == t.missing[a].0 by {
        let a1 = if a < p { a } else { a + 1 };
        assert(t.missing[a] == s.missing[a1]);
    }
    if t.missing.len() == 0 {
        assert forall|i: int| 0 <= i < deps(job).len() implies t.ready.contains(
            #[trigger] deps(job)[i],
        ) by {
            if !t.ready.contains(deps(job)[i]) {
                assert(waits(t.missing, deps(job)[i], key_of(job, deps(job)[i])));
            }
        }
    }
}

/// Every event that the worker accepts keeps its invariant.
pub proof fn lemma_next_wf(s: WorkerState, e: WorkerEvent)
    requires
        state_wf(s),
        accepts(s, e),
    ensures
        state_wf(next(s, e).0),
{
    match e {
        WorkerEvent::Work { job, stored } => {
            let r = scan_job(job, stored@);
            lemma_scan(job, stored@, deps(job).len());
            if r.error is None && r.missing.len() == 0 {
                assert forall|i: int| 0 <= i < deps(job).len() implies r.ready.contains(
                    #[trigger] deps(job)[i],
                ) by {
                    if !r.ready.contains(deps(job)[i]) {
                        assert(waits(r.missing, deps(job)[i], key_of(job, deps(job)[i])));
                    }
                }
            }
        },
        WorkerEvent::ProvideFile { key } => {
            lemma_provide_file_wf(s, key);
        },
        _ => {},
    }
}

/// The missing files of a list, as mathematical values.
pub open spec fn missing_view(missing: Seq<MissingFile>) -> Seq<(Seq<u8>, Seq<FileUuid>)> {
    missing.map_values(|m: MissingFile| (m.key@, m.uuids@))
}

/// The state of a worker: the job that waits for files, the job that runs, which of the
/// job's dependencies are in the file store, whether the running job's sandbox runs, and which
/// stored files the waiting job still needs.
pub struct WorkerCurrentJob {
    current_job: Option<WorkerJob>,
    running_job: Option<WorkerJob>,
    ready: HashSet<FileUuid>,
    has_sandbox: bool,
    missing_deps: Vec<MissingFile>,
}

impl View for WorkerCurrentJob {
    type V = WorkerState;

    closed spec fn view(&self) -> WorkerState {
        WorkerState {
            waiting: self.current_job,
            running: self.running_job,
            ready: self.ready@,
            has_sandbox: self.has_sandbox,
            missing: missing_view(self.missing_deps@),
        }
    }
}

/// The place of a key in a list of missing files, if it is there.
fn find_missing(missing: &Vec<MissingFile>, key: &FileStoreKey) -> (r: Option<usize>)
    ensures
        r matches Some(p) ==> p < missing@.len() && missing_view(missing@)[p as int].0 == key@,
        r is None ==> !is_missing(missing_view(missing@), key@),
{
    let n = missing.len();
    let mut i: usize = 0;
    while i < n
        invariant
            n == missing@.len(),
            i <= n,
            forall|j: int| 0 <= j < i ==> (#[trigger] missing_view(missing@)[j]).0 != key@,
        decreases n - i,
    {
        if missing[i].key.same_as(key) {
            return Some(i);
        }
        i = i + 1;
    }
    None
}

impl WorkerCurrentJob {
    /// A worker that holds no job.
    pub fn new() -> (r: WorkerCurrentJob)
        ensures
            r@.waiting is None,
            r@.running is None,
            r@.ready == Set::<FileUuid>::empty(),
            !r@.has_sandbox,
            r@.missing == Seq::<(Seq<u8>, Seq<FileUuid>)>::empty(),
            state_wf(r@),
    {
        let r = WorkerCurrentJob {
            current_job: None,
            running_job: None,
            ready: HashSet::new(),
            has_sandbox: false,
            missing_deps: Vec::new(),
        };
        assert(r@.missing =~= Seq::<(Seq<u8>, Seq<FileUuid>)>::empty());
        r
    }

    /// The job that waits for files from the server; none while a job runs.
    pub fn current_job(&self) -> (r: &Option<WorkerJob>)
        ensures
            *r == self@.waiting,
    {
        &self.current_job
    }

    /// The job that runs, or is about to run, in a sandbox.
    pub fn running_job(&self) -> (r: &Option<WorkerJob>)
        ensures
            *r == self@.running,
    {
        &self.running_job
    }

    /// Whether a sandbox runs for the running job.
    pub fn has_sandbox(&self) -> (r: bool)
        ensures
            r == self@.has_sandbox,
    {
        self.has_sandbox
    }

    /// Whether the dependency of the job is in the file store.
    pub fn is_ready(&self, uuid: FileUuid) -> (r: bool)
        ensures
            r == self@.ready.contains(uuid),
    {
        self.ready.contains(&uuid)
    }

    /// How many stored files the waiting job still needs.
    pub fn missing_count(&self) -> (r: usize)
        ensures
            r == self@.missing.len(),
    {
        self.missing_deps.len()
    }

    /// Whether the waiting job needs the stored file with this key.
    pub fn is_missing(&self, key: &FileStoreKey) -> (r: bool)
        ensures
            r == is_missing(self@.missing, key@),
    {
        find_missing(&self.missing_deps, key).is_some()
    }

    /// Whether the worker accepts the event.
    pub fn accepts(&self, event: &WorkerEvent) -> (r: bool)
        ensures
            r == accepts(self@, *event),
    {
        match event {
            WorkerEvent::Work { job, stored } => self.current_job.is_none()
                && self.running_job.is_none() && stored.len() == job.execution.dependencies.len(),
            WorkerEvent::ProvideFile { key } => self.is_missing(key),
            WorkerEvent::JobFinished => self.running_job.is_some(),
            _ => true,
        }
    }

    /// The server sends a job: the worker asks once for each stored file that the job needs
    /// and the store lacks, and the job runs at once when nothing is missing, or waits for the
    /// files. Where a dependency has no key in the job, the worker fails after the requests
    /// made so far, and keeps its state.
    pub fn on_work(&mut self, job: WorkerJob, stored: Vec<bool>) -> (actions: Vec<WorkerAction>)
        requires
            state_wf(old(self)@),
            old(self)@.waiting is None,
            old(self)@.running is None,
            stored@.len() == deps(job).len(),
        ensures
            final(self)@ == next(old(self)@, WorkerEvent::Work { job, stored }).0,
            actions_view(actions@) == next(old(self)@, WorkerEvent::Work { job, stored }).1,
    {
        let ghost g_stored = stored@;
        let mut ready: HashSet<FileUuid> = HashSet::new();
        let mut missing: Vec<MissingFile> = Vec::new();
        let mut actions: Vec<WorkerAction> = Vec::new();
        let n = job.execution.dependencies.len();
        let mut i: usize = 0;
        assert(missing_view(missing@) =~= Seq::<(Seq<u8>, Seq<FileUuid>)>::empty());
        assert(actions_view(actions@) =~= ask_actions(Seq::<Seq<u8>>::empty()));
        while i < n
            invariant
                n == deps(job).len(),
                g_stored == stored@,
                g_stored.len() == n,
                i <= n,
                scan(job, g_stored, i as nat).error is None,
                ready@ == scan(job, g_stored, i as nat).ready,
                missing_view(missing@) == scan(job, g_stored, i as nat).missing,
                actions_view(actions@) == ask_actions(scan(job, g_stored, i as nat).asks),
                *old(self) == *self,
            decreases n - i,
        {
            proof {
                lemma_scan(job, g_stored, i as nat);
            }
            let ghost prev = scan(job, g_stored, i as nat);
            let uuid = job.execution.dependencies[i];
            match job.dep_key(uuid) {
                None => {
                    let ghost before = actions@;
                    actions.push(WorkerAction::Fail(WorkerError::MissingDependencyKey { uuid }));
                    assert(actions_view(actions@) =~= actions_view(before).push(ActionView::Fail(uuid)));
                    assert(scan_job(job, g_stored) == scan(job, g_stored, (i + 1) as nat)) by {
                        lemma_scan_stops(job, g_stored, (i + 1) as nat, n as nat);
                    }
                    return actions;
                },
                Some(key) => {
                    if stored[i] {
                        ready.insert(uuid);
                        assert(ready@ =~= scan(job, g_stored, (i + 1) as nat).ready);
                    } else {
                        match find_missing(&missing, key) {
                            Some(p) => {
                                proof {
                                    let k = key_of(job, uuid);
                                    assert(is_missing(prev.missing, k));
                                    let q = position_of(prev.missing, k);
                                    assert(q == p);
                                }
                                let mut entry = missing.remove(p);
                                entry.uuids.push(uuid);
                                missing.insert(p, entry);
                                assert(missing_view(missing@) =~= scan(job, g_stored, (i + 1) as nat).missing);
                            },
                            None => {
                                let ghost before_a = actions@;
                                let ghost before_m = missing@;
                                actions.push(WorkerAction::AskFile(key.duplicate()));
                                let mut uuids: Vec<FileUuid> = Vec::new();
                                uuids.push(uuid);
                                assert(uuids@ =~= seq![uuid]);
                                missing.push(MissingFile { key: key.duplicate(), uuids });
                                assert(actions_view(actions@) =~= actions_view(before_a).push(
                                    ActionView::AskFile(key@),
                                ));
                                assert(missing_view(missing@) =~= missing_view(before_m).push(
                                    (key@, seq![uuid]),
                                ));
                                assert(ask_actions(prev.asks.push(key@)) =~= ask_actions(prev.asks).push(
                                    ActionView::AskFile(key@),
                                ));
                            },
                        }
                    }
                },
            }
            i = i + 1;
        }
        self.ready = ready;
        self.missing_deps = missing;
        if self.missing_deps.len() == 0 {
            self.running_job = Some(job);
            let ghost before = actions@;
            actions.push(WorkerAction::StartJob);
            assert(actions_view(actions@) =~= actions_view(before).push(ActionView::StartJob));
        } else {
            self.current_job = Some(job);
        }
        assert(self@ =~= next(old(self)@, WorkerEvent::Work { job, stored }).0);
        actions
    }

    /// The server has sent a file the waiting job needs, and the worker has stored it: the
    /// dependencies it provides are ready, and the job runs if nothing else is missing.
    pub fn on_provide_file(&mut self, key: FileStoreKey) -> (actions: Vec<WorkerAction>)
        requires
            state_wf(old(self)@),
            is_missing(old(self)@.missing, key@),
        ensures
            final(self)@ == next(old(self)@, WorkerEvent::ProvideFile { key }).0,
            actions_view(actions@) == next(old(self)@, WorkerEvent::ProvideFile { key }).1,
    {
        let ghost old_missing = self@.missing;
        let ghost old_ready = self@.ready;
        let p = match find_missing(&self.missing_deps, &key) {
            Some(p) => p,
            None => {
                proof {
                    assert(false);
                }
                return Vec::new();
            },
        };
        proof {
            let q = position_of(old_missing, key@);
            if q != p as int {
                assert(old_missing[q].0 == key@);
            }
        }
        let entry = self.missing_deps.remove(p);
        let ghost after_remove = self.missing_deps@;
        assert(missing_view(after_remove) =~= old_missing.remove(p as int));
        assert(entry.uuids@ == old_missing[p as int].1);
        let m = entry.uuids.len();
        let mut i: usize = 0;
        while i < m
            invariant
                m == entry.uuids@.len(),
                i <= m,
                self.ready@ == old_ready.union(entry.uuids@.take(i as int).to_set()),
                self.missing_deps@ == after_remove,
                self.current_job == old(self).current_job,
                self.running_job == old(self).running_job,
                self.has_sandbox == old(self).has_sandbox,
            decreases m - i,
        {
            let uuid = entry.uuids[i];
            self.ready.insert(uuid);
            assert(entry.uuids@.take(i + 1) =~= entry.uuids@.take(i as int).push(uuid));
            proof {
                lemma_push_to_set(entry.uuids@.take(i as int), uuid);
            }
            assert(self.ready@ =~= old_ready.union(entry.uuids@.take(i + 1).to_set()));
            i = i + 1;
        }
        assert(entry.uuids@.take(m as int) =~= entry.uuids@);
        let mut actions: Vec<WorkerAction> = Vec::new();
        if self.missing_deps.len() == 0 {
            self.running_job = self.current_job.take();
            actions.push(WorkerAction::StartJob);
            assert(actions_view(actions@) =~= seq![ActionView::StartJob]);
        } else {
            assert(actions_view(actions@) =~= Seq::<ActionView>::empty());
        }
        assert(self@ =~= next(old(self)@, WorkerEvent::ProvideFile { key }).0);
        actions
    }

    /// The worker's answer to one event: its next state and the actions it performs, in order.
    pub fn step(&mut self, event: WorkerEvent) -> (actions: Vec<WorkerAction>)
        requires
            state_wf(old(self)@),
            accepts(old(self)@, event),
        ensures
            state_wf(final(self)@),
            final(self)@ == next(old(self)@, event).0,
            actions_view(actions@) == next(old(self)@, event).1,
    {
        proof {
            lemma_next_wf(self@, event);
        }
        let ghost e = event;
        let mut actions: Vec<WorkerAction> = Vec::new();
        match event {
            WorkerEvent::Connected => {
                actions.push(WorkerAction::GetWork);
                assert(actions_view(actions@) =~= seq![ActionView::GetWork]);
            },
            WorkerEvent::Work { job, stored } => {
                return self.on_work(job, stored);
            },
            WorkerEvent::ProvideFile { key } => {
                return self.on_provide_file(key);
            },
            WorkerEvent::Exit => {
                actions.push(WorkerAction::Stop);
                assert(actions_view(actions@) =~= seq![ActionView::Stop]);
            },
            WorkerEvent::KillJob { execution } => {
                let same_job = match &self.running_job {
                    Some(job) => job.execution.uuid == execution,
                    None => false,
                };
                if same_job && self.has_sandbox {
                    actions.push(WorkerAction::KillSandbox);
                    assert(actions_view(actions@) =~= seq![ActionView::KillSandbox]);
                } else {
                    assert(actions_view(actions@) =~= Seq::<ActionView>::empty());
                }
            },
            WorkerEvent::Disconnected => {
                if self.has_sandbox {
                    actions.push(WorkerAction::KillSandbox);
                    actions.push(WorkerAction::Stop);
                    assert(actions_view(actions@) =~= seq![ActionView::KillSandbox, ActionView::Stop]);
                } else {
                    actions.push(WorkerAction::Stop);
                    assert(actions_view(actions@) =~= seq![ActionView::Stop]);
                }
            },
            WorkerEvent::SandboxStarted => {
                self.has_sandbox = true;
                assert(actions_view(actions@) =~= Seq::<ActionView>::empty());
            },
            WorkerEvent::JobFinished => {
                self.running_job = None;
                self.ready = HashSet::new();
                self.has_sandbox = false;
                actions.push(WorkerAction::GetWork);
                assert(actions_view(actions@) =~= seq![ActionView::GetWork]);
            },
        }
        assert(self@ =~= next(old(self)@, e).0);
        assert(actions_view(actions@) =~= next(old(self)@, e).1);
        actions
    }
}

} // verus!
