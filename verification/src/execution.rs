//! What a worker makes of a run: the result it reports and the files it sends back.

use vstd::prelude::*;
use std::collections::HashMap;
use crate::job::{Execution, FileUuid};
use crate::text::text;

verus! {

broadcast use vstd::std_specs::hash::group_hash_axioms;

/// How an execution ended.
#[derive(Clone, Debug, PartialEq, Eq)]
pub enum ExecutionStatus {
    /// It exited with status 0.
    Success,
    /// It exited with this nonzero status.
    ReturnCode(u32),
    /// It was killed by this signal, with this name.
    Signal(u32, String),
    /// It used more CPU time than allowed.
    TimeLimitExceeded,
    /// It used more system time than allowed.
    SysTimeLimitExceeded,
    /// It used more wall time than allowed.
    WallTimeLimitExceeded,
    /// It used more memory than allowed.
    MemoryLimitExceeded,
    /// The execution could not be run properly.
    InternalError(String),
}

/// The result of an execution, with the resources it used (of type `R`).
#[derive(Clone, Debug, PartialEq, Eq)]
pub struct ExecutionResult<R> {
    pub status: ExecutionStatus,
    pub was_killed: bool,
    pub was_cached: bool,
    pub resources: R,
}

/// What the sandbox reports of a run.
#[derive(Clone, Debug, PartialEq, Eq)]
pub enum SandboxResult<R> {
    /// The process ran: its exit status, the signal that killed it, the resources it used and
    /// whether the sandbox killed it.
    Success { exit_status: u32, signal: Option<(u32, String)>, resources: R, was_killed: bool },
    /// The sandbox failed to run the process.
    Failed { error: String },
}

/// What a result of an execution is, given what the sandbox reports. Where the process ran,
/// its status is one that `status_of` (the execution's own judgement of exit status, signal
/// and resources) may give, and the resources and the killed flag are the sandbox's; where
/// the sandbox failed, the status is an internal error with the sandbox's message and the
/// resources are `default_resources`. A worker never reports a cached result.
pub open spec fn is_execution_result<R, F: Fn(u32, Option<(u32, String)>, &R) -> ExecutionStatus>(
    status_of: F,
    result: SandboxResult<R>,
    default_resources: R,
    r: ExecutionResult<R>,
) -> bool {
    &&& !r.was_cached
    &&& result matches SandboxResult::Success { exit_status, signal, resources, was_killed }
        ==> status_of.ensures((exit_status, signal, &resources), r.status) && r.resources
        == resources && r.was_killed == was_killed
    &&& result matches SandboxResult::Failed { error } ==> r.status
        == ExecutionStatus::InternalError(error) && r.resources == default_resources
        && !r.was_killed
}

/// The result of an execution from what the sandbox reports (see `is_execution_result`).
pub fn compute_execution_result<R, F: Fn(u32, Option<(u32, String)>, &R) -> ExecutionStatus>(
    status_of: &F,
    result: SandboxResult<R>,
    default_resources: R,
) -> (r: ExecutionResult<R>)
    requires
        result matches SandboxResult::Success { exit_status, signal, resources, was_killed }
            ==> status_of.requires((exit_status, signal, &resources)),
    ensures
        is_execution_result(*status_of, result, default_resources, r),
        !r.was_cached,
        result matches SandboxResult::Success { resources, .. } ==> r.resources == resources,
        result matches SandboxResult::Success { was_killed, .. } ==> r.was_killed == was_killed,
        result matches SandboxResult::Failed { error } ==> r.status
            == ExecutionStatus::InternalError(error),
        result is Failed ==> r.resources == default_resources && !r.was_killed,
{
    match result {
        SandboxResult::Success { exit_status, signal, resources, was_killed } => {
            let status = status_of(exit_status, signal, &resources);
            ExecutionResult { status, resources, was_killed, was_cached: false }
        },
        SandboxResult::Failed { error } => ExecutionResult {
            status: ExecutionStatus::InternalError(error),
            resources: default_resources,
            was_killed: false,
            was_cached: false,
        },
    }
}

/// Where the execution's judgement gives one status for each run, the result of an execution
/// is determined by what the sandbox reports: two results for the same report are equal.
pub proof fn law_execution_result_is_determined<
    R,
    F: Fn(u32, Option<(u32, String)>, &R) -> ExecutionStatus,
>(
    status_of: F,
    result: SandboxResult<R>,
    default_resources: R,
    r1: ExecutionResult<R>,
    r2: ExecutionResult<R>,
)
    requires
        forall|args: (u32, Option<(u32, String)>, &R), s1: ExecutionStatus, s2: ExecutionStatus|
            #[trigger] status_of.ensures(args, s1) && #[trigger] status_of.ensures(args, s2) ==> s1
                == s2,
        is_execution_result(status_of, result, default_resources, r1),
        is_execution_result(status_of, result, default_resources, r2),
    ensures
        r1 == r2,
{
}

/// The message of a run that the sandbox could not carry out.
pub open spec fn sandbox_failure_message(error: Seq<char>) -> Seq<char> {
    "Sandbox failed: "@ + error
}

/// The result reported when the sandbox fails to run the job: an internal error that quotes
/// the sandbox's error, with `default_resources`, neither killed nor cached.
pub fn sandbox_failure_result<R>(error: &str, default_resources: R) -> (r: ExecutionResult<R>)
    ensures
        r.status matches ExecutionStatus::InternalError(m) && m@ == sandbox_failure_message(
            error@,
        ),
        r.resources == default_resources,
        !r.was_killed,
        !r.was_cached,
{
    let mut message = text("Sandbox failed: ");
    message.append(error);
    ExecutionResult {
        status: ExecutionStatus::InternalError(message),
        resources: default_resources,
        was_killed: false,
        was_cached: false,
    }
}

/// Where the content of an output file of a job is taken from.
#[derive(Clone, Debug, PartialEq, Eq)]
pub enum OutputSource {
    /// The standard output of the process.
    Stdout,
    /// The standard error of the process.
    Stderr,
    /// The file at this path inside the sandbox.
    File(String),
    /// Nothing: the process removed or never wrote the file, which counts as empty.
    Empty,
}

/// A source as a mathematical value.
pub enum SourceView {
    Stdout,
    Stderr,
    File(Seq<char>),
    Empty,
}

impl View for OutputSource {
    type V = SourceView;

    open spec fn view(&self) -> SourceView {
        match self {
            OutputSource::Stdout => SourceView::Stdout,
            OutputSource::Stderr => SourceView::Stderr,
            OutputSource::File(p) => SourceView::File(p@),
            OutputSource::Empty => SourceView::Empty,
        }
    }
}

/// The sources of the captured standard streams.
pub open spec fn stream_sources(e: Execution) -> Map<FileUuid, SourceView> {
    let m = match e.stdout {
        Some(u) => Map::empty().insert(u, SourceView::Stdout),
        None => Map::empty(),
    };
    match e.stderr {
        Some(u) => m.insert(u, SourceView::Stderr),
        None => m,
    }
}

/// The sources of the output files of an execution, after the first `n` declared outputs:
/// the standard output, then the standard error, then each declared output in order, a later
/// one replacing an earlier one for the same file. A declared output whose path does not
/// exist (`exists[i]` false) is empty.
pub open spec fn output_sources(e: Execution, exists: Seq<bool>, n: nat) -> Map<FileUuid, SourceView>
    decreases n,
{
    if n == 0 {
        stream_sources(e)
    } else {
        let (path, uuid) = e.outputs@[n - 1];
        output_sources(e, exists, (n - 1) as nat).insert(
            uuid,
            if exists[n - 1] {
                SourceView::File(path@)
            } else {
                SourceView::Empty
            },
        )
    }
}

/// The sources of a map of output files, as mathematical values.
pub open spec fn sources_view(m: Map<FileUuid, OutputSource>) -> Map<FileUuid, SourceView> {
    m.map_values(|s: OutputSource| s@)
}

/// Inserting a source into a map and then viewing it is viewing and then inserting.
proof fn lemma_sources_insert(m: Map<FileUuid, OutputSource>, u: FileUuid, s: OutputSource)
    ensures
        sources_view(m.insert(u, s)) == sources_view(m).insert(u, s@),
{
    assert(sources_view(m.insert(u, s)) =~= sources_view(m).insert(u, s@));
}

/// Where each output file of a finished job is taken from. `exists[i]` tells whether the
/// path of the `i`-th declared output exists in the sandbox.
pub fn plan_outputs(execution: &Execution, exists: &Vec<bool>) -> (r: HashMap<FileUuid, OutputSource>)
    requires
        exists@.len() == execution.outputs@.len(),
    ensures
        sources_view(r@) == output_sources(*execution, exists@, execution.outputs@.len()),
{
    let mut r: HashMap<FileUuid, OutputSource> = HashMap::new();
    assert(sources_view(r@) =~= Map::<FileUuid, SourceView>::empty());
    if let Some(u) = execution.stdout {
        let ghost before = r@;
        r.insert(u, OutputSource::Stdout);
        proof {
            lemma_sources_insert(before, u, OutputSource::Stdout);
        }
    }
    if let Some(u) = execution.stderr {
        let ghost before = r@;
        r.insert(u, OutputSource::Stderr);
        proof {
            lemma_sources_insert(before, u, OutputSource::Stderr);
        }
    }
    assert(sources_view(r@) =~= stream_sources(*execution));
    let n = execution.outputs.len();
    let mut i: usize = 0;
    while i < n
        invariant
            n == execution.outputs@.len(),
            exists@.len() == n,
            i <= n,
            sources_view(r@) == output_sources(*execution, exists@, i as nat),
        decreases n - i,
    {
        let uuid = execution.outputs[i].1;
        let source = if exists[i] {
            OutputSource::File(execution.outputs[i].0.clone())
        } else {
            OutputSource::Empty
        };
        let ghost before = r@;
        r.insert(uuid, source);
        proof {
            lemma_sources_insert(before, uuid, r@[uuid]);
            assert(r@ == before.insert(uuid, r@[uuid]));
        }
        i = i + 1;
    }
    r
}

/// No declared output among the first `n` is the file `u`.
pub open spec fn no_output_for(e: Execution, n: int, u: FileUuid) -> bool {
    forall|i: int| 0 <= i < n ==> (#[trigger] e.outputs@[i]).1 != u
}

/// No declared output after the `i`-th and before the `n`-th is the same file.
pub open spec fn last_output_for(e: Execution, n: int, i: int) -> bool {
    forall|j: int| i < j < n ==> (#[trigger] e.outputs@[j]).1 != e.outputs@[i].1
}

/// The source of a declared output: the file in the sandbox where it exists, else nothing.
pub open spec fn declared_source(e: Execution, exists: Seq<bool>, i: int) -> SourceView {
    if exists[i] {
        SourceView::File(e.outputs@[i].0@)
    } else {
        SourceView::Empty
    }
}

/// What holds of the sources after the first `n` declared outputs.
proof fn lemma_output_sources(e: Execution, exists: Seq<bool>, n: nat)
    requires
        n <= e.outputs@.len(),
    ensures
        forall|u: FileUuid|
            #[trigger] output_sources(e, exists, n).contains_key(u) <==> (e.stdout == Some(u)
                || e.stderr == Some(u) || !no_output_for(e, n as int, u)),
        forall|u: FileUuid|
            e.stdout == Some(u) && e.stderr != Some(u) && no_output_for(e, n as int, u)
                ==> #[trigger] output_sources(e, exists, n)[u] == SourceView::Stdout,
        forall|v: FileUuid|
            e.stderr == Some(v) && no_output_for(e, n as int, v) ==> #[trigger] output_sources(
                e,
                exists,
                n,
            )[v] == SourceView::Stderr,
        forall|i: int|
            0 <= i < n && last_output_for(e, n as int, i) ==> output_sources(e, exists, n)[(
            #[trigger] e.outputs@[i]).1] == declared_source(e, exists, i),
    decreases n,
{
    if n > 0 {
        lemma_output_sources(e, exists, (n - 1) as nat);
        let m = output_sources(e, exists, (n - 1) as nat);
        let un = e.outputs@[n - 1].1;
        assert forall|u: FileUuid|
            #[trigger] output_sources(e, exists, n).contains_key(u) <==> (e.stdout == Some(u)
                || e.stderr == Some(u) || !no_output_for(e, n as int, u)) by {
            if u == un {
                assert(!no_output_for(e, n as int, u)) by {
                    assert(e.outputs@[n - 1].1 == u);
                }
            } else if !no_output_for(e, n as int, u) {
                let i = choose|i: int| 0 <= i < n && (#[trigger] e.outputs@[i]).1 == u;
                assert(!no_output_for(e, n - 1, u)) by {
                    assert(e.outputs@[i].1 == u);
                }
            } else {
                assert(no_output_for(e, n - 1, u));
            }
        }
        assert forall|u: FileUuid|
            e.stdout == Some(u) && e.stderr != Some(u) && no_output_for(e, n as int, u)
                implies #[trigger] output_sources(e, exists, n)[u] == SourceView::Stdout by {
            assert(e.outputs@[n - 1].1 != u);
            assert(no_output_for(e, n - 1, u));
        }
        assert forall|v: FileUuid|
            e.stderr == Some(v) && no_output_for(e, n as int, v) implies #[trigger] output_sources(
                e,
                exists,
                n,
            )[v] == SourceView::Stderr by {
            assert(e.outputs@[n - 1].1 != v);
            assert(no_output_for(e, n - 1, v));
        }
        assert forall|i: int|
            0 <= i < n && last_output_for(e, n as int, i) implies output_sources(e, exists, n)[(
            #[trigger] e.outputs@[i]).1] == declared_source(e, exists, i) by {
            if i < n - 1 {
                assert(e.outputs@[n - 1].1 != e.outputs@[i].1);
                assert(last_output_for(e, n - 1, i));
            }
        }
    }
}

/// The files sent back after a run are exactly the captured streams and the declared
/// outputs. The standard output is taken from the process's standard output unless the
/// standard error or a declared output is the same file; the standard error is taken from
/// the process's standard error unless a declared output is the same file; a declared output
/// that no later one replaces is taken from its file in the sandbox, or is empty when that
/// file does not exist.
pub proof fn law_plan_keeps_streams_and_outputs(e: Execution, exists: Seq<bool>)
    requires
        exists.len() == e.outputs@.len(),
    ensures
        forall|u: FileUuid|
            #[trigger] output_sources(e, exists, e.outputs@.len()).contains_key(u) <==> (e.stdout
                == Some(u) || e.stderr == Some(u) || exists|i: int|
                0 <= i < e.outputs@.len() && (#[trigger] e.outputs@[i]).1 == u),
        forall|u: FileUuid|
            e.stdout == Some(u) && e.stderr != Some(u) && no_output_for(e, e.outputs@.len() as int, u)
                ==> #[trigger] output_sources(e, exists, e.outputs@.len())[u] == SourceView::Stdout,
        forall|v: FileUuid|
            e.stderr == Some(v) && no_output_for(e, e.outputs@.len() as int, v)
                ==> #[trigger] output_sources(e, exists, e.outputs@.len())[v] == SourceView::Stderr,
        forall|i: int|
            0 <= i < e.outputs@.len() && last_output_for(e, e.outputs@.len() as int, i)
                ==> output_sources(e, exists, e.outputs@.len())[(#[trigger] e.outputs@[i]).1]
                == declared_source(e, exists, i),
{
    lemma_output_sources(e, exists, e.outputs@.len());
}

/// The result of a run keeps what the sandbox measured: where the process ran, the result's
/// resources and killed flag are the sandbox's, whatever the exit status or signal, and its
/// status is one the execution gives for that run; where the sandbox failed, the status is an
/// internal error that carries the sandbox's message, with the default resources, not killed.
/// No result is cached.
pub proof fn law_result_keeps_what_the_sandbox_measured<
    R,
    F: Fn(u32, Option<(u32, String)>, &R) -> ExecutionStatus,
>(status_of: F, result: SandboxResult<R>, default_resources: R, r: ExecutionResult<R>)
    requires
        is_execution_result(status_of, result, default_resources, r),
    ensures
        !r.was_cached,
        result matches SandboxResult::Success { resources, .. } ==> r.resources == resources,
        result matches SandboxResult::Success { was_killed, .. } ==> r.was_killed == was_killed,
        result matches SandboxResult::Success { exit_status, signal, resources, .. }
            ==> status_of.ensures((exit_status, signal, &resources), r.status),
        result matches SandboxResult::Failed { error } ==> r.status
            == ExecutionStatus::InternalError(error),
        result is Failed ==> r.resources == default_resources && !r.was_killed,
{
}

} // verus!
