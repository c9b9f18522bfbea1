//! What a worker is given to run: the job, its execution and the keys of the files it needs.

use vstd::prelude::*;
use std::collections::HashMap;

verus! {

broadcast use vstd::std_specs::hash::group_hash_axioms;

/// Identifier of a file of the computation graph (a 128-bit UUID).
pub type FileUuid = u128;

/// Identifier of an execution of the computation graph (a 128-bit UUID).
pub type ExecutionUuid = u128;

/// The key of a file in the file store: the digest of its content.
#[derive(Clone, Debug, PartialEq, Eq)]
pub struct FileStoreKey {
    pub hash: Vec<u8>,
}

impl View for FileStoreKey {
    type V = Seq<u8>;

    open spec fn view(&self) -> Seq<u8> {
        self.hash@
    }
}

impl FileStoreKey {
    /// Whether two keys name the same content.
    pub fn same_as(&self, other: &FileStoreKey) -> (r: bool)
        ensures
            r == (self@ == other@),
    {
        let n = self.hash.len();
        if n != other.hash.len() {
            return false;
        }
        let mut i: usize = 0;
        while i < n
            invariant
                n == self.hash.len(),
                n == other.hash.len(),
                i <= n,
                forall|j: int| 0 <= j < i ==> self.hash@[j] == other.hash@[j],
            decreases n - i,
        {
            if self.hash[i] != other.hash[i] {
                return false;
            }
            i = i + 1;
        }
        assert(self.hash@ =~= other.hash@);
        true
    }

    /// A copy of the key.
    pub fn duplicate(&self) -> (r: FileStoreKey)
        ensures
            r@ == self@,
    {
        let mut hash: Vec<u8> = Vec::new();
        let n = self.hash.len();
        let mut i: usize = 0;
        while i < n
            invariant
                n == self.hash.len(),
                i <= n,
                hash@ == self.hash@.subrange(0, i as int),
            decreases n - i,
        {
            hash.push(self.hash[i]);
            i = i + 1;
        }
        FileStoreKey { hash }
    }
}

/// What a worker reads of an execution of the computation graph.
pub struct Execution {
    /// The identifier of the execution.
    pub uuid: ExecutionUuid,
    /// A human readable description of the execution.
    pub description: String,
    /// The files the execution needs before it can start, in order.
    pub dependencies: Vec<FileUuid>,
    /// The file that receives the standard output, if it is captured.
    pub stdout: Option<FileUuid>,
    /// The file that receives the standard error, if it is captured.
    pub stderr: Option<FileUuid>,
    /// The files the execution leaves in its sandbox: path inside the sandbox, and file.
    pub outputs: Vec<(String, FileUuid)>,
    /// Whether the sandbox is kept after the execution.
    pub keep_sandboxes: bool,
}

/// A job handed to a worker: an execution and the store keys of its dependencies.
pub struct WorkerJob {
    pub execution: Execution,
    pub dep_keys: HashMap<FileUuid, FileStoreKey>,
}

/// The dependencies of a job, in order.
pub open spec fn deps(job: WorkerJob) -> Seq<FileUuid> {
    job.execution.dependencies@
}

/// Whether the job knows the store key of the file.
pub open spec fn has_key(job: WorkerJob, uuid: FileUuid) -> bool {
    job.dep_keys@.contains_key(uuid)
}

/// The store key of a file of the job.
pub open spec fn key_of(job: WorkerJob, uuid: FileUuid) -> Seq<u8> {
    job.dep_keys@[uuid]@
}

impl WorkerJob {
    /// The store key of one of the job's files, if the job has it.
    pub fn dep_key(&self, uuid: FileUuid) -> (r: Option<&FileStoreKey>)
        ensures
            r is Some <==> has_key(*self, uuid),
            r matches Some(k) ==> k@ == key_of(*self, uuid),
    {
        self.dep_keys.get(&uuid)
    }
}

} // verus!
