//! The IOI batch task format: one input and one output file per testcase, both given as
//! static files, with a validator for every testcase.

use vstd::prelude::*;
use crate::text::{decimal, push_decimal, text};

verus! {

/// The identifier of a subtask of a batch task.
pub type IOIBatchSubtaskId = u32;

/// The identifier of a testcase of a batch task.
pub type IOIBatchTestcaseId = u32;

/// The metadata of an IOI task. The batch format reads none of it.
pub struct IOITaskInfo {}

/// A task in the IOI batch format.
pub struct IOIBatchTask {
    pub info: IOITaskInfo,
}

/// A subtask of a batch task.
pub struct IOIBatchSubtaskInfo;

/// A testcase of a batch task.
pub struct IOIBatchTestcaseInfo;

/// The generator of the input files of a batch task.
pub struct IOIBatchGenerator;

/// The validator of the input files of a batch task.
pub struct IOIBatchValidator;

/// A solution of a batch task.
pub struct IOIBatchSolution;

/// The checker of the output files of a batch task.
pub struct IOIBatchChecker;

/// A file that is already on disk: it provides the input or the output of a testcase.
pub struct StaticFileProvider {
    /// What the file is, for humans.
    pub description: String,
    /// Where the file is.
    pub path: String,
}

impl StaticFileProvider {
    /// A provider of the file at `path`.
    pub fn new(description: String, path: String) -> (r: StaticFileProvider)
        ensures
            r.description == description,
            r.path == path,
    {
        StaticFileProvider { description, path }
    }
}

/// The description of the static input file of a testcase.
pub open spec fn static_input_description(testcase: IOIBatchTestcaseId) -> Seq<char> {
    "Static input of testcase "@ + decimal(testcase as nat)
}

/// The description of the static output file of a testcase.
pub open spec fn static_output_description(testcase: IOIBatchTestcaseId) -> Seq<char> {
    "Static output of testcase "@ + decimal(testcase as nat)
}

/// A provider of a static file of a testcase, described by `prefix` and the testcase's number.
fn testcase_file(prefix: &str, testcase: IOIBatchTestcaseId) -> (r: StaticFileProvider)
    ensures
        r.description@ == prefix@ + decimal(testcase as nat),
        r.path@ == "."@,
{
    let mut description = text(prefix);
    push_decimal(&mut description, testcase);
    StaticFileProvider::new(description, text("."))
}

impl IOIBatchTask {
    /// The name of the format.
    pub fn format() -> (r: &'static str)
        ensures
            r@ == "ioi-batch"@,
    {
        "ioi-batch"
    }

    /// The generator of the input of a testcase: the static input file.
    pub fn generator(&self, subtask: IOIBatchSubtaskId, testcase: IOIBatchTestcaseId) -> (r:
        StaticFileProvider)
        ensures
            r.description@ == static_input_description(testcase),
            r.path@ == "."@,
    {
        testcase_file("Static input of testcase ", testcase)
    }

    /// The validator of the input of a testcase: every testcase has one.
    pub fn validator(&self, subtask: IOIBatchSubtaskId, testcase: IOIBatchTestcaseId) -> (r:
        Option<IOIBatchValidator>)
        ensures
            r is Some,
    {
        Some(IOIBatchValidator {})
    }

    /// The official solution of a testcase: the static output file.
    pub fn official_solution(
        &self,
        subtask: IOIBatchSubtaskId,
        testcase: IOIBatchTestcaseId,
    ) -> (r: Option<StaticFileProvider>)
        ensures
            r matches Some(p) && p.description@ == static_output_description(testcase) && p.path@
                == "."@,
    {
        Some(testcase_file("Static output of testcase ", testcase))
    }
}

} // verus!
