//! The problem description that the browser extension sends.

use vstd::prelude::*;

verus! {

/// One sample test.
pub struct TestCase {
    pub input: String,
    pub output: String,
}

/// The batch a problem was sent in.
pub struct Batch {
    pub id: String,
    pub size: u32,
}

/// How the tests of a problem are laid out.
pub enum TestType {
    Single,
    MultiNumber,
    Unknown(String),
}

/// A problem with its sample tests.
pub struct ProblemMetaWithTestCase {
    pub name: String,
    pub group: String,
    pub url: String,
    pub interactive: bool,
    pub memory_limit: u32,
    pub time_limit: u32,
    pub tests: Vec<TestCase>,
    pub test_type: TestType,
    pub batch: Batch,
}

} // verus!
