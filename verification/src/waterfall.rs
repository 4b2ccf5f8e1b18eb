//! Three steps run one after another, each adding its own report to the text
//! handed on by the step before it.

use vstd::prelude::*;
use vstd::string::StringExecFns;

verus! {

/// The first step's report.
pub fn task1() -> (report: String)
    ensures
        report@ == "Task 1 completed"@,
{
    String::from_str("Task 1 completed")
}

/// The second step: `input` followed by the second step's report.
pub fn task2(input: String) -> (report: String)
    ensures
        report@ == input@ + " Task 2 completed"@,
{
    input.concat(" Task 2 completed")
}

/// The third step: `input` followed by the third step's report.
pub fn task3(input: String) -> (report: String)
    ensures
        report@ == input@ + " Task 3 completed"@,
{
    input.concat(" Task 3 completed")
}

/// The second and third steps together add both their reports, in order,
/// behind whatever text they are handed.
pub proof fn lemma_steps_append_reports(input: Seq<char>)
    ensures
        input + " Task 2 completed"@ + " Task 3 completed"@ == input
            + " Task 2 completed Task 3 completed"@,
{
    reveal_strlit(" Task 2 completed");
    reveal_strlit(" Task 3 completed");
    reveal_strlit(" Task 2 completed Task 3 completed");
    assert(input + " Task 2 completed"@ + " Task 3 completed"@ =~= input
        + " Task 2 completed Task 3 completed"@);
}

} // verus!
