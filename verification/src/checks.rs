//! Health-check results of the operator tool: the verdict of one check,
//! summary counting, and the process exit code the verdicts add up to.
//! Running the checks themselves touches services and disks and lives with
//! the callers.

pub mod cni;
pub mod disk;
pub mod gateway;
pub mod monitoring;
pub mod network;

use vstd::prelude::*;

verus! {

/// Verdict of a single health check.
#[derive(Clone, Copy, Debug, PartialEq, Eq, Structural)]
pub enum CheckStatus {
    /// The check passed.
    Pass,
    /// The check passed with a warning.
    Warning,
    /// The check failed.
    Fail,
}

/// The outcome of one health check.
pub struct CheckResult {
    /// Category the check belongs to.
    pub category: String,
    /// Name of the check.
    pub name: String,
    /// Its verdict.
    pub status: CheckStatus,
    /// What was observed.
    pub message: String,
    /// How to mend it, for warnings and failures.
    pub suggestion: Option<String>,
}

impl CheckResult {
    /// A passing verdict.
    pub fn pass(category: &str, name: &str, message: &str) -> (r: Self)
        ensures
            r.category@ == category@,
            r.name@ == name@,
            r.status == CheckStatus::Pass,
            r.message@ == message@,
            r.suggestion is None,
    {
        Self {
            category: String::from_str(category),
            name: String::from_str(name),
            status: CheckStatus::Pass,
            message: String::from_str(message),
            suggestion: None,
        }
    }

    /// A warning verdict, with a suggestion.
    pub fn warning(category: &str, name: &str, message: &str, suggestion: &str) -> (r: Self)
        ensures
            r.category@ == category@,
            r.name@ == name@,
            r.status == CheckStatus::Warning,
            r.message@ == message@,
            r.suggestion matches Some(sg) && sg@ == suggestion@,
    {
        Self {
            category: String::from_str(category),
            name: String::from_str(name),
            status: CheckStatus::Warning,
            message: String::from_str(message),
            suggestion: Some(String::from_str(suggestion)),
        }
    }

    /// A failing verdict, with a suggestion.
    pub fn fail(category: &str, name: &str, message: &str, suggestion: &str) -> (r: Self)
        ensures
            r.category@ == category@,
            r.name@ == name@,
            r.status == CheckStatus::Fail,
            r.message@ == message@,
            r.suggestion matches Some(sg) && sg@ == suggestion@,
    {
        Self {
            category: String::from_str(category),
            name: String::from_str(name),
            status: CheckStatus::Fail,
            message: String::from_str(message),
            suggestion: Some(String::from_str(suggestion)),
        }
    }
}

/// How many results of a sequence carry the given verdict.
pub open spec fn count_status(s: Seq<CheckResult>, st: CheckStatus) -> nat
    decreases s.len(),
{
    if s.len() == 0 {
        0
    } else {
        count_status(s.drop_last(), st) + if s.last().status == st {
            1nat
        } else {
            0nat
        }
    }
}

/// Count how many checks passed, warned, and failed.
pub fn calculate_summary(results: &Vec<CheckResult>) -> (r: (usize, usize, usize))
    ensures
        r.0 == count_status(results@, CheckStatus::Pass),
        r.1 == count_status(results@, CheckStatus::Warning),
        r.2 == count_status(results@, CheckStatus::Fail),
{
    let n = results.len();
    let mut passed: usize = 0;
    let mut warnings: usize = 0;
    let mut failed: usize = 0;
    let mut i: usize = 0;
    while i < n
        invariant
            i <= n,
            n == results@.len(),
            passed == count_status(results@.subrange(0, i as int), CheckStatus::Pass),
            warnings == count_status(results@.subrange(0, i as int), CheckStatus::Warning),
            failed == count_status(results@.subrange(0, i as int), CheckStatus::Fail),
            passed <= i && warnings <= i && failed <= i,
        decreases n - i,
    {
        match results[i].status {
            CheckStatus::Pass => {
                passed = passed + 1;
            },
            CheckStatus::Warning => {
                warnings = warnings + 1;
            },
            CheckStatus::Fail => {
                failed = failed + 1;
            },
        }
        i = i + 1;
        proof {
            let pre = results@.subrange(0, i - 1);
            let cur = results@.subrange(0, i as int);
            assert(cur.drop_last() =~= pre);
            assert(cur.last() == results@[i - 1]);
        }
    }
    proof {
        assert(results@.subrange(0, n as int) =~= results@);
    }
    (passed, warnings, failed)
}

/// The process exit code the verdicts add up to: two on any failure, one on
/// any warning, zero otherwise.
pub fn determine_exit_code(results: &Vec<CheckResult>) -> (r: i32)
    ensures
        (exists|i: int|
            0 <= i < results@.len() && (#[trigger] results@[i]).status == CheckStatus::Fail) ==> r
            == 2,
        (!(exists|i: int|
            0 <= i < results@.len() && (#[trigger] results@[i]).status == CheckStatus::Fail)
            && exists|i: int|
            0 <= i < results@.len() && (#[trigger] results@[i]).status == CheckStatus::Warning)
            ==> r == 1,
        (forall|i: int|
            0 <= i < results@.len() ==> (#[trigger] results@[i]).status != CheckStatus::Fail
                && results@[i].status != CheckStatus::Warning) ==> r == 0,
{
    let n = results.len();
    let mut any_fail = false;
    let mut any_warning = false;
    let mut i: usize = 0;
    while i < n
        invariant
            i <= n,
            n == results@.len(),
            any_fail == exists|j: int|
                0 <= j < i && (#[trigger] results@[j]).status == CheckStatus::Fail,
            any_warning == exists|j: int|
                0 <= j < i && (#[trigger] results@[j]).status == CheckStatus::Warning,
        decreases n - i,
    {
        match results[i].status {
            CheckStatus::Fail => {
                any_fail = true;
            },
            CheckStatus::Warning => {
                any_warning = true;
            },
            CheckStatus::Pass => {},
        }
        i = i + 1;
    }
    if any_fail {
        2
    } else if any_warning {
        1
    } else {
        0
    }
}

} // verus!
