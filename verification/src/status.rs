//! Verdicts, exit codes and the reports of a run.

use vstd::prelude::*;
use vstd::string::*;

use crate::behavior;
use crate::behavior::{Behavior, BehaviorView};
use crate::gate::GateResult;
use crate::lock;
use crate::lock::BehaviorDiff;

verus! {

/// The version of the status reports.
pub const STATUS_VERSION: u32 = 1;

/// The version of the configuration that is read.
pub const CONFIG_VERSION: u32 = 1;

/// The exit code of a check that found changed behavior.
pub const DRIFT_EXIT: i32 = 10;

/// The exit code of a gate that denied.
pub const DENY_EXIT: i32 = 20;

/// The exit code of a command that ended in no known way.
pub const UNKNOWN_EXIT: i32 = 128;

/// Tells whether a configuration of the given version is read.
pub fn readable_config(version: u32) -> (r: bool)
    ensures
        r == (version == CONFIG_VERSION),
{
    version == CONFIG_VERSION
}

/// The exit code that a shell would report for a command: its own exit code, or 128 and
/// the signal that ended it.
pub fn shell_exit_code(code: Option<i32>, signal: Option<i32>) -> (r: i32)
    requires
        code is None && signal is Some ==> signal->0 <= i32::MAX - UNKNOWN_EXIT,
    ensures
        r == (match (code, signal) {
            (Some(code), _) => code as int,
            (None, Some(signal)) => UNKNOWN_EXIT + signal,
            (None, None) => UNKNOWN_EXIT as int,
        }),
{
    if let Some(code) = code {
        return code;
    }
    if let Some(signal) = signal {
        return UNKNOWN_EXIT + signal;
    }
    UNKNOWN_EXIT
}

/// What was found out about a run.
#[derive(Debug, Clone, Copy, PartialEq, Eq, Structural)]
pub enum Verdict {
    /// A check found the behavior of the baseline.
    Unchanged,
    /// A check found other behavior.
    Changed,
    /// A gate refused nothing.
    Allow,
    /// A gate refused something.
    Deny,
}

/// The operation that gave the verdict.
pub open spec fn operation_name(verdict: Verdict) -> Seq<char> {
    match verdict {
        Verdict::Unchanged | Verdict::Changed => "check"@,
        Verdict::Allow | Verdict::Deny => "gate"@,
    }
}

/// The verdict in a report.
pub open spec fn verdict_name(verdict: Verdict) -> Seq<char> {
    match verdict {
        Verdict::Unchanged => "unchanged"@,
        Verdict::Changed => "changed"@,
        Verdict::Allow => "allow"@,
        Verdict::Deny => "deny"@,
    }
}

impl Verdict {
    /// The operation that gave the verdict.
    pub fn operation(&self) -> (r: &'static str)
        ensures
            r@ == operation_name(*self),
    {
        match self {
            Verdict::Unchanged | Verdict::Changed => "check",
            Verdict::Allow | Verdict::Deny => "gate",
        }
    }

    /// The verdict in a report.
    pub fn name(&self) -> (r: &'static str)
        ensures
            r@ == verdict_name(*self),
    {
        match self {
            Verdict::Unchanged => "unchanged",
            Verdict::Changed => "changed",
            Verdict::Allow => "allow",
            Verdict::Deny => "deny",
        }
    }
}

/// The exit code of an operation: that of the command unless the verdict has its own.
pub open spec fn final_exit(verdict: Verdict, command_exit: i32) -> i32 {
    match verdict {
        Verdict::Unchanged | Verdict::Allow => command_exit,
        Verdict::Changed => DRIFT_EXIT,
        Verdict::Deny => DENY_EXIT,
    }
}

/// The exit code of an operation.
pub fn exit_code(verdict: Verdict, command_exit: i32) -> (r: i32)
    ensures
        r == final_exit(verdict, command_exit),
{
    match verdict {
        Verdict::Unchanged | Verdict::Allow => command_exit,
        Verdict::Changed => DRIFT_EXIT,
        Verdict::Deny => DENY_EXIT,
    }
}

/// The report of a check.
#[derive(Debug, Clone, Copy, PartialEq, Eq, Structural)]
pub struct CheckStatus {
    pub version: u32,
    pub verdict: Verdict,
    pub command_exit: i32,
    pub added: usize,
    pub removed: usize,
}

/// The report of a gate.
#[derive(Debug, Clone, Copy, PartialEq, Eq, Structural)]
pub struct GateStatus {
    pub version: u32,
    pub verdict: Verdict,
    pub command_exit: i32,
    pub violations: usize,
}

/// The report of a check that found the given difference.
pub fn check_status(d: &BehaviorDiff, command_exit: i32) -> (r: CheckStatus)
    ensures
        r.version == STATUS_VERSION,
        r.verdict == (if d.added@.len() == 0 && d.removed@.len() == 0 {
            Verdict::Unchanged
        } else {
            Verdict::Changed
        }),
        r.command_exit == command_exit,
        r.added == d.added@.len(),
        r.removed == d.removed@.len(),
{
    let added: usize = d.added.len();
    let removed: usize = d.removed.len();
    CheckStatus {
        version: STATUS_VERSION,
        verdict: if added == 0 && removed == 0 {
            Verdict::Unchanged
        } else {
            Verdict::Changed
        },
        command_exit,
        added,
        removed,
    }
}

/// The report of a gate that came to the given result.
pub fn gate_status(result: &GateResult, command_exit: i32) -> (r: GateStatus)
    ensures
        r.version == STATUS_VERSION,
        r.verdict == (if result.allowed {
            Verdict::Allow
        } else {
            Verdict::Deny
        }),
        r.command_exit == command_exit,
        r.violations == result.violations@.len(),
{
    GateStatus {
        version: STATUS_VERSION,
        verdict: if result.allowed {
            Verdict::Allow
        } else {
            Verdict::Deny
        },
        command_exit,
        violations: result.violations.len(),
    }
}

// ---------------------------------------------------------------------------
// Changes as lines
// ---------------------------------------------------------------------------

/// One line for each behavior, each with the mark in front.
pub open spec fn marked_lines(mark: Seq<char>, items: Seq<BehaviorView>) -> Seq<Seq<char>> {
    Seq::new(items.len(), |i: int| mark + behavior::rendered(items[i]))
}

/// One line for each behavior, each with the mark in front.
pub fn mark_lines(mark: &str, items: &Vec<Behavior>) -> (r: Vec<String>)
    ensures
        crate::text::strings(r@) == marked_lines(mark@, lock::views(items@)),
{
    let ghost all = marked_lines(mark@, lock::views(items@));
    let mut r: Vec<String> = Vec::new();
    let mut i: usize = 0;
    assert(crate::text::strings(r@) =~= all.take(0));
    while i < items.len()
        invariant
            i <= items@.len(),
            all == marked_lines(mark@, lock::views(items@)),
            crate::text::strings(r@) == all.take(i as int),
        decreases items@.len() - i,
    {
        let ghost before = crate::text::strings(r@);
        let shown = behavior::render(&items[i]);
        let line = mark.to_owned().concat(shown.as_str());
        assert(line@ == all[i as int]);
        r.push(line);
        assert(crate::text::strings(r@) =~= before.push(all[i as int]));
        assert(all.take(i + 1) =~= all.take(i as int).push(all[i as int]));
        i = i + 1;
    }
    assert(all.take(i as int) =~= all);
    r
}

/// The lines that show a difference: what was added, then what was removed.
pub fn diff_lines(d: &BehaviorDiff) -> (r: Vec<String>)
    ensures
        crate::text::strings(r@) == marked_lines("+ "@, lock::views(d.added@)) + marked_lines(
            "- "@,
            lock::views(d.removed@),
        ),
{
    let mut r = mark_lines("+ ", &d.added);
    let mut removed = mark_lines("- ", &d.removed);
    let ghost first = r@;
    let ghost second = removed@;
    r.append(&mut removed);
    assert(crate::text::strings(r@) =~= crate::text::strings(first) + crate::text::strings(second));
    r
}

// ---------------------------------------------------------------------------
// Laws
// ---------------------------------------------------------------------------

/// A check reports unchanged behavior exactly where the two locks hold the same
/// behavior, whatever the exit code of the command is.
pub proof fn law_unchanged_means_same_behavior(a: Seq<BehaviorView>, b: Seq<BehaviorView>)
    ensures
        lock::without(b, a).len() == 0 && lock::without(a, b).len() == 0 <==> a.to_set()
            == b.to_set(),
{
    lock::law_without_is_empty(a, b);
    lock::law_without_is_empty(b, a);
    if a.to_set().subset_of(b.to_set()) && b.to_set().subset_of(a.to_set()) {
        assert(a.to_set() =~= b.to_set());
    }
}

/// Only a verdict of its own replaces the exit code of the command.
pub proof fn law_exit_code_is_preserved(verdict: Verdict, command_exit: i32)
    ensures
        verdict is Unchanged || verdict is Allow ==> final_exit(verdict, command_exit)
            == command_exit,
        verdict is Changed ==> final_exit(verdict, command_exit) == 10,
        verdict is Deny ==> final_exit(verdict, command_exit) == 20,
{
}

/// The words of a report.
pub proof fn law_words_of_a_report()
    ensures
        verdict_name(Verdict::Unchanged) == "unchanged"@,
        verdict_name(Verdict::Changed) == "changed"@,
        verdict_name(Verdict::Allow) == "allow"@,
        verdict_name(Verdict::Deny) == "deny"@,
        operation_name(Verdict::Unchanged) == "check"@,
        operation_name(Verdict::Changed) == "check"@,
        operation_name(Verdict::Allow) == "gate"@,
        operation_name(Verdict::Deny) == "gate"@,
{
}

/// The versions and exit codes that are promised to others.
pub proof fn law_promised_numbers()
    ensures
        STATUS_VERSION == 1,
        CONFIG_VERSION == 1,
        DRIFT_EXIT == 10,
        DENY_EXIT == 20,
        UNKNOWN_EXIT == 128,
{
}

/// Each behavior of a list has its line, in its place, behind the mark.
pub proof fn law_each_change_has_its_line(mark: Seq<char>, items: Seq<BehaviorView>, i: int)
    requires
        0 <= i < items.len(),
    ensures
        marked_lines(mark, items).len() == items.len(),
        marked_lines(mark, items)[i] == mark + behavior::rendered(items[i]),
{
}

} // verus!
