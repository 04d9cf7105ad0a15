//! Exit codes and reports.

use runprint::behavior::Behavior;
use runprint::gate::evaluate_gate;
use runprint::lock::{diff, BehaviorLock};
use runprint::status::{
    check_status, diff_lines, exit_code, gate_status, readable_config, shell_exit_code,
    CheckStatus, GateStatus, Verdict,
};

#[test]
fn preserves_normal_exit_code() {
    assert_eq!(shell_exit_code(Some(7), None), 7);
}

#[test]
fn maps_signal_to_shell_exit_code() {
    assert_eq!(shell_exit_code(None, Some(15)), 143);
}

#[test]
fn unknown_end_has_a_code_too() {
    assert_eq!(shell_exit_code(None, None), 128);
}

fn written(path: &str) -> BehaviorLock {
    let mut lock = BehaviorLock::new();
    lock.insert(Behavior::FileWrite { path: path.into() });
    lock
}

#[test]
fn unchanged_behavior_keeps_the_exit_code() {
    let lock = written("a");
    let status = check_status(&diff(&lock, &lock), 10);

    assert_eq!(
        status,
        CheckStatus {
            version: 1,
            verdict: Verdict::Unchanged,
            command_exit: 10,
            added: 0,
            removed: 0,
        }
    );
    assert_eq!(status.verdict.name(), "unchanged");
    assert_eq!(status.verdict.operation(), "check");
    assert_eq!(exit_code(status.verdict, status.command_exit), 10);
}

#[test]
fn drift_has_its_own_exit_code() {
    let status = check_status(&diff(&written("a"), &written("b")), 0);

    assert_eq!(status.verdict, Verdict::Changed);
    assert_eq!(status.verdict.name(), "changed");
    assert_eq!((status.added, status.removed), (1, 1));
    assert_eq!(exit_code(status.verdict, status.command_exit), 10);
}

#[test]
fn denial_has_its_own_exit_code() {
    let result = evaluate_gate(&BehaviorLock::new(), &written("a"));
    let status = gate_status(&result, 0);

    assert_eq!(
        status,
        GateStatus {
            version: 1,
            verdict: Verdict::Deny,
            command_exit: 0,
            violations: 1,
        }
    );
    assert_eq!(status.verdict.name(), "deny");
    assert_eq!(status.verdict.operation(), "gate");
    assert_eq!(exit_code(status.verdict, status.command_exit), 20);
}

#[test]
fn allowed_run_keeps_the_exit_code() {
    let result = evaluate_gate(&written("a"), &written("a"));
    let status = gate_status(&result, 3);

    assert_eq!(status.verdict.name(), "allow");
    assert_eq!(exit_code(status.verdict, status.command_exit), 3);
}

#[test]
fn changes_are_shown_with_their_sign() {
    let mut later = written("b");
    later.insert(Behavior::FileRename {
        from: "x".into(),
        to: "y".into(),
    });

    assert_eq!(
        diff_lines(&diff(&written("a"), &later)),
        vec!["+ write    b", "+ rename   x -> y", "- write    a"]
    );
}

#[test]
fn only_the_current_config_is_read() {
    assert!(readable_config(1));
    assert!(!readable_config(0));
    assert!(!readable_config(2));
}

#[test]
fn check_report_is_written_field_by_field() {
    let lock = written("a");
    let status = check_status(&diff(&lock, &lock), 0);

    assert_eq!(
        status.to_json().unwrap(),
        r#"{
  "version": 1,
  "operation": "check",
  "verdict": "unchanged",
  "command_exit": 0,
  "added": 0,
  "removed": 0
}"#
    );

    let drift = check_status(&diff(&BehaviorLock::new(), &lock), -3);
    assert_eq!(
        serde_json::to_string(&drift.to_value()).unwrap(),
        r#"{"version":1,"operation":"check","verdict":"changed","command_exit":-3,"added":1,"removed":0}"#
    );
}

#[test]
fn denial_report_is_written_field_by_field() {
    let status = gate_status(&evaluate_gate(&BehaviorLock::new(), &written("a")), 0);

    assert_eq!(
        status.to_json().unwrap(),
        r#"{
  "version": 1,
  "operation": "gate",
  "verdict": "deny",
  "command_exit": 0,
  "violations": 1
}"#
    );
    assert_eq!(
        serde_json::to_string(&status.to_value()).unwrap(),
        r#"{"version":1,"operation":"gate","verdict":"deny","command_exit":0,"violations":1}"#
    );
}
