//! Gates, with and without a policy.

use runprint::behavior::Behavior;
use runprint::gate::{
    area_of, evaluate_gate, evaluate_gate_with_policy, is_restricted_new_behavior, matches_pattern,
    Area, GatePolicy,
};
use runprint::lock::BehaviorLock;

#[test]
fn new_read_is_allowed() {
    let baseline = BehaviorLock::new();

    let mut observed = BehaviorLock::new();
    observed.insert(Behavior::FileRead {
        path: "$PROJECT/new.txt".into(),
    });

    let result = evaluate_gate(&baseline, &observed);

    assert!(result.allowed);
    assert!(result.violations.is_empty());
}

#[test]
fn new_write_is_denied() {
    let baseline = BehaviorLock::new();

    let mut observed = BehaviorLock::new();
    observed.insert(Behavior::FileWrite {
        path: "$PROJECT/new.txt".into(),
    });

    let result = evaluate_gate(&baseline, &observed);

    assert!(!result.allowed);
    assert_eq!(result.violations.len(), 1);
}

#[test]
fn baseline_write_is_allowed() {
    let mut baseline = BehaviorLock::new();
    baseline.insert(Behavior::FileWrite {
        path: "$PROJECT/output.txt".into(),
    });

    let observed = baseline.clone();

    let result = evaluate_gate(&baseline, &observed);

    assert!(result.allowed);
    assert!(result.violations.is_empty());
}

#[test]
fn new_network_is_denied() {
    let baseline = BehaviorLock::new();

    let mut observed = BehaviorLock::new();
    observed.insert(Behavior::NetworkConnect {
        address: "203.0.113.10:443".into(),
    });

    let result = evaluate_gate(&baseline, &observed);

    assert!(!result.allowed);
    assert_eq!(result.violations.len(), 1);
}

fn locked(items: Vec<Behavior>) -> BehaviorLock {
    let mut lock = BehaviorLock::new();

    for item in items {
        lock.insert(item);
    }

    lock
}

#[test]
fn restricted_is_all_but_reads() {
    assert!(!is_restricted_new_behavior(&Behavior::FileRead {
        path: "a".into(),
    }));
    assert!(is_restricted_new_behavior(&Behavior::Exec { path: "a".into() }));
    assert!(is_restricted_new_behavior(&Behavior::UnixAbstractConnect {
        address: "@a".into(),
    }));
}

#[test]
fn patterns_are_small_and_explicit() {
    assert!(matches_pattern("/usr/bin/git", "/usr/bin/git"));
    assert!(!matches_pattern("/usr/bin/git", "/usr/bin/gitk"));
    assert!(matches_pattern("exact:$HOME/x", "$HOME/x"));
    assert!(!matches_pattern("exact:$HOME/x", "$HOME/x/y"));
    assert!(matches_pattern("prefix:169.254.169.254:", "169.254.169.254:80"));
    assert!(!matches_pattern("prefix:169.254.169.254:", "1.169.254.169.254:80"));
    assert!(matches_pattern("suffix::443", "203.0.113.10:443"));
    assert!(matches_pattern("suffix::443", "[2001:db8::1]:443"));
    assert!(!matches_pattern("suffix::443", "203.0.113.10:4430"));
    assert!(!matches_pattern("suffix::443", "443"));
}

#[test]
fn scopes_reach_the_path_and_its_descendants_only() {
    assert!(matches_pattern("$PROJECT/target/**", "$PROJECT/target"));
    assert!(matches_pattern("$PROJECT/target/**", "$PROJECT/target/debug/app"));
    assert!(!matches_pattern("$PROJECT/target/**", "$PROJECT/target-old"));
    assert!(!matches_pattern("$PROJECT/target/**", "$PROJECT"));
    assert!(matches_pattern("/**", "/etc/passwd"));
    assert!(!matches_pattern("/**", "$PROJECT/x"));
}

#[test]
fn bare_star_is_no_wildcard() {
    assert!(!matches_pattern("$PROJECT/dist*", "$PROJECT/dist"));
    assert!(!matches_pattern("$PROJECT/dist*", "$PROJECT/dist/a"));
    assert!(!matches_pattern("127.0.0.1:*", "127.0.0.1:80"));
    assert!(!matches_pattern("@name-*", "@name-1"));
    assert!(matches_pattern("prefix:@name-", "@name-1"));
}

#[test]
fn allow_rules_admit_new_behavior() {
    let mut policy = GatePolicy::default();
    policy.writes.allow.push("$PROJECT/target/**".to_string());
    policy.network.allow.push("suffix::443".to_string());

    let observed = locked(vec![
        Behavior::FileWrite {
            path: "$PROJECT/target/app".into(),
        },
        Behavior::FileWrite {
            path: "$PROJECT/src/app.rs".into(),
        },
        Behavior::NetworkConnect {
            address: "203.0.113.10:443".into(),
        },
        Behavior::NetworkConnect {
            address: "203.0.113.10:80".into(),
        },
    ]);

    let result = evaluate_gate_with_policy(&BehaviorLock::new(), &observed, &policy);

    assert!(!result.allowed);
    assert_eq!(
        result.violations,
        vec![
            Behavior::FileWrite {
                path: "$PROJECT/src/app.rs".into(),
            },
            Behavior::NetworkConnect {
                address: "203.0.113.10:80".into(),
            },
        ]
    );
}

#[test]
fn broad_switch_admits_a_whole_area() {
    let mut policy = GatePolicy::default();
    policy.deletes.allow_new = true;

    let observed = locked(vec![
        Behavior::FileDelete { path: "a".into() },
        Behavior::DirectoryDelete { path: "b".into() },
    ]);

    assert!(evaluate_gate_with_policy(&BehaviorLock::new(), &observed, &policy).allowed);
    assert!(!evaluate_gate(&BehaviorLock::new(), &observed).allowed);
}

#[test]
fn reads_can_be_restricted() {
    let mut policy = GatePolicy::default();
    policy.reads.allow_new = false;

    let observed = locked(vec![Behavior::FileRead { path: "a".into() }]);

    assert!(!evaluate_gate_with_policy(&BehaviorLock::new(), &observed, &policy).allowed);
    assert!(evaluate_gate_with_policy(&observed, &observed, &policy).allowed);
}

#[test]
fn deny_overrides_the_baseline_and_allow_rules() {
    let mut policy = GatePolicy::default();
    policy.writes.allow_new = true;
    policy.writes.deny.push("$HOME/.ssh/**".to_string());

    let observed = locked(vec![Behavior::FileWrite {
        path: "$HOME/.ssh/config".into(),
    }]);

    let result = evaluate_gate_with_policy(&observed, &observed, &policy);

    assert!(!result.allowed);
    assert_eq!(result.violations.len(), 1);
}

#[test]
fn both_names_of_a_rename_count() {
    let rename = Behavior::FileRename {
        from: "$PROJECT/a".into(),
        to: "$HOME/b".into(),
    };
    let observed = locked(vec![rename]);

    let mut half = GatePolicy::default();
    half.renames.allow.push("$PROJECT/**".to_string());
    assert!(!evaluate_gate_with_policy(&BehaviorLock::new(), &observed, &half).allowed);

    let mut whole = GatePolicy::default();
    whole.renames.allow.push("$PROJECT/**".to_string());
    whole.renames.allow.push("$HOME/**".to_string());
    assert!(evaluate_gate_with_policy(&BehaviorLock::new(), &observed, &whole).allowed);

    let mut denied = GatePolicy::default();
    denied.renames.allow_new = true;
    denied.renames.deny.push("$HOME/**".to_string());
    assert!(!evaluate_gate_with_policy(&observed, &observed, &denied).allowed);
}

#[test]
fn each_behavior_falls_in_its_area() {
    assert_eq!(area_of(&Behavior::FileRead { path: "a".into() }), Area::Read);
    assert_eq!(area_of(&Behavior::Exec { path: "a".into() }), Area::Exec);
    assert_eq!(area_of(&Behavior::FileWrite { path: "a".into() }), Area::Write);
    assert_eq!(area_of(&Behavior::FileDelete { path: "a".into() }), Area::Delete);
    assert_eq!(
        area_of(&Behavior::DirectoryDelete { path: "a".into() }),
        Area::Delete
    );
    assert_eq!(
        area_of(&Behavior::DirectoryCreate { path: "a".into() }),
        Area::Directory
    );
    assert_eq!(
        area_of(&Behavior::RenameExchange {
            left: "a".into(),
            right: "b".into(),
        }),
        Area::Rename
    );
    assert_eq!(
        area_of(&Behavior::SymlinkCreate {
            target: "a".into(),
            link: "b".into(),
        }),
        Area::Link
    );
    assert_eq!(
        area_of(&Behavior::NetworkConnect {
            address: "a".into(),
        }),
        Area::Network
    );
    assert_eq!(area_of(&Behavior::UnixConnect { path: "a".into() }), Area::Unix);
}

#[test]
fn plain_policy_decides_as_no_policy() {
    let baseline = locked(vec![Behavior::Exec { path: "/bin/sh".into() }]);
    let observed = locked(vec![
        Behavior::Exec { path: "/bin/sh".into() },
        Behavior::Exec { path: "/bin/ls".into() },
        Behavior::FileRead { path: "a".into() },
    ]);

    assert_eq!(
        evaluate_gate(&baseline, &observed),
        evaluate_gate_with_policy(&baseline, &observed, &GatePolicy::default())
    );
    assert_eq!(evaluate_gate(&baseline, &observed).violations.len(), 1);
}
