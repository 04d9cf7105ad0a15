//! Enforcement policies.

use runprint::enforce::{
    check_active, check_resolved, configured_domains, create_access, expand_path,
    file_write_access, is_project_scoped, parse_write_rule, remove_access, requested_paths,
    restricts_anything, rule_access, settle_rule, write_access, Domains, EnforceError,
    EnforcePolicy, FsAccess, RuleKind,
};

#[test]
fn project_prefix_expands() {
    assert_eq!(
        expand_path("$PROJECT/dist", "/home/test/project", None, "/tmp").unwrap(),
        "/home/test/project/dist"
    );
}

#[test]
fn unknown_variable_is_rejected() {
    assert!(expand_path("$UNKNOWN/file", "/project", None, "/tmp").is_err());
    assert_eq!(
        expand_path("$UNKNOWN/file", "/project", None, "/tmp"),
        Err(EnforceError::UnknownVariable)
    );
}

#[test]
fn project_symlink_escape_is_rejected() {
    let result = settle_rule(
        RuleKind::Write,
        "$PROJECT/escape/**",
        "/tmp/outside",
        "/tmp/project",
        true,
    );

    assert_eq!(result, Err(EnforceError::EscapesProject));
}

#[test]
fn project_symlink_to_inside_is_allowed() {
    let (_, recursive) = parse_write_rule("$PROJECT/alias/**").unwrap();

    let result = settle_rule(
        RuleKind::Write,
        "$PROJECT/alias/**",
        "/tmp/project/inside",
        "/tmp/project",
        true,
    );

    assert!(recursive);
    assert_eq!(result, Ok(write_access()));
}

#[test]
fn network_ports_parse_from_policy() {
    let table: toml::Table = "\nconnect_tcp = [443, 5432]\nbind_tcp = [3000]\n"
        .parse()
        .unwrap();
    let ports = |key: &str| -> Vec<u16> {
        table[key]
            .as_array()
            .unwrap()
            .iter()
            .map(|port| u16::try_from(port.as_integer().unwrap()).unwrap())
            .collect()
    };

    let policy = EnforcePolicy {
        connect_tcp: ports("connect_tcp"),
        bind_tcp: ports("bind_tcp"),
        ..EnforcePolicy::default()
    };

    assert_eq!(policy.connect_tcp, vec![443, 5432]);

    assert_eq!(policy.bind_tcp, vec![3000]);

    assert_eq!(
        configured_domains(&policy),
        Domains {
            filesystem: false,
            connect_tcp: true,
            bind_tcp: true,
        }
    );
}

#[test]
fn every_named_directory_expands() {
    let expand = |raw: &str| expand_path(raw, "/p", Some("/h"), "/t");

    assert_eq!(expand("$PROJECT"), Ok("/p".to_string()));
    assert_eq!(expand("$HOME"), Ok("/h".to_string()));
    assert_eq!(expand("$HOME/.cache"), Ok("/h/.cache".to_string()));
    assert_eq!(expand("$TMP/x/y"), Ok("/t/x/y".to_string()));
    assert_eq!(expand("target"), Ok("/p/target".to_string()));
    assert_eq!(expand("/var/lib"), Ok("/var/lib".to_string()));
    assert_eq!(expand("$HOMEWORK"), Err(EnforceError::UnknownVariable));
    assert_eq!(expand("$PROJECT//etc"), Ok("/etc".to_string()));
}

#[test]
fn home_has_to_be_known() {
    assert_eq!(
        expand_path("$HOME/x", "/p", None, "/t"),
        Err(EnforceError::MissingHome)
    );
}

#[test]
fn only_a_final_scope_is_a_wildcard() {
    assert_eq!(parse_write_rule("/**"), Ok(("/".to_string(), true)));
    assert_eq!(
        parse_write_rule("$PROJECT/target/**"),
        Ok(("$PROJECT/target".to_string(), true))
    );
    assert_eq!(
        parse_write_rule("$PROJECT/a.txt"),
        Ok(("$PROJECT/a.txt".to_string(), false))
    );
    assert_eq!(
        parse_write_rule("$PROJECT/*.txt"),
        Err(EnforceError::Wildcard)
    );
    assert_eq!(
        parse_write_rule("$PROJECT/*/x/**"),
        Err(EnforceError::Wildcard)
    );
}

#[test]
fn project_scope_is_by_spelling() {
    assert!(is_project_scoped("$PROJECT"));
    assert!(is_project_scoped("$PROJECT/a"));
    assert!(is_project_scoped("a/b"));
    assert!(!is_project_scoped("/a"));
    assert!(!is_project_scoped("$HOME/a"));
    assert!(!is_project_scoped("$PROJECTS/a"));
}

#[test]
fn what_is_found_has_to_fit_the_pattern() {
    assert_eq!(check_resolved("/a", true, "/a", "/p", true), Ok(()));
    assert_eq!(check_resolved("/a", false, "/a", "/p", false), Ok(()));
    assert_eq!(
        check_resolved("/a", true, "/a", "/p", false),
        Err(EnforceError::NotADirectory)
    );
    assert_eq!(
        check_resolved("/a", false, "/a", "/p", true),
        Err(EnforceError::DirectoryWithoutScope)
    );
    assert_eq!(
        check_resolved("a", false, "/project", "/p", false),
        Err(EnforceError::EscapesProject)
    );
}

#[test]
fn rights_follow_the_kind_of_rule() {
    assert_eq!(rule_access(RuleKind::Write, true), Ok(write_access()));
    assert_eq!(rule_access(RuleKind::Write, false), Ok(file_write_access()));
    assert_eq!(rule_access(RuleKind::Modify, true), Ok(file_write_access()));
    assert_eq!(rule_access(RuleKind::Create, true), Ok(create_access()));
    assert_eq!(
        rule_access(RuleKind::Create, false),
        Err(EnforceError::CreateNeedsScope)
    );
    assert_eq!(rule_access(RuleKind::Remove, true), Ok(remove_access()));
    assert_eq!(
        rule_access(RuleKind::Remove, false),
        Err(EnforceError::RemoveNeedsScope)
    );
}

#[test]
fn narrow_rights_are_part_of_the_broad_ones() {
    let all = write_access();

    assert_eq!(all.len(), 12);
    assert_eq!(file_write_access(), vec![FsAccess::WriteFile, FsAccess::Truncate]);
    assert_eq!(
        remove_access(),
        vec![FsAccess::RemoveDir, FsAccess::RemoveFile]
    );
    assert_eq!(create_access().len(), 7);
    assert!(create_access().iter().all(|right| all.contains(right)));
    assert!(!create_access().contains(&FsAccess::WriteFile));
    assert!(!create_access().contains(&FsAccess::Refer));
}

#[test]
fn empty_policy_is_a_no_op() {
    let policy = EnforcePolicy::default();

    assert_eq!(
        configured_domains(&policy),
        Domains {
            filesystem: false,
            connect_tcp: false,
            bind_tcp: false,
        }
    );
    assert!(requested_paths(&policy).is_empty());
}

#[test]
fn paths_are_requested_in_order() {
    let policy = EnforcePolicy {
        write: vec!["a".to_string(), "b".to_string()],
        modify: vec!["c".to_string()],
        create: vec!["d".to_string()],
        remove: vec!["e".to_string()],
        ..EnforcePolicy::default()
    };

    assert_eq!(
        requested_paths(&policy),
        vec![
            (RuleKind::Write, "a"),
            (RuleKind::Write, "b"),
            (RuleKind::Modify, "c"),
            (RuleKind::Create, "d"),
            (RuleKind::Remove, "e"),
        ]
    );
    assert!(configured_domains(&policy).filesystem);
}

#[test]
fn enforcement_is_never_downgraded() {
    assert_eq!(check_active(true, true), Ok(()));
    assert_eq!(check_active(false, true), Err(EnforceError::NotActive));
    assert_eq!(check_active(true, false), Err(EnforceError::NotActive));
}

#[test]
fn any_entry_restricts_something() {
    let path = || vec!["/a".to_string()];
    let policies = [
        EnforcePolicy { write: path(), ..EnforcePolicy::default() },
        EnforcePolicy { modify: path(), ..EnforcePolicy::default() },
        EnforcePolicy { create: path(), ..EnforcePolicy::default() },
        EnforcePolicy { remove: path(), ..EnforcePolicy::default() },
        EnforcePolicy { connect_tcp: vec![443], ..EnforcePolicy::default() },
        EnforcePolicy { bind_tcp: vec![80], ..EnforcePolicy::default() },
    ];

    assert!(!restricts_anything(&EnforcePolicy::default()));
    for policy in &policies {
        assert!(restricts_anything(policy));
        assert_eq!(requested_paths(&policy.clone()), requested_paths(policy));
        assert_eq!(configured_domains(&policy.clone()), configured_domains(policy));
    }
}
