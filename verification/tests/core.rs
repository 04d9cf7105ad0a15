//! Locks, differences and normalization.

use runprint::behavior::Behavior;
use runprint::lock::{diff, BehaviorLock};
use runprint::normalize::{normalize_behavior, NormalizeContext};

fn context() -> NormalizeContext {
    NormalizeContext::new(
        "/home/test/project".to_string(),
        Some("/home/test".to_string()),
        "/tmp".to_string(),
    )
}

#[test]
fn behavior_is_deduplicated() {
    let mut lock = BehaviorLock::new();

    lock.insert(Behavior::Exec {
        path: "/bin/echo".into(),
    });

    lock.insert(Behavior::Exec {
        path: "/bin/echo".into(),
    });

    assert_eq!(lock.behaviors.len(), 1);
}

#[test]
fn diff_detects_new_behavior() {
    let old = BehaviorLock::new();

    let mut new = BehaviorLock::new();

    new.insert(Behavior::NetworkConnect {
        address: "203.0.113.10:443".into(),
    });

    let d = diff(&old, &new);

    assert_eq!(d.added.len(), 1);
    assert!(d.removed.is_empty());
}

#[test]
fn hides_dynamic_loader_noise() {
    let behavior = Behavior::FileRead {
        path: "/usr/lib/x86_64-linux-gnu/libc.so.6".into(),
    };

    assert_eq!(normalize_behavior(behavior, false, &context()), None);
}

#[test]
fn system_noise_can_be_requested() {
    let behavior = Behavior::FileRead {
        path: "/etc/ld.so.cache".into(),
    };

    assert!(normalize_behavior(behavior, true, &context()).is_some());
}

#[test]
fn writes_are_never_hidden_as_runtime_noise() {
    let behavior = Behavior::FileWrite {
        path: "/usr/lib/example.so".into(),
    };

    assert!(normalize_behavior(behavior, false, &context()).is_some());
}

#[test]
fn project_path_is_portable() {
    let behavior = Behavior::FileRead {
        path: "/home/test/project/src/main.rs".into(),
    };

    assert_eq!(
        normalize_behavior(behavior, false, &context()),
        Some(Behavior::FileRead {
            path: "$PROJECT/src/main.rs".into(),
        })
    );
}

#[test]
fn home_path_is_portable() {
    let behavior = Behavior::FileWrite {
        path: "/home/test/.config/example/id".into(),
    };

    assert_eq!(
        normalize_behavior(behavior, false, &context()),
        Some(Behavior::FileWrite {
            path: "$HOME/.config/example/id".into(),
        })
    );
}

#[test]
fn temp_path_is_portable() {
    let behavior = Behavior::FileWrite {
        path: "/tmp/example.txt".into(),
    };

    assert_eq!(
        normalize_behavior(behavior, false, &context()),
        Some(Behavior::FileWrite {
            path: "$TMP/example.txt".into(),
        })
    );
}

#[test]
fn relative_path_becomes_project_path() {
    let behavior = Behavior::FileRead {
        path: "src/lib.rs".into(),
    };

    assert_eq!(
        normalize_behavior(behavior, false, &context()),
        Some(Behavior::FileRead {
            path: "$PROJECT/src/lib.rs".into(),
        })
    );
}

fn written(path: &str) -> Option<Behavior> {
    let behavior = Behavior::FileWrite { path: path.into() };

    normalize_behavior(behavior, false, &context())
}

fn write_to(path: &str) -> Option<Behavior> {
    Some(Behavior::FileWrite { path: path.into() })
}

#[test]
fn documentation_test_directories_are_steady() {
    assert_eq!(
        written("/tmp/rustdoctestRuFt9q"),
        write_to("$TMP/rustdoctest@volatile")
    );
    assert_eq!(
        written("/tmp/rustdoctestaPg4Uu/out/a"),
        write_to("$TMP/rustdoctest@volatile/out/a")
    );
}

#[test]
fn only_proven_volatile_names_are_steady() {
    assert_eq!(
        written("/tmp/rustdoctestRuFt9"),
        write_to("$TMP/rustdoctestRuFt9")
    );
    assert_eq!(
        written("/tmp/rustdoctestRuFt9q1"),
        write_to("$TMP/rustdoctestRuFt9q1")
    );
    assert_eq!(
        written("/tmp/rustdoctestRuFt-q"),
        write_to("$TMP/rustdoctestRuFt-q")
    );
    assert_eq!(
        written("/tmp/x/rustdoctestRuFt9q"),
        write_to("$TMP/x/rustdoctestRuFt9q")
    );
    assert_eq!(
        written("/home/test/rustdoctestRuFt9q"),
        write_to("$HOME/rustdoctestRuFt9q")
    );
}

#[test]
fn the_narrowest_directory_names_the_path() {
    assert_eq!(written("/home/test/project"), write_to("$PROJECT"));
    assert_eq!(written("."), write_to("$PROJECT"));
    assert_eq!(written("../project/a"), write_to("$PROJECT/a"));
    assert_eq!(written("../other"), write_to("$HOME/other"));
    assert_eq!(written("/home/test/projects"), write_to("$HOME/projects"));
    assert_eq!(written("/home//test/./x/../y"), write_to("$HOME/y"));
    assert_eq!(written("/var/log"), write_to("/var/log"));
}

#[test]
fn project_paths_do_not_depend_on_the_machine() {
    for root in ["/home/test/project", "/srv/ci/build", "/"] {
        let context = NormalizeContext::new(root.to_string(), None, "/tmp".to_string());
        let behavior = Behavior::FileWrite {
            path: runprint::path::join(root, "src/a"),
        };

        assert_eq!(
            normalize_behavior(behavior, false, &context),
            write_to("$PROJECT/src/a")
        );
    }
}

#[test]
fn noise_is_hidden_for_reads_and_sockets_only() {
    for path in [
        "/etc/ld.so.cache",
        "/etc/localtime",
        "/proc/filesystems",
        "/proc/mounts",
        "/proc/self/status",
        "/usr/share/locale/de/x",
        "/usr/share/coreutils/locales/x",
        "/usr/share/zoneinfo/UTC",
        "/usr/lib/locale/locale-archive",
        "/usr/lib/x/gconv/gconv-modules.cache",
        "/lib64/ld-linux-x86-64.so.2",
    ] {
        let read = Behavior::FileRead { path: path.into() };

        assert_eq!(normalize_behavior(read.clone(), false, &context()), None);
        assert_eq!(normalize_behavior(read.clone(), true, &context()), Some(read));
        assert_eq!(written(path), write_to(path));
    }

    let socket = Behavior::UnixConnect {
        path: "/var/run/nscd/socket".into(),
    };
    assert_eq!(normalize_behavior(socket.clone(), false, &context()), None);
    assert_eq!(
        normalize_behavior(socket.clone(), true, &context()),
        Some(socket)
    );
}

#[test]
fn exchanges_have_no_direction() {
    let exchange = |left: &str, right: &str| {
        let behavior = Behavior::RenameExchange {
            left: left.into(),
            right: right.into(),
        };
        normalize_behavior(behavior, false, &context())
    };

    assert_eq!(exchange("b", "a"), exchange("a", "b"));
    assert_eq!(
        exchange("b", "a"),
        Some(Behavior::RenameExchange {
            left: "$PROJECT/a".into(),
            right: "$PROJECT/b".into(),
        })
    );
}

#[test]
fn link_targets_stay_as_written() {
    let behavior = Behavior::SymlinkCreate {
        target: "../x".into(),
        link: "l".into(),
    };

    assert_eq!(
        normalize_behavior(behavior, false, &context()),
        Some(Behavior::SymlinkCreate {
            target: "../x".into(),
            link: "$PROJECT/l".into(),
        })
    );
}

#[test]
fn hidden_behavior_is_not_inserted() {
    let mut lock = BehaviorLock::new();
    let read = Behavior::FileRead {
        path: "/etc/ld.so.cache".into(),
    };

    lock.insert_normalized(read.clone(), false, &context());
    assert!(lock.behaviors.is_empty());

    lock.insert_normalized(read, true, &context());
    assert_eq!(lock.behaviors.len(), 1);
}
