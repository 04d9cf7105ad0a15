//! The lockfile: order, text, digest and what is read back.

use std::collections::BTreeSet;

use runprint::behavior::{render, Behavior, Place};
use runprint::lock::{diff, BehaviorLock, LockError};

fn text(value: &str) -> String {
    value.to_string()
}

/// One behavior of each kind, in their order.
fn each_kind() -> Vec<Behavior> {
    vec![
        Behavior::Exec { path: text("/bin/sh") },
        Behavior::FileRead { path: text("$PROJECT/a") },
        Behavior::FileWrite { path: text("$PROJECT/a") },
        Behavior::FileDelete { path: text("$PROJECT/a") },
        Behavior::FileRename {
            from: text("$PROJECT/a"),
            to: text("$PROJECT/b"),
        },
        Behavior::RenameExchange {
            left: text("$PROJECT/a"),
            right: text("$PROJECT/b"),
        },
        Behavior::DirectoryCreate { path: text("$PROJECT/d") },
        Behavior::DirectoryDelete { path: text("$PROJECT/d") },
        Behavior::SymlinkCreate {
            target: text("a"),
            link: text("$PROJECT/l"),
        },
        Behavior::HardlinkCreate {
            from: text("$PROJECT/a"),
            to: text("$PROJECT/h"),
            follow_symlink: true,
            empty_path: false,
        },
        Behavior::NetworkConnect { address: text("203.0.113.10:443") },
        Behavior::UnixConnect { path: text("/run/x.sock") },
        Behavior::UnixAbstractConnect { address: text("@x") },
    ]
}

fn locked(items: Vec<Behavior>) -> BehaviorLock {
    let mut lock = BehaviorLock::new();

    for item in items {
        lock.insert(item);
    }

    lock
}

#[test]
fn current_schema_is_written() {
    assert_eq!(BehaviorLock::new().version, 4);
    assert_eq!(BehaviorLock::default(), BehaviorLock::new());
}

#[test]
fn lockfile_text_is_exact() {
    let lock = locked(vec![
        Behavior::FileWrite { path: text("say \"hi\"\n") },
        Behavior::Exec { path: text("/bin/sh") },
        Behavior::HardlinkCreate {
            from: text("a"),
            to: text("b"),
            follow_symlink: false,
            empty_path: true,
        },
    ]);

    assert_eq!(
        lock.canonical_json().unwrap(),
        r#"{
  "version": 4,
  "behaviors": [
    {
      "kind": "exec",
      "path": "/bin/sh"
    },
    {
      "kind": "file_write",
      "path": "say \"hi\"\n"
    },
    {
      "kind": "hardlink_create",
      "from": "a",
      "to": "b",
      "follow_symlink": false,
      "empty_path": true
    }
  ]
}"#
    );
}

#[test]
fn every_kind_has_its_name_and_fields() {
    let compact = concat_lines(&[
        r#"{"version":4,"behaviors":["#,
        r#"{"kind":"exec","path":"/bin/sh"},"#,
        r#"{"kind":"file_read","path":"$PROJECT/a"},"#,
        r#"{"kind":"file_write","path":"$PROJECT/a"},"#,
        r#"{"kind":"file_delete","path":"$PROJECT/a"},"#,
        r#"{"kind":"file_rename","from":"$PROJECT/a","to":"$PROJECT/b"},"#,
        r#"{"kind":"rename_exchange","left":"$PROJECT/a","right":"$PROJECT/b"},"#,
        r#"{"kind":"directory_create","path":"$PROJECT/d"},"#,
        r#"{"kind":"directory_delete","path":"$PROJECT/d"},"#,
        r#"{"kind":"symlink_create","target":"a","link":"$PROJECT/l"},"#,
        r#"{"kind":"hardlink_create","from":"$PROJECT/a","to":"$PROJECT/h","#,
        r#""follow_symlink":true,"empty_path":false},"#,
        r#"{"kind":"network_connect","address":"203.0.113.10:443"},"#,
        r#"{"kind":"unix_connect","path":"/run/x.sock"},"#,
        r#"{"kind":"unix_abstract_connect","address":"@x"}]}"#,
    ]);
    let lock = locked(each_kind());

    assert_eq!(serde_json::to_string(&lock.to_value()).unwrap(), compact);
    assert_eq!(
        lock.digest().unwrap(),
        blake3::hash(compact.as_bytes()).to_hex().to_string()
    );
}

fn concat_lines(lines: &[&str]) -> String {
    lines.concat()
}

#[test]
fn digest_is_that_of_the_compact_text() {
    let lock = BehaviorLock::new();
    let digest = lock.digest().unwrap();

    assert_eq!(lock.canonical_json().unwrap(), "{\n  \"version\": 4,\n  \"behaviors\": []\n}");
    assert_eq!(
        digest,
        blake3::hash(br#"{"version":4,"behaviors":[]}"#).to_hex().to_string()
    );
    assert_eq!(digest.len(), 64);
    assert!(digest.chars().all(|c| matches!(c, '0'..='9' | 'a'..='f')));
    assert_ne!(
        digest,
        blake3::hash(lock.canonical_json().unwrap().as_bytes()).to_hex().to_string()
    );
}

#[test]
fn same_behavior_gives_the_same_bytes() {
    let mut reversed = each_kind();
    reversed.reverse();
    let mut twice = each_kind();
    twice.extend(each_kind());

    let a = locked(each_kind());
    let b = locked(reversed);
    let c = locked(twice);

    assert_eq!(a.canonical_json().unwrap(), b.canonical_json().unwrap());
    assert_eq!(a.canonical_json().unwrap(), c.canonical_json().unwrap());
    assert_eq!(a.digest().unwrap(), b.digest().unwrap());
    assert_eq!(a, b);
    assert_eq!(a.behaviors.as_slice(), each_kind().as_slice());
}

#[test]
fn different_behavior_gives_different_bytes() {
    let a = locked(vec![Behavior::FileRead { path: text("a") }]);
    let b = locked(vec![Behavior::FileWrite { path: text("a") }]);

    assert_ne!(a.canonical_json().unwrap(), b.canonical_json().unwrap());
    assert_ne!(a.digest().unwrap(), b.digest().unwrap());
}

#[test]
fn written_behavior_reads_back() {
    let lock = locked(each_kind());
    let back = BehaviorLock::from_entries(lock.version, lock.behaviors.as_slice().to_vec());

    assert_eq!(back, Ok(lock));
}

#[test]
fn old_versions_are_read_and_future_ones_are_not() {
    for version in 1..=4 {
        let lock = BehaviorLock::from_entries(version, each_kind()).unwrap();

        assert_eq!(lock.version, version);
        assert_eq!(lock.behaviors.len(), 13);
    }

    assert_eq!(
        BehaviorLock::from_entries(5, Vec::new()),
        Err(LockError::UnsupportedVersion(5))
    );
    assert_eq!(
        BehaviorLock::from_entries(0, Vec::new()),
        Err(LockError::UnsupportedVersion(0))
    );
}

#[test]
fn order_agrees_with_the_derived_one() {
    let mut all = each_kind();
    for path in ["", "/", "a", "ab", "b", "é", "z\u{10000}", "\u{ffff}"] {
        all.push(Behavior::FileRead { path: text(path) });
        all.push(Behavior::FileRename {
            from: text("m"),
            to: text(path),
        });
        for flags in [(false, false), (false, true), (true, false), (true, true)] {
            all.push(Behavior::HardlinkCreate {
                from: text("m"),
                to: text(path),
                follow_symlink: flags.0,
                empty_path: flags.1,
            });
        }
    }

    for a in &all {
        for b in &all {
            let place = a.place(b);

            assert_eq!(place == Place::Before, a < b);
            assert_eq!(place == Place::Same, a == b);
            assert_eq!(place == Place::After, a > b);
        }
    }

    let sorted: BTreeSet<Behavior> = all.iter().cloned().collect();
    let sorted: Vec<Behavior> = sorted.into_iter().collect();
    assert_eq!(locked(all).behaviors.as_slice(), sorted.as_slice());
}

#[test]
fn counts_add_up() {
    let counts = locked(each_kind()).counts();

    assert_eq!(counts.execs, 1);
    assert_eq!(counts.file_read, 1);
    assert_eq!(counts.file_write, 1);
    assert_eq!(counts.file_delete, 1);
    assert_eq!(counts.file_rename, 2);
    assert_eq!(counts.directory_create, 1);
    assert_eq!(counts.directory_delete, 1);
    assert_eq!(counts.symlink_create, 1);
    assert_eq!(counts.hardlink_create, 1);
    assert_eq!(counts.network, 1);
    assert_eq!(counts.unix, 2);
    assert_eq!(counts.total(), 13);
    assert_eq!(BehaviorLock::new().counts().total(), 0);
}

#[test]
fn differences_go_both_ways() {
    let all = locked(each_kind());
    let none = BehaviorLock::new();

    assert_eq!(diff(&none, &all).added, each_kind());
    assert!(diff(&none, &all).removed.is_empty());
    assert_eq!(diff(&all, &none).removed, each_kind());
    assert!(diff(&all, &all).added.is_empty());
    assert!(diff(&all, &all).removed.is_empty());
}

#[test]
fn each_kind_is_shown_in_its_way() {
    let shown: Vec<String> = each_kind().iter().map(render).collect();

    assert_eq!(
        shown,
        vec![
            "exec     /bin/sh",
            "read     $PROJECT/a",
            "write    $PROJECT/a",
            "delete   $PROJECT/a",
            "rename   $PROJECT/a -> $PROJECT/b",
            "exchange $PROJECT/a <-> $PROJECT/b",
            "mkdir    $PROJECT/d",
            "rmdir    $PROJECT/d",
            "symlink  $PROJECT/l -> a",
            "hardlink $PROJECT/a -> $PROJECT/h",
            "connect  203.0.113.10:443",
            "ipc      /run/x.sock",
            "ipc      @x",
        ]
    );
}
