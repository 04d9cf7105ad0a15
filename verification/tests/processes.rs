//! Traces of process trees.

use std::collections::BTreeMap;

use runprint::behavior::Behavior;
use runprint::lock::BehaviorLock;
use runprint::normalize::NormalizeContext;
use runprint::processes::{
    child_pid, first_fd_path, parse_trace_files, parse_traces, trace_pid,
};
use runprint::trace::{parse_behavior_line, PairCall, TraceError};

fn context() -> NormalizeContext {
    NormalizeContext::new("/project".to_string(), None, "/tmp".to_string())
}

fn parse(traces: &[(u32, &[&str])]) -> Result<BehaviorLock, TraceError> {
    let traces: BTreeMap<u32, Vec<String>> = traces
        .iter()
        .map(|(pid, lines)| (*pid, lines.iter().map(|line| line.to_string()).collect()))
        .collect();

    parse_traces(&traces, true, &context(), "/project")
}

fn read(path: &str) -> Behavior {
    Behavior::FileRead {
        path: path.to_string(),
    }
}

#[test]
fn trace_files_are_named_by_process() {
    assert_eq!(trace_pid("trace.42"), Some(42));
    assert_eq!(trace_pid("trace."), None);
    assert_eq!(trace_pid("trace.x"), None);
    assert_eq!(trace_pid("other.42"), None);
}

#[test]
fn started_processes_are_read_from_the_result() {
    assert_eq!(child_pid("fork() = 12"), Some(12));
    assert_eq!(child_pid("vfork() = 12"), Some(12));
    assert_eq!(child_pid("clone(child_stack=NULL, flags=SIGCHLD) = 7 (x)"), Some(7));
    assert_eq!(child_pid("clone3({flags=0}, 88) = 9"), Some(9));
    assert_eq!(child_pid("fork() = -1 EAGAIN (x)"), None);
    assert_eq!(child_pid("fork() = ? ERESTARTNOINTR"), None);
    assert_eq!(child_pid("wait4(-1) = 12"), None);
}

#[test]
fn descriptor_paths_stand_in_angle_brackets() {
    assert_eq!(first_fd_path("fchdir(3</project/a>) = 0").as_deref(), Some("/project/a"));
    assert_eq!(first_fd_path("fchdir(3) = 0"), None);
}

#[test]
fn directories_are_followed_and_inherited() {
    let lock = parse(&[
        (
            10,
            &[
                "chdir(\"sub\") = 0",
                "clone(flags=SIGCHLD) = 11",
                "chdir(\"/elsewhere\") = 0",
                "open(\"late\", O_RDONLY) = 3",
            ],
        ),
        (
            11,
            &[
                "open(\"early\", O_RDONLY) = 3",
                "fchdir(4</project/deep>) = 0",
                "open(\"x\", O_RDONLY) = 3",
                "chdir(\"missing\") = -1 ENOENT (No such file or directory)",
                "open(\"y\", O_RDONLY) = 3",
            ],
        ),
    ])
    .unwrap();

    assert_eq!(
        lock.behaviors.as_slice(),
        &[
            read("$PROJECT/deep/x"),
            read("$PROJECT/deep/y"),
            read("$PROJECT/sub/early"),
            read("/elsewhere/late"),
        ]
    );
}

#[test]
fn failed_operations_leave_nothing() {
    let lock = parse(&[(
        1,
        &[
            "open(\"a\", O_RDONLY) = -1 ENOENT (No such file or directory)",
            "unlink(\"a\") = ? ERESTARTSYS",
            "unlink(\"a\"",
        ],
    )])
    .unwrap();

    assert!(lock.behaviors.is_empty());
}

#[test]
fn every_process_counts() {
    let lock = parse(&[
        (1, &["fork() = 2", "fork() = 3"]),
        (2, &["fork() = 4", "mkdir(\"a\", 0777) = 0"]),
        (3, &["mkdir(\"b\", 0777) = 0"]),
        (4, &["mkdir(\"c\", 0777) = 0"]),
    ])
    .unwrap();

    assert_eq!(lock.counts().directory_create, 3);
    assert_eq!(lock.version, 4);
}

#[test]
fn traces_have_to_be_there() {
    assert_eq!(parse(&[]), Err(TraceError::NoTraces));
}

#[test]
fn there_is_one_root() {
    assert_eq!(
        parse(&[(1, &["getpid() = 1"]), (2, &["getpid() = 2"])]),
        Err(TraceError::RootCount { found: 2 })
    );
    assert_eq!(
        parse(&[(1, &["fork() = 2"]), (2, &["fork() = 1"])]),
        Err(TraceError::RootCount { found: 0 })
    );
}

#[test]
fn every_process_is_reached() {
    assert_eq!(
        parse(&[
            (1, &["getpid() = 1"]),
            (2, &["fork() = 3"]),
            (3, &["fork() = 2"]),
        ]),
        Err(TraceError::UnknownParent { pid: 2 })
    );
}

#[test]
fn faults_of_a_line_are_faults_of_the_trace() {
    assert_eq!(
        parse(&[(1, &["openat(7, \"a\", O_RDONLY) = 3"])]),
        Err(TraceError::UnresolvedDirfd {
            dirfd: "7".to_string(),
        })
    );
}

fn line_error(line: &str) -> TraceError {
    let mut lock = BehaviorLock::new();

    let error = parse_behavior_line(line, "/project", &mut lock, true, &context()).unwrap_err();

    assert!(lock.behaviors.is_empty());
    error
}

#[test]
fn malformed_lines_are_told_apart() {
    assert_eq!(
        runprint::trace::resolve_openat("openat", "/p", "a"),
        Err(TraceError::MalformedCall)
    );
    assert_eq!(line_error("mkdirat(\"a\") = 0"), TraceError::MalformedDirfd);
    assert_eq!(
        line_error("renameat(AT_FDCWD, \"a\"; AT_FDCWD, \"b\") = 0"),
        TraceError::MalformedArguments {
            call: PairCall::Renameat,
        }
    );
    assert_eq!(
        line_error("symlinkat(\"t\"  AT_FDCWD, \"l\") = 0"),
        TraceError::MalformedArguments {
            call: PairCall::Symlinkat,
        }
    );
    assert_eq!(
        line_error("linkat(AT_FDCWD, \"a\", \"b\") = 0"),
        TraceError::MissingDirfd {
            call: PairCall::Linkat,
        }
    );
}

#[test]
fn each_call_has_its_meaning() {
    let cases: [(&str, Behavior); 12] = [
        (
            "execve(\"/bin/ls\", [\"ls\"], 0x0) = 0",
            Behavior::Exec { path: "/bin/ls".to_string() },
        ),
        (
            "unlink(\"a\") = 0",
            Behavior::FileDelete { path: "$PROJECT/a".to_string() },
        ),
        (
            "rmdir(\"a\") = 0",
            Behavior::DirectoryDelete { path: "$PROJECT/a".to_string() },
        ),
        (
            "unlinkat(AT_FDCWD, \"a\", 0) = 0",
            Behavior::FileDelete { path: "$PROJECT/a".to_string() },
        ),
        (
            "unlinkat(AT_FDCWD, \"a\", AT_REMOVEDIR) = 0",
            Behavior::DirectoryDelete { path: "$PROJECT/a".to_string() },
        ),
        (
            "mkdirat(3</project/s>, \"a\", 0777) = 0",
            Behavior::DirectoryCreate { path: "$PROJECT/s/a".to_string() },
        ),
        (
            "rename(\"a\", \"b\") = 0",
            Behavior::FileRename {
                from: "$PROJECT/a".to_string(),
                to: "$PROJECT/b".to_string(),
            },
        ),
        (
            "renameat(3</project/x>, \"a\", 4</project/y>, \"b\") = 0",
            Behavior::FileRename {
                from: "$PROJECT/x/a".to_string(),
                to: "$PROJECT/y/b".to_string(),
            },
        ),
        (
            "symlink(\"../t\", \"l\") = 0",
            Behavior::SymlinkCreate {
                target: "../t".to_string(),
                link: "$PROJECT/l".to_string(),
            },
        ),
        (
            "symlinkat(\"t\", 3</project/s>, \"l\") = 0",
            Behavior::SymlinkCreate {
                target: "t".to_string(),
                link: "$PROJECT/s/l".to_string(),
            },
        ),
        (
            "link(\"a\", \"b\") = 0",
            Behavior::HardlinkCreate {
                from: "$PROJECT/a".to_string(),
                to: "$PROJECT/b".to_string(),
                follow_symlink: false,
                empty_path: false,
            },
        ),
        (
            "connect(3, {sa_family=AF_INET6, sin6_port=htons(53), inet_pton(AF_INET6, \"::1\", &x)}, 28) = 0",
            Behavior::NetworkConnect { address: "[::1]:53".to_string() },
        ),
    ];

    for (line, wanted) in cases {
        let mut lock = BehaviorLock::new();

        parse_behavior_line(line, "/project", &mut lock, true, &context()).unwrap();

        assert_eq!(lock.behaviors.as_slice(), &[wanted], "{line}");
    }
}

#[test]
fn other_calls_mean_nothing() {
    let mut lock = BehaviorLock::new();

    for line in ["stat(\"a\", 0x0) = 0", "rename(\"a\") = 0", "connect(3) = 0", ""] {
        parse_behavior_line(line, "/project", &mut lock, true, &context()).unwrap();
    }

    assert!(lock.behaviors.is_empty());
}

#[test]
fn trace_files_are_read_whole() {
    let files = vec![
        (
            "trace.5".to_string(),
            "clone(flags=SIGCHLD <unfinished ...>\n--- SIGCHLD {} ---\n<... clone resumed>) = 6\n"
                .to_string(),
        ),
        (
            "trace.6".to_string(),
            "open(\"a\", O_RDONLY) = 3\n+++ exited with 0 +++\n".to_string(),
        ),
        ("notes.txt".to_string(), "open(\"b\", O_RDONLY) = 3\n".to_string()),
    ];

    let lock = parse_trace_files(&files, true, &context(), "/project").unwrap();

    assert_eq!(lock.behaviors.as_slice(), &[read("$PROJECT/a")]);
}

#[test]
fn no_trace_file_is_no_trace() {
    let files = vec![("notes.txt".to_string(), String::new())];

    assert_eq!(
        parse_trace_files(&files, true, &context(), "/project"),
        Err(TraceError::NoTraces)
    );
}

#[test]
fn grandchildren_inherit_step_by_step() {
    let lock = parse(&[
        (1, &["chdir(\"a\") = 0", "fork() = 2", "chdir(\"/x\") = 0"]),
        (2, &["chdir(\"b\") = 0", "fork() = 3", "chdir(\"/y\") = 0"]),
        (3, &["open(\"f\", O_RDONLY) = 3"]),
    ])
    .unwrap();

    assert_eq!(lock.behaviors.as_slice(), &[read("$PROJECT/a/b/f")]);
}

#[test]
fn unproven_lines_can_be_left_out() {
    let all = parse(&[
        (
            1,
            &[
                "chdir(\"a\") = -1 ENOENT (x)",
                "fork() = -1 EAGAIN (x)",
                "fork() = 2",
                "open(\"f\", O_RDONLY) = ? ERESTARTSYS",
            ],
        ),
        (2, &["openat(7, \"f\", O_RDONLY) = -1 EBADF (x)", "unlink(\"f\") = 0"]),
    ]);
    let fewer = parse(&[(1, &["fork() = 2"]), (2, &["unlink(\"f\") = 0"])]);

    assert!(all.is_ok());
    assert_eq!(all, fewer);
}
