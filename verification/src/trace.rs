//! Behavior derived from strace output.

use vstd::prelude::*;
use vstd::slice::slice_subrange;
use vstd::string::*;

use crate::behavior::{Behavior, BehaviorView};
use crate::lock;
use crate::lock::BehaviorLock;
use crate::normalize;
use crate::normalize::{ContextView, NormalizeContext};
use crate::path;
use crate::strace;
use crate::text;

verus! {

// ---------------------------------------------------------------------------
// Faults
// ---------------------------------------------------------------------------

/// The syscalls that name two directory descriptors.
#[derive(Debug, Clone, Copy, PartialEq, Eq, Structural)]
pub enum PairCall {
    Renameat,
    Symlinkat,
    Linkat,
}

/// Why a trace cannot be interpreted.
#[derive(Debug, PartialEq, Eq)]
pub enum TraceError {
    /// A syscall line without an opening parenthesis.
    MalformedCall,
    /// A syscall line without a comma behind its first argument.
    MalformedDirfd,
    /// A directory descriptor whose path strace did not print.
    UnresolvedDirfd { dirfd: String },
    /// No comma behind the first quoted path.
    MalformedArguments { call: PairCall },
    /// No comma behind the second directory descriptor.
    MissingDirfd { call: PairCall },
    /// There is no trace at all.
    NoTraces,
    /// Not exactly one traced process without a recorded parent.
    RootCount { found: usize },
    /// A traced process that no other one is known to have started.
    UnknownParent { pid: u32 },
}

/// A fault as a mathematical value.
pub enum TraceFault {
    MalformedCall,
    MalformedDirfd,
    UnresolvedDirfd { dirfd: Seq<char> },
    MalformedArguments { call: PairCall },
    MissingDirfd { call: PairCall },
    NoTraces,
    RootCount { found: nat },
    UnknownParent { pid: u32 },
}

impl View for TraceError {
    type V = TraceFault;

    open spec fn view(&self) -> TraceFault {
        match self {
            TraceError::MalformedCall => TraceFault::MalformedCall,
            TraceError::MalformedDirfd => TraceFault::MalformedDirfd,
            TraceError::UnresolvedDirfd { dirfd } => TraceFault::UnresolvedDirfd { dirfd: dirfd@ },
            TraceError::MalformedArguments { call } => TraceFault::MalformedArguments { call: *call },
            TraceError::MissingDirfd { call } => TraceFault::MissingDirfd { call: *call },
            TraceError::NoTraces => TraceFault::NoTraces,
            TraceError::RootCount { found } => TraceFault::RootCount { found: *found as nat },
            TraceError::UnknownParent { pid } => TraceFault::UnknownParent { pid: *pid },
        }
    }
}

// ---------------------------------------------------------------------------
// Paths of a syscall
// ---------------------------------------------------------------------------

/// The path `raw` as seen from a directory descriptor.
pub open spec fn from_dirfd(dirfd: Seq<char>, cwd: Seq<char>, raw: Seq<char>) -> Result<
    Seq<char>,
    TraceFault,
> {
    if path::absolute(raw) {
        Ok(raw)
    } else if text::begins(dirfd, "AT_FDCWD"@) {
        Ok(path::path_join(cwd, raw))
    } else {
        match strace::angled(dirfd) {
            Some(base) => Ok(path::path_join(base, raw)),
            None => Err(TraceFault::UnresolvedDirfd { dirfd }),
        }
    }
}

/// The first argument of the syscall: what stands between the first parenthesis and
/// the next comma.
pub open spec fn first_dirfd(line: Seq<char>) -> Result<Seq<char>, TraceFault> {
    match text::first_match(line, "("@) {
        Some(at) => {
            let rest = line.skip(at + 1);
            match text::first_match(rest, ","@) {
                Some(n) => Ok(text::trimmed(rest.take(n))),
                None => Err(TraceFault::MalformedDirfd),
            }
        },
        None => Err(TraceFault::MalformedCall),
    }
}

/// The path `raw` as seen from the first argument of the syscall.
pub open spec fn from_first_dirfd(line: Seq<char>, cwd: Seq<char>, raw: Seq<char>) -> Result<
    Seq<char>,
    TraceFault,
> {
    if path::absolute(raw) {
        Ok(raw)
    } else {
        match first_dirfd(line) {
            Ok(dirfd) => from_dirfd(dirfd, cwd, raw),
            Err(e) => Err(e),
        }
    }
}

/// The argument behind the first quoted path: what stands between the comma behind
/// that path and the next comma.
pub open spec fn second_dirfd(line: Seq<char>, call: PairCall) -> Result<Seq<char>, TraceFault> {
    let after = text::trim_front(line.skip(strace::quote_close(line, 0)->0 + 1));
    let rest = text::trim_front(after.skip(1));
    if !text::begins(after, ","@) {
        Err(TraceFault::MalformedArguments { call })
    } else {
        match text::first_match(rest, ","@) {
            Some(n) => Ok(text::trimmed(rest.take(n))),
            None => Err(TraceFault::MissingDirfd { call }),
        }
    }
}

/// The path `raw` as seen from the argument behind the first quoted path.
pub open spec fn from_second_dirfd(
    line: Seq<char>,
    call: PairCall,
    cwd: Seq<char>,
    raw: Seq<char>,
) -> Result<Seq<char>, TraceFault> {
    match second_dirfd(line, call) {
        Ok(dirfd) => from_dirfd(dirfd, cwd, raw),
        Err(e) => Err(e),
    }
}

/// The argument behind the second quoted path, up to the closing parenthesis.
pub open spec fn last_argument(line: Seq<char>) -> Option<Seq<char>> {
    match strace::quote_close(line, 1) {
        Some(close) => {
            let after = text::trim_front(line.skip(close + 1));
            let rest = after.skip(1);
            if !text::begins(after, ","@) {
                None
            } else {
                match text::first_match(rest, ")"@) {
                    Some(n) => Some(text::trimmed(rest.take(n))),
                    None => Some(text::trimmed(rest)),
                }
            }
        },
        None => None,
    }
}

/// `wanted` is one of the flags that are printed with `|` between them.
pub open spec fn lists_flag(flags: Seq<char>, wanted: Seq<char>) -> bool {
    exists|i: int|
        0 <= i < text::pieces(flags, '|').len() && text::trimmed(
            #[trigger] text::pieces(flags, '|')[i],
        ) == wanted
}

/// The last argument of the syscall lists the flag.
pub open spec fn has_flag(line: Seq<char>, wanted: Seq<char>) -> bool {
    match last_argument(line) {
        Some(flags) => lists_flag(flags, wanted),
        None => false,
    }
}

/// The path `raw` as seen from `cwd`.
pub fn resolve_path(cwd: &str, raw: &str) -> (r: String)
    ensures
        r@ == path::path_join(cwd@, raw@),
{
    path::join(cwd, raw)
}

/// The path `raw` as seen from a directory descriptor.
pub fn resolve_dirfd(dirfd: &str, cwd: &str, raw: &str) -> (r: Result<String, TraceError>)
    ensures
        match r {
            Ok(p) => from_dirfd(dirfd@, cwd@, raw@) == Ok::<_, TraceFault>(p@),
            Err(e) => from_dirfd(dirfd@, cwd@, raw@) == Err::<Seq<char>, _>(e@),
        },
{
    if path::is_absolute(raw) {
        return Ok(raw.to_owned());
    }
    let chars = text::to_chars(dirfd);
    if text::starts_with(chars.as_slice(), "AT_FDCWD") {
        return Ok(path::join(cwd, raw));
    }
    match strace::angle_path(dirfd) {
        Some(base) => Ok(path::join(base.as_str(), raw)),
        None => Err(TraceError::UnresolvedDirfd { dirfd: dirfd.to_owned() }),
    }
}

/// The path `raw` as seen from the first argument of the syscall.
pub fn resolve_openat(line: &str, cwd: &str, raw: &str) -> (r: Result<String, TraceError>)
    ensures
        match r {
            Ok(p) => from_first_dirfd(line@, cwd@, raw@) == Ok::<_, TraceFault>(p@),
            Err(e) => from_first_dirfd(line@, cwd@, raw@) == Err::<Seq<char>, _>(e@),
        },
{
    if path::is_absolute(raw) {
        return Ok(raw.to_owned());
    }
    proof {
        reveal_strlit("(");
    }
    let chars = text::to_chars(line);
    let total: usize = chars.len();
    match text::find(chars.as_slice(), "(") {
        Some(at) => {
            let rest = slice_subrange(chars.as_slice(), at + 1, total);
            match text::find(rest, ",") {
                Some(n) => {
                    let dirfd = text::from_chars(text::trim(slice_subrange(rest, 0, n)));
                    resolve_dirfd(dirfd.as_str(), cwd, raw)
                },
                None => Err(TraceError::MalformedDirfd),
            }
        },
        None => Err(TraceError::MalformedCall),
    }
}

/// The path `raw` as seen from the argument behind the first quoted path.
fn resolve_second(line: &str, call: PairCall, cwd: &str, raw: &str) -> (r: Result<
    String,
    TraceError,
>)
    requires
        strace::quote_close(line@, 0) is Some,
    ensures
        match r {
            Ok(p) => from_second_dirfd(line@, call, cwd@, raw@) == Ok::<_, TraceFault>(p@),
            Err(e) => from_second_dirfd(line@, call, cwd@, raw@) == Err::<Seq<char>, _>(e@),
        },
{
    proof {
        reveal_strlit(",");
        strace::lemma_quoted_spans(line@, 0);
    }
    let chars = text::to_chars(line);
    let after = text::trim_start(strace::after_quoted(chars.as_slice(), 0));
    match text::strip_front(after, ",") {
        Some(rest) => {
            let rest = text::trim_start(rest);
            match text::find(rest, ",") {
                Some(n) => {
                    let dirfd = text::from_chars(text::trim(slice_subrange(rest, 0, n)));
                    resolve_dirfd(dirfd.as_str(), cwd, raw)
                },
                None => Err(TraceError::MissingDirfd { call }),
            }
        },
        None => Err(TraceError::MalformedArguments { call }),
    }
}

/// Tells whether the last argument of the syscall lists the flag.
fn last_argument_has(line: &str, wanted: &str) -> (r: bool)
    ensures
        r == has_flag(line@, wanted@),
{
    proof {
        reveal_strlit(",");
        strace::lemma_quoted_spans(line@, 0);
    }
    let chars = text::to_chars(line);
    if !strace::has_quoted(chars.as_slice(), 1) {
        return false;
    }
    let after = text::trim_start(strace::after_quoted(chars.as_slice(), 1));
    let rest = match text::strip_front(after, ",") {
        Some(rest) => rest,
        None => {
            return false;
        },
    };
    let flags = match text::find(rest, ")") {
        Some(n) => text::trim(slice_subrange(rest, 0, n)),
        None => text::trim(rest),
    };
    let listed = text::split(flags, '|');
    let ghost all = text::runs(listed@);
    let mut i: usize = 0;
    while i < listed.len()
        invariant
            i <= listed@.len(),
            all == text::runs(listed@),
            all == text::pieces(flags@, '|'),
            last_argument(line@) == Some(flags@),
            forall|k: int| 0 <= k < i ==> text::trimmed(#[trigger] all[k]) != wanted@,
        decreases listed@.len() - i,
    {
        assert(all[i as int] == listed@[i as int]@);
        if text::spells(text::trim(listed[i]), wanted) {
            assert(text::trimmed(text::pieces(flags@, '|')[i as int]) == wanted@);
            return true;
        }
        i = i + 1;
    }
    false
}

/// Tells whether a `renameat2` was called with the flag.
pub fn renameat2_has_flag(line: &str, wanted: &str) -> (r: bool)
    ensures
        r == (text::begins(line@, "renameat2("@) && has_flag(line@, wanted@)),
{
    let chars = text::to_chars(line);
    text::starts_with(chars.as_slice(), "renameat2(") && last_argument_has(line, wanted)
}

/// Tells whether a `linkat` was called with the flag.
pub fn linkat_has_flag(line: &str, wanted: &str) -> (r: bool)
    ensures
        r == (text::begins(line@, "linkat("@) && has_flag(line@, wanted@)),
{
    let chars = text::to_chars(line);
    text::starts_with(chars.as_slice(), "linkat(") && last_argument_has(line, wanted)
}

// ---------------------------------------------------------------------------
// Behavior of a syscall
// ---------------------------------------------------------------------------

/// The syscalls from which behavior is derived.
#[derive(Debug, Clone, Copy, PartialEq, Eq, Structural)]
pub enum Call {
    Execve,
    Execveat,
    Open,
    Creat,
    Openat,
    Unlink,
    Rmdir,
    Mkdir,
    Mkdirat,
    Unlinkat,
    Rename,
    Renameat,
    Symlink,
    Symlinkat,
    Link,
    Linkat,
    Connect,
    Other,
}

/// The syscall that a line reports.
pub open spec fn call_of(line: Seq<char>) -> Call {
    if text::begins(line, "execve("@) {
        Call::Execve
    } else if text::begins(line, "execveat("@) {
        Call::Execveat
    } else if text::begins(line, "open("@) {
        Call::Open
    } else if text::begins(line, "creat("@) {
        Call::Creat
    } else if text::begins(line, "openat("@) || text::begins(line, "openat2("@) {
        Call::Openat
    } else if text::begins(line, "unlink("@) {
        Call::Unlink
    } else if text::begins(line, "rmdir("@) {
        Call::Rmdir
    } else if text::begins(line, "mkdir("@) {
        Call::Mkdir
    } else if text::begins(line, "mkdirat("@) {
        Call::Mkdirat
    } else if text::begins(line, "unlinkat("@) {
        Call::Unlinkat
    } else if text::begins(line, "rename("@) {
        Call::Rename
    } else if text::begins(line, "renameat("@) || text::begins(line, "renameat2("@) {
        Call::Renameat
    } else if text::begins(line, "symlink("@) {
        Call::Symlink
    } else if text::begins(line, "symlinkat("@) {
        Call::Symlinkat
    } else if text::begins(line, "link("@) {
        Call::Link
    } else if text::begins(line, "linkat("@) {
        Call::Linkat
    } else if text::begins(line, "connect("@) {
        Call::Connect
    } else {
        Call::Other
    }
}

/// The syscall that a line reports.
fn call(line: &str) -> (r: Call)
    ensures
        r == call_of(line@),
{
    let chars = text::to_chars(line);
    let line = chars.as_slice();
    if text::starts_with(line, "execve(") {
        Call::Execve
    } else if text::starts_with(line, "execveat(") {
        Call::Execveat
    } else if text::starts_with(line, "open(") {
        Call::Open
    } else if text::starts_with(line, "creat(") {
        Call::Creat
    } else if text::starts_with(line, "openat(") || text::starts_with(line, "openat2(") {
        Call::Openat
    } else if text::starts_with(line, "unlink(") {
        Call::Unlink
    } else if text::starts_with(line, "rmdir(") {
        Call::Rmdir
    } else if text::starts_with(line, "mkdir(") {
        Call::Mkdir
    } else if text::starts_with(line, "mkdirat(") {
        Call::Mkdirat
    } else if text::starts_with(line, "unlinkat(") {
        Call::Unlinkat
    } else if text::starts_with(line, "rename(") {
        Call::Rename
    } else if text::starts_with(line, "renameat(") || text::starts_with(line, "renameat2(") {
        Call::Renameat
    } else if text::starts_with(line, "symlink(") {
        Call::Symlink
    } else if text::starts_with(line, "symlinkat(") {
        Call::Symlinkat
    } else if text::starts_with(line, "link(") {
        Call::Link
    } else if text::starts_with(line, "linkat(") {
        Call::Linkat
    } else if text::starts_with(line, "connect(") {
        Call::Connect
    } else {
        Call::Other
    }
}

/// What opening a file means, by the flags that strace printed.
///
/// `O_PATH` yields a reference used only for name resolution: it grants neither
/// read nor write access. The access mode is printed as exactly one of `O_RDONLY`,
/// `O_WRONLY` and `O_RDWR`, so a descriptor is readable unless it was opened
/// write-only. `O_CREAT` and `O_TRUNC` change the file even when the access mode is
/// read-only. `creat` is printed without flags and only writes.
pub open spec fn open_acts(line: Seq<char>, path: Seq<char>) -> Seq<BehaviorView> {
    let flags = strace::open_flags(line);
    let write_only = strace::has_token(flags, "O_WRONLY"@);
    let writable = write_only || strace::has_token(flags, "O_RDWR"@) || strace::has_token(
        flags,
        "O_CREAT"@,
    ) || strace::has_token(flags, "O_TRUNC"@);
    if text::begins(line, "creat("@) {
        seq![BehaviorView::FileWrite { path }]
    } else if strace::has_token(flags, "O_PATH"@) {
        seq![]
    } else if write_only {
        seq![BehaviorView::FileWrite { path }]
    } else if writable {
        seq![BehaviorView::FileRead { path }, BehaviorView::FileWrite { path }]
    } else {
        seq![BehaviorView::FileRead { path }]
    }
}

/// The destination of a `connect`.
pub open spec fn connect_act(line: Seq<char>) -> Option<BehaviorView> {
    let port4 = strace::between(line, "sin_port=htons("@, ")"@);
    let ip4 = strace::between(line, "inet_addr(\""@, "\""@);
    let port6 = strace::between(line, "sin6_port=htons("@, ")"@);
    let ip6 = strace::between(line, "inet_pton(AF_INET6, \""@, "\""@);
    if strace::abstract_address(line) is Some {
        Some(BehaviorView::UnixAbstractConnect { address: strace::abstract_address(line)->0 })
    } else if strace::quoted_field(line, "sun_path="@) is Some {
        Some(BehaviorView::UnixConnect { path: strace::quoted_field(line, "sun_path="@)->0 })
    } else if port4 is Some && ip4 is Some {
        Some(BehaviorView::NetworkConnect { address: ip4->0 + ":"@ + port4->0 })
    } else if port6 is Some && ip6 is Some {
        Some(BehaviorView::NetworkConnect { address: "["@ + ip6->0 + "]:"@ + port6->0 })
    } else {
        None
    }
}

/// What a syscall on one path means.
pub open spec fn path_acts(line: Seq<char>, path: Seq<char>) -> Seq<BehaviorView> {
    match call_of(line) {
        Call::Execve | Call::Execveat => seq![BehaviorView::Exec { path }],
        Call::Open | Call::Creat | Call::Openat => open_acts(line, path),
        Call::Unlink => seq![BehaviorView::FileDelete { path }],
        Call::Rmdir => seq![BehaviorView::DirectoryDelete { path }],
        Call::Mkdir | Call::Mkdirat => seq![BehaviorView::DirectoryCreate { path }],
        Call::Unlinkat => if text::first_match(line, "AT_REMOVEDIR"@) is Some {
            seq![BehaviorView::DirectoryDelete { path }]
        } else {
            seq![BehaviorView::FileDelete { path }]
        },
        _ => seq![],
    }
}

/// What a syscall on two paths means.
pub open spec fn pair_acts(line: Seq<char>, from: Seq<char>, to: Seq<char>) -> Seq<BehaviorView> {
    match call_of(line) {
        Call::Rename => seq![BehaviorView::FileRename { from, to }],
        Call::Renameat => if text::begins(line, "renameat2("@) && has_flag(
            line,
            "RENAME_EXCHANGE"@,
        ) {
            seq![BehaviorView::RenameExchange { left: from, right: to }]
        } else {
            seq![BehaviorView::FileRename { from, to }]
        },
        Call::Symlink | Call::Symlinkat => seq![
            BehaviorView::SymlinkCreate { target: from, link: to },
        ],
        Call::Link => seq![
            BehaviorView::HardlinkCreate { from, to, follow_symlink: false, empty_path: false },
        ],
        Call::Linkat => seq![
            BehaviorView::HardlinkCreate {
                from,
                to,
                follow_symlink: has_flag(line, "AT_SYMLINK_FOLLOW"@),
                empty_path: has_flag(line, "AT_EMPTY_PATH"@),
            },
        ],
        _ => seq![],
    }
}

/// The path of a syscall on one path.
pub open spec fn lone_path(line: Seq<char>, cwd: Seq<char>, raw: Seq<char>) -> Result<
    Seq<char>,
    TraceFault,
> {
    match call_of(line) {
        Call::Execveat | Call::Openat | Call::Mkdirat | Call::Unlinkat => from_first_dirfd(
            line,
            cwd,
            raw,
        ),
        _ => Ok(path::path_join(cwd, raw)),
    }
}

/// The two paths of a syscall on two paths. The target of a symbolic link is no
/// path to resolve.
pub open spec fn pair_paths(
    line: Seq<char>,
    cwd: Seq<char>,
    from: Seq<char>,
    to: Seq<char>,
) -> Result<(Seq<char>, Seq<char>), TraceFault> {
    match call_of(line) {
        Call::Renameat => both(
            from_first_dirfd(line, cwd, from),
            from_second_dirfd(line, PairCall::Renameat, cwd, to),
        ),
        Call::Linkat => both(
            from_first_dirfd(line, cwd, from),
            from_second_dirfd(line, PairCall::Linkat, cwd, to),
        ),
        Call::Symlinkat => both(
            Ok(from),
            from_second_dirfd(line, PairCall::Symlinkat, cwd, to),
        ),
        Call::Symlink => Ok((from, path::path_join(cwd, to))),
        _ => Ok((path::path_join(cwd, from), path::path_join(cwd, to))),
    }
}

/// Both paths, or the first fault.
pub open spec fn both(
    a: Result<Seq<char>, TraceFault>,
    b: Result<Seq<char>, TraceFault>,
) -> Result<(Seq<char>, Seq<char>), TraceFault> {
    match a {
        Ok(x) => match b {
            Ok(y) => Ok((x, y)),
            Err(e) => Err(e),
        },
        Err(e) => Err(e),
    }
}

/// The syscall takes two paths.
pub open spec fn takes_pair(call: Call) -> bool {
    match call {
        Call::Rename | Call::Renameat | Call::Symlink | Call::Symlinkat | Call::Link
        | Call::Linkat => true,
        _ => false,
    }
}

/// The behavior that a syscall line reports, with the paths as seen from `cwd`.
pub open spec fn line_acts(line: Seq<char>, cwd: Seq<char>) -> Result<
    Seq<BehaviorView>,
    TraceFault,
> {
    let call = call_of(line);
    let first = strace::quoted(line, 0);
    let second = strace::quoted(line, 1);
    if call == Call::Other {
        Ok(seq![])
    } else if call == Call::Connect {
        match connect_act(line) {
            Some(b) => Ok(seq![b]),
            None => Ok(seq![]),
        }
    } else if takes_pair(call) {
        if first is Some && second is Some {
            match pair_paths(line, cwd, first->0, second->0) {
                Ok(p) => Ok(pair_acts(line, p.0, p.1)),
                Err(e) => Err(e),
            }
        } else {
            Ok(seq![])
        }
    } else {
        match first {
            Some(raw) => match lone_path(line, cwd, raw) {
                Ok(p) => Ok(path_acts(line, p)),
                Err(e) => Err(e),
            },
            None => Ok(seq![]),
        }
    }
}

/// The destination of a `connect`.
pub fn parse_connect(line: &str) -> (r: Option<Behavior>)
    ensures
        match r {
            Some(b) => connect_act(line@) == Some(b@),
            None => connect_act(line@) is None,
        },
{
    if let Some(address) = strace::extract_strace_abstract_unix_address(line) {
        return Some(Behavior::UnixAbstractConnect { address });
    }
    if let Some(path) = strace::extract_strace_quoted_field(line, "sun_path=") {
        return Some(Behavior::UnixConnect { path });
    }
    if let Some(port) = strace::extract_between(line, "sin_port=htons(", ")") {
        if let Some(ip) = strace::extract_between(line, "inet_addr(\"", "\"") {
            return Some(
                Behavior::NetworkConnect { address: ip.concat(":").concat(port.as_str()) },
            );
        }
    }
    if let Some(port) = strace::extract_between(line, "sin6_port=htons(", ")") {
        if let Some(ip) = strace::extract_between(line, "inet_pton(AF_INET6, \"", "\"") {
            return Some(
                Behavior::NetworkConnect {
                    address: "[".to_owned().concat(ip.as_str()).concat("]:").concat(port.as_str()),
                },
            );
        }
    }
    None
}

/// What opening a file means, by the flags that strace printed.
fn file_behaviors(line: &str, path: String) -> (r: Vec<Behavior>)
    ensures
        lock::views(r@) == open_acts(line@, path@),
{
    let chars = text::to_chars(line);
    let mut r: Vec<Behavior> = Vec::new();
    if text::starts_with(chars.as_slice(), "creat(") {
        r.push(Behavior::FileWrite { path });
        assert(lock::views(r@) =~= open_acts(line@, path@));
        return r;
    }
    // Only the argument region behind the quoted path is inspected: neither a path
    // name nor a descriptor annotation can pass for an access flag.
    let flags = strace::file_open_flags(line);
    if strace::flags_have_token(flags, "O_PATH") {
        assert(lock::views(r@) =~= open_acts(line@, path@));
        return r;
    }
    let write_only: bool = strace::flags_have_token(flags, "O_WRONLY");
    let writable: bool = write_only || strace::flags_have_token(flags, "O_RDWR")
        || strace::flags_have_token(flags, "O_CREAT") || strace::flags_have_token(flags, "O_TRUNC");
    if !write_only {
        r.push(Behavior::FileRead { path: path.clone() });
    }
    if writable {
        r.push(Behavior::FileWrite { path });
    }
    assert(lock::views(r@) =~= open_acts(line@, path@));
    r
}

/// What a syscall on one path means.
fn path_behaviors(call: Call, line: &str, path: String) -> (r: Vec<Behavior>)
    requires
        call == call_of(line@),
    ensures
        lock::views(r@) == path_acts(line@, path@),
{
    let mut r: Vec<Behavior> = Vec::new();
    match call {
        Call::Execve | Call::Execveat => {
            r.push(Behavior::Exec { path });
        },
        Call::Open | Call::Creat | Call::Openat => {
            return file_behaviors(line, path);
        },
        Call::Unlink => {
            r.push(Behavior::FileDelete { path });
        },
        Call::Rmdir => {
            r.push(Behavior::DirectoryDelete { path });
        },
        Call::Mkdir | Call::Mkdirat => {
            r.push(Behavior::DirectoryCreate { path });
        },
        Call::Unlinkat => {
            let chars = text::to_chars(line);
            if text::contains(chars.as_slice(), "AT_REMOVEDIR") {
                r.push(Behavior::DirectoryDelete { path });
            } else {
                r.push(Behavior::FileDelete { path });
            }
        },
        _ => {},
    }
    assert(lock::views(r@) =~= path_acts(line@, path@));
    r
}

/// What a syscall on two paths means.
fn pair_behaviors(call: Call, line: &str, from: String, to: String) -> (r: Vec<Behavior>)
    requires
        call == call_of(line@),
    ensures
        lock::views(r@) == pair_acts(line@, from@, to@),
{
    let mut r: Vec<Behavior> = Vec::new();
    match call {
        Call::Rename => {
            r.push(Behavior::FileRename { from, to });
        },
        Call::Renameat => {
            if renameat2_has_flag(line, "RENAME_EXCHANGE") {
                r.push(Behavior::RenameExchange { left: from, right: to });
            } else {
                r.push(Behavior::FileRename { from, to });
            }
        },
        Call::Symlink | Call::Symlinkat => {
            r.push(Behavior::SymlinkCreate { target: from, link: to });
        },
        Call::Link => {
            r.push(
                Behavior::HardlinkCreate { from, to, follow_symlink: false, empty_path: false },
            );
        },
        Call::Linkat => {
            r.push(
                Behavior::HardlinkCreate {
                    from,
                    to,
                    follow_symlink: linkat_has_flag(line, "AT_SYMLINK_FOLLOW"),
                    empty_path: linkat_has_flag(line, "AT_EMPTY_PATH"),
                },
            );
        },
        _ => {},
    }
    assert(lock::views(r@) =~= pair_acts(line@, from@, to@));
    r
}

/// The path of a syscall on one path.
fn resolve_lone(call: Call, line: &str, cwd: &str, raw: &str) -> (r: Result<String, TraceError>)
    requires
        call == call_of(line@),
    ensures
        match r {
            Ok(p) => lone_path(line@, cwd@, raw@) == Ok::<_, TraceFault>(p@),
            Err(e) => lone_path(line@, cwd@, raw@) == Err::<Seq<char>, _>(e@),
        },
{
    match call {
        Call::Execveat | Call::Openat | Call::Mkdirat | Call::Unlinkat => resolve_openat(
            line,
            cwd,
            raw,
        ),
        _ => Ok(resolve_path(cwd, raw)),
    }
}

/// The two paths of a syscall on two paths.
fn resolve_pair(call: Call, line: &str, cwd: &str, from: String, to: &str) -> (r: Result<
    (String, String),
    TraceError,
>)
    requires
        call == call_of(line@),
        strace::quote_close(line@, 0) is Some,
    ensures
        match r {
            Ok(p) => pair_paths(line@, cwd@, from@, to@) == Ok::<_, TraceFault>((p.0@, p.1@)),
            Err(e) => pair_paths(line@, cwd@, from@, to@) == Err::<(Seq<char>, Seq<char>), _>(e@),
        },
{
    let (pair_call, source) = match call {
        Call::Renameat => (PairCall::Renameat, resolve_openat(line, cwd, from.as_str())),
        Call::Linkat => (PairCall::Linkat, resolve_openat(line, cwd, from.as_str())),
        Call::Symlinkat => (PairCall::Symlinkat, Ok(from)),
        Call::Symlink => {
            return Ok((from, resolve_path(cwd, to)));
        },
        _ => {
            return Ok((resolve_path(cwd, from.as_str()), resolve_path(cwd, to)));
        },
    };
    match source {
        Ok(source) => match resolve_second(line, pair_call, cwd, to) {
            Ok(target) => Ok((source, target)),
            Err(e) => Err(e),
        },
        Err(e) => Err(e),
    }
}

/// The behavior that a syscall line reports, with the paths as seen from `cwd`.
pub fn line_behaviors(line: &str, cwd: &str) -> (r: Result<Vec<Behavior>, TraceError>)
    ensures
        match r {
            Ok(v) => line_acts(line@, cwd@) == Ok::<_, TraceFault>(lock::views(v@)),
            Err(e) => line_acts(line@, cwd@) == Err::<Seq<BehaviorView>, _>(e@),
        },
{
    let call = call(line);
    let mut none: Vec<Behavior> = Vec::new();
    assert(lock::views(none@) =~= seq![]);
    match call {
        Call::Other => Ok(none),
        Call::Connect => {
            if let Some(behavior) = parse_connect(line) {
                none.push(behavior);
                assert(lock::views(none@) =~= seq![behavior@]);
            }
            Ok(none)
        },
        Call::Rename | Call::Renameat | Call::Symlink | Call::Symlinkat | Call::Link
        | Call::Linkat => {
            let from = strace::nth_quoted_string(line, 0);
            let to = strace::nth_quoted_string(line, 1);
            match (from, to) {
                (Some(from), Some(to)) => match resolve_pair(call, line, cwd, from, to.as_str()) {
                    Ok((from, to)) => Ok(pair_behaviors(call, line, from, to)),
                    Err(e) => Err(e),
                },
                _ => Ok(none),
            }
        },
        _ => match strace::first_quoted_string(line) {
            Some(raw) => match resolve_lone(call, line, cwd, raw.as_str()) {
                Ok(path) => Ok(path_behaviors(call, line, path)),
                Err(e) => Err(e),
            },
            None => Ok(none),
        },
    }
}

/// A set of behaviors with the canonical forms of some more.
pub open spec fn recorded_all(
    known: Set<BehaviorView>,
    acts: Seq<BehaviorView>,
    include_system: bool,
    context: ContextView,
) -> Set<BehaviorView>
    decreases acts.len(),
{
    if acts.len() == 0 {
        known
    } else {
        normalize::recorded(
            recorded_all(known, acts.drop_last(), include_system, context),
            acts.last(),
            include_system,
            context,
        )
    }
}

/// Records the behavior that a syscall line reports. A line that cannot be
/// interpreted records nothing.
pub fn parse_behavior_line(
    line: &str,
    cwd: &str,
    lock: &mut BehaviorLock,
    include_system: bool,
    context: &NormalizeContext,
) -> (r: Result<(), TraceError>)
    ensures
        final(lock).version == old(lock).version,
        match r {
            Ok(()) => {
                &&& line_acts(line@, cwd@) is Ok
                &&& final(lock)@ == recorded_all(
                    old(lock)@,
                    line_acts(line@, cwd@)->Ok_0,
                    include_system,
                    context@,
                )
            },
            Err(e) => {
                &&& line_acts(line@, cwd@) == Err::<Seq<BehaviorView>, _>(e@)
                &&& final(lock)@ == old(lock)@
            },
        },
{
    let behaviors = match line_behaviors(line, cwd) {
        Ok(behaviors) => behaviors,
        Err(e) => {
            return Err(e);
        },
    };
    let ghost acts = lock::views(behaviors@);
    let ghost known = lock@;
    let ghost version = lock.version;
    let mut i: usize = 0;
    while i < behaviors.len()
        invariant
            i <= behaviors@.len(),
            acts == lock::views(behaviors@),
            lock.version == version,
            lock@ == recorded_all(known, acts.take(i as int), include_system, context@),
        decreases behaviors@.len() - i,
    {
        assert(acts.take(i + 1).drop_last() == acts.take(i as int));
        assert(acts.take(i + 1).last() == behaviors@[i as int]@);
        lock.insert_normalized(behaviors[i].clone(), include_system, context);
        i = i + 1;
    }
    assert(acts.take(i as int) == acts);
    Ok(())
}

// ---------------------------------------------------------------------------
// Laws
// ---------------------------------------------------------------------------

/// The canonical form of one of the acts is the behavior.
pub open spec fn among(
    acts: Seq<BehaviorView>,
    include_system: bool,
    context: ContextView,
    b: BehaviorView,
) -> bool {
    exists|k: int|
        0 <= k < acts.len() && normalize::normalized(#[trigger] acts[k], include_system, context)
            == Some(b)
}

/// Recording adds exactly the canonical forms of what was observed, and takes nothing
/// away.
pub proof fn law_recording_adds_what_was_observed(
    known: Set<BehaviorView>,
    acts: Seq<BehaviorView>,
    include_system: bool,
    context: ContextView,
    b: BehaviorView,
)
    ensures
        recorded_all(known, acts, include_system, context).contains(b) <==> known.contains(b)
            || among(acts, include_system, context, b),
    decreases acts.len(),
{
    if acts.len() > 0 {
        let front = acts.drop_last();
        law_recording_adds_what_was_observed(known, front, include_system, context, b);
        if among(front, include_system, context, b) {
            let k = choose|k: int|
                0 <= k < front.len() && normalize::normalized(
                    #[trigger] front[k],
                    include_system,
                    context,
                ) == Some(b);
            assert(acts[k] == front[k]);
        }
        if among(acts, include_system, context, b) {
            let k = choose|k: int|
                0 <= k < acts.len() && normalize::normalized(
                    #[trigger] acts[k],
                    include_system,
                    context,
                ) == Some(b);
            if k < front.len() {
                assert(front[k] == acts[k]);
            }
        }
        assert(acts[acts.len() - 1] == acts.last());
    }
}

/// Opening a file only to resolve names records nothing.
pub proof fn law_resolution_is_no_access(line: Seq<char>, path: Seq<char>)
    requires
        strace::has_token(strace::open_flags(line), "O_PATH"@),
        !text::begins(line, "creat("@),
    ensures
        open_acts(line, path).len() == 0,
{
}

/// Opening a file write-only is never recorded as a read, and opening one read-only
/// without creating or truncating it never as a write.
pub proof fn law_access_mode_decides(line: Seq<char>, path: Seq<char>)
    ensures
        strace::has_token(strace::open_flags(line), "O_WRONLY"@) || text::begins(line, "creat("@)
            ==> !open_acts(line, path).contains(BehaviorView::FileRead { path }),
        open_acts(line, path).contains(BehaviorView::FileWrite { path }) ==> text::begins(
            line,
            "creat("@,
        ) || strace::has_token(strace::open_flags(line), "O_WRONLY"@) || strace::has_token(
            strace::open_flags(line),
            "O_RDWR"@,
        ) || strace::has_token(strace::open_flags(line), "O_CREAT"@) || strace::has_token(
            strace::open_flags(line),
            "O_TRUNC"@,
        ),
{
}

} // verus!
