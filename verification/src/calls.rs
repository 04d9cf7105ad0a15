//! What each syscall means, as laws over the lines that report it.

use vstd::prelude::*;

use crate::behavior::BehaviorView;
use crate::lines;
use crate::path;
use crate::processes;
use crate::processes::Stride;
use crate::normalize::ContextView;
use crate::strace;
use crate::text;
use crate::trace;
use crate::trace::{Call, PairCall, TraceFault};

verus! {

// ---------------------------------------------------------------------------
// Which call a line reports
// ---------------------------------------------------------------------------

/// A line that begins with one text does not begin with another that differs from it.
proof fn lemma_apart(line: Seq<char>, a: Seq<char>, b: Seq<char>, i: int)
    requires
        text::begins(line, a),
        0 <= i < a.len(),
        i < b.len(),
        a[i] != b[i],
    ensures
        !text::begins(line, b),
{
    text::lemma_begins(line, a, i);
    text::lemma_begins(line, b, i);
}

/// A line that begins with `execve(` reports that call.
proof fn lemma_execve(line: Seq<char>)
    requires
        text::begins(line, "execve("@),
    ensures
        trace::call_of(line) == Call::Execve,
{
    reveal_strlit("execve(");
}

/// A line that begins with `execveat(` reports that call.
proof fn lemma_execveat(line: Seq<char>)
    requires
        text::begins(line, "execveat("@),
    ensures
        trace::call_of(line) == Call::Execveat,
{
    reveal_strlit("execveat(");
    reveal_strlit("execve(");
    lemma_apart(line, "execveat("@, "execve("@, 6);
}

/// A line that begins with `open(` reports that call.
proof fn lemma_open(line: Seq<char>)
    requires
        text::begins(line, "open("@),
    ensures
        trace::call_of(line) == Call::Open,
{
    reveal_strlit("open(");
    reveal_strlit("execve(");
    lemma_apart(line, "open("@, "execve("@, 0);
    reveal_strlit("execveat(");
    lemma_apart(line, "open("@, "execveat("@, 0);
}

/// A line that begins with `creat(` reports that call.
proof fn lemma_creat(line: Seq<char>)
    requires
        text::begins(line, "creat("@),
    ensures
        trace::call_of(line) == Call::Creat,
{
    reveal_strlit("creat(");
    reveal_strlit("execve(");
    lemma_apart(line, "creat("@, "execve("@, 0);
    reveal_strlit("execveat(");
    lemma_apart(line, "creat("@, "execveat("@, 0);
    reveal_strlit("open(");
    lemma_apart(line, "creat("@, "open("@, 0);
}

/// A line that begins with `openat(` reports that call.
proof fn lemma_openat(line: Seq<char>)
    requires
        text::begins(line, "openat("@),
    ensures
        trace::call_of(line) == Call::Openat,
{
    reveal_strlit("openat(");
    reveal_strlit("execve(");
    lemma_apart(line, "openat("@, "execve("@, 0);
    reveal_strlit("execveat(");
    lemma_apart(line, "openat("@, "execveat("@, 0);
    reveal_strlit("open(");
    lemma_apart(line, "openat("@, "open("@, 4);
    reveal_strlit("creat(");
    lemma_apart(line, "openat("@, "creat("@, 0);
}

/// A line that begins with `openat2(` reports that call.
proof fn lemma_openat2(line: Seq<char>)
    requires
        text::begins(line, "openat2("@),
    ensures
        trace::call_of(line) == Call::Openat,
{
    reveal_strlit("openat2(");
    reveal_strlit("execve(");
    lemma_apart(line, "openat2("@, "execve("@, 0);
    reveal_strlit("execveat(");
    lemma_apart(line, "openat2("@, "execveat("@, 0);
    reveal_strlit("open(");
    lemma_apart(line, "openat2("@, "open("@, 4);
    reveal_strlit("creat(");
    lemma_apart(line, "openat2("@, "creat("@, 0);
}

/// A line that begins with `unlink(` reports that call.
proof fn lemma_unlink(line: Seq<char>)
    requires
        text::begins(line, "unlink("@),
    ensures
        trace::call_of(line) == Call::Unlink,
{
    reveal_strlit("unlink(");
    reveal_strlit("execve(");
    lemma_apart(line, "unlink("@, "execve("@, 0);
    reveal_strlit("execveat(");
    lemma_apart(line, "unlink("@, "execveat("@, 0);
    reveal_strlit("open(");
    lemma_apart(line, "unlink("@, "open("@, 0);
    reveal_strlit("creat(");
    lemma_apart(line, "unlink("@, "creat("@, 0);
    reveal_strlit("openat(");
    lemma_apart(line, "unlink("@, "openat("@, 0);
    reveal_strlit("openat2(");
    lemma_apart(line, "unlink("@, "openat2("@, 0);
}

/// A line that begins with `rmdir(` reports that call.
proof fn lemma_rmdir(line: Seq<char>)
    requires
        text::begins(line, "rmdir("@),
    ensures
        trace::call_of(line) == Call::Rmdir,
{
    reveal_strlit("rmdir(");
    reveal_strlit("execve(");
    lemma_apart(line, "rmdir("@, "execve("@, 0);
    reveal_strlit("execveat(");
    lemma_apart(line, "rmdir("@, "execveat("@, 0);
    reveal_strlit("open(");
    lemma_apart(line, "rmdir("@, "open("@, 0);
    reveal_strlit("creat(");
    lemma_apart(line, "rmdir("@, "creat("@, 0);
    reveal_strlit("openat(");
    lemma_apart(line, "rmdir("@, "openat("@, 0);
    reveal_strlit("openat2(");
    lemma_apart(line, "rmdir("@, "openat2("@, 0);
    reveal_strlit("unlink(");
    lemma_apart(line, "rmdir("@, "unlink("@, 0);
}

/// A line that begins with `mkdir(` reports that call.
proof fn lemma_mkdir(line: Seq<char>)
    requires
        text::begins(line, "mkdir("@),
    ensures
        trace::call_of(line) == Call::Mkdir,
{
    reveal_strlit("mkdir(");
    reveal_strlit("execve(");
    lemma_apart(line, "mkdir("@, "execve("@, 0);
    reveal_strlit("execveat(");
    lemma_apart(line, "mkdir("@, "execveat("@, 0);
    reveal_strlit("open(");
    lemma_apart(line, "mkdir("@, "open("@, 0);
    reveal_strlit("creat(");
    lemma_apart(line, "mkdir("@, "creat("@, 0);
    reveal_strlit("openat(");
    lemma_apart(line, "mkdir("@, "openat("@, 0);
    reveal_strlit("openat2(");
    lemma_apart(line, "mkdir("@, "openat2("@, 0);
    reveal_strlit("unlink(");
    lemma_apart(line, "mkdir("@, "unlink("@, 0);
    reveal_strlit("rmdir(");
    lemma_apart(line, "mkdir("@, "rmdir("@, 0);
}

/// A line that begins with `mkdirat(` reports that call.
proof fn lemma_mkdirat(line: Seq<char>)
    requires
        text::begins(line, "mkdirat("@),
    ensures
        trace::call_of(line) == Call::Mkdirat,
{
    reveal_strlit("mkdirat(");
    reveal_strlit("execve(");
    lemma_apart(line, "mkdirat("@, "execve("@, 0);
    reveal_strlit("execveat(");
    lemma_apart(line, "mkdirat("@, "execveat("@, 0);
    reveal_strlit("open(");
    lemma_apart(line, "mkdirat("@, "open("@, 0);
    reveal_strlit("creat(");
    lemma_apart(line, "mkdirat("@, "creat("@, 0);
    reveal_strlit("openat(");
    lemma_apart(line, "mkdirat("@, "openat("@, 0);
    reveal_strlit("openat2(");
    lemma_apart(line, "mkdirat("@, "openat2("@, 0);
    reveal_strlit("unlink(");
    lemma_apart(line, "mkdirat("@, "unlink("@, 0);
    reveal_strlit("rmdir(");
    lemma_apart(line, "mkdirat("@, "rmdir("@, 0);
    reveal_strlit("mkdir(");
    lemma_apart(line, "mkdirat("@, "mkdir("@, 5);
}

/// A line that begins with `unlinkat(` reports that call.
proof fn lemma_unlinkat(line: Seq<char>)
    requires
        text::begins(line, "unlinkat("@),
    ensures
        trace::call_of(line) == Call::Unlinkat,
{
    reveal_strlit("unlinkat(");
    reveal_strlit("execve(");
    lemma_apart(line, "unlinkat("@, "execve("@, 0);
    reveal_strlit("execveat(");
    lemma_apart(line, "unlinkat("@, "execveat("@, 0);
    reveal_strlit("open(");
    lemma_apart(line, "unlinkat("@, "open("@, 0);
    reveal_strlit("creat(");
    lemma_apart(line, "unlinkat("@, "creat("@, 0);
    reveal_strlit("openat(");
    lemma_apart(line, "unlinkat("@, "openat("@, 0);
    reveal_strlit("openat2(");
    lemma_apart(line, "unlinkat("@, "openat2("@, 0);
    reveal_strlit("unlink(");
    lemma_apart(line, "unlinkat("@, "unlink("@, 6);
    reveal_strlit("rmdir(");
    lemma_apart(line, "unlinkat("@, "rmdir("@, 0);
    reveal_strlit("mkdir(");
    lemma_apart(line, "unlinkat("@, "mkdir("@, 0);
    reveal_strlit("mkdirat(");
    lemma_apart(line, "unlinkat("@, "mkdirat("@, 0);
}

/// A line that begins with `rename(` reports that call.
proof fn lemma_rename(line: Seq<char>)
    requires
        text::begins(line, "rename("@),
    ensures
        trace::call_of(line) == Call::Rename,
{
    reveal_strlit("rename(");
    reveal_strlit("execve(");
    lemma_apart(line, "rename("@, "execve("@, 0);
    reveal_strlit("execveat(");
    lemma_apart(line, "rename("@, "execveat("@, 0);
    reveal_strlit("open(");
    lemma_apart(line, "rename("@, "open("@, 0);
    reveal_strlit("creat(");
    lemma_apart(line, "rename("@, "creat("@, 0);
    reveal_strlit("openat(");
    lemma_apart(line, "rename("@, "openat("@, 0);
    reveal_strlit("openat2(");
    lemma_apart(line, "rename("@, "openat2("@, 0);
    reveal_strlit("unlink(");
    lemma_apart(line, "rename("@, "unlink("@, 0);
    reveal_strlit("rmdir(");
    lemma_apart(line, "rename("@, "rmdir("@, 1);
    reveal_strlit("mkdir(");
    lemma_apart(line, "rename("@, "mkdir("@, 0);
    reveal_strlit("mkdirat(");
    lemma_apart(line, "rename("@, "mkdirat("@, 0);
    reveal_strlit("unlinkat(");
    lemma_apart(line, "rename("@, "unlinkat("@, 0);
}

/// A line that begins with `renameat(` reports that call.
proof fn lemma_renameat(line: Seq<char>)
    requires
        text::begins(line, "renameat("@),
    ensures
        trace::call_of(line) == Call::Renameat,
{
    reveal_strlit("renameat(");
    reveal_strlit("execve(");
    lemma_apart(line, "renameat("@, "execve("@, 0);
    reveal_strlit("execveat(");
    lemma_apart(line, "renameat("@, "execveat("@, 0);
    reveal_strlit("open(");
    lemma_apart(line, "renameat("@, "open("@, 0);
    reveal_strlit("creat(");
    lemma_apart(line, "renameat("@, "creat("@, 0);
    reveal_strlit("openat(");
    lemma_apart(line, "renameat("@, "openat("@, 0);
    reveal_strlit("openat2(");
    lemma_apart(line, "renameat("@, "openat2("@, 0);
    reveal_strlit("unlink(");
    lemma_apart(line, "renameat("@, "unlink("@, 0);
    reveal_strlit("rmdir(");
    lemma_apart(line, "renameat("@, "rmdir("@, 1);
    reveal_strlit("mkdir(");
    lemma_apart(line, "renameat("@, "mkdir("@, 0);
    reveal_strlit("mkdirat(");
    lemma_apart(line, "renameat("@, "mkdirat("@, 0);
    reveal_strlit("unlinkat(");
    lemma_apart(line, "renameat("@, "unlinkat("@, 0);
    reveal_strlit("rename(");
    lemma_apart(line, "renameat("@, "rename("@, 6);
}

/// A line that begins with `renameat2(` reports that call.
proof fn lemma_renameat2(line: Seq<char>)
    requires
        text::begins(line, "renameat2("@),
    ensures
        trace::call_of(line) == Call::Renameat,
{
    reveal_strlit("renameat2(");
    reveal_strlit("execve(");
    lemma_apart(line, "renameat2("@, "execve("@, 0);
    reveal_strlit("execveat(");
    lemma_apart(line, "renameat2("@, "execveat("@, 0);
    reveal_strlit("open(");
    lemma_apart(line, "renameat2("@, "open("@, 0);
    reveal_strlit("creat(");
    lemma_apart(line, "renameat2("@, "creat("@, 0);
    reveal_strlit("openat(");
    lemma_apart(line, "renameat2("@, "openat("@, 0);
    reveal_strlit("openat2(");
    lemma_apart(line, "renameat2("@, "openat2("@, 0);
    reveal_strlit("unlink(");
    lemma_apart(line, "renameat2("@, "unlink("@, 0);
    reveal_strlit("rmdir(");
    lemma_apart(line, "renameat2("@, "rmdir("@, 1);
    reveal_strlit("mkdir(");
    lemma_apart(line, "renameat2("@, "mkdir("@, 0);
    reveal_strlit("mkdirat(");
    lemma_apart(line, "renameat2("@, "mkdirat("@, 0);
    reveal_strlit("unlinkat(");
    lemma_apart(line, "renameat2("@, "unlinkat("@, 0);
    reveal_strlit("rename(");
    lemma_apart(line, "renameat2("@, "rename("@, 6);
}

/// A line that begins with `symlink(` reports that call.
proof fn lemma_symlink(line: Seq<char>)
    requires
        text::begins(line, "symlink("@),
    ensures
        trace::call_of(line) == Call::Symlink,
{
    reveal_strlit("symlink(");
    reveal_strlit("execve(");
    lemma_apart(line, "symlink("@, "execve("@, 0);
    reveal_strlit("execveat(");
    lemma_apart(line, "symlink("@, "execveat("@, 0);
    reveal_strlit("open(");
    lemma_apart(line, "symlink("@, "open("@, 0);
    reveal_strlit("creat(");
    lemma_apart(line, "symlink("@, "creat("@, 0);
    reveal_strlit("openat(");
    lemma_apart(line, "symlink("@, "openat("@, 0);
    reveal_strlit("openat2(");
    lemma_apart(line, "symlink("@, "openat2("@, 0);
    reveal_strlit("unlink(");
    lemma_apart(line, "symlink("@, "unlink("@, 0);
    reveal_strlit("rmdir(");
    lemma_apart(line, "symlink("@, "rmdir("@, 0);
    reveal_strlit("mkdir(");
    lemma_apart(line, "symlink("@, "mkdir("@, 0);
    reveal_strlit("mkdirat(");
    lemma_apart(line, "symlink("@, "mkdirat("@, 0);
    reveal_strlit("unlinkat(");
    lemma_apart(line, "symlink("@, "unlinkat("@, 0);
    reveal_strlit("rename(");
    lemma_apart(line, "symlink("@, "rename("@, 0);
    reveal_strlit("renameat(");
    lemma_apart(line, "symlink("@, "renameat("@, 0);
    reveal_strlit("renameat2(");
    lemma_apart(line, "symlink("@, "renameat2("@, 0);
}

/// A line that begins with `symlinkat(` reports that call.
proof fn lemma_symlinkat(line: Seq<char>)
    requires
        text::begins(line, "symlinkat("@),
    ensures
        trace::call_of(line) == Call::Symlinkat,
{
    reveal_strlit("symlinkat(");
    reveal_strlit("execve(");
    lemma_apart(line, "symlinkat("@, "execve("@, 0);
    reveal_strlit("execveat(");
    lemma_apart(line, "symlinkat("@, "execveat("@, 0);
    reveal_strlit("open(");
    lemma_apart(line, "symlinkat("@, "open("@, 0);
    reveal_strlit("creat(");
    lemma_apart(line, "symlinkat("@, "creat("@, 0);
    reveal_strlit("openat(");
    lemma_apart(line, "symlinkat("@, "openat("@, 0);
    reveal_strlit("openat2(");
    lemma_apart(line, "symlinkat("@, "openat2("@, 0);
    reveal_strlit("unlink(");
    lemma_apart(line, "symlinkat("@, "unlink("@, 0);
    reveal_strlit("rmdir(");
    lemma_apart(line, "symlinkat("@, "rmdir("@, 0);
    reveal_strlit("mkdir(");
    lemma_apart(line, "symlinkat("@, "mkdir("@, 0);
    reveal_strlit("mkdirat(");
    lemma_apart(line, "symlinkat("@, "mkdirat("@, 0);
    reveal_strlit("unlinkat(");
    lemma_apart(line, "symlinkat("@, "unlinkat("@, 0);
    reveal_strlit("rename(");
    lemma_apart(line, "symlinkat("@, "rename("@, 0);
    reveal_strlit("renameat(");
    lemma_apart(line, "symlinkat("@, "renameat("@, 0);
    reveal_strlit("renameat2(");
    lemma_apart(line, "symlinkat("@, "renameat2("@, 0);
    reveal_strlit("symlink(");
    lemma_apart(line, "symlinkat("@, "symlink("@, 7);
}

/// A line that begins with `link(` reports that call.
proof fn lemma_link(line: Seq<char>)
    requires
        text::begins(line, "link("@),
    ensures
        trace::call_of(line) == Call::Link,
{
    reveal_strlit("link(");
    reveal_strlit("execve(");
    lemma_apart(line, "link("@, "execve("@, 0);
    reveal_strlit("execveat(");
    lemma_apart(line, "link("@, "execveat("@, 0);
    reveal_strlit("open(");
    lemma_apart(line, "link("@, "open("@, 0);
    reveal_strlit("creat(");
    lemma_apart(line, "link("@, "creat("@, 0);
    reveal_strlit("openat(");
    lemma_apart(line, "link("@, "openat("@, 0);
    reveal_strlit("openat2(");
    lemma_apart(line, "link("@, "openat2("@, 0);
    reveal_strlit("unlink(");
    lemma_apart(line, "link("@, "unlink("@, 0);
    reveal_strlit("rmdir(");
    lemma_apart(line, "link("@, "rmdir("@, 0);
    reveal_strlit("mkdir(");
    lemma_apart(line, "link("@, "mkdir("@, 0);
    reveal_strlit("mkdirat(");
    lemma_apart(line, "link("@, "mkdirat("@, 0);
    reveal_strlit("unlinkat(");
    lemma_apart(line, "link("@, "unlinkat("@, 0);
    reveal_strlit("rename(");
    lemma_apart(line, "link("@, "rename("@, 0);
    reveal_strlit("renameat(");
    lemma_apart(line, "link("@, "renameat("@, 0);
    reveal_strlit("renameat2(");
    lemma_apart(line, "link("@, "renameat2("@, 0);
    reveal_strlit("symlink(");
    lemma_apart(line, "link("@, "symlink("@, 0);
    reveal_strlit("symlinkat(");
    lemma_apart(line, "link("@, "symlinkat("@, 0);
}

/// A line that begins with `linkat(` reports that call.
proof fn lemma_linkat(line: Seq<char>)
    requires
        text::begins(line, "linkat("@),
    ensures
        trace::call_of(line) == Call::Linkat,
{
    reveal_strlit("linkat(");
    reveal_strlit("execve(");
    lemma_apart(line, "linkat("@, "execve("@, 0);
    reveal_strlit("execveat(");
    lemma_apart(line, "linkat("@, "execveat("@, 0);
    reveal_strlit("open(");
    lemma_apart(line, "linkat("@, "open("@, 0);
    reveal_strlit("creat(");
    lemma_apart(line, "linkat("@, "creat("@, 0);
    reveal_strlit("openat(");
    lemma_apart(line, "linkat("@, "openat("@, 0);
    reveal_strlit("openat2(");
    lemma_apart(line, "linkat("@, "openat2("@, 0);
    reveal_strlit("unlink(");
    lemma_apart(line, "linkat("@, "unlink("@, 0);
    reveal_strlit("rmdir(");
    lemma_apart(line, "linkat("@, "rmdir("@, 0);
    reveal_strlit("mkdir(");
    lemma_apart(line, "linkat("@, "mkdir("@, 0);
    reveal_strlit("mkdirat(");
    lemma_apart(line, "linkat("@, "mkdirat("@, 0);
    reveal_strlit("unlinkat(");
    lemma_apart(line, "linkat("@, "unlinkat("@, 0);
    reveal_strlit("rename(");
    lemma_apart(line, "linkat("@, "rename("@, 0);
    reveal_strlit("renameat(");
    lemma_apart(line, "linkat("@, "renameat("@, 0);
    reveal_strlit("renameat2(");
    lemma_apart(line, "linkat("@, "renameat2("@, 0);
    reveal_strlit("symlink(");
    lemma_apart(line, "linkat("@, "symlink("@, 0);
    reveal_strlit("symlinkat(");
    lemma_apart(line, "linkat("@, "symlinkat("@, 0);
    reveal_strlit("link(");
    lemma_apart(line, "linkat("@, "link("@, 4);
}

/// A line that begins with `connect(` reports that call.
proof fn lemma_connect(line: Seq<char>)
    requires
        text::begins(line, "connect("@),
    ensures
        trace::call_of(line) == Call::Connect,
{
    reveal_strlit("connect(");
    reveal_strlit("execve(");
    lemma_apart(line, "connect("@, "execve("@, 0);
    reveal_strlit("execveat(");
    lemma_apart(line, "connect("@, "execveat("@, 0);
    reveal_strlit("open(");
    lemma_apart(line, "connect("@, "open("@, 0);
    reveal_strlit("creat(");
    lemma_apart(line, "connect("@, "creat("@, 1);
    reveal_strlit("openat(");
    lemma_apart(line, "connect("@, "openat("@, 0);
    reveal_strlit("openat2(");
    lemma_apart(line, "connect("@, "openat2("@, 0);
    reveal_strlit("unlink(");
    lemma_apart(line, "connect("@, "unlink("@, 0);
    reveal_strlit("rmdir(");
    lemma_apart(line, "connect("@, "rmdir("@, 0);
    reveal_strlit("mkdir(");
    lemma_apart(line, "connect("@, "mkdir("@, 0);
    reveal_strlit("mkdirat(");
    lemma_apart(line, "connect("@, "mkdirat("@, 0);
    reveal_strlit("unlinkat(");
    lemma_apart(line, "connect("@, "unlinkat("@, 0);
    reveal_strlit("rename(");
    lemma_apart(line, "connect("@, "rename("@, 0);
    reveal_strlit("renameat(");
    lemma_apart(line, "connect("@, "renameat("@, 0);
    reveal_strlit("renameat2(");
    lemma_apart(line, "connect("@, "renameat2("@, 0);
    reveal_strlit("symlink(");
    lemma_apart(line, "connect("@, "symlink("@, 0);
    reveal_strlit("symlinkat(");
    lemma_apart(line, "connect("@, "symlinkat("@, 0);
    reveal_strlit("link(");
    lemma_apart(line, "connect("@, "link("@, 0);
    reveal_strlit("linkat(");
    lemma_apart(line, "connect("@, "linkat("@, 0);
}
// ---------------------------------------------------------------------------
// Calls on one path
// ---------------------------------------------------------------------------

/// What opening a file records, by its flags alone. `creat` writes. `O_PATH` records
/// nothing. Otherwise the open is a read exactly where `O_WRONLY` is not among the flags,
/// and a write exactly where `O_WRONLY`, `O_RDWR`, `O_CREAT` or `O_TRUNC` is; no other flag
/// matters, and nothing else is recorded.
pub proof fn law_what_an_open_records(line: Seq<char>, path: Seq<char>)
    ensures
        ({
            let flags = strace::open_flags(line);
            let acts = trace::open_acts(line, path);
            let read = BehaviorView::FileRead { path };
            let write = BehaviorView::FileWrite { path };
            if "creat("@.is_prefix_of(line) {
                acts.contains(write) && !acts.contains(read)
            } else if strace::has_token(flags, "O_PATH"@) {
                acts.len() == 0
            } else {
                &&& acts.contains(read) <==> !strace::has_token(flags, "O_WRONLY"@)
                &&& acts.contains(write) <==> strace::has_token(flags, "O_WRONLY"@)
                    || strace::has_token(flags, "O_RDWR"@) || strace::has_token(flags, "O_CREAT"@)
                    || strace::has_token(flags, "O_TRUNC"@)
            }
        }),
        forall|b: BehaviorView|
            trace::open_acts(line, path).contains(b) ==> b == (BehaviorView::FileRead { path })
                || b == (BehaviorView::FileWrite { path }),
{
    let acts = trace::open_acts(line, path);
    let read = BehaviorView::FileRead { path };
    let write = BehaviorView::FileWrite { path };
    text::law_begins_and_ends(line, "creat("@);
    if acts.len() > 0 {
        assert(acts.contains(acts[0]));
    }
    if acts.len() > 1 {
        assert(acts.contains(acts[1]));
    }
}

/// A call that names one path, seen from the working directory, does to that path what its
/// name says.
pub proof fn law_calls_from_the_working_directory(
    line: Seq<char>,
    cwd: Seq<char>,
    raw: Seq<char>,
)
    requires
        strace::quoted(line, 0) == Some(raw),
    ensures
        ({
            let path = path::path_join(cwd, raw);
            let acts = trace::line_acts(line, cwd);
            &&& "execve("@.is_prefix_of(line) ==> acts == Ok::<_, TraceFault>(
                seq![BehaviorView::Exec { path }],
            )
            &&& "open("@.is_prefix_of(line) ==> acts == Ok::<_, TraceFault>(
                trace::open_acts(line, path),
            )
            &&& "creat("@.is_prefix_of(line) ==> acts == Ok::<_, TraceFault>(
                seq![BehaviorView::FileWrite { path }],
            )
            &&& "unlink("@.is_prefix_of(line) ==> acts == Ok::<_, TraceFault>(
                seq![BehaviorView::FileDelete { path }],
            )
            &&& "rmdir("@.is_prefix_of(line) ==> acts == Ok::<_, TraceFault>(
                seq![BehaviorView::DirectoryDelete { path }],
            )
            &&& "mkdir("@.is_prefix_of(line) ==> acts == Ok::<_, TraceFault>(
                seq![BehaviorView::DirectoryCreate { path }],
            )
        }),
{
    text::law_begins_and_ends(line, "execve("@);
    text::law_begins_and_ends(line, "open("@);
    text::law_begins_and_ends(line, "creat("@);
    text::law_begins_and_ends(line, "unlink("@);
    text::law_begins_and_ends(line, "rmdir("@);
    text::law_begins_and_ends(line, "mkdir("@);
    if text::begins(line, "execve("@) {
        lemma_execve(line);
    }
    if text::begins(line, "open("@) {
        lemma_open(line);
    }
    if text::begins(line, "creat("@) {
        lemma_creat(line);
    }
    if text::begins(line, "unlink("@) {
        lemma_unlink(line);
    }
    if text::begins(line, "rmdir("@) {
        lemma_rmdir(line);
    }
    if text::begins(line, "mkdir("@) {
        lemma_mkdir(line);
    }
}

/// A call that names a descriptor and a path does to the path, seen from the descriptor,
/// what its name says. Where the descriptor leads nowhere, the line is at fault.
pub proof fn law_calls_from_a_descriptor(line: Seq<char>, cwd: Seq<char>, raw: Seq<char>)
    requires
        strace::quoted(line, 0) == Some(raw),
        "execveat("@.is_prefix_of(line) || "openat("@.is_prefix_of(line)
            || "openat2("@.is_prefix_of(line) || "mkdirat("@.is_prefix_of(line)
            || "unlinkat("@.is_prefix_of(line),
    ensures
        match trace::from_first_dirfd(line, cwd, raw) {
            Ok(path) => trace::line_acts(line, cwd) == Ok::<_, TraceFault>(
                if "execveat("@.is_prefix_of(line) {
                    seq![BehaviorView::Exec { path }]
                } else if "mkdirat("@.is_prefix_of(line) {
                    seq![BehaviorView::DirectoryCreate { path }]
                } else if !"unlinkat("@.is_prefix_of(line) {
                    trace::open_acts(line, path)
                } else if text::holds(line, "AT_REMOVEDIR"@) {
                    seq![BehaviorView::DirectoryDelete { path }]
                } else {
                    seq![BehaviorView::FileDelete { path }]
                },
            ),
            Err(e) => trace::line_acts(line, cwd) == Err::<Seq<BehaviorView>, _>(e),
        },
{
    text::law_begins_and_ends(line, "execveat("@);
    text::law_begins_and_ends(line, "openat("@);
    text::law_begins_and_ends(line, "openat2("@);
    text::law_begins_and_ends(line, "mkdirat("@);
    text::law_begins_and_ends(line, "unlinkat("@);
    text::law_holds(line, "AT_REMOVEDIR"@);
    if text::begins(line, "execveat("@) {
        lemma_execveat(line);
    } else if text::begins(line, "openat("@) {
        lemma_openat(line);
        reveal_strlit("openat(");
        lemma_not_others(line, "openat("@);
    } else if text::begins(line, "openat2("@) {
        lemma_openat2(line);
        reveal_strlit("openat2(");
        lemma_not_others(line, "openat2("@);
    } else if text::begins(line, "mkdirat("@) {
        lemma_mkdirat(line);
    } else {
        lemma_unlinkat(line);
        lemma_not_mkdirat(line);
    }
}

/// An open is no execution, no creation and no removal.
proof fn lemma_not_others(line: Seq<char>, name: Seq<char>)
    requires
        text::begins(line, name),
        name.len() > 0,
        name[0] == 'o',
    ensures
        !text::begins(line, "mkdirat("@),
        !text::begins(line, "unlinkat("@),
{
    reveal_strlit("mkdirat(");
    reveal_strlit("unlinkat(");
    lemma_apart(line, name, "mkdirat("@, 0);
    lemma_apart(line, name, "unlinkat("@, 0);
}

/// A removal is no creation.
proof fn lemma_not_mkdirat(line: Seq<char>)
    requires
        text::begins(line, "unlinkat("@),
    ensures
        !text::begins(line, "mkdirat("@),
{
    reveal_strlit("mkdirat(");
    reveal_strlit("unlinkat(");
    lemma_apart(line, "unlinkat("@, "mkdirat("@, 0);
}

/// A line that reports none of these calls means nothing, and neither does one without a
/// path, unless it is a `connect`.
pub proof fn law_lines_that_mean_nothing(line: Seq<char>, cwd: Seq<char>)
    ensures
        strace::quoted(line, 0) is None && !"connect("@.is_prefix_of(line) ==> trace::line_acts(
            line,
            cwd,
        ) == Ok::<_, TraceFault>(Seq::<BehaviorView>::empty()),
        !"execve("@.is_prefix_of(line) && !"execveat("@.is_prefix_of(line)
            && !"open("@.is_prefix_of(line) && !"creat("@.is_prefix_of(line)
            && !"openat("@.is_prefix_of(line) && !"openat2("@.is_prefix_of(line)
            && !"unlink("@.is_prefix_of(line) && !"rmdir("@.is_prefix_of(line)
            && !"mkdir("@.is_prefix_of(line) && !"mkdirat("@.is_prefix_of(line)
            && !"unlinkat("@.is_prefix_of(line) && !"rename("@.is_prefix_of(line)
            && !"renameat("@.is_prefix_of(line) && !"renameat2("@.is_prefix_of(line)
            && !"symlink("@.is_prefix_of(line) && !"symlinkat("@.is_prefix_of(line)
            && !"link("@.is_prefix_of(line) && !"linkat("@.is_prefix_of(line)
            && !"connect("@.is_prefix_of(line) ==> trace::line_acts(line, cwd) == Ok::<_, TraceFault>(
            Seq::<BehaviorView>::empty(),
        ),
{
    text::law_begins_and_ends(line, "execve("@);
    text::law_begins_and_ends(line, "execveat("@);
    text::law_begins_and_ends(line, "open("@);
    text::law_begins_and_ends(line, "creat("@);
    text::law_begins_and_ends(line, "openat("@);
    text::law_begins_and_ends(line, "openat2("@);
    text::law_begins_and_ends(line, "unlink("@);
    text::law_begins_and_ends(line, "rmdir("@);
    text::law_begins_and_ends(line, "mkdir("@);
    text::law_begins_and_ends(line, "mkdirat("@);
    text::law_begins_and_ends(line, "unlinkat("@);
    text::law_begins_and_ends(line, "rename("@);
    text::law_begins_and_ends(line, "renameat("@);
    text::law_begins_and_ends(line, "renameat2("@);
    text::law_begins_and_ends(line, "symlink("@);
    text::law_begins_and_ends(line, "symlinkat("@);
    text::law_begins_and_ends(line, "link("@);
    text::law_begins_and_ends(line, "linkat("@);
    text::law_begins_and_ends(line, "connect("@);
}

// ---------------------------------------------------------------------------
// Calls on two paths
// ---------------------------------------------------------------------------

/// A call that names two paths, seen from the working directory, does to them what its name
/// says; the target of a symbolic link stays as it is.
pub proof fn law_calls_on_two_paths(
    line: Seq<char>,
    cwd: Seq<char>,
    first: Seq<char>,
    second: Seq<char>,
)
    requires
        strace::quoted(line, 0) == Some(first),
        strace::quoted(line, 1) == Some(second),
    ensures
        ({
            let from = path::path_join(cwd, first);
            let to = path::path_join(cwd, second);
            let acts = trace::line_acts(line, cwd);
            &&& "rename("@.is_prefix_of(line) ==> acts == Ok::<_, TraceFault>(
                seq![BehaviorView::FileRename { from, to }],
            )
            &&& "symlink("@.is_prefix_of(line) ==> acts == Ok::<_, TraceFault>(
                seq![BehaviorView::SymlinkCreate { target: first, link: to }],
            )
            &&& "link("@.is_prefix_of(line) ==> acts == Ok::<_, TraceFault>(
                seq![
                    BehaviorView::HardlinkCreate {
                        from,
                        to,
                        follow_symlink: false,
                        empty_path: false,
                    },
                ],
            )
        }),
{
    text::law_begins_and_ends(line, "rename("@);
    text::law_begins_and_ends(line, "symlink("@);
    text::law_begins_and_ends(line, "link("@);
    if text::begins(line, "rename("@) {
        lemma_rename(line);
    }
    if text::begins(line, "symlink("@) {
        lemma_symlink(line);
    }
    if text::begins(line, "link("@) {
        lemma_link(line);
    }
}

/// A call that names two paths, each seen from a descriptor of its own, does to them what
/// its name and its flags say.
pub proof fn law_calls_on_two_descriptors(
    line: Seq<char>,
    cwd: Seq<char>,
    first: Seq<char>,
    second: Seq<char>,
    from: Seq<char>,
    to: Seq<char>,
)
    requires
        strace::quoted(line, 0) == Some(first),
        strace::quoted(line, 1) == Some(second),
        trace::from_first_dirfd(line, cwd, first) == Ok::<_, TraceFault>(from),
    ensures
        "renameat("@.is_prefix_of(line) && trace::from_second_dirfd(
            line,
            PairCall::Renameat,
            cwd,
            second,
        ) == Ok::<_, TraceFault>(to) ==> trace::line_acts(line, cwd) == Ok::<_, TraceFault>(
            seq![BehaviorView::FileRename { from, to }],
        ),
        "renameat2("@.is_prefix_of(line) && trace::from_second_dirfd(
            line,
            PairCall::Renameat,
            cwd,
            second,
        ) == Ok::<_, TraceFault>(to) ==> trace::line_acts(line, cwd) == Ok::<_, TraceFault>(
            seq![
                if trace::has_flag(line, "RENAME_EXCHANGE"@) {
                    BehaviorView::RenameExchange { left: from, right: to }
                } else {
                    BehaviorView::FileRename { from, to }
                },
            ],
        ),
        "linkat("@.is_prefix_of(line) && trace::from_second_dirfd(
            line,
            PairCall::Linkat,
            cwd,
            second,
        ) == Ok::<_, TraceFault>(to) ==> trace::line_acts(line, cwd) == Ok::<_, TraceFault>(
            seq![
                BehaviorView::HardlinkCreate {
                    from,
                    to,
                    follow_symlink: trace::has_flag(line, "AT_SYMLINK_FOLLOW"@),
                    empty_path: trace::has_flag(line, "AT_EMPTY_PATH"@),
                },
            ],
        ),
{
    text::law_begins_and_ends(line, "renameat("@);
    text::law_begins_and_ends(line, "renameat2("@);
    text::law_begins_and_ends(line, "linkat("@);
    if text::begins(line, "renameat("@) {
        reveal_strlit("renameat(");
        reveal_strlit("renameat2(");
        lemma_renameat(line);
        lemma_apart(line, "renameat("@, "renameat2("@, 8);
    }
    if text::begins(line, "renameat2("@) {
        lemma_renameat2(line);
    }
    if text::begins(line, "linkat("@) {
        lemma_linkat(line);
    }
}

/// A call on two paths of which one is missing means nothing, and one of which a
/// descriptor leads nowhere is at fault, the first of them where both do.
pub proof fn law_faults_of_two_paths(line: Seq<char>, cwd: Seq<char>)
    ensures
        ("rename("@.is_prefix_of(line) || "renameat("@.is_prefix_of(line)
            || "renameat2("@.is_prefix_of(line) || "symlink("@.is_prefix_of(line)
            || "symlinkat("@.is_prefix_of(line) || "link("@.is_prefix_of(line)
            || "linkat("@.is_prefix_of(line)) && strace::quoted(line, 1) is None
            ==> trace::line_acts(line, cwd) == Ok::<_, TraceFault>(Seq::<BehaviorView>::empty()),
        ("renameat("@.is_prefix_of(line) || "renameat2("@.is_prefix_of(line)
            || "linkat("@.is_prefix_of(line)) && strace::quoted(line, 0) is Some && strace::quoted(
            line,
            1,
        ) is Some ==> {
            let call = if "linkat("@.is_prefix_of(line) {
                PairCall::Linkat
            } else {
                PairCall::Renameat
            };
            let first = trace::from_first_dirfd(line, cwd, strace::quoted(line, 0)->0);
            let second = trace::from_second_dirfd(line, call, cwd, strace::quoted(line, 1)->0);
            &&& first is Err ==> trace::line_acts(line, cwd) == Err::<Seq<BehaviorView>, _>(
                first->Err_0,
            )
            &&& first is Ok && second is Err ==> trace::line_acts(line, cwd) == Err::<
                Seq<BehaviorView>,
                _,
            >(second->Err_0)
        },
{
    text::law_begins_and_ends(line, "rename("@);
    text::law_begins_and_ends(line, "renameat("@);
    text::law_begins_and_ends(line, "renameat2("@);
    text::law_begins_and_ends(line, "symlink("@);
    text::law_begins_and_ends(line, "symlinkat("@);
    text::law_begins_and_ends(line, "link("@);
    text::law_begins_and_ends(line, "linkat("@);
    if text::begins(line, "rename("@) {
        lemma_rename(line);
    }
    if text::begins(line, "renameat("@) {
        lemma_renameat(line);
    }
    if text::begins(line, "renameat2("@) {
        lemma_renameat2(line);
    }
    if text::begins(line, "symlink("@) {
        lemma_symlink(line);
    }
    if text::begins(line, "symlinkat("@) {
        lemma_symlinkat(line);
    }
    if text::begins(line, "link("@) {
        lemma_link(line);
    }
    if text::begins(line, "linkat("@) {
        lemma_linkat(line);
    }
}

/// A `symlinkat` keeps its target as it is and sees its link from the descriptor between
/// them.
pub proof fn law_symlinkat(
    line: Seq<char>,
    cwd: Seq<char>,
    target: Seq<char>,
    second: Seq<char>,
)
    requires
        "symlinkat("@.is_prefix_of(line),
        strace::quoted(line, 0) == Some(target),
        strace::quoted(line, 1) == Some(second),
    ensures
        match trace::from_second_dirfd(line, PairCall::Symlinkat, cwd, second) {
            Ok(link) => trace::line_acts(line, cwd) == Ok::<_, TraceFault>(
                seq![BehaviorView::SymlinkCreate { target, link }],
            ),
            Err(e) => trace::line_acts(line, cwd) == Err::<Seq<BehaviorView>, _>(e),
        },
{
    text::law_begins_and_ends(line, "symlinkat("@);
    lemma_symlinkat(line);
}

// ---------------------------------------------------------------------------
// Descriptors and flags
// ---------------------------------------------------------------------------

/// Where a path leads that is seen from a descriptor: an absolute path to itself, one seen
/// from `AT_FDCWD` into the working directory, and one seen from a descriptor with a
/// printed path into that path; any other descriptor leads nowhere.
pub proof fn law_descriptors(
    number: Seq<char>,
    base: Seq<char>,
    rest: Seq<char>,
    cwd: Seq<char>,
    raw: Seq<char>,
)
    requires
        !number.contains('<'),
        !base.contains('>'),
        !"AT_FDCWD"@.is_prefix_of(number),
        !"AT_FDCWD"@.is_prefix_of(number + seq!['<'] + base + seq!['>'] + rest),
    ensures
        raw.len() > 0 && raw[0] == '/' ==> trace::from_dirfd(number, cwd, raw) == Ok::<
            _,
            TraceFault,
        >(raw),
        trace::from_dirfd("AT_FDCWD"@ + rest, cwd, raw) == Ok::<_, TraceFault>(
            path::path_join(cwd, raw),
        ),
        trace::from_dirfd(number + seq!['<'] + base + seq!['>'] + rest, cwd, raw) == Ok::<
            _,
            TraceFault,
        >(path::path_join(base, raw)),
        raw.len() == 0 || raw[0] != '/' ==> trace::from_dirfd(number, cwd, raw) == Err::<
            Seq<char>,
            _,
        >(TraceFault::UnresolvedDirfd { dirfd: number }),
{
    text::law_begins_and_ends("AT_FDCWD"@, rest);
    text::law_begins_and_ends(number, "AT_FDCWD"@);
    text::law_begins_and_ends(number + seq!['<'] + base + seq!['>'] + rest, "AT_FDCWD"@);
    lines::law_angled(number, base, rest);
}

/// The descriptor of a call is what stands between its first parenthesis and the next
/// comma, without whitespace around it.
pub proof fn law_first_descriptor(
    name: Seq<char>,
    dirfd: Seq<char>,
    rest: Seq<char>,
    cwd: Seq<char>,
    raw: Seq<char>,
)
    requires
        !name.contains('('),
        !dirfd.contains(','),
    ensures
        ({
            let line = name + seq!['('] + (dirfd + seq![','] + rest);
            trace::from_first_dirfd(line, cwd, raw) == trace::from_dirfd(
                text::trimmed(dirfd),
                cwd,
                raw,
            )
        }),
{
    reveal_strlit("(");
    reveal_strlit(",");
    assert("("@ =~= seq!['(']);
    assert(","@ =~= seq![',']);
    let tail = dirfd + seq![','] + rest;
    let line = name + seq!['('] + tail;
    text::lemma_first_behind(name, seq!['('], tail);
    assert(line.skip(name.len() as int + 1) =~= tail);
    text::lemma_first_behind(dirfd, seq![','], rest);
    assert(tail.take(dirfd.len() as int) =~= dirfd);
}

/// An absolute path needs no descriptor. A relative one in a line without a parenthesis
/// belongs to no call, and where no comma follows the parenthesis there is no descriptor.
pub proof fn law_missing_descriptor(
    name: Seq<char>,
    rest: Seq<char>,
    cwd: Seq<char>,
    raw: Seq<char>,
)
    requires
        !name.contains('('),
    ensures
        raw.len() > 0 && raw[0] == '/' ==> trace::from_first_dirfd(name, cwd, raw) == Ok::<
            _,
            TraceFault,
        >(raw),
        raw.len() == 0 || raw[0] != '/' ==> trace::from_first_dirfd(name, cwd, raw) == Err::<
            Seq<char>,
            _,
        >(TraceFault::MalformedCall),
        (raw.len() == 0 || raw[0] != '/') && !rest.contains(',') ==> trace::from_first_dirfd(
            name + seq!['('] + rest,
            cwd,
            raw,
        ) == Err::<Seq<char>, _>(TraceFault::MalformedDirfd),
{
    reveal_strlit("(");
    reveal_strlit(",");
    assert("("@ =~= seq!['(']);
    assert(","@ =~= seq![',']);
    text::lemma_no_char(name, '(');
    text::lemma_first_behind(name, seq!['('], rest);
    assert((name + seq!['('] + rest).skip(name.len() as int + 1) =~= rest);
    if !rest.contains(',') {
        text::lemma_no_char(rest, ',');
    }
}

/// Taking whitespace away adds no character.
proof fn lemma_trim_takes_only(s: Seq<char>, c: char)
    requires
        !s.contains(c),
    ensures
        !text::trim_front(s).contains(c),
    decreases s.len(),
{
    if s.len() > 0 && text::is_space(s[0]) {
        assert forall|i: int| 0 <= i < s.drop_first().len() implies s.drop_first()[i] != c by {
            assert(s.drop_first()[i] == s[i + 1]);
            assert(s.contains(s[i + 1]));
        }
        lemma_trim_takes_only(s.drop_first(), c);
    }
}

/// Where no comma follows the first quoted path, the arguments are malformed; where no
/// further comma follows that one, the second descriptor is missing.
pub proof fn law_missing_second_descriptor(
    head: Seq<char>,
    first: Seq<char>,
    rest: Seq<char>,
    call: PairCall,
    cwd: Seq<char>,
    raw: Seq<char>,
)
    requires
        !head.contains('"'),
        lines::enclosed(first),
        rest.len() > 0,
        !text::is_space(rest[0]),
    ensures
        ({
            let line = head + seq!['"'] + first + seq!['"'] + rest;
            &&& rest[0] != ',' ==> trace::from_second_dirfd(line, call, cwd, raw) == Err::<
                Seq<char>,
                _,
            >(TraceFault::MalformedArguments { call })
            &&& rest[0] == ',' && !rest.skip(1).contains(',') ==> trace::from_second_dirfd(
                line,
                call,
                cwd,
                raw,
            ) == Err::<Seq<char>, _>(TraceFault::MissingDirfd { call })
        }),
{
    reveal_strlit(",");
    assert(","@ =~= seq![',']);
    let line = head + seq!['"'] + first + seq!['"'] + rest;
    let none = Seq::<char>::empty();
    lines::law_first_quoted_string(head, first, rest);
    let close = (head.len() + 1 + first.len()) as int;
    assert(line.skip(close + 1) =~= rest);
    assert(none + rest =~= rest);
    text::law_trim_front(none, rest);
    text::lemma_begins(rest, ","@, 0);
    let last = text::trim_front(rest.skip(1));
    if rest[0] == ',' && !rest.skip(1).contains(',') {
        assert(text::begins(rest, ","@)) by {
            assert(rest.take(1) =~= seq![',']);
            text::law_begins_and_ends(rest, ","@);
        }
        lemma_trim_takes_only(rest.skip(1), ',');
        text::lemma_no_char(last, ',');
    } else if rest[0] != ',' {
        assert(!text::begins(rest, ","@));
    }
}

/// What stands between two commas, found as the second descriptor is.
proof fn lemma_between_commas(space: Seq<char>, dirfd: Seq<char>, rest: Seq<char>)
    requires
        text::all_space(space),
        text::starts_solid(dirfd),
        dirfd.len() > 0,
        !dirfd.contains(','),
    ensures
        ({
            let tail = seq![','] + space + dirfd + seq![','] + rest;
            let found = text::trim_front(tail.skip(1));
            &&& text::trim_front(tail) == tail
            &&& text::begins(tail, ","@)
            &&& text::first_match(found, ","@) == Some(dirfd.len() as int)
            &&& found.take(dirfd.len() as int) == dirfd
        }),
{
    reveal_strlit(",");
    assert(","@ =~= seq![',']);
    let behind = dirfd + seq![','] + rest;
    let tail = seq![','] + space + dirfd + seq![','] + rest;
    let none = Seq::<char>::empty();
    assert(!text::is_space(','));
    assert(tail[0] == ',');
    assert(none + tail =~= tail);
    text::law_trim_front(none, tail);
    text::lemma_begins(tail, ","@, 0);
    assert(tail.skip(1) =~= space + behind);
    assert(behind[0] == dirfd[0]);
    text::law_trim_front(space, behind);
    text::lemma_first_behind(dirfd, seq![','], rest);
    assert(behind.take(dirfd.len() as int) =~= dirfd);
}

/// The second descriptor of a call is the argument behind its first quoted path.
pub proof fn law_second_descriptor(
    head: Seq<char>,
    first: Seq<char>,
    space: Seq<char>,
    dirfd: Seq<char>,
    rest: Seq<char>,
    call: PairCall,
    cwd: Seq<char>,
    raw: Seq<char>,
)
    requires
        !head.contains('"'),
        lines::enclosed(first),
        text::all_space(space),
        text::starts_solid(dirfd),
        dirfd.len() > 0,
        !dirfd.contains(','),
    ensures
        ({
            let line = head + seq!['"'] + first + seq!['"'] + (seq![','] + space + dirfd + seq![
                ',',
            ] + rest);
            trace::from_second_dirfd(line, call, cwd, raw) == trace::from_dirfd(
                text::trimmed(dirfd),
                cwd,
                raw,
            )
        }),
{
    reveal_strlit(",");
    assert(","@ =~= seq![',']);
    let tail = seq![','] + space + dirfd + seq![','] + rest;
    let line = head + seq!['"'] + first + seq!['"'] + tail;
    lines::law_first_quoted_string(head, first, tail);
    let close = (head.len() + 1 + first.len()) as int;
    assert(line.skip(close + 1) =~= tail);
    lemma_between_commas(space, dirfd, rest);
    assert(trace::second_dirfd(line, call) == Ok::<_, TraceFault>(text::trimmed(dirfd)));
}

/// What stands between a comma and a parenthesis, found as the last argument is.
proof fn lemma_up_to_parenthesis(
    front: Seq<char>,
    flags: Seq<char>,
    back: Seq<char>,
    rest: Seq<char>,
)
    requires
        text::all_space(front),
        text::all_space(back),
        flags.len() > 0,
        text::starts_solid(flags),
        text::ends_solid(flags),
        !flags.contains(')'),
    ensures
        ({
            let whole = front + flags + back;
            let tail = seq![','] + whole + seq![')'] + rest;
            &&& text::trim_front(tail) == tail
            &&& text::begins(tail, ","@)
            &&& text::first_match(tail.skip(1), ")"@) == Some(whole.len() as int)
            &&& text::trimmed(tail.skip(1).take(whole.len() as int)) == flags
        }),
{
    reveal_strlit(",");
    reveal_strlit(")");
    assert(","@ =~= seq![',']);
    assert(")"@ =~= seq![')']);
    let none = Seq::<char>::empty();
    let whole = front + flags + back;
    let behind = whole + seq![')'] + rest;
    let tail = seq![','] + whole + seq![')'] + rest;
    assert(!text::is_space(','));
    assert(tail[0] == ',');
    assert(none + tail =~= tail);
    text::law_trim_front(none, tail);
    text::lemma_begins(tail, ","@, 0);
    assert(tail.skip(1) =~= behind);
    assert forall|i: int| 0 <= i < whole.len() implies whole[i] != ')' by {
        if i < front.len() {
            assert(text::is_space(front[i]));
        } else if i < front.len() + flags.len() {
            assert(flags.contains(flags[i - front.len()]));
        } else {
            assert(text::is_space(back[i - front.len() - flags.len()]));
        }
    }
    text::lemma_first_behind(whole, seq![')'], rest);
    assert(behind.take(whole.len() as int) =~= whole);
    text::law_trimmed(front, flags, back);
}

/// Names without whitespace around them are listed where they stand between bars.
proof fn lemma_listed_names(names: Seq<Seq<char>>, wanted: Seq<char>)
    requires
        names.len() > 0,
        forall|i: int|
            0 <= i < names.len() ==> {
                &&& !(#[trigger] names[i]).contains('|')
                &&& names[i].len() > 0
                &&& text::starts_solid(names[i])
                &&& text::ends_solid(names[i])
            },
    ensures
        trace::lists_flag(text::joined(names, seq!['|']), wanted) <==> names.contains(wanted),
{
    let flags = text::joined(names, seq!['|']);
    let none = Seq::<char>::empty();
    text::lemma_pieces_joined(names, '|');
    assert forall|i: int| 0 <= i < names.len() implies text::trimmed(#[trigger] names[i])
        == names[i] by {
        assert(none + names[i] + none =~= names[i]);
        text::law_trimmed(none, names[i], none);
    }
    if names.contains(wanted) {
        let i = choose|i: int| 0 <= i < names.len() && names[i] == wanted;
        assert(text::trimmed(text::pieces(flags, '|')[i]) == wanted);
    }
}

/// A flag is listed where it is one of the names between the bars of the last argument,
/// without whitespace around it.
pub proof fn law_listed_flags(
    head: Seq<char>,
    first: Seq<char>,
    middle: Seq<char>,
    second: Seq<char>,
    front: Seq<char>,
    names: Seq<Seq<char>>,
    back: Seq<char>,
    rest: Seq<char>,
    wanted: Seq<char>,
)
    requires
        text::all_space(front),
        text::all_space(back),
        !head.contains('"'),
        lines::enclosed(first),
        !middle.contains('"'),
        lines::enclosed(second),
        names.len() > 0,
        forall|i: int|
            0 <= i < names.len() ==> {
                &&& !(#[trigger] names[i]).contains('|')
                &&& names[i].len() > 0
                &&& text::starts_solid(names[i])
                &&& text::ends_solid(names[i])
            },
        !text::joined(names, seq!['|']).contains(')'),
    ensures
        ({
            let line = head + seq!['"'] + first + seq!['"'] + middle + seq!['"'] + second + seq![
                '"',
            ] + (seq![','] + (front + text::joined(names, seq!['|']) + back) + seq![')'] + rest);
            trace::has_flag(line, wanted) <==> names.contains(wanted)
        }),
{
    let flags = text::joined(names, seq!['|']);
    let whole = front + flags + back;
    let tail = seq![','] + whole + seq![')'] + rest;
    let line = head + seq!['"'] + first + seq!['"'] + middle + seq!['"'] + second + seq!['"']
        + tail;
    lemma_joined_solid(names);
    lemma_up_to_parenthesis(front, flags, back, rest);
    lemma_listed_names(names, wanted);
    lines::law_second_quoted_string(head, first, middle, second, tail);
    let close = (head.len() + first.len() + middle.len() + second.len() + 3) as int;
    assert(line.skip(close + 1) =~= tail);
    assert(trace::last_argument(line) == Some(flags));
}

/// Names without whitespace around them, joined, have none around them.
proof fn lemma_joined_solid(names: Seq<Seq<char>>)
    requires
        names.len() > 0,
        forall|i: int|
            0 <= i < names.len() ==> {
                &&& (#[trigger] names[i]).len() > 0
                &&& text::starts_solid(names[i])
                &&& text::ends_solid(names[i])
            },
    ensures
        text::joined(names, seq!['|']).len() > 0,
        text::starts_solid(text::joined(names, seq!['|'])),
        text::ends_solid(text::joined(names, seq!['|'])),
    decreases names.len(),
{
    let all = text::joined(names, seq!['|']);
    let last = names[names.len() - 1];
    assert(last.len() > 0 && text::ends_solid(last));
    assert(names[0].len() > 0 && text::starts_solid(names[0]));
    if names.len() > 1 {
        let front = names.drop_last();
        assert forall|i: int| 0 <= i < front.len() implies {
            &&& (#[trigger] front[i]).len() > 0
            &&& text::starts_solid(front[i])
            &&& text::ends_solid(front[i])
        } by {
            assert(front[i] == names[i]);
        }
        lemma_joined_solid(front);
        assert(all[0] == text::joined(front, seq!['|'])[0]);
        assert(all[all.len() - 1] == last[last.len() - 1]);
    }
}

// ---------------------------------------------------------------------------
// Connections
// ---------------------------------------------------------------------------

/// A `connect` reports the abstract socket, else the pathname socket, else the IPv4
/// address, else the IPv6 address that it names, and otherwise nothing.
pub proof fn law_connections(line: Seq<char>, cwd: Seq<char>)
    requires
        "connect("@.is_prefix_of(line),
    ensures
        ({
            let hidden = strace::abstract_address(line);
            let socket = strace::quoted_field(line, "sun_path="@);
            let port4 = strace::between(line, "sin_port=htons("@, seq![')']);
            let host4 = strace::between(line, "inet_addr(\""@, seq!['"']);
            let port6 = strace::between(line, "sin6_port=htons("@, seq![')']);
            let host6 = strace::between(line, "inet_pton(AF_INET6, \""@, seq!['"']);
            trace::line_acts(line, cwd) == Ok::<_, TraceFault>(
                if hidden is Some {
                    seq![BehaviorView::UnixAbstractConnect { address: hidden->0 }]
                } else if socket is Some {
                    seq![BehaviorView::UnixConnect { path: socket->0 }]
                } else if port4 is Some && host4 is Some {
                    seq![
                        BehaviorView::NetworkConnect { address: host4->0 + seq![':'] + port4->0 },
                    ]
                } else if port6 is Some && host6 is Some {
                    seq![
                        BehaviorView::NetworkConnect {
                            address: seq!['['] + host6->0 + seq![']', ':'] + port6->0,
                        },
                    ]
                } else {
                    seq![]
                },
            )
        }),
{
    reveal_strlit(")");
    reveal_strlit("\"");
    reveal_strlit(":");
    reveal_strlit("[");
    reveal_strlit("]:");
    assert(")"@ =~= seq![')']);
    assert("\""@ =~= seq!['"']);
    assert(":"@ =~= seq![':']);
    assert("["@ =~= seq!['[']);
    assert("]:"@ =~= seq![']', ':']);
    text::law_begins_and_ends(line, "connect("@);
    lemma_connect(line);
}

// ---------------------------------------------------------------------------
// Processes and directories
// ---------------------------------------------------------------------------

/// A `fork`, `vfork`, `clone` or `clone3` whose result is the numeral of a `u32`, alone or
/// with whitespace and more behind it, starts the process of that number, whatever its
/// arguments are.
pub proof fn law_started_process(head: Seq<char>, n: u32, more: Seq<char>, back: Seq<char>)
    requires
        ({
            let line = head + ") = "@ + (text::numeral(n as nat) + more + back);
            "fork("@.is_prefix_of(line) || "vfork("@.is_prefix_of(line) || "clone("@.is_prefix_of(
                line,
            ) || "clone3("@.is_prefix_of(line)
        }),
        more.len() == 0 || text::is_space(more[0]),
        text::ends_solid(more),
        text::all_space(back),
        !text::holds(text::numeral(n as nat) + more + back, ") = "@),
    ensures
        processes::child_of(head + ") = "@ + (text::numeral(n as nat) + more + back)) == Some(n),
{
    let word = text::numeral(n as nat);
    let result = word + more;
    let line = head + ") = "@ + (result + back);
    let none = Seq::<char>::empty();
    text::lemma_numeral(n as nat);
    text::law_numerals_are_read(n as nat);
    assert forall|i: int| 0 <= i < word.len() implies !text::is_space(#[trigger] word[i]) by {
        assert(text::is_digit(word[i]));
    }
    assert(text::is_digit(word[0]));
    assert(!text::is_space(word[0]));
    assert(!text::is_space(word[word.len() - 1]));
    assert(result[0] == word[0]);
    assert(text::ends_solid(result)) by {
        if more.len() > 0 {
            assert(result[result.len() - 1] == more[more.len() - 1]);
        } else {
            assert(result[result.len() - 1] == word[word.len() - 1]);
        }
    }
    assert(none + result + back =~= result + back);
    text::law_trimmed(none, result, back);
    lines::law_results(head, result + back);
    assert(none + word + more =~= result);
    text::law_first_word(none, word, more);
    text::law_begins_and_ends(line, "fork("@);
    text::law_begins_and_ends(line, "vfork("@);
    text::law_begins_and_ends(line, "clone("@);
    text::law_begins_and_ends(line, "clone3("@);
}

/// Only those four calls start a process, and only where they succeed.
pub proof fn law_no_other_line_starts_a_process(line: Seq<char>)
    requires
        processes::child_of(line) is Some,
    ensures
        "fork("@.is_prefix_of(line) || "vfork("@.is_prefix_of(line) || "clone("@.is_prefix_of(line)
            || "clone3("@.is_prefix_of(line),
        strace::succeeded(line),
{
    text::law_begins_and_ends(line, "fork("@);
    text::law_begins_and_ends(line, "vfork("@);
    text::law_begins_and_ends(line, "clone("@);
    text::law_begins_and_ends(line, "clone3("@);
}

/// The trace file of a process is named by its number.
pub proof fn law_names_of_trace_files(n: u32, other: Seq<char>)
    ensures
        processes::pid_of_name("trace."@ + text::numeral(n as nat)) == Some(n),
        !"trace."@.is_prefix_of(other) ==> processes::pid_of_name(other) is None,
{
    let name = "trace."@ + text::numeral(n as nat);
    text::law_begins_and_ends("trace."@, text::numeral(n as nat));
    text::law_begins_and_ends(other, "trace."@);
    assert(name.skip("trace."@.len() as int) =~= text::numeral(n as nat));
    text::law_numerals_are_read(n as nat);
}

/// A `chdir` that took place moves the process to the quoted path, seen from where it was,
/// and an `fchdir` to the path in angle brackets; nothing else changes.
pub proof fn law_moves(
    s: Stride,
    line: Seq<char>,
    to: Seq<char>,
    traced: Set<u32>,
    include_system: bool,
    context: ContextView,
)
    requires
        strace::observable(line),
    ensures
        "chdir("@.is_prefix_of(line) && strace::quoted(line, 0) == Some(to)
            ==> processes::line_step(s, line, traced, include_system, context) == Ok::<
            _,
            TraceFault,
        >(Stride { cwd: path::path_join(s.cwd, to), ..s }),
        "fchdir("@.is_prefix_of(line) && strace::angled(line) == Some(to) ==> processes::line_step(
            s,
            line,
            traced,
            include_system,
            context,
        ) == Ok::<_, TraceFault>(Stride { cwd: to, ..s }),
{
    reveal_strlit("chdir(");
    reveal_strlit("fchdir(");
    text::law_begins_and_ends(line, "chdir("@);
    text::law_begins_and_ends(line, "fchdir("@);
    if text::begins(line, "fchdir("@) {
        lemma_apart(line, "fchdir("@, "chdir("@, 0);
    }
}

/// Where a line moves the process to, told by the directory it is in afterwards.
pub proof fn law_directories_follow_moves(
    lines_before: Seq<Seq<char>>,
    line: Seq<char>,
    start: Seq<char>,
    to: Seq<char>,
)
    ensures
        processes::directory_after(Seq::empty(), start) == start,
        ({
            let before = processes::directory_after(lines_before, start);
            let after = processes::directory_after(lines_before.push(line), start);
            &&& !strace::observable(line) ==> after == before
            &&& !"chdir("@.is_prefix_of(line) && !"fchdir("@.is_prefix_of(line) ==> after == before
            &&& strace::observable(line) && "chdir("@.is_prefix_of(line) && strace::quoted(line, 0)
                == Some(to) ==> after == path::path_join(before, to)
            &&& strace::observable(line) && "fchdir("@.is_prefix_of(line) && strace::angled(line)
                == Some(to) ==> after == to
        }),
{
    reveal_strlit("chdir(");
    reveal_strlit("fchdir(");
    assert(lines_before.push(line).drop_last() =~= lines_before);
    text::law_begins_and_ends(line, "chdir("@);
    text::law_begins_and_ends(line, "fchdir("@);
    if text::begins(line, "fchdir("@) {
        lemma_apart(line, "fchdir("@, "chdir("@, 0);
    }
}

} // verus!
