//! Which process trees are read, and which are refused, as laws.

use vstd::prelude::*;

use crate::behavior::BehaviorView;
use crate::normalize::ContextView;
use crate::processes;
use crate::processes::Stride;
use crate::strace;
use crate::text;
use crate::trace;
use crate::trace::TraceFault;

verus! {

/// Every line of a traced process that is read for behavior can be read, seen from the
/// directory in which the process was.
pub open spec fn readable(traces: Map<u32, Seq<Seq<char>>>, root_cwd: Seq<char>) -> bool {
    forall|pid: u32, start: Seq<char>, i: int|
        processes::starts_in(traces, root_cwd, pid, start) && traces.contains_key(pid) && 0 <= i
            < traces[pid].len() && processes::reports_behavior(#[trigger] traces[pid][i])
            ==> #[trigger] trace::line_acts(
            traces[pid][i],
            processes::directory_after(traces[pid].take(i), start),
        ) is Ok
}

/// The process is started, in one or more steps, from the one root, or is the root.
pub open spec fn reached(
    traces: Map<u32, Seq<Seq<char>>>,
    root_cwd: Seq<char>,
    pid: u32,
) -> bool {
    exists|start: Seq<char>| processes::starts_in(traces, root_cwd, pid, start)
}

/// What the processes in `done` report as started and is traced is in `done` or in the
/// queue.
spec fn closed(traces: Map<u32, Seq<Seq<char>>>, done: Set<u32>, queue: Seq<u32>) -> bool {
    forall|pid: u32, i: int, child: u32|
        done.contains(pid) && traces.contains_key(pid) && 0 <= i < traces[pid].len()
            && processes::child_of(#[trigger] traces[pid][i]) == Some(child)
            && #[trigger] traces.contains_key(child) ==> done.contains(child) || queue.contains(
            child,
        )
}

/// A line that starts a process moves no directory, and its result proves it.
proof fn lemma_child_line(line: Seq<char>)
    requires
        processes::child_of(line) is Some,
    ensures
        strace::observable(line),
        !text::begins(line, "chdir("@),
        !text::begins(line, "fchdir("@),
{
    reveal_strlit("chdir(");
    reveal_strlit("fchdir(");
    reveal_strlit("fork(");
    reveal_strlit("vfork(");
    reveal_strlit("clone(");
    reveal_strlit("clone3(");
    text::lemma_begins(line, "chdir("@, 0);
    text::lemma_begins(line, "chdir("@, 1);
    text::lemma_begins(line, "fchdir("@, 0);
    text::lemma_begins(line, "fchdir("@, 1);
    text::lemma_begins(line, "fork("@, 0);
    text::lemma_begins(line, "fork("@, 1);
    text::lemma_begins(line, "vfork("@, 0);
    text::lemma_begins(line, "clone("@, 0);
    text::lemma_begins(line, "clone("@, 1);
    text::lemma_begins(line, "clone3("@, 0);
    text::lemma_begins(line, "clone3("@, 1);
}

/// The lines of a readable process can be followed.
proof fn lemma_lines_ok(
    traces: Map<u32, Seq<Seq<char>>>,
    root_cwd: Seq<char>,
    pid: u32,
    n: int,
    begun: Stride,
    include_system: bool,
    context: ContextView,
)
    requires
        traces.contains_key(pid),
        0 <= n <= traces[pid].len(),
        processes::starts_in(traces, root_cwd, pid, begun.cwd),
        readable(traces, root_cwd),
    ensures
        processes::lines_run(
            begun,
            traces[pid].take(n),
            traces.dom(),
            include_system,
            context,
        ) is Ok,
    decreases n,
{
    let lines = traces[pid].take(n);
    if n > 0 {
        let front = traces[pid].take(n - 1);
        assert(lines.drop_last() =~= front);
        assert(lines.last() == traces[pid][n - 1]);
        lemma_lines_ok(traces, root_cwd, pid, n - 1, begun, include_system, context);
        processes::lemma_lines_directory(begun, front, traces.dom(), include_system, context);
        let line = traces[pid][n - 1];
        if processes::reports_behavior(line) {
            assert(trace::line_acts(line, processes::directory_after(front, begun.cwd)) is Ok);
        }
    }
}

/// Following the lines of a process keeps the queue and adds the traced processes that
/// the lines start.
proof fn lemma_lines_queue(
    traces: Map<u32, Seq<Seq<char>>>,
    lines: Seq<Seq<char>>,
    begun: Stride,
    include_system: bool,
    context: ContextView,
)
    requires
        processes::lines_run(begun, lines, traces.dom(), include_system, context) is Ok,
    ensures
        ({
            let s = processes::lines_run(begun, lines, traces.dom(), include_system, context)->Ok_0;
            &&& forall|p: u32| #[trigger] begun.queue.contains(p) ==> s.queue.contains(p)
            &&& forall|i: int, child: u32|
                0 <= i < lines.len() && processes::child_of(#[trigger] lines[i]) == Some(child)
                    && #[trigger] traces.contains_key(child) ==> s.queue.contains(child)
        }),
    decreases lines.len(),
{
    if lines.len() > 0 {
        let front = lines.drop_last();
        let line = lines.last();
        lemma_lines_queue(traces, front, begun, include_system, context);
        let t = processes::lines_run(begun, front, traces.dom(), include_system, context)->Ok_0;
        let s = processes::lines_run(begun, lines, traces.dom(), include_system, context)->Ok_0;
        if processes::child_of(line) is Some {
            lemma_child_line(line);
        }
        assert forall|p: u32| t.queue.contains(p) implies #[trigger] s.queue.contains(p) by {
            let k = choose|k: int| 0 <= k < t.queue.len() && t.queue[k] == p;
            assert(s.queue[k] == p);
        }
        assert forall|i: int, child: u32|
            0 <= i < lines.len() && processes::child_of(#[trigger] lines[i]) == Some(child)
                && #[trigger] traces.contains_key(child) implies s.queue.contains(child) by {
            if i < front.len() {
                assert(front[i] == lines[i]);
                assert(t.queue.contains(child));
            } else {
                assert(s.queue[s.queue.len() - 1] == child);
            }
        }
    }
}

/// A walk over readable processes comes to an end without a fault.
proof fn lemma_walk_ok(
    traces: Map<u32, Seq<Seq<char>>>,
    root_cwd: Seq<char>,
    done: Set<u32>,
    cwds: Map<u32, Seq<char>>,
    queue: Seq<u32>,
    known: Set<BehaviorView>,
    include_system: bool,
    context: ContextView,
)
    requires
        traces.dom().finite(),
        processes::grounded(traces, root_cwd, cwds),
        processes::placed(queue, cwds),
        readable(traces, root_cwd),
    ensures
        processes::walk(traces, done, cwds, queue, known, include_system, context) is Ok,
    decreases traces.dom().difference(done).len(), queue.len(),
{
    reveal(processes::walk);
    if queue.len() > 0 {
        let pid = queue[0];
        let rest = queue.drop_first();
        processes::lemma_rest_placed(queue, cwds);
        if done.contains(pid) || !traces.contains_key(pid) {
            lemma_walk_ok(traces, root_cwd, done, cwds, rest, known, include_system, context);
        } else {
            let begun = Stride { cwd: cwds[pid], cwds, queue: rest, known };
            let len = traces[pid].len() as int;
            assert(traces[pid].take(len) =~= traces[pid]);
            lemma_lines_ok(traces, root_cwd, pid, len, begun, include_system, context);
            let s = processes::lines_run(
                begun,
                traces[pid],
                traces.dom(),
                include_system,
                context,
            )->Ok_0;
            processes::lemma_left(traces.dom(), done, pid);
            processes::lemma_walk_grounded(traces, root_cwd, begun, pid, include_system, context);
            lemma_walk_ok(
                traces,
                root_cwd,
                done.insert(pid),
                s.cwds,
                s.queue,
                s.known,
                include_system,
                context,
            );
        }
    }
}

/// A walk follows what is in its queue and all that is started from there.
proof fn lemma_walk_follows(
    traces: Map<u32, Seq<Seq<char>>>,
    done: Set<u32>,
    cwds: Map<u32, Seq<char>>,
    queue: Seq<u32>,
    known: Set<BehaviorView>,
    include_system: bool,
    context: ContextView,
)
    requires
        traces.dom().finite(),
        closed(traces, done, queue),
        processes::walk(traces, done, cwds, queue, known, include_system, context) is Ok,
    ensures
        ({
            let end = processes::walk(
                traces,
                done,
                cwds,
                queue,
                known,
                include_system,
                context,
            )->Ok_0.0;
            &&& closed(traces, end, Seq::empty())
            &&& forall|p: u32| #[trigger] done.contains(p) ==> end.contains(p)
            &&& forall|p: u32| #[trigger]
                queue.contains(p) && traces.contains_key(p) ==> end.contains(p)
        }),
    decreases traces.dom().difference(done).len(), queue.len(),
{
    reveal(processes::walk);
    let none = Seq::<u32>::empty();
    if queue.len() == 0 {
        assert(queue =~= none);
    } else {
        let pid = queue[0];
        let rest = queue.drop_first();
        assert forall|p: u32| #[trigger] queue.contains(p) implies p == pid || rest.contains(p) by {
            let k = choose|k: int| 0 <= k < queue.len() && queue[k] == p;
            if k > 0 {
                assert(rest[k - 1] == p);
            }
        }
        if done.contains(pid) || !traces.contains_key(pid) {
            assert(closed(traces, done, rest));
            lemma_walk_follows(traces, done, cwds, rest, known, include_system, context);
        } else {
            let begun = Stride { cwd: cwds[pid], cwds, queue: rest, known };
            let s = processes::lines_run(
                begun,
                traces[pid],
                traces.dom(),
                include_system,
                context,
            )->Ok_0;
            processes::lemma_left(traces.dom(), done, pid);
            lemma_lines_queue(traces, traces[pid], begun, include_system, context);
            assert forall|p: u32, i: int, child: u32|
                done.insert(pid).contains(p) && traces.contains_key(p) && 0 <= i < traces[p].len()
                    && processes::child_of(#[trigger] traces[p][i]) == Some(child)
                    && #[trigger] traces.contains_key(child) implies done.insert(pid).contains(
                child,
            ) || s.queue.contains(child) by {
                if p != pid {
                    assert(done.contains(child) || queue.contains(child));
                    if queue.contains(child) && child != pid {
                        assert(begun.queue.contains(child));
                    }
                }
            }
            lemma_walk_follows(
                traces,
                done.insert(pid),
                s.cwds,
                s.queue,
                s.known,
                include_system,
                context,
            );
            assert(done.insert(pid).contains(pid));
            let end = processes::walk(
                traces,
                done,
                cwds,
                queue,
                known,
                include_system,
                context,
            )->Ok_0.0;
            assert forall|p: u32| #[trigger] done.contains(p) implies end.contains(p) by {
                assert(done.insert(pid).contains(p));
            }
            assert forall|p: u32| #[trigger]
                queue.contains(p) && traces.contains_key(p) implies end.contains(p) by {
                if p != pid {
                    assert(begun.queue.contains(p));
                    assert(s.queue.contains(p));
                }
            }
        }
    }
}

/// What is started from the root was followed.
proof fn lemma_reached_is_followed(
    traces: Map<u32, Seq<Seq<char>>>,
    root_cwd: Seq<char>,
    pid: u32,
    start: Seq<char>,
    depth: nat,
    done: Set<u32>,
)
    requires
        closed(traces, done, Seq::empty()),
        done.contains(processes::roots(traces).choose()),
        processes::starts_at(traces, root_cwd, pid, start, depth),
        traces.contains_key(pid),
    ensures
        done.contains(pid),
    decreases depth,
{
    if depth > 0 {
        let (parent, n, before) = choose|parent: u32, n: int, before: Seq<char>| #[trigger]
            processes::hands_down(traces, parent, n, before, pid, start) && processes::starts_at(
                traces,
                root_cwd,
                parent,
                before,
                (depth - 1) as nat,
            );
        lemma_reached_is_followed(traces, root_cwd, parent, before, (depth - 1) as nat, done);
        assert(processes::child_of(traces[parent][n]) == Some(pid));
    }
}

/// A tree without a fault is read: where exactly one traced process is started by no
/// other, every traced process is started from it, and every line can be read.
pub proof fn law_trees_are_read(
    traces: Map<u32, Seq<Seq<char>>>,
    root_cwd: Seq<char>,
    include_system: bool,
    context: ContextView,
    root: u32,
)
    requires
        traces.dom().finite(),
        traces.contains_key(root),
        forall|pid: u32| #[trigger]
            traces.contains_key(pid) ==> (processes::spawned(traces, pid) <==> pid != root),
        forall|pid: u32| #[trigger] traces.contains_key(pid) ==> reached(traces, root_cwd, pid),
        readable(traces, root_cwd),
    ensures
        processes::tree_behavior(traces, root_cwd, include_system, context) is Ok,
{
    lemma_one_root(traces, root);
    let cwds = Map::<u32, Seq<char>>::empty().insert(root, root_cwd);
    let queue = seq![root];
    let none = Set::<u32>::empty();
    let known = Set::<BehaviorView>::empty();
    assert(traces.dom().contains(root));
    assert(traces.dom().len() > 0);
    processes::lemma_root_grounded(traces, root_cwd);
    lemma_walk_ok(traces, root_cwd, none, cwds, queue, known, include_system, context);
    lemma_walk_follows(traces, none, cwds, queue, known, include_system, context);
    let walked = processes::walk(traces, none, cwds, queue, known, include_system, context);
    let done = walked->Ok_0.0;
    assert(queue[0] == root);
    assert(queue.contains(root));
    assert forall|pid: u32| traces.dom().contains(pid) implies done.contains(pid) by {
        assert(traces.contains_key(pid));
        assert(reached(traces, root_cwd, pid));
        let start = choose|start: Seq<char>|
            processes::starts_in(traces, root_cwd, pid, start);
        let depth = choose|depth: nat| #[trigger]
            processes::starts_at(traces, root_cwd, pid, start, depth);
        lemma_reached_is_followed(traces, root_cwd, pid, start, depth, done);
    }
    reveal(processes::least_left);
}

/// The one process that no other starts is the root.
proof fn lemma_one_root(traces: Map<u32, Seq<Seq<char>>>, root: u32)
    requires
        traces.contains_key(root),
        forall|pid: u32| #[trigger]
            traces.contains_key(pid) ==> (processes::spawned(traces, pid) <==> pid != root),
    ensures
        processes::roots(traces).len() == 1,
        processes::roots(traces).choose() == root,
{
    assert(processes::roots(traces) =~= Set::empty().insert(root)) by {
        assert forall|pid: u32| processes::roots(traces).contains(pid) <==> pid == root by {
            assert(traces.dom().contains(pid) ==> traces.contains_key(pid));
        }
    }
    assert(processes::roots(traces).finite());
    assert(processes::roots(traces).len() == 1);
    assert(processes::roots(traces).contains(processes::roots(traces).choose()));
}

/// A tree that is read has exactly one traced process that no traced process starts, and
/// every traced process is started from it.
pub proof fn law_what_a_read_tree_is(
    traces: Map<u32, Seq<Seq<char>>>,
    root_cwd: Seq<char>,
    include_system: bool,
    context: ContextView,
) -> (root: u32)
    requires
        traces.dom().finite(),
        processes::tree_behavior(traces, root_cwd, include_system, context) is Ok,
    ensures
        traces.contains_key(root),
        forall|pid: u32| #[trigger]
            traces.contains_key(pid) ==> (processes::spawned(traces, pid) <==> pid != root),
        forall|pid: u32| #[trigger] traces.contains_key(pid) ==> reached(traces, root_cwd, pid),
{
    let roots = processes::roots(traces);
    let root = roots.choose();
    assert(roots.finite());
    assert(roots.len() == 1);
    assert(roots.contains(root));
    assert forall|pid: u32| #[trigger] traces.contains_key(pid) implies (processes::spawned(
        traces,
        pid,
    ) <==> pid != root) by {
        if pid != root && !processes::spawned(traces, pid) {
            assert(roots.contains(pid));
            assert(roots.remove(root).contains(pid));
            assert(roots.remove(root).len() == 0);
        }
    }
    assert forall|pid: u32| #[trigger] traces.contains_key(pid) implies reached(
        traces,
        root_cwd,
        pid,
    ) by {
        let start = processes::law_observed_behavior_is_recorded(
            traces,
            root_cwd,
            include_system,
            context,
            pid,
        );
    }
    root
}

/// Why a tree is refused: there is no trace; or not exactly one traced process that none
/// of them starts, and how many there are is told; or a process that is not started from
/// the root, and the least of them is told; or a line that cannot be read.
pub proof fn law_why_a_tree_is_refused(
    traces: Map<u32, Seq<Seq<char>>>,
    root_cwd: Seq<char>,
    include_system: bool,
    context: ContextView,
)
    requires
        traces.dom().finite(),
    ensures
        ({
            let read = processes::tree_behavior(traces, root_cwd, include_system, context);
            let alone = Set::new(
                |pid: u32| traces.contains_key(pid) && !processes::spawned(traces, pid),
            );
            &&& traces.dom().is_empty() ==> read == Err::<Set<BehaviorView>, _>(
                TraceFault::NoTraces,
            )
            &&& !traces.dom().is_empty() && alone.len() != 1 ==> read == Err::<
                Set<BehaviorView>,
                _,
            >(TraceFault::RootCount { found: alone.len() })
            &&& alone.len() == 1 && readable(traces, root_cwd) && read is Err ==> {
                &&& read->Err_0 is UnknownParent
                &&& traces.contains_key(read->Err_0->UnknownParent_pid)
                &&& !reached(traces, root_cwd, read->Err_0->UnknownParent_pid)
                &&& forall|pid: u32| #[trigger]
                    traces.contains_key(pid) && pid < read->Err_0->UnknownParent_pid ==> reached(
                        traces,
                        root_cwd,
                        pid,
                    )
            }
        }),
{
    let read = processes::tree_behavior(traces, root_cwd, include_system, context);
    let alone = Set::new(|pid: u32| traces.contains_key(pid) && !processes::spawned(traces, pid));
    assert(alone =~= processes::roots(traces));
    if traces.dom().is_empty() {
        assert(traces.dom() =~= Set::empty());
    } else {
        assert(traces.dom().len() > 0);
    }
    if alone.len() == 1 && readable(traces, root_cwd) && read is Err {
        lemma_least_unreached(traces, root_cwd, include_system, context);
    }
}

/// In a readable tree with one root the only fault is a process that is not started from
/// the root.
proof fn lemma_least_unreached(
    traces: Map<u32, Seq<Seq<char>>>,
    root_cwd: Seq<char>,
    include_system: bool,
    context: ContextView,
)
    requires
        traces.dom().finite(),
        processes::roots(traces).len() == 1,
        readable(traces, root_cwd),
        processes::tree_behavior(traces, root_cwd, include_system, context) is Err,
    ensures
        ({
            let e = processes::tree_behavior(traces, root_cwd, include_system, context)->Err_0;
            &&& e is UnknownParent
            &&& traces.contains_key(e->UnknownParent_pid)
            &&& !reached(traces, root_cwd, e->UnknownParent_pid)
            &&& forall|pid: u32| #[trigger]
                traces.contains_key(pid) && pid < e->UnknownParent_pid ==> reached(
                    traces,
                    root_cwd,
                    pid,
                )
        }),
{
    let root = processes::roots(traces).choose();
    assert(processes::roots(traces).finite());
    assert(processes::roots(traces).contains(root));
    let cwds = Map::<u32, Seq<char>>::empty().insert(root, root_cwd);
    let queue = seq![root];
    let none = Set::<u32>::empty();
    let known = Set::<BehaviorView>::empty();
    assert(traces.dom().contains(root));
    assert(traces.dom().len() > 0);
    processes::lemma_root_grounded(traces, root_cwd);
    lemma_walk_ok(traces, root_cwd, none, cwds, queue, known, include_system, context);
    lemma_walk_follows(traces, none, cwds, queue, known, include_system, context);
    let done = processes::walk(
        traces,
        none,
        cwds,
        queue,
        known,
        include_system,
        context,
    )->Ok_0.0;
    assert(queue[0] == root);
    assert(queue.contains(root));
    let e = processes::tree_behavior(traces, root_cwd, include_system, context)->Err_0;
    let pid = e->UnknownParent_pid;
    lemma_least(traces.dom(), done);
    assert(processes::is_least_left(traces.dom(), done, pid));
    if reached(traces, root_cwd, pid) {
        let start = choose|start: Seq<char>|
            processes::starts_in(traces, root_cwd, pid, start);
        let depth = choose|depth: nat| #[trigger]
            processes::starts_at(traces, root_cwd, pid, start, depth);
        lemma_reached_is_followed(traces, root_cwd, pid, start, depth, done);
    }
    assert forall|other: u32| #[trigger]
        traces.contains_key(other) && other < pid implies reached(traces, root_cwd, other) by {
        assert(traces.dom().contains(other));
        assert(done.contains(other));
        lemma_followed_is_reached(
            traces,
            root_cwd,
            none,
            cwds,
            queue,
            known,
            include_system,
            context,
            other,
        );
    }
}

/// What a walk follows is started from the root.
proof fn lemma_followed_is_reached(
    traces: Map<u32, Seq<Seq<char>>>,
    root_cwd: Seq<char>,
    done: Set<u32>,
    cwds: Map<u32, Seq<char>>,
    queue: Seq<u32>,
    known: Set<BehaviorView>,
    include_system: bool,
    context: ContextView,
    wanted: u32,
)
    requires
        traces.dom().finite(),
        processes::grounded(traces, root_cwd, cwds),
        processes::placed(queue, cwds),
        processes::walk(traces, done, cwds, queue, known, include_system, context) is Ok,
        processes::walk(
            traces,
            done,
            cwds,
            queue,
            known,
            include_system,
            context,
        )->Ok_0.0.contains(wanted),
        !done.contains(wanted),
    ensures
        reached(traces, root_cwd, wanted),
{
    let start = processes::lemma_walk_complete(
        traces,
        root_cwd,
        done,
        cwds,
        queue,
        known,
        include_system,
        context,
        wanted,
    );
}

/// A process that was not followed has a least one beside it.
proof fn lemma_least(traced: Set<u32>, done: Set<u32>)
    requires
        traced.finite(),
    ensures
        match processes::least_left(traced, done) {
            Some(pid) => processes::is_least_left(traced, done, pid),
            None => traced.subset_of(done),
        },
{
    reveal(processes::least_left);
    if !traced.subset_of(done) {
        let p = choose|p: u32| traced.contains(p) && !done.contains(p);
        lemma_exists_least(traced, done, p);
    }
}

/// Below a process that was not followed, or at it, stands the least one.
proof fn lemma_exists_least(traced: Set<u32>, done: Set<u32>, p: u32)
    requires
        traced.contains(p),
        !done.contains(p),
    ensures
        exists|pid: u32| processes::is_least_left(traced, done, pid),
    decreases p,
{
    if !processes::is_least_left(traced, done, p) {
        let q = choose|q: u32| #[trigger] traced.contains(q) && !done.contains(q) && q < p;
        lemma_exists_least(traced, done, q);
    }
}

/// A line that starts a process is followed by nothing but that: the process is followed
/// if it is traced, it starts where the one that started it is, and a process that was
/// reported before keeps its directory.
pub proof fn law_started_processes_are_followed(
    s: Stride,
    line: Seq<char>,
    child: u32,
    traced: Set<u32>,
    include_system: bool,
    context: ContextView,
)
    requires
        processes::child_of(line) == Some(child),
    ensures
        processes::line_step(s, line, traced, include_system, context) is Ok,
        ({
            let after = processes::line_step(s, line, traced, include_system, context)->Ok_0;
            &&& after.cwd == s.cwd
            &&& after.known == s.known
            &&& traced.contains(child) ==> after.queue == s.queue + seq![child]
            &&& !traced.contains(child) ==> after.queue == s.queue
            &&& after.cwds.contains_key(child)
            &&& s.cwds.contains_key(child) ==> after.cwds == s.cwds
            &&& !s.cwds.contains_key(child) ==> after.cwds[child] == s.cwd
                && after.cwds.remove(child) == s.cwds
        }),
{
    lemma_child_line(line);
    let after = processes::line_step(s, line, traced, include_system, context)->Ok_0;
    if traced.contains(child) {
        assert(after.queue =~= s.queue + seq![child]);
    }
    if !s.cwds.contains_key(child) {
        assert(after.cwds.remove(child) =~= s.cwds);
    }
}

/// The traces that files hold, file by file: a file named by a number is the trace of that
/// process, in place of an earlier one, and any other file is none.
pub proof fn law_traces_of_files(
    files: Seq<(Seq<char>, Seq<char>)>,
    n: u32,
    name: Seq<char>,
    content: Seq<char>,
)
    ensures
        processes::traces_of(Seq::empty()) == Map::<u32, Seq<Seq<char>>>::empty(),
        processes::traces_of(files.push(("trace."@ + text::numeral(n as nat), content)))
            == processes::traces_of(files).insert(n, strace::whole_lines(content)),
        !"trace."@.is_prefix_of(name) ==> processes::traces_of(files.push((name, content)))
            == processes::traces_of(files),
{
    crate::calls::law_names_of_trace_files(n, name);
    assert(files.push(("trace."@ + text::numeral(n as nat), content)).drop_last() =~= files);
    assert(files.push((name, content)).drop_last() =~= files);
}

} // verus!
