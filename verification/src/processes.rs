//! The traces of a process tree: which process started which, and in which
//! directory each of them worked.

use std::collections::BTreeMap;
use std::collections::BTreeSet;
use std::collections::VecDeque;

use vstd::prelude::*;
use vstd::std_specs::btree::*;

use crate::behavior::BehaviorView;
use crate::lock::BehaviorLock;
use crate::normalize::{ContextView, NormalizeContext};
use crate::path;
use crate::strace;
use crate::text;
use crate::trace;
use crate::trace::{TraceError, TraceFault};

verus! {

broadcast use {vstd::std_specs::btree::group_btree_axioms, vstd::laws_cmp::group_laws_cmp};

/// The result of a traced command.
#[derive(Debug)]
pub struct RecordedRun {
    /// The behavior of the command.
    pub lock: BehaviorLock,
    /// The exit code of the command, as a shell would report it.
    pub exit_code: i32,
}

// ---------------------------------------------------------------------------
// Lines that move the working directory or start a process
// ---------------------------------------------------------------------------

/// The line reports a syscall that starts a process.
pub open spec fn starts_process(line: Seq<char>) -> bool {
    ||| text::begins(line, "fork("@)
    ||| text::begins(line, "vfork("@)
    ||| text::begins(line, "clone("@)
    ||| text::begins(line, "clone3("@)
}

/// The process that the line reports as started.
pub open spec fn child_of(line: Seq<char>) -> Option<u32> {
    if starts_process(line) && strace::succeeded(line) {
        match text::first_word(strace::result_of(line)->0) {
            Some(word) => text::decimal_u32(word),
            None => None,
        }
    } else {
        None
    }
}

/// The process that the line reports as started.
pub fn child_pid(line: &str) -> (r: Option<u32>)
    ensures
        r == child_of(line@),
{
    let chars = text::to_chars(line);
    let chars = chars.as_slice();
    let child_call: bool = text::starts_with(chars, "fork(") || text::starts_with(chars, "vfork(")
        || text::starts_with(chars, "clone(") || text::starts_with(chars, "clone3(");
    if !child_call || !strace::syscall_succeeded(line) {
        return None;
    }
    match strace::syscall_result(line) {
        Some(result) => {
            let result = text::to_chars(result);
            match text::leading_word(result.as_slice()) {
                Some(word) => text::parse_u32(word),
                None => None,
            }
        },
        None => None,
    }
}

/// The path that `-yy` prints behind the descriptor of an `fchdir`.
pub fn first_fd_path(line: &str) -> (r: Option<String>)
    ensures
        match r {
            Some(s) => strace::angled(line@) == Some(s@),
            None => strace::angled(line@) is None,
        },
{
    strace::angle_path(line)
}

/// The process that a trace file with the given name belongs to.
pub open spec fn pid_of_name(name: Seq<char>) -> Option<u32> {
    if text::begins(name, "trace."@) {
        text::decimal_u32(name.skip("trace."@.len() as int))
    } else {
        None
    }
}

/// The process that a trace file with the given name belongs to.
pub fn trace_pid(name: &str) -> (r: Option<u32>)
    ensures
        r == pid_of_name(name@),
{
    let chars = text::to_chars(name);
    match text::strip_front(chars.as_slice(), "trace.") {
        Some(digits) => text::parse_u32(digits),
        None => None,
    }
}

// ---------------------------------------------------------------------------
// One process
// ---------------------------------------------------------------------------

/// What is known while the lines of one process are followed.
pub struct Stride {
    /// The working directory of the process.
    pub cwd: Seq<char>,
    /// The directory in which each process known so far started.
    pub cwds: Map<u32, Seq<char>>,
    /// The processes still to be followed.
    pub queue: Seq<u32>,
    /// The behavior recorded so far.
    pub known: Set<BehaviorView>,
}

/// The stride goes on over one line. A line whose result does not prove that the
/// operation happened changes nothing. A process inherits the working directory of
/// the process that started it; the first report of it counts.
pub open spec fn line_step(
    s: Stride,
    line: Seq<char>,
    traced: Set<u32>,
    include_system: bool,
    context: ContextView,
) -> Result<Stride, TraceFault> {
    if !strace::observable(line) {
        Ok(s)
    } else if text::begins(line, "chdir("@) {
        match strace::quoted(line, 0) {
            Some(raw) => Ok(Stride { cwd: path::path_join(s.cwd, raw), ..s }),
            None => Ok(s),
        }
    } else if text::begins(line, "fchdir("@) {
        match strace::angled(line) {
            Some(dir) => Ok(Stride { cwd: dir, ..s }),
            None => Ok(s),
        }
    } else if child_of(line) is Some {
        let child = child_of(line)->0;
        Ok(
            Stride {
                cwds: if s.cwds.contains_key(child) {
                    s.cwds
                } else {
                    s.cwds.insert(child, s.cwd)
                },
                queue: if traced.contains(child) {
                    s.queue.push(child)
                } else {
                    s.queue
                },
                ..s
            },
        )
    } else {
        match trace::line_acts(line, s.cwd) {
            Ok(acts) => Ok(
                Stride { known: trace::recorded_all(s.known, acts, include_system, context), ..s },
            ),
            Err(e) => Err(e),
        }
    }
}

/// The stride over some lines, up to the first fault.
pub open spec fn lines_run(
    s: Stride,
    lines: Seq<Seq<char>>,
    traced: Set<u32>,
    include_system: bool,
    context: ContextView,
) -> Result<Stride, TraceFault>
    decreases lines.len(),
{
    if lines.len() == 0 {
        Ok(s)
    } else {
        match lines_run(s, lines.drop_last(), traced, include_system, context) {
            Ok(t) => line_step(t, lines.last(), traced, include_system, context),
            Err(e) => Err(e),
        }
    }
}

/// A fault in the first lines is the fault of all of them.
proof fn lemma_lines_fault(
    s: Stride,
    lines: Seq<Seq<char>>,
    n: int,
    traced: Set<u32>,
    include_system: bool,
    context: ContextView,
)
    requires
        0 <= n <= lines.len(),
        lines_run(s, lines.take(n), traced, include_system, context) is Err,
    ensures
        lines_run(s, lines, traced, include_system, context) == lines_run(
            s,
            lines.take(n),
            traced,
            include_system,
            context,
        ),
    decreases lines.len() - n,
{
    if n < lines.len() {
        assert(lines.take(n + 1).drop_last() == lines.take(n));
        lemma_lines_fault(s, lines, n + 1, traced, include_system, context);
    } else {
        assert(lines.take(n) == lines);
    }
}

/// The views of a map of strings.
pub open spec fn text_map(m: Map<u32, String>) -> Map<u32, Seq<char>> {
    m.map_values(|s: String| s@)
}

/// The lines of each traced process.
pub open spec fn line_map(m: Map<u32, Vec<String>>) -> Map<u32, Seq<Seq<char>>> {
    m.map_values(|v: Vec<String>| text::strings(v@))
}

/// Every process in the queue has a known directory.
pub open spec fn placed(queue: Seq<u32>, cwds: Map<u32, Seq<char>>) -> bool {
    forall|i: int| 0 <= i < queue.len() ==> cwds.contains_key(#[trigger] queue[i])
}

/// Follows the lines of one process that starts in `start`.
fn follow(
    lines: &Vec<String>,
    start: &String,
    traces: &BTreeMap<u32, Vec<String>>,
    cwds: &mut BTreeMap<u32, String>,
    queue: &mut VecDeque<u32>,
    lock: &mut BehaviorLock,
    include_system: bool,
    context: &NormalizeContext,
) -> (r: Result<(), TraceError>)
    requires
        placed(old(queue)@, text_map(old(cwds)@)),
    ensures
        final(lock).version == old(lock).version,
        ({
            let begun = Stride {
                cwd: start@,
                cwds: text_map(old(cwds)@),
                queue: old(queue)@,
                known: old(lock)@,
            };
            let run = lines_run(
                begun,
                text::strings(lines@),
                traces@.dom(),
                include_system,
                context@,
            );
            match r {
                Ok(()) => {
                    &&& run is Ok
                    &&& run->Ok_0.cwds == text_map(final(cwds)@)
                    &&& run->Ok_0.queue == final(queue)@
                    &&& run->Ok_0.known == final(lock)@
                    &&& placed(final(queue)@, text_map(final(cwds)@))
                },
                Err(e) => run == Err::<Stride, _>(e@),
            }
        }),
{
    let ghost begun = Stride {
        cwd: start@,
        cwds: text_map(cwds@),
        queue: queue@,
        known: lock@,
    };
    let ghost all = text::strings(lines@);
    let ghost traced = traces@.dom();
    let ghost version = lock.version;
    let mut cwd: String = start.clone();
    let mut i: usize = 0;
    assert(all.take(0).len() == 0);
    while i < lines.len()
        invariant
            i <= lines@.len(),
            all == text::strings(lines@),
            traced == traces@.dom(),
            version == old(lock).version,
            begun.cwd == start@,
            begun.cwds == text_map(old(cwds)@),
            begun.queue == old(queue)@,
            begun.known == old(lock)@,
            lock.version == version,
            placed(queue@, text_map(cwds@)),
            lines_run(begun, all.take(i as int), traced, include_system, context@) == Ok::<
                Stride,
                TraceFault,
            >(
                Stride {
                    cwd: cwd@,
                    cwds: text_map(cwds@),
                    queue: queue@,
                    known: lock@,
                },
            ),
        decreases lines@.len() - i,
    {
        let line = lines[i].as_str();
        assert(all.take(i + 1).drop_last() == all.take(i as int));
        assert(all.take(i + 1).last() == line@);
        i = i + 1;
        // Never infer an operation from syscall arguments when the reported
        // result means it did not occur.
        if !strace::observable_syscall(line) {
            continue;
        }
        let chars = text::to_chars(line);
        if text::starts_with(chars.as_slice(), "chdir(") {
            if let Some(raw) = strace::first_quoted_string(line) {
                cwd = trace::resolve_path(cwd.as_str(), raw.as_str());
            }
            continue;
        }
        if text::starts_with(chars.as_slice(), "fchdir(") {
            if let Some(dir) = first_fd_path(line) {
                cwd = dir;
            }
            continue;
        }
        if let Some(child) = child_pid(line) {
            let ghost places = text_map(cwds@);
            if !cwds.contains_key(&child) {
                cwds.insert(child, cwd.clone());
                assert(text_map(cwds@) =~= places.insert(child, cwd@));
            }
            if traces.contains_key(&child) {
                queue.push_back(child);
            }
            continue;
        }
        match trace::parse_behavior_line(line, cwd.as_str(), lock, include_system, context) {
            Ok(()) => {},
            Err(e) => {
                proof {
                    lemma_lines_fault(begun, all, i as int, traced, include_system, context@);
                }
                return Err(e);
            },
        }
    }
    assert(all.take(i as int) == all);
    Ok(())
}

// ---------------------------------------------------------------------------
// The whole tree
// ---------------------------------------------------------------------------

/// Some traced process reports that it started the process.
pub open spec fn spawned(traces: Map<u32, Seq<Seq<char>>>, pid: u32) -> bool {
    exists|parent: u32, i: int|
        traces.contains_key(parent) && 0 <= i < traces[parent].len() && child_of(
            #[trigger] traces[parent][i],
        ) == Some(pid)
}

/// The traced processes that no traced process reports as started.
pub open spec fn roots(traces: Map<u32, Seq<Seq<char>>>) -> Set<u32> {
    traces.dom().filter(|pid: u32| !spawned(traces, pid))
}

/// Follows the processes in the queue, each of them once, and those that they start:
/// the processes that were followed and the behavior of all of them.
#[verifier::opaque]
pub open spec fn walk(
    traces: Map<u32, Seq<Seq<char>>>,
    done: Set<u32>,
    cwds: Map<u32, Seq<char>>,
    queue: Seq<u32>,
    known: Set<BehaviorView>,
    include_system: bool,
    context: ContextView,
) -> Result<(Set<u32>, Set<BehaviorView>), TraceFault>
    decreases traces.dom().difference(done).len(), queue.len(),
    when traces.dom().finite()
{
    if queue.len() == 0 {
        Ok((done, known))
    } else {
        let pid = queue[0];
        let rest = queue.drop_first();
        if done.contains(pid) || !traces.contains_key(pid) {
            walk(traces, done, cwds, rest, known, include_system, context)
        } else {
            let begun = Stride { cwd: cwds[pid], cwds, queue: rest, known };
            match lines_run(begun, traces[pid], traces.dom(), include_system, context) {
                Ok(s) => {
                    proof {
                        lemma_left(traces.dom(), done, pid);
                    }
                    walk(
                        traces,
                        done.insert(pid),
                        s.cwds,
                        s.queue,
                        s.known,
                        include_system,
                        context,
                    )
                },
                Err(e) => Err(e),
            }
        }
    }
}

/// One process less is left.
pub proof fn lemma_left(all: Set<u32>, done: Set<u32>, pid: u32)
    requires
        all.finite(),
        all.contains(pid),
        !done.contains(pid),
    ensures
        all.difference(done.insert(pid)).len() < all.difference(done).len(),
{
    assert(all.difference(done.insert(pid)) =~= all.difference(done).remove(pid));
    assert(all.difference(done).contains(pid));
}

/// The process is the least traced one that was not followed.
pub open spec fn is_least_left(traced: Set<u32>, done: Set<u32>, pid: u32) -> bool {
    &&& traced.contains(pid)
    &&& !done.contains(pid)
    &&& forall|other: u32| #[trigger]
        traced.contains(other) && !done.contains(other) ==> pid <= other
}

/// The least traced process that was not followed.
#[verifier::opaque]
pub open spec fn least_left(traced: Set<u32>, done: Set<u32>) -> Option<u32> {
    if traced.subset_of(done) {
        None
    } else {
        Some(choose|pid: u32| is_least_left(traced, done, pid))
    }
}

/// The behavior of a process tree whose root starts in `root_cwd`. There has to be
/// exactly one root, and every traced process has to be reached from it.
pub open spec fn tree_behavior(
    traces: Map<u32, Seq<Seq<char>>>,
    root_cwd: Seq<char>,
    include_system: bool,
    context: ContextView,
) -> Result<Set<BehaviorView>, TraceFault> {
    if traces.dom().len() == 0 {
        Err(TraceFault::NoTraces)
    } else if roots(traces).len() != 1 {
        Err(TraceFault::RootCount { found: roots(traces).len() })
    } else {
        let root = roots(traces).choose();
        let cwds = Map::<u32, Seq<char>>::empty().insert(root, root_cwd);
        match walk(
            traces,
            Set::empty(),
            cwds,
            seq![root],
            Set::empty(),
            include_system,
            context,
        ) {
            Ok((done, known)) => match least_left(traces.dom(), done) {
                Some(pid) => Err(TraceFault::UnknownParent { pid }),
                None => Ok(known),
            },
            Err(e) => Err(e),
        }
    }
}

/// Keys in ascending order.
proof fn lemma_ascending(keys: Seq<&u32>)
    requires
        increasing_seq(keys),
    ensures
        forall|i: int, j: int|
            0 <= i < j < keys.len() ==> *(#[trigger] keys[i]) < *(#[trigger] keys[j]),
{
    assert(vstd::laws_cmp::obeys_cmp::<&u32>());
    assert forall|i: int, j: int| 0 <= i < j < keys.len() implies *(#[trigger] keys[i]) < *(
    #[trigger] keys[j]) by {
        assert(vstd::std_specs::cmp::OrdSpec::cmp_spec(&keys[i], &keys[j]) is Less);
    }
}

/// The traced processes in ascending order.
fn pids(traces: &BTreeMap<u32, Vec<String>>) -> (r: Vec<u32>)
    ensures
        r@.to_set() == traces@.dom(),
        forall|i: int, j: int| 0 <= i < j < r@.len() ==> r@[i] < r@[j],
{
    let mut r: Vec<u32> = Vec::new();
    for pid in it: traces.keys()
        invariant
            it.seq() == vstd::std_specs::iter::IteratorSpec::remaining(&spec_keys_iter(traces)),
            r@ == it.seq().unref().take(it.index()),
    {
        r.push(*pid);
    }
    let ghost keys = vstd::std_specs::iter::IteratorSpec::remaining(&spec_keys_iter(traces));
    proof {
        lemma_ascending(keys);
    }
    assert(r@ == keys.unref());
    r
}

/// The processes that some line reports as started.
fn started(traces: &BTreeMap<u32, Vec<String>>, all: &Vec<u32>) -> (r: BTreeSet<u32>)
    requires
        all@.to_set() == traces@.dom(),
    ensures
        forall|pid: u32| #[trigger] r@.contains(pid) <==> spawned(line_map(traces@), pid),
{
    let ghost lines_of = line_map(traces@);
    let mut r: BTreeSet<u32> = BTreeSet::new();
    let mut i: usize = 0;
    while i < all.len()
        invariant
            i <= all@.len(),
            all@.to_set() == traces@.dom(),
            lines_of == line_map(traces@),
            forall|pid: u32| #[trigger] r@.contains(pid) ==> spawned(lines_of, pid),
            forall|k: int, n: int|
                0 <= k < i && 0 <= n < lines_of[all@[k]].len() && child_of(
                    #[trigger] lines_of[all@[k]][n],
                ) is Some ==> r@.contains(child_of(lines_of[all@[k]][n])->0),
        decreases all@.len() - i,
    {
        let parent: u32 = all[i];
        assert(all@.to_set().contains(parent)) by {
            assert(all@[i as int] == parent);
        }
        if let Some(lines) = traces.get(&parent) {
            assert(lines_of[parent] == text::strings(lines@));
            let mut n: usize = 0;
            while n < lines.len()
                invariant
                    i < all@.len(),
                    parent == all@[i as int],
                    n <= lines@.len(),
                    traces@.contains_key(parent),
                    lines_of == line_map(traces@),
                    lines_of[parent] == text::strings(lines@),
                    forall|pid: u32| #[trigger] r@.contains(pid) ==> spawned(lines_of, pid),
                    forall|k: int, m: int|
                        0 <= k < i && 0 <= m < lines_of[all@[k]].len() && child_of(
                            #[trigger] lines_of[all@[k]][m],
                        ) is Some ==> r@.contains(child_of(lines_of[all@[k]][m])->0),
                    forall|m: int|
                        0 <= m < n && child_of(#[trigger] lines_of[parent][m]) is Some
                            ==> r@.contains(child_of(lines_of[parent][m])->0),
                decreases lines@.len() - n,
            {
                assert(lines_of[parent][n as int] == lines@[n as int]@);
                if let Some(pid) = child_pid(lines[n].as_str()) {
                    assert(child_of(lines_of[parent][n as int]) == Some(pid));
                    assert(spawned(lines_of, pid));
                    r.insert(pid);
                }
                n = n + 1;
            }
        }
        i = i + 1;
    }
    assert forall|pid: u32| spawned(lines_of, pid) implies #[trigger] r@.contains(pid) by {
        let (parent, n) = choose|parent: u32, n: int|
            lines_of.contains_key(parent) && 0 <= n < lines_of[parent].len() && child_of(
                #[trigger] lines_of[parent][n],
            ) == Some(pid);
        assert(all@.to_set().contains(parent));
        let k = choose|k: int| 0 <= k < all@.len() && all@[k] == parent;
        assert(child_of(lines_of[all@[k]][n]) is Some);
    }
    r
}

/// The traced processes that no line reports as started, in ascending order.
fn root_pids(traces: &BTreeMap<u32, Vec<String>>, all: &Vec<u32>) -> (r: Vec<u32>)
    requires
        all@.to_set() == traces@.dom(),
        forall|i: int, j: int| 0 <= i < j < all@.len() ==> all@[i] < all@[j],
    ensures
        r@.to_set() == roots(line_map(traces@)),
        r@.len() == roots(line_map(traces@)).len(),
{
    let children = started(traces, all);
    let ghost wanted = roots(line_map(traces@));
    let mut r: Vec<u32> = Vec::new();
    let mut i: usize = 0;
    while i < all.len()
        invariant
            i <= all@.len(),
            all@.to_set() == traces@.dom(),
            wanted == roots(line_map(traces@)),
            forall|i: int, j: int| 0 <= i < j < all@.len() ==> all@[i] < all@[j],
            forall|pid: u32|
                #[trigger] children@.contains(pid) <==> spawned(line_map(traces@), pid),
            forall|k: int| 0 <= k < r@.len() ==> wanted.contains(#[trigger] r@[k]),
            forall|k: int| 0 <= k < i && wanted.contains(#[trigger] all@[k]) ==> r@.contains(all@[k]),
            r@.no_duplicates(),
            forall|k: int, n: int| 0 <= k < r@.len() && i <= n < all@.len() ==> r@[k] < all@[n],
        decreases all@.len() - i,
    {
        let pid: u32 = all[i];
        assert(all@.to_set().contains(pid)) by {
            assert(all@[i as int] == pid);
        }
        let ghost before = r@;
        if !children.contains(&pid) {
            r.push(pid);
            assert(r@[before.len() as int] == pid);
            assert(forall|x: u32| before.contains(x) ==> #[trigger] r@.contains(x)) by {
                assert forall|x: u32| before.contains(x) implies #[trigger] r@.contains(x) by {
                    let k = choose|k: int| 0 <= k < before.len() && before[k] == x;
                    assert(r@[k] == x);
                }
            }
        }
        i = i + 1;
    }
    assert(r@.to_set() =~= wanted) by {
        assert forall|pid: u32| wanted.contains(pid) implies #[trigger] r@.to_set().contains(
            pid,
        ) by {
            assert(all@.to_set().contains(pid));
            let k = choose|k: int| 0 <= k < all@.len() && all@[k] == pid;
            assert(wanted.contains(all@[k]));
        }
    }
    proof {
        r@.unique_seq_to_set();
    }
    r
}

/// Follows the root and every process that is reached from it.
fn walk_from(
    traces: &BTreeMap<u32, Vec<String>>,
    root: u32,
    include_system: bool,
    context: &NormalizeContext,
    root_cwd: &str,
) -> (r: Result<(BTreeSet<u32>, BehaviorLock), TraceError>)
    ensures
        ({
            let walked = walk(
                line_map(traces@),
                Set::empty(),
                Map::<u32, Seq<char>>::empty().insert(root, root_cwd@),
                seq![root],
                Set::empty(),
                include_system,
                context@,
            );
            match r {
                Ok((done, lock)) => {
                    &&& walked == Ok::<(Set<u32>, Set<BehaviorView>), TraceFault>((done@, lock@))
                    &&& lock.version == crate::lock::LOCK_VERSION
                },
                Err(e) => walked == Err::<(Set<u32>, Set<BehaviorView>), TraceFault>(e@),
            }
        }),
{
    let ghost lines_of = line_map(traces@);
    let mut lock = BehaviorLock::new();
    let mut cwds: BTreeMap<u32, String> = BTreeMap::new();
    let mut processed: BTreeSet<u32> = BTreeSet::new();
    let mut queue: VecDeque<u32> = VecDeque::new();
    cwds.insert(root, root_cwd.to_owned());
    queue.push_back(root);
    let ghost whole = walk(
        lines_of,
        Set::empty(),
        Map::<u32, Seq<char>>::empty().insert(root, root_cwd@),
        seq![root],
        Set::empty(),
        include_system,
        context@,
    );
    assert(text_map(cwds@) =~= Map::<u32, Seq<char>>::empty().insert(root, root_cwd@));
    assert(queue@ =~= seq![root]);
    assert(processed@ =~= Set::<u32>::empty());
    assert(lines_of.dom() =~= traces@.dom());
    while queue.len() > 0
        invariant
            lines_of == line_map(traces@),
            lines_of.dom() == traces@.dom(),
            lines_of.dom().finite(),
            lock.version == crate::lock::LOCK_VERSION,
            placed(queue@, text_map(cwds@)),
            whole == walk(
                line_map(traces@),
                Set::empty(),
                Map::<u32, Seq<char>>::empty().insert(root, root_cwd@),
                seq![root],
                Set::empty(),
                include_system,
                context@,
            ),
            whole == walk(
                lines_of,
                processed@,
                text_map(cwds@),
                queue@,
                lock@,
                include_system,
                context@,
            ),
        decreases lines_of.dom().difference(processed@).len(), queue@.len(),
    {
        let ghost before = queue@;
        let ghost places = text_map(cwds@);
        reveal(walk);
        let pid: u32 = match queue.pop_front() {
            Some(pid) => pid,
            None => 0,
        };
        assert(queue@ =~= before.drop_first());
        assert(placed(queue@, places)) by {
            assert forall|i: int| 0 <= i < queue@.len() implies places.contains_key(
                #[trigger] queue@[i],
            ) by {
                assert(queue@[i] == before[i + 1]);
            }
        }
        assert(places.contains_key(before[0]));
        if processed.contains(&pid) {
            continue;
        }
        let start: String = match cwds.get(&pid) {
            Some(cwd) => cwd.clone(),
            None => String::new(),
        };
        assert(start@ == places[pid]);
        if let Some(lines) = traces.get(&pid) {
            assert(lines_of[pid] == text::strings(lines@));
            proof {
                lemma_left(lines_of.dom(), processed@, pid);
            }
            processed.insert(pid);
            match follow(
                lines,
                &start,
                traces,
                &mut cwds,
                &mut queue,
                &mut lock,
                include_system,
                context,
            ) {
                Ok(()) => {},
                Err(e) => {
                    return Err(e);
                },
            }
        }
    }
    reveal(walk);
    Ok((processed, lock))
}

/// The least process that was not followed.
fn first_left(all: &Vec<u32>, done: &BTreeSet<u32>) -> (r: Option<u32>)
    requires
        forall|i: int, j: int| 0 <= i < j < all@.len() ==> all@[i] < all@[j],
    ensures
        r == least_left(all@.to_set(), done@),
{
    let mut i: usize = 0;
    while i < all.len()
        invariant
            i <= all@.len(),
            forall|i: int, j: int| 0 <= i < j < all@.len() ==> all@[i] < all@[j],
            forall|k: int| 0 <= k < i ==> done@.contains(#[trigger] all@[k]),
        decreases all@.len() - i,
    {
        if !done.contains(&all[i]) {
            proof {
                lemma_least_left(all@, i as int, done@);
            }
            return Some(all[i]);
        }
        i = i + 1;
    }
    reveal(least_left);
    assert forall|pid: u32| all@.to_set().contains(pid) implies done@.contains(pid) by {
        let k = choose|k: int| 0 <= k < all@.len() && all@[k] == pid;
        assert(done@.contains(all@[k]));
    }
    None
}

/// The first one in ascending order that was not followed is the least one.
proof fn lemma_least_left(all: Seq<u32>, i: int, done: Set<u32>)
    requires
        0 <= i < all.len(),
        forall|i: int, j: int| 0 <= i < j < all.len() ==> all[i] < all[j],
        forall|k: int| 0 <= k < i ==> done.contains(#[trigger] all[k]),
        !done.contains(all[i]),
    ensures
        least_left(all.to_set(), done) == Some(all[i]),
{
    reveal(least_left);
    let traced = all.to_set();
    let pid = all[i];
    assert(traced.contains(pid));
    assert(is_least_left(traced, done, pid)) by {
        assert forall|other: u32| #[trigger]
            traced.contains(other) && !done.contains(other) implies pid <= other by {
            let k = choose|k: int| 0 <= k < all.len() && all[k] == other;
            if k < i {
                assert(done.contains(all[k]));
            }
        }
    }
    let chosen = choose|p: u32| is_least_left(traced, done, p);
    assert(is_least_left(traced, done, chosen));
}

/// The only element of a set is the one that is chosen from it.
proof fn lemma_lone(list: Seq<u32>)
    requires
        list.len() == 1,
    ensures
        list.to_set().choose() == list[0],
{
    assert(list.to_set().contains(list[0]));
    assert(list.contains(list.to_set().choose()));
}

/// The only process that no line reports as started.
fn lone_root(traces: &BTreeMap<u32, Vec<String>>, all: &Vec<u32>) -> (r: Result<u32, TraceError>)
    requires
        all@.to_set() == traces@.dom(),
        forall|i: int, j: int| 0 <= i < j < all@.len() ==> all@[i] < all@[j],
    ensures
        ({
            let lines_of = line_map(traces@);
            match r {
                Ok(root) => {
                    &&& lines_of.dom().len() != 0
                    &&& roots(lines_of).len() == 1
                    &&& roots(lines_of).choose() == root
                },
                Err(e) => {
                    ||| lines_of.dom().len() == 0 && e@ == TraceFault::NoTraces
                    ||| lines_of.dom().len() != 0 && roots(lines_of).len() != 1 && e@
                        == (TraceFault::RootCount { found: roots(lines_of).len() })
                },
            }
        }),
{
    assert(line_map(traces@).dom() =~= traces@.dom());
    assert(all@.to_set().len() == all@.len()) by {
        assert(all@.no_duplicates());
        all@.unique_seq_to_set();
    }
    if all.len() == 0 {
        return Err(TraceError::NoTraces);
    }
    let root_list = root_pids(traces, all);
    if root_list.len() != 1 {
        return Err(TraceError::RootCount { found: root_list.len() });
    }
    proof {
        lemma_lone(root_list@);
    }
    Ok(root_list[0])
}

/// The behavior of a traced command.
///
/// Behavior is attributed only where the trace is complete: exactly one process has
/// no recorded parent, and every other one inherits its working directory from the
/// process that started it.
pub fn parse_traces(
    traces: &BTreeMap<u32, Vec<String>>,
    include_system: bool,
    context: &NormalizeContext,
    root_cwd: &str,
) -> (r: Result<BehaviorLock, TraceError>)
    ensures
        match r {
            Ok(lock) => {
                &&& tree_behavior(line_map(traces@), root_cwd@, include_system, context@) == Ok::<
                    Set<BehaviorView>,
                    TraceFault,
                >(lock@)
                &&& lock.version == crate::lock::LOCK_VERSION
            },
            Err(e) => tree_behavior(line_map(traces@), root_cwd@, include_system, context@) == Err::<
                Set<BehaviorView>,
                TraceFault,
            >(e@),
        },
{
    let all = pids(traces);
    let root = match lone_root(traces, &all) {
        Ok(root) => root,
        Err(e) => {
            return Err(e);
        },
    };
    assert(line_map(traces@).dom() =~= traces@.dom());
    let (processed, lock) = match walk_from(traces, root, include_system, context, root_cwd) {
        Ok(done) => done,
        Err(e) => {
            return Err(e);
        },
    };
    match first_left(&all, &processed) {
        Some(pid) => Err(TraceError::UnknownParent { pid }),
        None => Ok(lock),
    }
}

// ---------------------------------------------------------------------------
// Trace files
// ---------------------------------------------------------------------------

/// The traces that some files hold, each given by its name and its text. A file with
/// another name is no trace.
pub open spec fn traces_of(files: Seq<(Seq<char>, Seq<char>)>) -> Map<u32, Seq<Seq<char>>>
    decreases files.len(),
{
    if files.len() == 0 {
        Map::empty()
    } else {
        let before = traces_of(files.drop_last());
        match pid_of_name(files.last().0) {
            Some(pid) => before.insert(pid, strace::whole_lines(files.last().1)),
            None => before,
        }
    }
}

/// The views of some files.
pub open spec fn file_views(files: Seq<(String, String)>) -> Seq<(Seq<char>, Seq<char>)> {
    Seq::new(files.len(), |i: int| (files[i].0@, files[i].1@))
}

/// The traces that some files hold.
fn collect_traces(files: &Vec<(String, String)>) -> (r: BTreeMap<u32, Vec<String>>)
    ensures
        line_map(r@) == traces_of(file_views(files@)),
{
    let ghost all = file_views(files@);
    let mut r: BTreeMap<u32, Vec<String>> = BTreeMap::new();
    let mut i: usize = 0;
    assert(line_map(r@) =~= traces_of(all.take(0)));
    while i < files.len()
        invariant
            i <= files@.len(),
            all == file_views(files@),
            line_map(r@) == traces_of(all.take(i as int)),
        decreases files@.len() - i,
    {
        let ghost before = line_map(r@);
        assert(all.take(i + 1).drop_last() == all.take(i as int));
        assert(all.take(i + 1).last() == (files@[i as int].0@, files@[i as int].1@));
        if let Some(pid) = trace_pid(files[i].0.as_str()) {
            let lines = strace::reassemble_trace_lines(files[i].1.as_str());
            let ghost whole = text::strings(lines@);
            r.insert(pid, lines);
            assert(line_map(r@) =~= before.insert(pid, whole));
        }
        i = i + 1;
    }
    assert(all.take(i as int) == all);
    r
}

/// The behavior of a traced command, given the name and the text of each file that
/// strace wrote.
pub fn parse_trace_files(
    files: &Vec<(String, String)>,
    include_system: bool,
    context: &NormalizeContext,
    root_cwd: &str,
) -> (r: Result<BehaviorLock, TraceError>)
    ensures
        ({
            let wanted = tree_behavior(
                traces_of(file_views(files@)),
                root_cwd@,
                include_system,
                context@,
            );
            match r {
                Ok(lock) => {
                    &&& wanted == Ok::<Set<BehaviorView>, TraceFault>(lock@)
                    &&& lock.version == crate::lock::LOCK_VERSION
                },
                Err(e) => wanted == Err::<Set<BehaviorView>, TraceFault>(e@),
            }
        }),
{
    let traces = collect_traces(files);
    parse_traces(&traces, include_system, context, root_cwd)
}

// ---------------------------------------------------------------------------
// Laws
// ---------------------------------------------------------------------------

/// A line that is read for the behavior that it reports.
pub open spec fn reports_behavior(line: Seq<char>) -> bool {
    &&& strace::observable(line)
    &&& !text::begins(line, "chdir("@)
    &&& !text::begins(line, "fchdir("@)
    &&& child_of(line) is None
}

/// The line, seen from the directory, reports the behavior.
pub open spec fn line_reports(
    line: Seq<char>,
    cwd: Seq<char>,
    include_system: bool,
    context: ContextView,
    b: BehaviorView,
) -> bool {
    &&& reports_behavior(line)
    &&& trace::line_acts(line, cwd) is Ok
    &&& trace::among(trace::line_acts(line, cwd)->Ok_0, include_system, context, b)
}

/// The directory of a process that starts in `start` once it has gone through the
/// lines: each `chdir` and `fchdir` that took place moves it.
pub open spec fn directory_after(lines: Seq<Seq<char>>, start: Seq<char>) -> Seq<char>
    decreases lines.len(),
{
    if lines.len() == 0 {
        start
    } else {
        let before = directory_after(lines.drop_last(), start);
        let line = lines.last();
        if !strace::observable(line) {
            before
        } else if text::begins(line, "chdir("@) {
            match strace::quoted(line, 0) {
                Some(raw) => path::path_join(before, raw),
                None => before,
            }
        } else if text::begins(line, "fchdir("@) {
            match strace::angled(line) {
                Some(dir) => dir,
                None => before,
            }
        } else {
            before
        }
    }
}

/// Line `n` of `parent`, which started in `start`, reports that it started `pid`, and
/// `cwd` is the directory in which `parent` was at that line.
pub open spec fn hands_down(
    traces: Map<u32, Seq<Seq<char>>>,
    parent: u32,
    n: int,
    start: Seq<char>,
    pid: u32,
    cwd: Seq<char>,
) -> bool {
    &&& traces.contains_key(parent)
    &&& 0 <= n < traces[parent].len()
    &&& child_of(traces[parent][n]) == Some(pid)
    &&& cwd == directory_after(traces[parent].take(n), start)
}

/// The process starts in the directory, `depth` processes below the root: the root in
/// `root_cwd`, every other one in the directory in which the process that started it was
/// at that time.
pub open spec fn starts_at(
    traces: Map<u32, Seq<Seq<char>>>,
    root_cwd: Seq<char>,
    pid: u32,
    cwd: Seq<char>,
    depth: nat,
) -> bool
    decreases depth,
{
    if depth == 0 {
        pid == roots(traces).choose() && cwd == root_cwd
    } else {
        exists|parent: u32, n: int, start: Seq<char>| #[trigger]
            hands_down(traces, parent, n, start, pid, cwd) && starts_at(
                traces,
                root_cwd,
                parent,
                start,
                (depth - 1) as nat,
            )
    }
}

/// The process starts in the directory: the root in `root_cwd`, every other one in the
/// directory in which the process that started it was at that time.
pub open spec fn starts_in(
    traces: Map<u32, Seq<Seq<char>>>,
    root_cwd: Seq<char>,
    pid: u32,
    cwd: Seq<char>,
) -> bool {
    exists|depth: nat| #[trigger] starts_at(traces, root_cwd, pid, cwd, depth)
}

/// Line `i` of the process, which starts in `start`, reports the behavior, seen from the
/// directory to which the lines before it led.
pub open spec fn process_reports(
    traces: Map<u32, Seq<Seq<char>>>,
    pid: u32,
    i: int,
    start: Seq<char>,
    include_system: bool,
    context: ContextView,
    b: BehaviorView,
) -> bool {
    &&& traces.contains_key(pid)
    &&& 0 <= i < traces[pid].len()
    &&& line_reports(
        traces[pid][i],
        directory_after(traces[pid].take(i), start),
        include_system,
        context,
        b,
    )
}

/// Some line of some traced process reports the behavior, seen from the directory in
/// which the process was.
pub open spec fn traced_behavior(
    traces: Map<u32, Seq<Seq<char>>>,
    root_cwd: Seq<char>,
    include_system: bool,
    context: ContextView,
    b: BehaviorView,
) -> bool {
    exists|pid: u32, i: int, start: Seq<char>| #[trigger]
        process_reports(traces, pid, i, start, include_system, context, b) && starts_in(
            traces,
            root_cwd,
            pid,
            start,
        )
}

/// All that the line reports, seen from the directory, is known.
pub open spec fn line_is_recorded(
    line: Seq<char>,
    cwd: Seq<char>,
    include_system: bool,
    context: ContextView,
    known: Set<BehaviorView>,
) -> bool {
    &&& trace::line_acts(line, cwd) is Ok
    &&& forall|b: BehaviorView|
        trace::among(trace::line_acts(line, cwd)->Ok_0, include_system, context, b)
            ==> #[trigger] known.contains(b)
}

/// All that the lines of a process that starts in `start` report is known, each line
/// seen from the directory to which the lines before it led.
pub open spec fn process_is_recorded(
    lines: Seq<Seq<char>>,
    start: Seq<char>,
    include_system: bool,
    context: ContextView,
    known: Set<BehaviorView>,
) -> bool {
    forall|i: int|
        0 <= i < lines.len() && reports_behavior(#[trigger] lines[i]) ==> line_is_recorded(
            lines[i],
            directory_after(lines.take(i), start),
            include_system,
            context,
            known,
        )
}

/// What a line that does not prove an operation leaves behind: nothing.
pub proof fn law_unproven_line_changes_nothing(
    s: Stride,
    line: Seq<char>,
    traced: Set<u32>,
    include_system: bool,
    context: ContextView,
)
    requires
        !strace::observable(line),
    ensures
        line_step(s, line, traced, include_system, context) == Ok::<Stride, TraceFault>(s),
{
}

/// A process starts in the directory in which the process that started it was at that
/// time.
pub proof fn law_child_inherits_the_directory(
    s: Stride,
    line: Seq<char>,
    traced: Set<u32>,
    include_system: bool,
    context: ContextView,
)
    requires
        strace::observable(line),
        !text::begins(line, "chdir("@),
        !text::begins(line, "fchdir("@),
        child_of(line) is Some,
        !s.cwds.contains_key(child_of(line)->0),
    ensures
        ({
            let after = line_step(s, line, traced, include_system, context);
            &&& after is Ok
            &&& after->Ok_0.cwds[child_of(line)->0] == s.cwd
            &&& after->Ok_0.cwd == s.cwd
            &&& after->Ok_0.known == s.known
        }),
{
}

/// One line adds exactly what it reports.
proof fn lemma_step_adds(
    s: Stride,
    line: Seq<char>,
    traced: Set<u32>,
    include_system: bool,
    context: ContextView,
    b: BehaviorView,
)
    requires
        line_step(s, line, traced, include_system, context) is Ok,
    ensures
        line_step(s, line, traced, include_system, context)->Ok_0.known.contains(b)
            <==> s.known.contains(b) || line_reports(line, s.cwd, include_system, context, b),
        reports_behavior(line) ==> trace::line_acts(line, s.cwd) is Ok,
{
    if reports_behavior(line) {
        trace::law_recording_adds_what_was_observed(
            s.known,
            trace::line_acts(line, s.cwd)->Ok_0,
            include_system,
            context,
            b,
        );
    }
}

/// The directory that following the lines of a process leads to.
pub proof fn lemma_lines_directory(
    s: Stride,
    lines: Seq<Seq<char>>,
    traced: Set<u32>,
    include_system: bool,
    context: ContextView,
)
    requires
        lines_run(s, lines, traced, include_system, context) is Ok,
    ensures
        lines_run(s, lines, traced, include_system, context)->Ok_0.cwd == directory_after(
            lines,
            s.cwd,
        ),
    decreases lines.len(),
{
    if lines.len() > 0 {
        lemma_lines_directory(s, lines.drop_last(), traced, include_system, context);
    }
}

/// Where a process starts that another one reports as started.
proof fn lemma_handed_down(
    traces: Map<u32, Seq<Seq<char>>>,
    root_cwd: Seq<char>,
    parent: u32,
    n: int,
    start: Seq<char>,
    pid: u32,
)
    requires
        traces.contains_key(parent),
        0 <= n < traces[parent].len(),
        child_of(traces[parent][n]) == Some(pid),
        starts_in(traces, root_cwd, parent, start),
    ensures
        starts_in(traces, root_cwd, pid, directory_after(traces[parent].take(n), start)),
{
    let depth = choose|depth: nat| #[trigger] starts_at(traces, root_cwd, parent, start, depth);
    let cwd = directory_after(traces[parent].take(n), start);
    assert(hands_down(traces, parent, n, start, pid, cwd));
    assert(((depth + 1) - 1) as nat == depth);
    assert(starts_at(traces, root_cwd, pid, cwd, depth + 1));
}

/// Every process with a known directory starts in that directory.
pub open spec fn grounded(
    traces: Map<u32, Seq<Seq<char>>>,
    root_cwd: Seq<char>,
    cwds: Map<u32, Seq<char>>,
) -> bool {
    forall|pid: u32| #[trigger]
        cwds.contains_key(pid) ==> starts_in(traces, root_cwd, pid, cwds[pid])
}

/// Following the first `n` lines of a process keeps the directories right.
proof fn lemma_lines_grounded(
    traces: Map<u32, Seq<Seq<char>>>,
    root_cwd: Seq<char>,
    pid: u32,
    n: int,
    begun: Stride,
    include_system: bool,
    context: ContextView,
)
    requires
        traces.contains_key(pid),
        0 <= n <= traces[pid].len(),
        starts_in(traces, root_cwd, pid, begun.cwd),
        grounded(traces, root_cwd, begun.cwds),
        placed(begun.queue, begun.cwds),
        lines_run(begun, traces[pid].take(n), traces.dom(), include_system, context) is Ok,
    ensures
        ({
            let s = lines_run(
                begun,
                traces[pid].take(n),
                traces.dom(),
                include_system,
                context,
            )->Ok_0;
            grounded(traces, root_cwd, s.cwds) && placed(s.queue, s.cwds)
        }),
    decreases n,
{
    let lines = traces[pid].take(n);
    if n > 0 {
        assert(lines.drop_last() =~= traces[pid].take(n - 1));
        assert(lines.last() == traces[pid][n - 1]);
        lemma_lines_grounded(traces, root_cwd, pid, n - 1, begun, include_system, context);
        let front = traces[pid].take(n - 1);
        let t = lines_run(begun, front, traces.dom(), include_system, context)->Ok_0;
        lemma_lines_directory(begun, front, traces.dom(), include_system, context);
        if child_of(lines.last()) is Some {
            lemma_handed_down(
                traces,
                root_cwd,
                pid,
                n - 1,
                begun.cwd,
                child_of(lines.last())->0,
            );
        }
    }
}

/// Following all lines of a process keeps the directories right.
pub proof fn lemma_walk_grounded(
    traces: Map<u32, Seq<Seq<char>>>,
    root_cwd: Seq<char>,
    begun: Stride,
    pid: u32,
    include_system: bool,
    context: ContextView,
)
    requires
        traces.contains_key(pid),
        starts_in(traces, root_cwd, pid, begun.cwd),
        grounded(traces, root_cwd, begun.cwds),
        placed(begun.queue, begun.cwds),
        lines_run(begun, traces[pid], traces.dom(), include_system, context) is Ok,
    ensures
        ({
            let s = lines_run(begun, traces[pid], traces.dom(), include_system, context)->Ok_0;
            grounded(traces, root_cwd, s.cwds) && placed(s.queue, s.cwds)
        }),
{
    assert(traces[pid].take(traces[pid].len() as int) =~= traces[pid]);
    lemma_lines_grounded(
        traces,
        root_cwd,
        pid,
        traces[pid].len() as int,
        begun,
        include_system,
        context,
    );
}

/// A walk begins with the right directory for the root.
pub proof fn lemma_root_grounded(traces: Map<u32, Seq<Seq<char>>>, root_cwd: Seq<char>)
    ensures
        ({
            let root = roots(traces).choose();
            let cwds = Map::<u32, Seq<char>>::empty().insert(root, root_cwd);
            grounded(traces, root_cwd, cwds) && placed(seq![root], cwds)
        }),
{
    let root = roots(traces).choose();
    assert(starts_at(traces, root_cwd, root, root_cwd, 0));
}

/// The rest of a queue is placed.
pub proof fn lemma_rest_placed(queue: Seq<u32>, cwds: Map<u32, Seq<char>>)
    requires
        queue.len() > 0,
        placed(queue, cwds),
    ensures
        placed(queue.drop_first(), cwds),
        cwds.contains_key(queue[0]),
{
    let rest = queue.drop_first();
    assert forall|i: int| 0 <= i < rest.len() implies cwds.contains_key(#[trigger] rest[i]) by {
        assert(rest[i] == queue[i + 1]);
    }
}

/// What the lines of one process add was reported by one of them.
proof fn lemma_lines_sound(
    s: Stride,
    lines: Seq<Seq<char>>,
    traced: Set<u32>,
    include_system: bool,
    context: ContextView,
    b: BehaviorView,
) -> (i: int)
    requires
        lines_run(s, lines, traced, include_system, context) is Ok,
        lines_run(s, lines, traced, include_system, context)->Ok_0.known.contains(b),
        !s.known.contains(b),
    ensures
        0 <= i < lines.len(),
        line_reports(
            lines[i],
            directory_after(lines.take(i), s.cwd),
            include_system,
            context,
            b,
        ),
    decreases lines.len(),
{
    if lines.len() == 0 {
        0
    } else {
        let front = lines.drop_last();
        let t = lines_run(s, front, traced, include_system, context)->Ok_0;
        lemma_step_adds(t, lines.last(), traced, include_system, context, b);
        if t.known.contains(b) {
            let i = lemma_lines_sound(s, front, traced, include_system, context, b);
            assert(front[i] == lines[i]);
            assert(front.take(i) =~= lines.take(i));
            i
        } else {
            lemma_lines_directory(s, front, traced, include_system, context);
            assert(front =~= lines.take(lines.len() - 1));
            lines.len() - 1
        }
    }
}

/// What a walk adds was reported by some line of the traces.
proof fn lemma_walk_sound(
    traces: Map<u32, Seq<Seq<char>>>,
    root_cwd: Seq<char>,
    done: Set<u32>,
    cwds: Map<u32, Seq<char>>,
    queue: Seq<u32>,
    known: Set<BehaviorView>,
    include_system: bool,
    context: ContextView,
    b: BehaviorView,
)
    requires
        traces.dom().finite(),
        grounded(traces, root_cwd, cwds),
        placed(queue, cwds),
        walk(traces, done, cwds, queue, known, include_system, context) is Ok,
        walk(traces, done, cwds, queue, known, include_system, context)->Ok_0.1.contains(b),
        !known.contains(b),
    ensures
        traced_behavior(traces, root_cwd, include_system, context, b),
    decreases traces.dom().difference(done).len(), queue.len(),
{
    reveal(walk);
    if queue.len() > 0 {
        let pid = queue[0];
        let rest = queue.drop_first();
        lemma_rest_placed(queue, cwds);
        if done.contains(pid) || !traces.contains_key(pid) {
            lemma_walk_sound(
                traces,
                root_cwd,
                done,
                cwds,
                rest,
                known,
                include_system,
                context,
                b,
            );
        } else {
            let begun = Stride { cwd: cwds[pid], cwds, queue: rest, known };
            let s = lines_run(begun, traces[pid], traces.dom(), include_system, context)->Ok_0;
            lemma_left(traces.dom(), done, pid);
            if s.known.contains(b) {
                let i = lemma_lines_sound(
                    begun,
                    traces[pid],
                    traces.dom(),
                    include_system,
                    context,
                    b,
                );
                assert(process_reports(traces, pid, i, cwds[pid], include_system, context, b));
            } else {
                lemma_walk_grounded(traces, root_cwd, begun, pid, include_system, context);
                lemma_walk_sound(
                    traces,
                    root_cwd,
                    done.insert(pid),
                    s.cwds,
                    s.queue,
                    s.known,
                    include_system,
                    context,
                    b,
                );
            }
        }
    }
}

/// Nothing is recorded that no traced process did: each recorded behavior is reported by
/// a line whose result proves it, seen from the directory in which its process was.
pub proof fn law_recorded_behavior_was_observed(
    traces: Map<u32, Seq<Seq<char>>>,
    root_cwd: Seq<char>,
    include_system: bool,
    context: ContextView,
    b: BehaviorView,
)
    requires
        traces.dom().finite(),
        tree_behavior(traces, root_cwd, include_system, context) is Ok,
        tree_behavior(traces, root_cwd, include_system, context)->Ok_0.contains(b),
    ensures
        traced_behavior(traces, root_cwd, include_system, context, b),
{
    let root = roots(traces).choose();
    lemma_root_grounded(traces, root_cwd);
    lemma_walk_sound(
        traces,
        root_cwd,
        Set::empty(),
        Map::<u32, Seq<char>>::empty().insert(root, root_cwd),
        seq![root],
        Set::empty(),
        include_system,
        context,
        b,
    );
}

/// What is recorded stays recorded when more becomes known.
proof fn lemma_recorded_stays(
    lines: Seq<Seq<char>>,
    start: Seq<char>,
    include_system: bool,
    context: ContextView,
    known: Set<BehaviorView>,
    more: Set<BehaviorView>,
)
    requires
        process_is_recorded(lines, start, include_system, context, known),
        known.subset_of(more),
    ensures
        process_is_recorded(lines, start, include_system, context, more),
{
    assert forall|i: int|
        0 <= i < lines.len() && reports_behavior(#[trigger] lines[i]) implies line_is_recorded(
        lines[i],
        directory_after(lines.take(i), start),
        include_system,
        context,
        more,
    ) by {
        let cwd = directory_after(lines.take(i), start);
        assert(line_is_recorded(lines[i], cwd, include_system, context, known));
        assert forall|b: BehaviorView|
            trace::among(
                trace::line_acts(lines[i], cwd)->Ok_0,
                include_system,
                context,
                b,
            ) implies #[trigger] more.contains(b) by {
            assert(known.contains(b));
        }
    }
}

/// What the lines of a process report is known once all of them were followed.
proof fn lemma_lines_complete(
    s: Stride,
    lines: Seq<Seq<char>>,
    traced: Set<u32>,
    include_system: bool,
    context: ContextView,
)
    requires
        lines_run(s, lines, traced, include_system, context) is Ok,
    ensures
        process_is_recorded(
            lines,
            s.cwd,
            include_system,
            context,
            lines_run(s, lines, traced, include_system, context)->Ok_0.known,
        ),
    decreases lines.len(),
{
    if lines.len() > 0 {
        let front = lines.drop_last();
        let t = lines_run(s, front, traced, include_system, context)->Ok_0;
        let known = lines_run(s, lines, traced, include_system, context)->Ok_0.known;
        lemma_lines_complete(s, front, traced, include_system, context);
        lemma_lines_directory(s, front, traced, include_system, context);
        assert forall|b: BehaviorView| t.known.contains(b) implies known.contains(b) by {
            lemma_step_adds(t, lines.last(), traced, include_system, context, b);
        }
        lemma_recorded_stays(front, s.cwd, include_system, context, t.known, known);
        assert forall|i: int|
            0 <= i < lines.len() && reports_behavior(#[trigger] lines[i]) implies line_is_recorded(
            lines[i],
            directory_after(lines.take(i), s.cwd),
            include_system,
            context,
            known,
        ) by {
            if i < front.len() {
                assert(front[i] == lines[i]);
                assert(front.take(i) =~= lines.take(i));
            } else {
                assert(lines.take(i) =~= front);
                assert forall|b: BehaviorView|
                    trace::among(
                        trace::line_acts(lines[i], t.cwd)->Ok_0,
                        include_system,
                        context,
                        b,
                    ) implies #[trigger] known.contains(b) by {
                    lemma_step_adds(t, lines.last(), traced, include_system, context, b);
                }
                lemma_step_adds(t, lines.last(), traced, include_system, context, arbitrary());
            }
        }
    }
}

/// The lines of one process take nothing away.
proof fn lemma_lines_keep(
    s: Stride,
    lines: Seq<Seq<char>>,
    traced: Set<u32>,
    include_system: bool,
    context: ContextView,
)
    requires
        lines_run(s, lines, traced, include_system, context) is Ok,
    ensures
        s.known.subset_of(lines_run(s, lines, traced, include_system, context)->Ok_0.known),
    decreases lines.len(),
{
    if lines.len() > 0 {
        lemma_lines_keep(s, lines.drop_last(), traced, include_system, context);
        let t = lines_run(s, lines.drop_last(), traced, include_system, context)->Ok_0;
        let after = lines_run(s, lines, traced, include_system, context)->Ok_0;
        assert forall|b: BehaviorView| s.known.contains(b) implies after.known.contains(b) by {
            lemma_step_adds(t, lines.last(), traced, include_system, context, b);
        }
    }
}

/// A walk takes nothing away.
proof fn lemma_walk_keeps(
    traces: Map<u32, Seq<Seq<char>>>,
    done: Set<u32>,
    cwds: Map<u32, Seq<char>>,
    queue: Seq<u32>,
    known: Set<BehaviorView>,
    include_system: bool,
    context: ContextView,
)
    requires
        traces.dom().finite(),
        walk(traces, done, cwds, queue, known, include_system, context) is Ok,
    ensures
        known.subset_of(walk(traces, done, cwds, queue, known, include_system, context)->Ok_0.1),
    decreases traces.dom().difference(done).len(), queue.len(),
{
    reveal(walk);
    if queue.len() > 0 {
        let pid = queue[0];
        let rest = queue.drop_first();
        if done.contains(pid) || !traces.contains_key(pid) {
            lemma_walk_keeps(traces, done, cwds, rest, known, include_system, context);
        } else {
            let begun = Stride { cwd: cwds[pid], cwds, queue: rest, known };
            let s = lines_run(begun, traces[pid], traces.dom(), include_system, context)->Ok_0;
            lemma_left(traces.dom(), done, pid);
            lemma_lines_keep(begun, traces[pid], traces.dom(), include_system, context);
            lemma_walk_keeps(
                traces,
                done.insert(pid),
                s.cwds,
                s.queue,
                s.known,
                include_system,
                context,
            );
        }
    }
}

/// What the lines of a process that a walk follows report is known in the end.
pub proof fn lemma_walk_complete(
    traces: Map<u32, Seq<Seq<char>>>,
    root_cwd: Seq<char>,
    done: Set<u32>,
    cwds: Map<u32, Seq<char>>,
    queue: Seq<u32>,
    known: Set<BehaviorView>,
    include_system: bool,
    context: ContextView,
    wanted: u32,
) -> (start: Seq<char>)
    requires
        traces.dom().finite(),
        grounded(traces, root_cwd, cwds),
        placed(queue, cwds),
        walk(traces, done, cwds, queue, known, include_system, context) is Ok,
        walk(traces, done, cwds, queue, known, include_system, context)->Ok_0.0.contains(wanted),
        !done.contains(wanted),
    ensures
        starts_in(traces, root_cwd, wanted, start),
        process_is_recorded(
            traces[wanted],
            start,
            include_system,
            context,
            walk(traces, done, cwds, queue, known, include_system, context)->Ok_0.1,
        ),
    decreases traces.dom().difference(done).len(), queue.len(),
{
    reveal(walk);
    if queue.len() == 0 {
        arbitrary()
    } else {
        let pid = queue[0];
        let rest = queue.drop_first();
        lemma_rest_placed(queue, cwds);
        if done.contains(pid) || !traces.contains_key(pid) {
            lemma_walk_complete(
                traces,
                root_cwd,
                done,
                cwds,
                rest,
                known,
                include_system,
                context,
                wanted,
            )
        } else {
            let begun = Stride { cwd: cwds[pid], cwds, queue: rest, known };
            let s = lines_run(begun, traces[pid], traces.dom(), include_system, context)->Ok_0;
            lemma_left(traces.dom(), done, pid);
            if pid == wanted {
                lemma_lines_complete(begun, traces[pid], traces.dom(), include_system, context);
                lemma_walk_keeps(
                    traces,
                    done.insert(pid),
                    s.cwds,
                    s.queue,
                    s.known,
                    include_system,
                    context,
                );
                lemma_recorded_stays(
                    traces[pid],
                    cwds[pid],
                    include_system,
                    context,
                    s.known,
                    walk(traces, done, cwds, queue, known, include_system, context)->Ok_0.1,
                );
                cwds[pid]
            } else {
                lemma_walk_grounded(traces, root_cwd, begun, pid, include_system, context);
                lemma_walk_complete(
                    traces,
                    root_cwd,
                    done.insert(pid),
                    s.cwds,
                    s.queue,
                    s.known,
                    include_system,
                    context,
                    wanted,
                )
            }
        }
    }
}

/// Where a process starts: the root in `root_cwd`, every other one in the directory in
/// which a process that starts where it should was when it reported it as started.
pub proof fn law_start_directory(
    traces: Map<u32, Seq<Seq<char>>>,
    root_cwd: Seq<char>,
    pid: u32,
    start: Seq<char>,
)
    requires
        roots(traces).len() == 1,
        starts_in(traces, root_cwd, pid, start),
    ensures
        pid == roots(traces).choose() ==> start == root_cwd,
        pid != roots(traces).choose() ==> exists|parent: u32, n: int, before: Seq<char>|
            #[trigger] hands_down(traces, parent, n, before, pid, start) && starts_in(
                traces,
                root_cwd,
                parent,
                before,
            ),
{
    let root = roots(traces).choose();
    let depth = choose|depth: nat| #[trigger] starts_at(traces, root_cwd, pid, start, depth);
    assert(roots(traces).contains(root));
    if depth > 0 {
        let (parent, n, before) = choose|parent: u32, n: int, before: Seq<char>| #[trigger]
            hands_down(traces, parent, n, before, pid, start) && starts_at(
                traces,
                root_cwd,
                parent,
                before,
                (depth - 1) as nat,
            );
        assert(starts_in(traces, root_cwd, parent, before));
        assert(child_of(traces[parent][n]) == Some(pid));
        assert(spawned(traces, pid));
    }
}

/// Nothing that a traced process did is left out: all that its lines report, where their
/// results prove it, is recorded, each line seen from the directory to which the lines
/// before it had led the process. The root starts in `root_cwd`, every other process in
/// the directory in which the process that started it was at that time.
pub proof fn law_observed_behavior_is_recorded(
    traces: Map<u32, Seq<Seq<char>>>,
    root_cwd: Seq<char>,
    include_system: bool,
    context: ContextView,
    pid: u32,
) -> (start: Seq<char>)
    requires
        traces.dom().finite(),
        tree_behavior(traces, root_cwd, include_system, context) is Ok,
        traces.contains_key(pid),
    ensures
        starts_in(traces, root_cwd, pid, start),
        pid == roots(traces).choose() ==> start == root_cwd,
        process_is_recorded(
            traces[pid],
            start,
            include_system,
            context,
            tree_behavior(traces, root_cwd, include_system, context)->Ok_0,
        ),
{
    let root = roots(traces).choose();
    let cwds = Map::<u32, Seq<char>>::empty().insert(root, root_cwd);
    let walked = walk(traces, Set::empty(), cwds, seq![root], Set::empty(), include_system, context);
    reveal(least_left);
    assert(walked->Ok_0.0.contains(pid));
    lemma_root_grounded(traces, root_cwd);
    let start = lemma_walk_complete(
        traces,
        root_cwd,
        Set::empty(),
        cwds,
        seq![root],
        Set::empty(),
        include_system,
        context,
        pid,
    );
    law_start_directory(traces, root_cwd, pid, start);
    start
}

/// The lines whose results prove an operation.
pub open spec fn proven_lines(lines: Seq<Seq<char>>) -> Seq<Seq<char>> {
    lines.filter(|line: Seq<char>| strace::observable(line))
}

/// The traces without the lines that prove nothing.
pub open spec fn proven_traces(traces: Map<u32, Seq<Seq<char>>>) -> Map<u32, Seq<Seq<char>>> {
    traces.map_values(|lines: Seq<Seq<char>>| proven_lines(lines))
}

/// Following the lines that prove something is following all of them.
proof fn lemma_run_over_proven(
    s: Stride,
    lines: Seq<Seq<char>>,
    traced: Set<u32>,
    include_system: bool,
    context: ContextView,
)
    ensures
        lines_run(s, proven_lines(lines), traced, include_system, context) == lines_run(
            s,
            lines,
            traced,
            include_system,
            context,
        ),
    decreases lines.len(),
{
    reveal(Seq::filter);
    if lines.len() > 0 {
        let front = lines.drop_last();
        lemma_run_over_proven(s, front, traced, include_system, context);
        if strace::observable(lines.last()) {
            assert(proven_lines(lines) =~= proven_lines(front).push(lines.last()));
            assert(proven_lines(front).push(lines.last()).drop_last() =~= proven_lines(front));
        } else {
            assert(proven_lines(lines) =~= proven_lines(front));
        }
    }
}

/// The lines that prove something are those of the lines that do.
proof fn lemma_proven_lines(lines: Seq<Seq<char>>, line: Seq<char>)
    ensures
        proven_lines(lines).contains(line) <==> lines.contains(line) && strace::observable(line),
    decreases lines.len(),
{
    reveal(Seq::filter);
    if lines.len() > 0 {
        let front = lines.drop_last();
        lemma_proven_lines(front, line);
        let kept = proven_lines(front);
        assert(lines =~= front.push(lines.last()));
        assert(lines.contains(line) <==> front.contains(line) || line == lines.last()) by {
            if front.contains(line) {
                let k = choose|k: int| 0 <= k < front.len() && front[k] == line;
                assert(lines[k] == line);
            }
            if lines.contains(line) {
                let k = choose|k: int| 0 <= k < lines.len() && lines[k] == line;
                if k < front.len() {
                    assert(front[k] == line);
                }
            }
        }
        let longer = kept.push(lines.last());
        assert(longer.contains(line) <==> kept.contains(line) || line == lines.last()) by {
            if kept.contains(line) {
                let k = choose|k: int| 0 <= k < kept.len() && kept[k] == line;
                assert(longer[k] == line);
            }
            assert(longer[kept.len() as int] == lines.last());
        }
    }
}

/// The same processes are reported as started.
proof fn lemma_spawned_proven(traces: Map<u32, Seq<Seq<char>>>, pid: u32)
    ensures
        spawned(proven_traces(traces), pid) <==> spawned(traces, pid),
{
    let fewer = proven_traces(traces);
    if spawned(traces, pid) {
        let (parent, n) = choose|parent: u32, n: int|
            traces.contains_key(parent) && 0 <= n < traces[parent].len() && child_of(
                #[trigger] traces[parent][n],
            ) == Some(pid);
        let line = traces[parent][n];
        lemma_proven_lines(traces[parent], line);
        assert(traces[parent].contains(line));
        assert(fewer[parent].contains(line));
        let k = choose|k: int| 0 <= k < fewer[parent].len() && fewer[parent][k] == line;
        assert(child_of(fewer[parent][k]) == Some(pid));
    }
    if spawned(fewer, pid) {
        let (parent, n) = choose|parent: u32, n: int|
            fewer.contains_key(parent) && 0 <= n < fewer[parent].len() && child_of(
                #[trigger] fewer[parent][n],
            ) == Some(pid);
        let line = fewer[parent][n];
        lemma_proven_lines(traces[parent], line);
        assert(fewer[parent].contains(line));
        let k = choose|k: int| 0 <= k < traces[parent].len() && traces[parent][k] == line;
        assert(child_of(traces[parent][k]) == Some(pid));
    }
}

/// A walk over the lines that prove something is a walk over all of them.
proof fn lemma_walk_proven(
    traces: Map<u32, Seq<Seq<char>>>,
    done: Set<u32>,
    cwds: Map<u32, Seq<char>>,
    queue: Seq<u32>,
    known: Set<BehaviorView>,
    include_system: bool,
    context: ContextView,
)
    requires
        traces.dom().finite(),
    ensures
        walk(proven_traces(traces), done, cwds, queue, known, include_system, context) == walk(
            traces,
            done,
            cwds,
            queue,
            known,
            include_system,
            context,
        ),
    decreases traces.dom().difference(done).len(), queue.len(),
{
    reveal(walk);
    let fewer = proven_traces(traces);
    assert(fewer.dom() =~= traces.dom());
    if queue.len() > 0 {
        let pid = queue[0];
        let rest = queue.drop_first();
        if done.contains(pid) || !traces.contains_key(pid) {
            lemma_walk_proven(traces, done, cwds, rest, known, include_system, context);
        } else {
            let begun = Stride { cwd: cwds[pid], cwds, queue: rest, known };
            lemma_run_over_proven(begun, traces[pid], traces.dom(), include_system, context);
            lemma_left(traces.dom(), done, pid);
            match lines_run(begun, traces[pid], traces.dom(), include_system, context) {
                Ok(s) => {
                    lemma_walk_proven(
                        traces,
                        done.insert(pid),
                        s.cwds,
                        s.queue,
                        s.known,
                        include_system,
                        context,
                    );
                },
                Err(_) => {},
            }
        }
    }
}

/// Lines that prove nothing can be left out of the traces of a whole process tree: the
/// behavior, and every fault, stays the same.
pub proof fn law_unproven_lines_can_be_left_out(
    traces: Map<u32, Seq<Seq<char>>>,
    root_cwd: Seq<char>,
    include_system: bool,
    context: ContextView,
)
    requires
        traces.dom().finite(),
    ensures
        tree_behavior(proven_traces(traces), root_cwd, include_system, context) == tree_behavior(
            traces,
            root_cwd,
            include_system,
            context,
        ),
{
    let fewer = proven_traces(traces);
    assert(fewer.dom() =~= traces.dom());
    assert forall|pid: u32| roots(fewer).contains(pid) <==> roots(traces).contains(pid) by {
        lemma_spawned_proven(traces, pid);
    }
    assert(roots(fewer) =~= roots(traces));
    let root = roots(traces).choose();
    lemma_walk_proven(
        traces,
        Set::empty(),
        Map::<u32, Seq<char>>::empty().insert(root, root_cwd),
        seq![root],
        Set::empty(),
        include_system,
        context,
    );
}

} // verus!
