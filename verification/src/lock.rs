//! The lock: the set of observed behaviors, its counts and its differences.

use vstd::prelude::*;

use crate::behavior;
use crate::behavior::{Behavior, BehaviorView, Place};

verus! {

/// The version of the lockfile schema that is written.
pub const LOCK_VERSION: u32 = 4;

/// The oldest version of the lockfile schema that is read.
pub const OLDEST_LOCK_VERSION: u32 = 1;

// ---------------------------------------------------------------------------
// Ordered sets of behaviors
// ---------------------------------------------------------------------------

/// Each behavior comes before all that follow it.
pub open spec fn ordered(s: Seq<BehaviorView>) -> bool {
    forall|i: int, j: int| 0 <= i < j < s.len() ==> behavior::precedes(#[trigger] s[i], #[trigger] s[j])
}

/// The views of a list of behaviors.
pub open spec fn views(v: Seq<Behavior>) -> Seq<BehaviorView> {
    Seq::new(v.len(), |i: int| v[i]@)
}

/// A set of behaviors, kept in their order.
#[derive(Debug, PartialEq, Eq)]
pub struct BehaviorSet {
    items: Vec<Behavior>,
}

impl View for BehaviorSet {
    type V = Seq<BehaviorView>;

    closed spec fn view(&self) -> Seq<BehaviorView> {
        views(self.items@)
    }
}

/// Two ordered lists of the same behaviors are the same list.
pub proof fn law_order_is_canonical(a: Seq<BehaviorView>, b: Seq<BehaviorView>)
    requires
        ordered(a),
        ordered(b),
        a.to_set() == b.to_set(),
    ensures
        a == b,
    decreases a.len(),
{
    if a.len() == 0 {
        if b.len() > 0 {
            assert(b.to_set().contains(b[0]));
            assert(a.to_set().contains(b[0]));
        }
        assert(a == b);
    } else {
        assert(a.to_set().contains(a.last()));
        assert(b.to_set().contains(a.last()));
        assert(b.to_set().contains(b.last()));
        assert(a.to_set().contains(b.last()));
        let i = choose|i: int| 0 <= i < b.len() && b[i] == a.last();
        let j = choose|j: int| 0 <= j < a.len() && a[j] == b.last();
        behavior::law_behavior_order(a.last(), b.last(), a.last());
        if i < b.len() - 1 {
            assert(behavior::precedes(b[i], b[b.len() - 1]));
        }
        if j < a.len() - 1 {
            assert(behavior::precedes(a[j], a[a.len() - 1]));
        }
        assert(a.last() == b.last());
        let x = a.drop_last();
        let y = b.drop_last();
        assert forall|v: BehaviorView| x.to_set().contains(v) implies y.to_set().contains(v) by {
            lemma_front(a, v);
            lemma_front(b, v);
            assert(a.to_set().contains(v) == b.to_set().contains(v));
        }
        assert forall|v: BehaviorView| y.to_set().contains(v) implies x.to_set().contains(v) by {
            lemma_front(a, v);
            lemma_front(b, v);
            assert(a.to_set().contains(v) == b.to_set().contains(v));
        }
        assert(x.to_set() =~= y.to_set());
        assert(ordered(x)) by {
            assert forall|i: int, j: int| 0 <= i < j < x.len() implies behavior::precedes(
                #[trigger] x[i],
                #[trigger] x[j],
            ) by {
                assert(x[i] == a[i] && x[j] == a[j]);
            }
        }
        assert(ordered(y)) by {
            assert forall|i: int, j: int| 0 <= i < j < y.len() implies behavior::precedes(
                #[trigger] y[i],
                #[trigger] y[j],
            ) by {
                assert(y[i] == b[i] && y[j] == b[j]);
            }
        }
        law_order_is_canonical(x, y);
        assert(a == x.push(a.last()));
        assert(b == y.push(b.last()));
    }
}

/// What an ordered list holds in front of its last behavior.
proof fn lemma_front(a: Seq<BehaviorView>, v: BehaviorView)
    requires
        ordered(a),
        a.len() > 0,
    ensures
        a.drop_last().to_set().contains(v) <==> a.to_set().contains(v) && v != a.last(),
{
    let x = a.drop_last();
    behavior::law_behavior_order(v, v, v);
    if x.to_set().contains(v) {
        let k = choose|k: int| 0 <= k < x.len() && x[k] == v;
        assert(a[k] == v);
        assert(behavior::precedes(a[k], a[a.len() - 1]));
        assert(a.contains(v));
    }
    if a.to_set().contains(v) && v != a.last() {
        let k = choose|k: int| 0 <= k < a.len() && a[k] == v;
        assert(x[k] == v);
        assert(x.contains(v));
    }
}

/// What putting a behavior in its place in an ordered list gives.
proof fn lemma_insert(s: Seq<BehaviorView>, at: int, v: BehaviorView)
    requires
        ordered(s),
        0 <= at <= s.len(),
        forall|i: int| 0 <= i < at ==> behavior::precedes(#[trigger] s[i], v),
        forall|i: int| at <= i < s.len() ==> behavior::precedes(v, #[trigger] s[i]),
    ensures
        ordered(s.insert(at, v)),
        s.insert(at, v).to_set() == s.to_set().insert(v),
{
    let t = s.insert(at, v);
    assert forall|i: int, j: int| 0 <= i < j < t.len() implies behavior::precedes(
        #[trigger] t[i],
        #[trigger] t[j],
    ) by {
        let x = if i < at {
            i
        } else {
            i - 1
        };
        let y = if j < at {
            j
        } else {
            j - 1
        };
        if i != at {
            assert(t[i] == s[x]);
        }
        if j != at {
            assert(t[j] == s[y]);
        }
    }
    assert forall|w: BehaviorView| t.to_set().contains(w) <==> s.to_set().insert(v).contains(w) by {
        if t.contains(w) {
            let k = choose|k: int| 0 <= k < t.len() && t[k] == w;
            if k < at {
                assert(s[k] == w);
            } else if k > at {
                assert(s[k - 1] == w);
            }
        }
        if s.contains(w) {
            let k = choose|k: int| 0 <= k < s.len() && s[k] == w;
            if k < at {
                assert(t[k] == w);
            } else {
                assert(t[k + 1] == w);
            }
        }
        assert(t[at] == v);
    }
    assert(t.to_set() =~= s.to_set().insert(v));
}

impl BehaviorSet {
    /// The behaviors stand in their order, none of them twice.
    #[verifier::type_invariant]
    pub closed spec fn wf(self) -> bool {
        ordered(self@)
    }

    /// An empty set.
    pub fn new() -> (r: Self)
        ensures
            r@ == Seq::<BehaviorView>::empty(),
            ordered(r@),
    {
        let r = BehaviorSet { items: Vec::new() };
        assert(r@ =~= Seq::<BehaviorView>::empty());
        r
    }

    /// The number of behaviors.
    pub fn len(&self) -> (r: usize)
        ensures
            r == self@.len(),
    {
        self.items.len()
    }

    /// Tells whether there is no behavior.
    pub fn is_empty(&self) -> (r: bool)
        ensures
            r == (self@.len() == 0),
    {
        self.items.len() == 0
    }

    /// The behaviors in their order.
    pub fn as_slice(&self) -> (r: &[Behavior])
        ensures
            views(r@) == self@,
            ordered(self@),
    {
        proof {
            use_type_invariant(self);
        }
        self.items.as_slice()
    }

    /// How many behaviors come before the given one.
    fn position(&self, wanted: &Behavior) -> (r: usize)
        ensures
            r <= self@.len(),
            forall|i: int| 0 <= i < r ==> behavior::precedes(#[trigger] self@[i], wanted@),
            forall|i: int| r <= i < self@.len() ==> !behavior::precedes(#[trigger] self@[i], wanted@),
    {
        proof {
            use_type_invariant(self);
        }
        let mut low: usize = 0;
        let mut high: usize = self.items.len();
        while low < high
            invariant
                ordered(self@),
                low <= high <= self@.len(),
                forall|i: int| 0 <= i < low ==> behavior::precedes(#[trigger] self@[i], wanted@),
                forall|i: int|
                    high <= i < self@.len() ==> !behavior::precedes(#[trigger] self@[i], wanted@),
            decreases high - low,
        {
            let middle: usize = low + (high - low) / 2;
            let place = self.items[middle].place(wanted);
            assert(self@[middle as int] == self.items@[middle as int]@);
            if place == Place::Before {
                assert forall|i: int| 0 <= i < middle + 1 implies behavior::precedes(
                    #[trigger] self@[i],
                    wanted@,
                ) by {
                    behavior::law_behavior_order(self@[i], self@[middle as int], wanted@);
                }
                low = middle + 1;
            } else {
                assert forall|i: int| middle <= i < self@.len() implies !behavior::precedes(
                    #[trigger] self@[i],
                    wanted@,
                ) by {
                    behavior::law_behavior_order(self@[middle as int], self@[i], wanted@);
                }
                high = middle;
            }
        }
        low
    }

    /// Tells whether the behavior is in the set.
    pub fn contains(&self, wanted: &Behavior) -> (r: bool)
        ensures
            r == self@.contains(wanted@),
    {
        proof {
            use_type_invariant(self);
        }
        let at: usize = self.position(wanted);
        let r = at < self.items.len() && self.items[at].place(wanted) == Place::Same;
        proof {
            if r {
                assert(self@[at as int] == wanted@);
            }
            if self@.contains(wanted@) {
                let k = choose|k: int| 0 <= k < self@.len() && self@[k] == wanted@;
                behavior::law_behavior_order(wanted@, wanted@, wanted@);
                if at < k {
                    assert(behavior::precedes(self@[at as int], self@[k]));
                }
                assert(k == at);
                assert(self@[at as int] == self.items@[at as int]@);
            }
        }
        r
    }

    /// Adds a behavior to the set.
    pub fn insert(&mut self, added: Behavior)
        ensures
            ordered(final(self)@),
            final(self)@.to_set() == old(self)@.to_set().insert(added@),
    {
        proof {
            use_type_invariant(&*self);
        }
        let ghost before = self@;
        let at: usize = self.position(&added);
        if at < self.items.len() && self.items[at].place(&added) == Place::Same {
            assert(before[at as int] == added@);
            assert(before.contains(added@));
            assert(before.to_set() =~= before.to_set().insert(added@));
            return;
        }
        proof {
            assert forall|i: int| at <= i < before.len() implies behavior::precedes(
                added@,
                #[trigger] before[i],
            ) by {
                assert(before[at as int] == self.items@[at as int]@);
                behavior::law_behavior_order(before[at as int], added@, before[i]);
                behavior::law_behavior_order(added@, before[at as int], before[i]);
                if at < i {
                    assert(behavior::precedes(before[at as int], before[i]));
                }
            }
            lemma_insert(before, at as int, added@);
        }
        let mut items: Vec<Behavior> = Vec::new();
        let ghost added_view = added@;
        std::mem::swap(&mut items, &mut self.items);
        items.insert(at, added);
        assert(views(items@) =~= before.insert(at as int, added_view));
        self.items = items;
    }
}

/// A copy of a list of behaviors.
pub(crate) fn copied(list: &Vec<Behavior>) -> (r: Vec<Behavior>)
    ensures
        views(r@) == views(list@),
{
    let mut r: Vec<Behavior> = Vec::new();
    let ghost all = views(list@);
    let mut i: usize = 0;
    while i < list.len()
        invariant
            i <= list@.len(),
            all == views(list@),
            views(r@) == all.take(i as int),
        decreases list@.len() - i,
    {
        let ghost before = views(r@);
        let item = list[i].clone();
        assert(item@ == all[i as int]);
        r.push(item);
        assert(views(r@) =~= before.push(all[i as int]));
        assert(all.take(i + 1) =~= all.take(i as int).push(all[i as int]));
        i = i + 1;
    }
    assert(all.take(i as int) == all);
    r
}

impl Clone for BehaviorSet {
    fn clone(&self) -> (r: Self)
        ensures
            r@ == self@,
            ordered(r@),
    {
        proof {
            use_type_invariant(self);
        }
        let items = copied(&self.items);
        BehaviorSet { items }
    }
}

// ---------------------------------------------------------------------------
// Locks
// ---------------------------------------------------------------------------

/// The recorded behavior of a command.
#[derive(Debug, PartialEq, Eq)]
pub struct BehaviorLock {
    /// The version of the lockfile schema.
    pub version: u32,
    /// The observed behaviors.
    pub behaviors: BehaviorSet,
}

impl View for BehaviorLock {
    type V = Set<BehaviorView>;

    /// The set of recorded behaviors.
    open spec fn view(&self) -> Set<BehaviorView> {
        self.behaviors@.to_set()
    }
}

impl Clone for BehaviorLock {
    fn clone(&self) -> (r: Self)
        ensures
            r.version == self.version,
            r.behaviors@ == self.behaviors@,
    {
        BehaviorLock { version: self.version, behaviors: self.behaviors.clone() }
    }
}

impl Default for BehaviorLock {
    fn default() -> (r: Self)
        ensures
            r.version == LOCK_VERSION,
            r.behaviors@ == Seq::<BehaviorView>::empty(),
    {
        BehaviorLock::new()
    }
}

/// Why a lock cannot be read.
#[derive(Debug, Clone, Copy, PartialEq, Eq, Structural)]
pub enum LockError {
    /// The lock has a schema version that is not read here.
    UnsupportedVersion(u32),
}

/// The schema versions that are read.
pub open spec fn readable_version(version: u32) -> bool {
    OLDEST_LOCK_VERSION <= version <= LOCK_VERSION
}

impl BehaviorLock {
    /// An empty lock of the current schema version.
    pub fn new() -> (r: Self)
        ensures
            r.version == LOCK_VERSION,
            r.behaviors@ == Seq::<BehaviorView>::empty(),
            r@ == Set::<BehaviorView>::empty(),
    {
        let r = BehaviorLock { version: LOCK_VERSION, behaviors: BehaviorSet::new() };
        assert(r@ =~= Set::<BehaviorView>::empty());
        r
    }

    /// The lock that a lockfile of the given version with the given entries holds. The
    /// entries of a lock, in their order, give back that lock.
    pub fn from_entries(version: u32, entries: Vec<Behavior>) -> (r: Result<Self, LockError>)
        ensures
            match r {
                Ok(lock) => {
                    &&& readable_version(version)
                    &&& lock.version == version
                    &&& lock@ == views(entries@).to_set()
                    &&& ordered(lock.behaviors@)
                    &&& ordered(views(entries@)) ==> lock.behaviors@ == views(entries@)
                },
                Err(e) => !readable_version(version) && e == LockError::UnsupportedVersion(version),
            },
    {
        if version < OLDEST_LOCK_VERSION || version > LOCK_VERSION {
            return Err(LockError::UnsupportedVersion(version));
        }
        let mut behaviors = BehaviorSet::new();
        let ghost all = views(entries@);
        let mut i: usize = 0;
        assert(behaviors@.to_set() =~= all.take(0).to_set());
        while i < entries.len()
            invariant
                i <= entries@.len(),
                all == views(entries@),
                ordered(behaviors@),
                behaviors@.to_set() == all.take(i as int).to_set(),
            decreases entries@.len() - i,
        {
            behaviors.insert(entries[i].clone());
            proof {
                lemma_push_to_set(all.take(i as int), all[i as int]);
                assert(all.take(i + 1) == all.take(i as int).push(all[i as int]));
            }
            i = i + 1;
        }
        assert(all.take(i as int) == all);
        proof {
            if ordered(all) {
                law_order_is_canonical(behaviors@, all);
            }
        }
        Ok(BehaviorLock { version, behaviors })
    }

    /// Adds a behavior.
    pub fn insert(&mut self, behavior: Behavior)
        ensures
            final(self).version == old(self).version,
            final(self)@ == old(self)@.insert(behavior@),
            ordered(final(self).behaviors@),
    {
        self.behaviors.insert(behavior);
    }
}

/// The set of a longer list.
proof fn lemma_push_to_set<A>(s: Seq<A>, a: A)
    ensures
        s.push(a).to_set() == s.to_set().insert(a),
{
    assert forall|x: A| s.push(a).to_set().contains(x) <==> s.to_set().insert(a).contains(x) by {
        if s.contains(x) {
            let k = choose|k: int| 0 <= k < s.len() && s[k] == x;
            assert(s.push(a)[k] == x);
        }
        if s.push(a).contains(x) {
            let k = choose|k: int| 0 <= k < s.push(a).len() && s.push(a)[k] == x;
            if k < s.len() {
                assert(s[k] == x);
            }
        }
        assert(s.push(a)[s.len() as int] == a);
    }
    assert(s.push(a).to_set() =~= s.to_set().insert(a));
}

// ---------------------------------------------------------------------------
// Counts
// ---------------------------------------------------------------------------

/// The categories in which behaviors are counted.
#[derive(Debug, Clone, Copy, PartialEq, Eq, Structural)]
pub enum Category {
    Exec,
    FileRead,
    FileWrite,
    FileDelete,
    FileRename,
    DirectoryCreate,
    DirectoryDelete,
    SymlinkCreate,
    HardlinkCreate,
    Network,
    Unix,
}

/// The category of a behavior. An exchange counts as a rename, and both sorts of
/// Unix sockets count as one.
pub open spec fn category(b: BehaviorView) -> Category {
    match b {
        BehaviorView::Exec { .. } => Category::Exec,
        BehaviorView::FileRead { .. } => Category::FileRead,
        BehaviorView::FileWrite { .. } => Category::FileWrite,
        BehaviorView::FileDelete { .. } => Category::FileDelete,
        BehaviorView::FileRename { .. } => Category::FileRename,
        BehaviorView::RenameExchange { .. } => Category::FileRename,
        BehaviorView::DirectoryCreate { .. } => Category::DirectoryCreate,
        BehaviorView::DirectoryDelete { .. } => Category::DirectoryDelete,
        BehaviorView::SymlinkCreate { .. } => Category::SymlinkCreate,
        BehaviorView::HardlinkCreate { .. } => Category::HardlinkCreate,
        BehaviorView::NetworkConnect { .. } => Category::Network,
        BehaviorView::UnixConnect { .. } => Category::Unix,
        BehaviorView::UnixAbstractConnect { .. } => Category::Unix,
    }
}

/// The category of a behavior.
pub fn category_of(b: &Behavior) -> (r: Category)
    ensures
        r == category(b@),
{
    match b {
        Behavior::Exec { .. } => Category::Exec,
        Behavior::FileRead { .. } => Category::FileRead,
        Behavior::FileWrite { .. } => Category::FileWrite,
        Behavior::FileDelete { .. } => Category::FileDelete,
        Behavior::FileRename { .. } => Category::FileRename,
        Behavior::RenameExchange { .. } => Category::FileRename,
        Behavior::DirectoryCreate { .. } => Category::DirectoryCreate,
        Behavior::DirectoryDelete { .. } => Category::DirectoryDelete,
        Behavior::SymlinkCreate { .. } => Category::SymlinkCreate,
        Behavior::HardlinkCreate { .. } => Category::HardlinkCreate,
        Behavior::NetworkConnect { .. } => Category::Network,
        Behavior::UnixConnect { .. } => Category::Unix,
        Behavior::UnixAbstractConnect { .. } => Category::Unix,
    }
}

/// How many behaviors of the list fall in the category.
pub open spec fn count_of(s: Seq<BehaviorView>, c: Category) -> int
    decreases s.len(),
{
    if s.len() == 0 {
        0
    } else {
        count_of(s.drop_last(), c) + (if category(s.last()) == c {
            1int
        } else {
            0
        })
    }
}

/// How many behaviors of each category there are.
#[derive(Debug, Clone, Copy, PartialEq, Eq, Structural)]
pub struct BehaviorCounts {
    /// Programs executed.
    pub execs: usize,
    pub file_read: usize,
    pub file_write: usize,
    pub file_delete: usize,
    pub file_rename: usize,
    pub directory_create: usize,
    pub directory_delete: usize,
    pub symlink_create: usize,
    pub hardlink_create: usize,
    pub network: usize,
    pub unix: usize,
}

impl Default for BehaviorCounts {
    fn default() -> (r: Self)
        ensures
            forall|c: Category| #[trigger] r.of(c) == 0,
            r.sum() == 0,
    {
        BehaviorCounts {
            execs: 0,
            file_read: 0,
            file_write: 0,
            file_delete: 0,
            file_rename: 0,
            directory_create: 0,
            directory_delete: 0,
            symlink_create: 0,
            hardlink_create: 0,
            network: 0,
            unix: 0,
        }
    }
}

impl BehaviorCounts {
    /// The count of one category.
    pub open spec fn of(self, c: Category) -> usize {
        match c {
            Category::Exec => self.execs,
            Category::FileRead => self.file_read,
            Category::FileWrite => self.file_write,
            Category::FileDelete => self.file_delete,
            Category::FileRename => self.file_rename,
            Category::DirectoryCreate => self.directory_create,
            Category::DirectoryDelete => self.directory_delete,
            Category::SymlinkCreate => self.symlink_create,
            Category::HardlinkCreate => self.hardlink_create,
            Category::Network => self.network,
            Category::Unix => self.unix,
        }
    }

    /// The sum over all categories.
    pub open spec fn sum(self) -> int {
        self.execs + self.file_read + self.file_write + self.file_delete + self.file_rename
            + self.directory_create + self.directory_delete + self.symlink_create
            + self.hardlink_create + self.network + self.unix
    }

    /// These counts with one more behavior of the category.
    fn counted(self, c: Category) -> (r: Self)
        requires
            self.sum() < usize::MAX,
        ensures
            r.sum() == self.sum() + 1,
            forall|d: Category|
                #[trigger] r.of(d) == self.of(d) + (if d == c {
                    1int
                } else {
                    0
                }),
    {
        let mut r = self;
        match c {
            Category::Exec => r.execs = r.execs + 1,
            Category::FileRead => r.file_read = r.file_read + 1,
            Category::FileWrite => r.file_write = r.file_write + 1,
            Category::FileDelete => r.file_delete = r.file_delete + 1,
            Category::FileRename => r.file_rename = r.file_rename + 1,
            Category::DirectoryCreate => r.directory_create = r.directory_create + 1,
            Category::DirectoryDelete => r.directory_delete = r.directory_delete + 1,
            Category::SymlinkCreate => r.symlink_create = r.symlink_create + 1,
            Category::HardlinkCreate => r.hardlink_create = r.hardlink_create + 1,
            Category::Network => r.network = r.network + 1,
            Category::Unix => r.unix = r.unix + 1,
        }
        r
    }

    /// The sum over all categories.
    pub fn total(&self) -> (r: usize)
        requires
            self.sum() <= usize::MAX,
        ensures
            r == self.sum(),
    {
        self.execs + self.file_read + self.file_write + self.file_delete + self.file_rename
            + self.directory_create + self.directory_delete + self.symlink_create
            + self.hardlink_create + self.network + self.unix
    }
}

impl BehaviorLock {
    /// Counts the behaviors of each category. Every behavior is counted once.
    pub fn counts(&self) -> (r: BehaviorCounts)
        ensures
            forall|c: Category| #[trigger] r.of(c) == count_of(self.behaviors@, c),
            r.sum() == self.behaviors@.len(),
            r.sum() <= usize::MAX,
    {
        let items = self.behaviors.as_slice();
        let ghost all = self.behaviors@;
        let mut counts = BehaviorCounts::default();
        let mut i: usize = 0;
        let total: usize = items.len();
        assert(counts.sum() == 0);
        while i < items.len()
            invariant
                i <= items@.len(),
                items@.len() == total,
                all == views(items@),
                counts.sum() == i,
                forall|c: Category| #[trigger] counts.of(c) == count_of(all.take(i as int), c),
            decreases items@.len() - i,
        {
            let ghost before = counts;
            assert(all.take(i + 1).drop_last() == all.take(i as int));
            assert(all.take(i + 1).last() == items@[i as int]@);
            counts = counts.counted(category_of(&items[i]));
            assert forall|c: Category| #[trigger] counts.of(c) == count_of(all.take(i + 1), c) by {
                assert(before.of(c) == count_of(all.take(i as int), c));
            }
            i = i + 1;
        }
        assert(all.take(i as int) == all);
        counts
    }
}

// ---------------------------------------------------------------------------
// Differences
// ---------------------------------------------------------------------------

/// What two locks have not in common.
#[derive(Debug)]
pub struct BehaviorDiff {
    /// What only the later lock holds.
    pub added: Vec<Behavior>,
    /// What only the earlier lock holds.
    pub removed: Vec<Behavior>,
}

/// The behaviors of `s` that are not in `t`, in their order.
pub open spec fn without(s: Seq<BehaviorView>, t: Seq<BehaviorView>) -> Seq<BehaviorView> {
    s.filter(|b: BehaviorView| !t.contains(b))
}

/// The behaviors of `a` that are not in `b`.
pub(crate) fn difference(a: &BehaviorSet, b: &BehaviorSet) -> (r: Vec<Behavior>)
    ensures
        views(r@) == without(a@, b@),
{
    let items = a.as_slice();
    let ghost all = a@;
    let ghost absent = |v: BehaviorView| !b@.contains(v);
    let mut r: Vec<Behavior> = Vec::new();
    let mut i: usize = 0;
    assert(views(r@) =~= all.take(0).filter(absent)) by {
        reveal(Seq::filter);
    }
    while i < items.len()
        invariant
            i <= items@.len(),
            all == views(items@),
            absent == (|v: BehaviorView| !b@.contains(v)),
            views(r@) == all.take(i as int).filter(absent),
        decreases items@.len() - i,
    {
        let ghost before = views(r@);
        assert(all.take(i + 1).drop_last() == all.take(i as int));
        assert(all.take(i + 1).last() == items@[i as int]@);
        proof {
            reveal(Seq::filter);
        }
        if !b.contains(&items[i]) {
            let item = items[i].clone();
            r.push(item);
            assert(views(r@) =~= before.push(items@[i as int]@));
        }
        i = i + 1;
    }
    assert(all.take(i as int) == all);
    r
}

/// What the later lock has that the earlier one has not, and the other way round.
pub fn diff(earlier: &BehaviorLock, later: &BehaviorLock) -> (r: BehaviorDiff)
    ensures
        views(r.added@) == without(later.behaviors@, earlier.behaviors@),
        views(r.removed@) == without(earlier.behaviors@, later.behaviors@),
{
    BehaviorDiff {
        added: difference(&later.behaviors, &earlier.behaviors),
        removed: difference(&earlier.behaviors, &later.behaviors),
    }
}

// ---------------------------------------------------------------------------
// Laws
// ---------------------------------------------------------------------------

/// What a list has that another one has not.
pub proof fn law_without(s: Seq<BehaviorView>, t: Seq<BehaviorView>, b: BehaviorView)
    ensures
        without(s, t).contains(b) <==> s.contains(b) && !t.contains(b),
    decreases s.len(),
{
    reveal(Seq::filter);
    if s.len() == 0 {
        assert(without(s, t).len() == 0);
    } else {
        let front = s.drop_last();
        law_without(front, t, b);
        let rest = without(front, t);
        lemma_push_to_set(front, s.last());
        lemma_push_to_set(rest, s.last());
        assert(s == front.push(s.last()));
        assert(s.contains(b) <==> front.push(s.last()).to_set().contains(b));
        assert(front.contains(b) <==> front.to_set().contains(b));
        assert(rest.contains(b) <==> rest.to_set().contains(b));
        assert(rest.push(s.last()).contains(b) <==> rest.push(s.last()).to_set().contains(b));
    }
}

/// Nothing is left of a list exactly where the other one has all of it.
pub proof fn law_without_is_empty(s: Seq<BehaviorView>, t: Seq<BehaviorView>)
    ensures
        without(s, t).len() == 0 <==> s.to_set().subset_of(t.to_set()),
{
    if without(s, t).len() == 0 {
        assert forall|b: BehaviorView| s.to_set().contains(b) implies t.to_set().contains(b) by {
            law_without(s, t, b);
        }
    } else {
        let b = without(s, t)[0];
        assert(without(s, t).contains(b));
        law_without(s, t, b);
        assert(s.to_set().contains(b) && !t.to_set().contains(b));
    }
}

/// A lock differs from itself in nothing.
pub proof fn law_no_difference_to_itself(s: Seq<BehaviorView>)
    ensures
        without(s, s).len() == 0,
{
    law_without_is_empty(s, s);
}

/// Taking away what was removed and adding what was added turns the earlier behavior
/// into the later one.
pub proof fn law_difference_is_complete(earlier: Seq<BehaviorView>, later: Seq<BehaviorView>)
    ensures
        earlier.to_set().difference(without(earlier, later).to_set()).union(
            without(later, earlier).to_set(),
        ) == later.to_set(),
{
    let kept = earlier.to_set().difference(without(earlier, later).to_set());
    let all = kept.union(without(later, earlier).to_set());
    assert forall|b: BehaviorView| all.contains(b) <==> later.to_set().contains(b) by {
        law_without(earlier, later, b);
        law_without(later, earlier, b);
    }
    assert(all =~= later.to_set());
}

/// Recording a behavior again changes nothing.
pub proof fn law_recording_again_changes_nothing(known: Set<BehaviorView>, b: BehaviorView)
    ensures
        known.insert(b).insert(b) == known.insert(b),
{
    assert(known.insert(b).insert(b) =~= known.insert(b));
}

/// The order in which two behaviors are recorded makes no difference.
pub proof fn law_recording_order_makes_no_difference(
    known: Set<BehaviorView>,
    a: BehaviorView,
    b: BehaviorView,
)
    ensures
        known.insert(a).insert(b) == known.insert(b).insert(a),
{
    assert(known.insert(a).insert(b) =~= known.insert(b).insert(a));
}

/// The schema version that is written, and those that are read.
pub proof fn law_schema_versions(version: u32)
    ensures
        LOCK_VERSION == 4,
        readable_version(version) <==> version == 1 || version == 2 || version == 3 || version
            == 4,
{
}

/// Each count is that of its own kinds.
pub proof fn law_counts_are_of_their_kind(c: BehaviorCounts)
    ensures
        c.of(Category::Exec) == c.execs,
        c.of(Category::FileRead) == c.file_read,
        c.of(Category::FileWrite) == c.file_write,
        c.of(Category::FileDelete) == c.file_delete,
        c.of(Category::FileRename) == c.file_rename,
        c.of(Category::DirectoryCreate) == c.directory_create,
        c.of(Category::DirectoryDelete) == c.directory_delete,
        c.of(Category::SymlinkCreate) == c.symlink_create,
        c.of(Category::HardlinkCreate) == c.hardlink_create,
        c.of(Category::Network) == c.network,
        c.of(Category::Unix) == c.unix,
        c.sum() == c.execs + c.file_read + c.file_write + c.file_delete + c.file_rename
            + c.directory_create + c.directory_delete + c.symlink_create + c.hardlink_create
            + c.network + c.unix,
{
}

/// One behavior adds one to the count of its own kind and nothing to any other.
pub proof fn law_each_behavior_counts_once(s: Seq<BehaviorView>, b: BehaviorView, c: Category)
    ensures
        count_of(Seq::empty(), c) == 0,
        count_of(s.push(b), c) == count_of(s, c) + (if (match b {
            BehaviorView::Exec { .. } => c == Category::Exec,
            BehaviorView::FileRead { .. } => c == Category::FileRead,
            BehaviorView::FileWrite { .. } => c == Category::FileWrite,
            BehaviorView::FileDelete { .. } => c == Category::FileDelete,
            BehaviorView::FileRename { .. } => c == Category::FileRename,
            BehaviorView::RenameExchange { .. } => c == Category::FileRename,
            BehaviorView::DirectoryCreate { .. } => c == Category::DirectoryCreate,
            BehaviorView::DirectoryDelete { .. } => c == Category::DirectoryDelete,
            BehaviorView::SymlinkCreate { .. } => c == Category::SymlinkCreate,
            BehaviorView::HardlinkCreate { .. } => c == Category::HardlinkCreate,
            BehaviorView::NetworkConnect { .. } => c == Category::Network,
            BehaviorView::UnixConnect { .. } => c == Category::Unix,
            BehaviorView::UnixAbstractConnect { .. } => c == Category::Unix,
        }) {
            1int
        } else {
            0
        }),
{
    assert(s.push(b).drop_last() =~= s);
}

} // verus!
