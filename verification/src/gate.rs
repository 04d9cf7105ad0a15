//! Gates: which behavior is refused, given a baseline and a policy.

use vstd::prelude::*;

use crate::behavior::{Behavior, BehaviorView};
use crate::lock;
use crate::lock::BehaviorLock;
use crate::text;

verus! {

// ---------------------------------------------------------------------------
// Patterns
// ---------------------------------------------------------------------------

/// The value matches the pattern. A pattern is `exact:`, `prefix:` or `suffix:` and a
/// text, a path that ends in `/**`, or else the value itself. A `*` elsewhere stands
/// for itself.
pub open spec fn pattern_matches(pattern: Seq<char>, value: Seq<char>) -> bool {
    if text::begins(pattern, "exact:"@) {
        value == pattern.skip("exact:"@.len() as int)
    } else if text::begins(pattern, "prefix:"@) {
        text::begins(value, pattern.skip("prefix:"@.len() as int))
    } else if text::begins(pattern, "suffix:"@) {
        text::ends(value, pattern.skip("suffix:"@.len() as int))
    } else if text::ends(pattern, "/**"@) {
        in_scope(pattern.take(pattern.len() - "/**"@.len()), value)
    } else {
        value == pattern
    }
}

/// The value is the path `base` itself or a path below it.
pub open spec fn in_scope(base: Seq<char>, value: Seq<char>) -> bool {
    value == base || text::begins(value, base + "/"@)
}

/// The value matches one of the patterns.
pub open spec fn matches_any(patterns: Seq<Seq<char>>, value: Seq<char>) -> bool {
    exists|i: int| 0 <= i < patterns.len() && pattern_matches(#[trigger] patterns[i], value)
}

/// One of the values matches one of the patterns.
pub open spec fn some_match(patterns: Seq<Seq<char>>, values: Seq<Seq<char>>) -> bool {
    exists|i: int| 0 <= i < values.len() && matches_any(patterns, #[trigger] values[i])
}

/// Each of the values matches one of the patterns.
pub open spec fn all_match(patterns: Seq<Seq<char>>, values: Seq<Seq<char>>) -> bool {
    forall|i: int| 0 <= i < values.len() ==> matches_any(patterns, #[trigger] values[i])
}

/// Tells whether the value matches the pattern.
pub fn matches_pattern(pattern: &str, value: &str) -> (r: bool)
    ensures
        r == pattern_matches(pattern@, value@),
{
    let pattern = text::to_chars(pattern);
    let pattern = pattern.as_slice();
    let value = text::to_chars(value);
    let value = value.as_slice();
    if let Some(wanted) = text::strip_front(pattern, "exact:") {
        return text::same(value, wanted);
    }
    if let Some(front) = text::strip_front(pattern, "prefix:") {
        return text::occurs_at(value, front, 0);
    }
    if let Some(back) = text::strip_front(pattern, "suffix:") {
        let total: usize = value.len();
        return back.len() <= total && text::occurs_at(value, back, total - back.len());
    }
    if let Some(base) = text::strip_back(pattern, "/**") {
        return path_in_scope(base, value);
    }
    text::same(value, pattern)
}

/// Tells whether the value is the path `base` itself or a path below it.
fn path_in_scope(base: &[char], value: &[char]) -> (r: bool)
    ensures
        r == in_scope(base@, value@),
{
    proof {
        reveal_strlit("/");
    }
    let wanted: usize = base.len();
    let total: usize = value.len();
    let ghost longer = base@ + "/"@;
    assert(longer.len() == base@.len() + 1);
    assert(text::begins(value@, longer) ==> value@.take(base@.len() as int) == base@) by {
        if text::begins(value@, longer) {
            assert(value@.take(base@.len() as int) =~= longer.take(base@.len() as int));
            assert(longer.take(base@.len() as int) =~= base@);
        }
    }
    if !text::occurs_at(value, base, 0) {
        assert(value@ == base@ ==> value@.subrange(0, base@.len() as int) =~= base@);
        return false;
    }
    if total == wanted {
        assert(value@ =~= base@);
        return true;
    }
    assert(value@.subrange(0, longer.len() as int) =~= base@.push(value@[wanted as int]));
    assert(longer =~= base@.push('/'));
    assert(value@[wanted as int] != '/' ==> value@.subrange(0, longer.len() as int)[wanted as int]
        != longer[wanted as int]);
    value[wanted] == '/'
}

/// Tells whether the value matches one of the patterns.
pub fn any_pattern_matches(patterns: &Vec<String>, value: &str) -> (r: bool)
    ensures
        r == matches_any(text::strings(patterns@), value@),
{
    let ghost all = text::strings(patterns@);
    let mut i: usize = 0;
    while i < patterns.len()
        invariant
            i <= patterns@.len(),
            all == text::strings(patterns@),
            forall|k: int| 0 <= k < i ==> !pattern_matches(#[trigger] all[k], value@),
        decreases patterns@.len() - i,
    {
        assert(all[i as int] == patterns@[i as int]@);
        if matches_pattern(patterns[i].as_str(), value) {
            return true;
        }
        i = i + 1;
    }
    false
}

// ---------------------------------------------------------------------------
// Policies
// ---------------------------------------------------------------------------

/// What a policy has rules for.
#[derive(Debug, Clone, Copy, PartialEq, Eq, Structural)]
pub enum Area {
    Read,
    Exec,
    Write,
    Delete,
    Rename,
    Directory,
    Link,
    Network,
    Unix,
}

/// The area of a behavior.
pub open spec fn area(b: BehaviorView) -> Area {
    match b {
        BehaviorView::FileRead { .. } => Area::Read,
        BehaviorView::Exec { .. } => Area::Exec,
        BehaviorView::FileWrite { .. } => Area::Write,
        BehaviorView::FileDelete { .. } => Area::Delete,
        BehaviorView::DirectoryDelete { .. } => Area::Delete,
        BehaviorView::FileRename { .. } => Area::Rename,
        BehaviorView::RenameExchange { .. } => Area::Rename,
        BehaviorView::DirectoryCreate { .. } => Area::Directory,
        BehaviorView::SymlinkCreate { .. } => Area::Link,
        BehaviorView::HardlinkCreate { .. } => Area::Link,
        BehaviorView::NetworkConnect { .. } => Area::Network,
        BehaviorView::UnixConnect { .. } => Area::Unix,
        BehaviorView::UnixAbstractConnect { .. } => Area::Unix,
    }
}

/// The area of a behavior.
pub fn area_of(b: &Behavior) -> (r: Area)
    ensures
        r == area(b@),
{
    match b {
        Behavior::FileRead { .. } => Area::Read,
        Behavior::Exec { .. } => Area::Exec,
        Behavior::FileWrite { .. } => Area::Write,
        Behavior::FileDelete { .. } => Area::Delete,
        Behavior::DirectoryDelete { .. } => Area::Delete,
        Behavior::FileRename { .. } => Area::Rename,
        Behavior::RenameExchange { .. } => Area::Rename,
        Behavior::DirectoryCreate { .. } => Area::Directory,
        Behavior::SymlinkCreate { .. } => Area::Link,
        Behavior::HardlinkCreate { .. } => Area::Link,
        Behavior::NetworkConnect { .. } => Area::Network,
        Behavior::UnixConnect { .. } => Area::Unix,
        Behavior::UnixAbstractConnect { .. } => Area::Unix,
    }
}

/// The values of a behavior that patterns are held against.
pub open spec fn subjects(b: BehaviorView) -> Seq<Seq<char>> {
    match b {
        BehaviorView::Exec { path } => seq![path],
        BehaviorView::FileRead { path } => seq![path],
        BehaviorView::FileWrite { path } => seq![path],
        BehaviorView::FileDelete { path } => seq![path],
        BehaviorView::FileRename { from, to } => seq![from, to],
        BehaviorView::RenameExchange { left, right } => seq![left, right],
        BehaviorView::DirectoryCreate { path } => seq![path],
        BehaviorView::DirectoryDelete { path } => seq![path],
        BehaviorView::SymlinkCreate { target, link } => seq![target, link],
        BehaviorView::HardlinkCreate { from, to, .. } => seq![from, to],
        BehaviorView::NetworkConnect { address } => seq![address],
        BehaviorView::UnixConnect { path } => seq![path],
        BehaviorView::UnixAbstractConnect { address } => seq![address],
    }
}

/// The values of a behavior that patterns are held against, the second one only
/// where there are two.
fn subjects_of(b: &Behavior) -> (r: (&str, Option<&str>))
    ensures
        subjects(b@) =~= (match r.1 {
            Some(second) => seq![r.0@, second@],
            None => seq![r.0@],
        }),
{
    match b {
        Behavior::Exec { path } => (path.as_str(), None),
        Behavior::FileRead { path } => (path.as_str(), None),
        Behavior::FileWrite { path } => (path.as_str(), None),
        Behavior::FileDelete { path } => (path.as_str(), None),
        Behavior::FileRename { from, to } => (from.as_str(), Some(to.as_str())),
        Behavior::RenameExchange { left, right } => (left.as_str(), Some(right.as_str())),
        Behavior::DirectoryCreate { path } => (path.as_str(), None),
        Behavior::DirectoryDelete { path } => (path.as_str(), None),
        Behavior::SymlinkCreate { target, link } => (target.as_str(), Some(link.as_str())),
        Behavior::HardlinkCreate { from, to, .. } => (from.as_str(), Some(to.as_str())),
        Behavior::NetworkConnect { address } => (address.as_str(), None),
        Behavior::UnixConnect { path } => (path.as_str(), None),
        Behavior::UnixAbstractConnect { address } => (address.as_str(), None),
    }
}

/// The rules for one area.
#[derive(Debug)]
pub struct AreaPolicy {
    /// New behavior in this area is allowed, whatever its values are.
    pub allow_new: bool,
    /// New behavior is allowed where each of its values matches one of these patterns.
    pub allow: Vec<String>,
    /// Behavior is refused where one of its values matches one of these patterns, even
    /// behavior of the baseline.
    pub deny: Vec<String>,
}

impl AreaPolicy {
    /// Rules without patterns.
    pub fn plain(allow_new: bool) -> (r: Self)
        ensures
            r.allow_new == allow_new,
            r.allow@.len() == 0,
            r.deny@.len() == 0,
    {
        AreaPolicy { allow_new, allow: Vec::new(), deny: Vec::new() }
    }
}

/// The rules of a gate.
#[derive(Debug)]
pub struct GatePolicy {
    pub reads: AreaPolicy,
    pub execs: AreaPolicy,
    pub writes: AreaPolicy,
    pub deletes: AreaPolicy,
    pub renames: AreaPolicy,
    pub directories: AreaPolicy,
    pub links: AreaPolicy,
    pub network: AreaPolicy,
    pub unix: AreaPolicy,
}

impl GatePolicy {
    /// The rules for one area.
    pub open spec fn rules(self, area: Area) -> AreaPolicy {
        match area {
            Area::Read => self.reads,
            Area::Exec => self.execs,
            Area::Write => self.writes,
            Area::Delete => self.deletes,
            Area::Rename => self.renames,
            Area::Directory => self.directories,
            Area::Link => self.links,
            Area::Network => self.network,
            Area::Unix => self.unix,
        }
    }

    /// The rules for one area.
    pub fn rules_for(&self, area: Area) -> (r: &AreaPolicy)
        ensures
            *r == self.rules(area),
    {
        match area {
            Area::Read => &self.reads,
            Area::Exec => &self.execs,
            Area::Write => &self.writes,
            Area::Delete => &self.deletes,
            Area::Rename => &self.renames,
            Area::Directory => &self.directories,
            Area::Link => &self.links,
            Area::Network => &self.network,
            Area::Unix => &self.unix,
        }
    }

    /// The policy allows new reads and nothing else that is new, and denies nothing.
    pub open spec fn is_plain(self) -> bool {
        forall|area: Area|
            {
                &&& (#[trigger] self.rules(area)).allow_new == (area == Area::Read)
                &&& self.rules(area).allow@.len() == 0
                &&& self.rules(area).deny@.len() == 0
            }
    }
}

impl Default for GatePolicy {
    /// New reads are allowed, nothing else that is new is, and nothing is denied.
    fn default() -> (r: Self)
        ensures
            r.is_plain(),
    {
        GatePolicy {
            reads: AreaPolicy::plain(true),
            execs: AreaPolicy::plain(false),
            writes: AreaPolicy::plain(false),
            deletes: AreaPolicy::plain(false),
            renames: AreaPolicy::plain(false),
            directories: AreaPolicy::plain(false),
            links: AreaPolicy::plain(false),
            network: AreaPolicy::plain(false),
            unix: AreaPolicy::plain(false),
        }
    }
}

// ---------------------------------------------------------------------------
// Evaluation
// ---------------------------------------------------------------------------

/// The behavior matches a deny rule.
pub open spec fn denied(policy: GatePolicy, b: BehaviorView) -> bool {
    some_match(text::strings(policy.rules(area(b)).deny@), subjects(b))
}

/// The behavior is allowed though the baseline does not have it.
pub open spec fn allowed_new(policy: GatePolicy, b: BehaviorView) -> bool {
    ||| policy.rules(area(b)).allow_new
    ||| all_match(text::strings(policy.rules(area(b)).allow@), subjects(b))
}

/// The behavior is refused. What is denied is refused, the baseline or not; other
/// behavior of the baseline is not.
pub open spec fn refused(
    policy: GatePolicy,
    baseline: Seq<BehaviorView>,
    b: BehaviorView,
) -> bool {
    denied(policy, b) || (!baseline.contains(b) && !allowed_new(policy, b))
}

/// What a gate found.
#[derive(Debug, PartialEq, Eq)]
pub struct GateResult {
    /// Nothing was refused.
    pub allowed: bool,
    /// The behavior that was refused, in its order.
    pub violations: Vec<Behavior>,
}

impl Clone for GateResult {
    fn clone(&self) -> (r: Self)
        ensures
            r.allowed == self.allowed,
            lock::views(r.violations@) == lock::views(self.violations@),
    {
        GateResult { allowed: self.allowed, violations: lock::copied(&self.violations) }
    }
}

/// Tells whether the behavior matches a deny rule.
pub fn is_denied(policy: &GatePolicy, b: &Behavior) -> (r: bool)
    ensures
        r == denied(*policy, b@),
{
    let rules = policy.rules_for(area_of(b));
    let (first, second) = subjects_of(b);
    let ghost values = subjects(b@);
    let ghost patterns = text::strings(rules.deny@);
    assert(values[0] == first@);
    if any_pattern_matches(&rules.deny, first) {
        assert(matches_any(patterns, values[0]));
        return true;
    }
    match second {
        Some(second) => {
            assert(values[1] == second@);
            any_pattern_matches(&rules.deny, second)
        },
        None => false,
    }
}

/// Tells whether the behavior is allowed though the baseline does not have it.
pub fn is_allowed_new(policy: &GatePolicy, b: &Behavior) -> (r: bool)
    ensures
        r == allowed_new(*policy, b@),
{
    let rules = policy.rules_for(area_of(b));
    if rules.allow_new {
        return true;
    }
    let (first, second) = subjects_of(b);
    let ghost values = subjects(b@);
    let ghost patterns = text::strings(rules.allow@);
    assert(values[0] == first@);
    if !any_pattern_matches(&rules.allow, first) {
        assert(!matches_any(patterns, values[0]));
        return false;
    }
    match second {
        Some(second) => {
            assert(values[1] == second@);
            any_pattern_matches(&rules.allow, second)
        },
        None => true,
    }
}

/// Holds the observed behavior against a baseline and a policy.
pub fn evaluate_gate_with_policy(
    baseline: &BehaviorLock,
    observed: &BehaviorLock,
    policy: &GatePolicy,
) -> (r: GateResult)
    ensures
        lock::views(r.violations@) == observed.behaviors@.filter(
            |b: BehaviorView| refused(*policy, baseline.behaviors@, b),
        ),
        r.allowed == (r.violations@.len() == 0),
{
    let items = observed.behaviors.as_slice();
    let ghost all = observed.behaviors@;
    let ghost bad = |b: BehaviorView| refused(*policy, baseline.behaviors@, b);
    let mut violations: Vec<Behavior> = Vec::new();
    let mut i: usize = 0;
    assert(lock::views(violations@) =~= all.take(0).filter(bad)) by {
        reveal(Seq::filter);
    }
    while i < items.len()
        invariant
            i <= items@.len(),
            all == lock::views(items@),
            bad == (|b: BehaviorView| refused(*policy, baseline.behaviors@, b)),
            lock::views(violations@) == all.take(i as int).filter(bad),
        decreases items@.len() - i,
    {
        let ghost before = lock::views(violations@);
        assert(all.take(i + 1).drop_last() == all.take(i as int));
        assert(all.take(i + 1).last() == items@[i as int]@);
        proof {
            reveal(Seq::filter);
        }
        let item = &items[i];
        if is_denied(policy, item) || (!baseline.behaviors.contains(item) && !is_allowed_new(
            policy,
            item,
        )) {
            let item = item.clone();
            violations.push(item);
            assert(lock::views(violations@) =~= before.push(items@[i as int]@));
        }
        i = i + 1;
    }
    assert(all.take(i as int) == all);
    GateResult { allowed: violations.len() == 0, violations }
}

/// The behavior is refused by default where the baseline does not have it.
pub open spec fn restricted(b: BehaviorView) -> bool {
    !(b is FileRead)
}

/// Tells whether the behavior is refused by default where the baseline does not have it.
pub fn is_restricted_new_behavior(behavior: &Behavior) -> (r: bool)
    ensures
        r == restricted(behavior@),
{
    match behavior {
        Behavior::FileRead { .. } => false,
        _ => true,
    }
}

/// Holds the observed behavior against a baseline.
pub fn evaluate_gate(baseline: &BehaviorLock, observed: &BehaviorLock) -> (r: GateResult)
    ensures
        lock::views(r.violations@) == lock::without(
            observed.behaviors@,
            baseline.behaviors@,
        ).filter(|b: BehaviorView| restricted(b)),
        r.allowed == (r.violations@.len() == 0),
{
    let fresh = lock::difference(&observed.behaviors, &baseline.behaviors);
    let ghost all = lock::views(fresh@);
    let ghost bad = |b: BehaviorView| restricted(b);
    let mut violations: Vec<Behavior> = Vec::new();
    let mut i: usize = 0;
    assert(lock::views(violations@) =~= all.take(0).filter(bad)) by {
        reveal(Seq::filter);
    }
    while i < fresh.len()
        invariant
            i <= fresh@.len(),
            all == lock::views(fresh@),
            bad == (|b: BehaviorView| restricted(b)),
            lock::views(violations@) == all.take(i as int).filter(bad),
        decreases fresh@.len() - i,
    {
        let ghost before = lock::views(violations@);
        assert(all.take(i + 1).drop_last() == all.take(i as int));
        assert(all.take(i + 1).last() == fresh@[i as int]@);
        proof {
            reveal(Seq::filter);
        }
        if is_restricted_new_behavior(&fresh[i]) {
            let item = fresh[i].clone();
            violations.push(item);
            assert(lock::views(violations@) =~= before.push(fresh@[i as int]@));
        }
        i = i + 1;
    }
    assert(all.take(i as int) == all);
    GateResult { allowed: violations.len() == 0, violations }
}

// ---------------------------------------------------------------------------
// Laws
// ---------------------------------------------------------------------------

/// Filtering a list leaves nothing exactly where nothing in it passes.
proof fn lemma_filter_empty(s: Seq<BehaviorView>, keep: spec_fn(BehaviorView) -> bool)
    ensures
        s.filter(keep).len() == 0 <==> forall|b: BehaviorView| s.contains(b) ==> !keep(b),
    decreases s.len(),
{
    reveal(Seq::filter);
    if s.len() > 0 {
        let front = s.drop_last();
        lemma_filter_empty(front, keep);
        assert(s == front.push(s.last()));
        assert(s.contains(s.last()));
        assert forall|b: BehaviorView| front.contains(b) implies s.contains(b) by {
            let k = choose|k: int| 0 <= k < front.len() && front[k] == b;
            assert(s[k] == b);
        }
        assert forall|b: BehaviorView| s.contains(b) implies front.contains(b) || b == s.last() by {
            let k = choose|k: int| 0 <= k < s.len() && s[k] == b;
            if k < front.len() {
                assert(front[k] == b);
            }
        }
    }
}

/// Filtering by one condition and then by another is filtering by a condition that
/// holds exactly where both do.
proof fn lemma_filter_twice(
    s: Seq<BehaviorView>,
    first: spec_fn(BehaviorView) -> bool,
    second: spec_fn(BehaviorView) -> bool,
    both: spec_fn(BehaviorView) -> bool,
)
    requires
        forall|b: BehaviorView| #[trigger] both(b) <==> first(b) && second(b),
    ensures
        s.filter(first).filter(second) == s.filter(both),
    decreases s.len(),
{
    reveal(Seq::filter);
    if s.len() > 0 {
        lemma_filter_twice(s.drop_last(), first, second, both);
        let front = s.drop_last().filter(first);
        if first(s.last()) {
            assert(front.push(s.last()).drop_last() == front);
        }
    }
}

/// A gate allows a command exactly where none of its behavior is refused.
pub proof fn law_allowed_means_nothing_refused(
    policy: GatePolicy,
    baseline: Seq<BehaviorView>,
    observed: Seq<BehaviorView>,
)
    ensures
        observed.filter(|b: BehaviorView| refused(policy, baseline, b)).len() == 0 <==> forall|
            b: BehaviorView,
        |
            observed.contains(b) ==> !refused(policy, baseline, b),
{
    lemma_filter_empty(observed, |b: BehaviorView| refused(policy, baseline, b));
}

/// Behavior of the baseline is allowed unless it is explicitly denied.
pub proof fn law_baseline_is_allowed_unless_denied(
    policy: GatePolicy,
    baseline: Seq<BehaviorView>,
    b: BehaviorView,
)
    requires
        baseline.contains(b),
    ensures
        refused(policy, baseline, b) <==> denied(policy, b),
{
}

/// Explicit deny rules override the baseline and every allow rule.
pub proof fn law_deny_overrides(policy: GatePolicy, baseline: Seq<BehaviorView>, b: BehaviorView)
    requires
        denied(policy, b),
    ensures
        refused(policy, baseline, b),
{
}

/// Without rules of its own, a policy refuses exactly the new behavior that is no read.
pub proof fn law_plain_policy(policy: GatePolicy, baseline: Seq<BehaviorView>, b: BehaviorView)
    requires
        policy.is_plain(),
    ensures
        refused(policy, baseline, b) <==> !baseline.contains(b) && restricted(b),
{
    let rules = policy.rules(area(b));
    assert(subjects(b).len() > 0);
    assert(!matches_any(text::strings(rules.allow@), subjects(b)[0]));
}

/// Gates without a policy and gates with the plain policy refuse the same.
pub proof fn law_plain_gate(
    policy: GatePolicy,
    baseline: Seq<BehaviorView>,
    observed: Seq<BehaviorView>,
)
    requires
        policy.is_plain(),
    ensures
        lock::without(observed, baseline).filter(|b: BehaviorView| restricted(b))
            == observed.filter(|b: BehaviorView| refused(policy, baseline, b)),
{
    let both = |b: BehaviorView| refused(policy, baseline, b);
    assert forall|b: BehaviorView| #[trigger] both(b) <==> !baseline.contains(b) && restricted(b) by {
        law_plain_policy(policy, baseline, b);
    }
    lemma_filter_twice(
        observed,
        |b: BehaviorView| !baseline.contains(b),
        |b: BehaviorView| restricted(b),
        both,
    );
}

/// A baseline always passes its own gate where nothing is denied.
pub proof fn law_baseline_passes_its_own_gate(policy: GatePolicy, baseline: Seq<BehaviorView>)
    requires
        forall|b: BehaviorView| baseline.contains(b) ==> !denied(policy, b),
    ensures
        baseline.filter(|b: BehaviorView| refused(policy, baseline, b)).len() == 0,
{
    lemma_filter_empty(baseline, |b: BehaviorView| refused(policy, baseline, b));
}

/// A path that ends in `/**` reaches the path itself and what is below it, and no path
/// that only begins with the same characters.
pub proof fn law_scope_keeps_to_its_path(base: Seq<char>, more: Seq<char>)
    requires
        more.len() > 0,
    ensures
        in_scope(base, base),
        in_scope(base, base + more) <==> more[0] == '/',
{
    reveal_strlit("/");
    let value = base + more;
    let longer = base + "/"@;
    assert(value.len() > base.len());
    assert(value[base.len() as int] == more[0]);
    assert(longer[base.len() as int] == '/');
    if more[0] == '/' {
        assert(value.subrange(0, longer.len() as int) =~= longer);
    } else if text::begins(value, longer) {
        assert(value.subrange(0, longer.len() as int)[base.len() as int] == more[0]);
    }
}

/// A `*` that is not part of a final `/**` is no wildcard: such a pattern matches
/// nothing but itself.
pub proof fn law_star_is_no_wildcard(pattern: Seq<char>, value: Seq<char>)
    requires
        !text::begins(pattern, "exact:"@),
        !text::begins(pattern, "prefix:"@),
        !text::begins(pattern, "suffix:"@),
        !text::ends(pattern, "/**"@),
    ensures
        pattern_matches(pattern, value) <==> value == pattern,
{
}

/// One of the patterns matches the value.
pub open spec fn listed(patterns: Vec<String>, value: Seq<char>) -> bool {
    exists|i: int| 0 <= i < patterns@.len() && pattern_matches((#[trigger] patterns@[i])@, value)
}

/// A behavior with one value is decided by the given rules.
pub open spec fn ruled_by(
    policy: GatePolicy,
    b: BehaviorView,
    rules: AreaPolicy,
    value: Seq<char>,
) -> bool {
    &&& denied(policy, b) <==> listed(rules.deny, value)
    &&& allowed_new(policy, b) <==> rules.allow_new || listed(rules.allow, value)
}

/// A behavior with two values is decided by the given rules: one denied value denies it,
/// and both have to be allowed.
pub open spec fn both_ruled_by(
    policy: GatePolicy,
    b: BehaviorView,
    rules: AreaPolicy,
    first: Seq<char>,
    second: Seq<char>,
) -> bool {
    &&& denied(policy, b) <==> listed(rules.deny, first) || listed(rules.deny, second)
    &&& allowed_new(policy, b) <==> rules.allow_new || (listed(rules.allow, first) && listed(
        rules.allow,
        second,
    ))
}

/// Matching the views of patterns is matching the patterns.
proof fn lemma_listed(patterns: Vec<String>, value: Seq<char>)
    ensures
        listed(patterns, value) <==> matches_any(text::strings(patterns@), value),
{
    let views = text::strings(patterns@);
    if listed(patterns, value) {
        let i = choose|i: int|
            0 <= i < patterns@.len() && pattern_matches((#[trigger] patterns@[i])@, value);
        assert(views[i] == patterns@[i]@);
    }
    if matches_any(views, value) {
        let i = choose|i: int| 0 <= i < views.len() && pattern_matches(#[trigger] views[i], value);
        assert(views[i] == patterns@[i]@);
    }
}

/// What the rules of its area decide of a behavior with one value.
proof fn lemma_ruled_by(policy: GatePolicy, b: BehaviorView, value: Seq<char>)
    requires
        subjects(b) == seq![value],
    ensures
        ruled_by(policy, b, policy.rules(area(b)), value),
{
    let rules = policy.rules(area(b));
    lemma_listed(rules.deny, value);
    lemma_listed(rules.allow, value);
    assert(subjects(b)[0] == value);
}

/// What the rules of its area decide of a behavior with two values.
proof fn lemma_both_ruled_by(
    policy: GatePolicy,
    b: BehaviorView,
    first: Seq<char>,
    second: Seq<char>,
)
    requires
        subjects(b) == seq![first, second],
    ensures
        both_ruled_by(policy, b, policy.rules(area(b)), first, second),
{
    let rules = policy.rules(area(b));
    lemma_listed(rules.deny, first);
    lemma_listed(rules.deny, second);
    lemma_listed(rules.allow, first);
    lemma_listed(rules.allow, second);
    assert(subjects(b)[0] == first);
    assert(subjects(b)[1] == second);
}

/// Each kind of behavior with one value is decided by the rules of its own kind.
pub proof fn law_each_kind_has_its_own_rules(policy: GatePolicy, value: Seq<char>)
    ensures
        ruled_by(policy, BehaviorView::FileRead { path: value }, policy.reads, value),
        ruled_by(policy, BehaviorView::Exec { path: value }, policy.execs, value),
        ruled_by(policy, BehaviorView::FileWrite { path: value }, policy.writes, value),
        ruled_by(policy, BehaviorView::FileDelete { path: value }, policy.deletes, value),
        ruled_by(policy, BehaviorView::DirectoryDelete { path: value }, policy.deletes, value),
        ruled_by(policy, BehaviorView::DirectoryCreate { path: value }, policy.directories, value),
        ruled_by(policy, BehaviorView::NetworkConnect { address: value }, policy.network, value),
        ruled_by(policy, BehaviorView::UnixConnect { path: value }, policy.unix, value),
        ruled_by(policy, BehaviorView::UnixAbstractConnect { address: value }, policy.unix, value),
{
    lemma_ruled_by(policy, BehaviorView::FileRead { path: value }, value);
    lemma_ruled_by(policy, BehaviorView::Exec { path: value }, value);
    lemma_ruled_by(policy, BehaviorView::FileWrite { path: value }, value);
    lemma_ruled_by(policy, BehaviorView::FileDelete { path: value }, value);
    lemma_ruled_by(policy, BehaviorView::DirectoryDelete { path: value }, value);
    lemma_ruled_by(policy, BehaviorView::DirectoryCreate { path: value }, value);
    lemma_ruled_by(policy, BehaviorView::NetworkConnect { address: value }, value);
    lemma_ruled_by(policy, BehaviorView::UnixConnect { path: value }, value);
    lemma_ruled_by(policy, BehaviorView::UnixAbstractConnect { address: value }, value);
}

/// Each kind of behavior with two values is decided by the rules of its own kind, whatever
/// its flags are.
pub proof fn law_each_pair_has_its_own_rules(
    policy: GatePolicy,
    a: Seq<char>,
    b: Seq<char>,
    follow_symlink: bool,
    empty_path: bool,
)
    ensures
        both_ruled_by(policy, BehaviorView::FileRename { from: a, to: b }, policy.renames, a, b),
        both_ruled_by(
            policy,
            BehaviorView::RenameExchange { left: a, right: b },
            policy.renames,
            a,
            b,
        ),
        both_ruled_by(policy, BehaviorView::SymlinkCreate { target: a, link: b }, policy.links, a, b),
        both_ruled_by(
            policy,
            BehaviorView::HardlinkCreate { from: a, to: b, follow_symlink, empty_path },
            policy.links,
            a,
            b,
        ),
{
    lemma_both_ruled_by(policy, BehaviorView::FileRename { from: a, to: b }, a, b);
    lemma_both_ruled_by(policy, BehaviorView::RenameExchange { left: a, right: b }, a, b);
    lemma_both_ruled_by(policy, BehaviorView::SymlinkCreate { target: a, link: b }, a, b);
    lemma_both_ruled_by(
        policy,
        BehaviorView::HardlinkCreate { from: a, to: b, follow_symlink, empty_path },
        a,
        b,
    );
}

/// New behavior that is not denied is refused exactly where no rule allows it.
pub proof fn law_new_behavior_needs_a_rule(
    policy: GatePolicy,
    baseline: Seq<BehaviorView>,
    b: BehaviorView,
)
    requires
        !baseline.contains(b),
        !denied(policy, b),
    ensures
        refused(policy, baseline, b) <==> !allowed_new(policy, b),
{
}

/// By default every new behavior is refused but reads.
pub proof fn law_reads_alone_are_free(b: BehaviorView)
    ensures
        restricted(b) <==> match b {
            BehaviorView::FileRead { .. } => false,
            _ => true,
        },
{
}

/// What stands behind `exact:`, `prefix:` and `suffix:` is compared as a whole, as a
/// beginning and as an end.
pub proof fn law_tagged_patterns(wanted: Seq<char>, value: Seq<char>)
    ensures
        pattern_matches("exact:"@ + wanted, value) <==> value == wanted,
        pattern_matches("prefix:"@ + wanted, value) <==> wanted.is_prefix_of(value),
        pattern_matches("suffix:"@ + wanted, value) <==> wanted.is_suffix_of(value),
{
    reveal_strlit("exact:");
    reveal_strlit("prefix:");
    reveal_strlit("suffix:");
    let exact = "exact:"@ + wanted;
    let prefix = "prefix:"@ + wanted;
    let suffix = "suffix:"@ + wanted;
    text::law_begins_and_ends("exact:"@, wanted);
    text::law_begins_and_ends("prefix:"@, wanted);
    text::law_begins_and_ends("suffix:"@, wanted);
    text::law_begins_and_ends(value, wanted);
    assert(exact.skip("exact:"@.len() as int) =~= wanted);
    assert(prefix.skip("prefix:"@.len() as int) =~= wanted);
    assert(suffix.skip("suffix:"@.len() as int) =~= wanted);
    assert(prefix[0] == 'p' && suffix[0] == 's');
    assert("exact:"@[0] == 'e' && "prefix:"@[0] == 'p');
    text::law_begins_and_ends(prefix, "exact:"@);
    text::law_begins_and_ends(suffix, "exact:"@);
    text::law_begins_and_ends(suffix, "prefix:"@);
}

/// A path that ends in `/**` matches the path and what begins with the path and a slash;
/// every other pattern without a tag matches itself alone.
pub proof fn law_plain_patterns(base: Seq<char>, value: Seq<char>)
    requires
        !"exact:"@.is_prefix_of(base + "/**"@),
        !"prefix:"@.is_prefix_of(base + "/**"@),
        !"suffix:"@.is_prefix_of(base + "/**"@),
    ensures
        pattern_matches(base + "/**"@, value) <==> value == base || (base + "/"@).is_prefix_of(
            value,
        ),
        !"/**"@.is_suffix_of(base) ==> (pattern_matches(base, value) <==> value == base),
{
    reveal_strlit("exact:");
    reveal_strlit("prefix:");
    reveal_strlit("suffix:");
    let pattern = base + "/**"@;
    text::law_begins_and_ends(pattern, "exact:"@);
    text::law_begins_and_ends(pattern, "prefix:"@);
    text::law_begins_and_ends(pattern, "suffix:"@);
    text::law_begins_and_ends(base, "/**"@);
    text::law_begins_and_ends(value, base + "/"@);
    assert(pattern.take(pattern.len() - "/**"@.len()) =~= base);
    text::law_begins_and_ends(base, "exact:"@);
    text::law_begins_and_ends(base, "prefix:"@);
    text::law_begins_and_ends(base, "suffix:"@);
    lemma_longer_prefix("exact:"@, base, "/**"@);
    lemma_longer_prefix("prefix:"@, base, "/**"@);
    lemma_longer_prefix("suffix:"@, base, "/**"@);
}

/// What a text begins with, a longer one begins with too.
proof fn lemma_longer_prefix(a: Seq<char>, s: Seq<char>, more: Seq<char>)
    ensures
        a.is_prefix_of(s) ==> a.is_prefix_of(s + more),
{
    if a.is_prefix_of(s) {
        assert((s + more).take(a.len() as int) =~= s.take(a.len() as int));
    }
}

} // verus!
