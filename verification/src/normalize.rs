//! Canonical behavior: symbolic paths instead of machine-specific ones, and no
//! system noise.

use vstd::prelude::*;
use vstd::slice::slice_subrange;
use vstd::string::*;

use crate::behavior;
use crate::behavior::{Behavior, BehaviorView, Place};
use crate::lock::BehaviorLock;
use crate::path;
use crate::text;

verus! {

/// The directories of the machine that have a symbolic name.
#[derive(Debug)]
pub struct NormalizeContext {
    /// The directory that `$PROJECT` stands for.
    pub project_root: String,
    /// The directory that `$HOME` stands for, where there is one.
    pub home: Option<String>,
    /// The directory that `$TMP` stands for.
    pub temp: String,
}

/// The named directories as mathematical values.
pub struct ContextView {
    pub project_root: Seq<char>,
    pub home: Option<Seq<char>>,
    pub temp: Seq<char>,
}

impl View for NormalizeContext {
    type V = ContextView;

    open spec fn view(&self) -> ContextView {
        ContextView {
            project_root: self.project_root@,
            home: match self.home {
                Some(home) => Some(home@),
                None => None,
            },
            temp: self.temp@,
        }
    }
}

impl Clone for NormalizeContext {
    fn clone(&self) -> (r: Self)
        ensures
            r@ == self@,
    {
        NormalizeContext {
            project_root: self.project_root.clone(),
            home: match &self.home {
                Some(home) => Some(home.clone()),
                None => None,
            },
            temp: self.temp.clone(),
        }
    }
}

impl NormalizeContext {
    /// The context with the given directories.
    pub fn new(project_root: String, home: Option<String>, temp: String) -> (r: Self)
        ensures
            r.project_root == project_root,
            r.home == home,
            r.temp == temp,
    {
        NormalizeContext { project_root, home, temp }
    }
}

// ---------------------------------------------------------------------------
// Symbolic paths
// ---------------------------------------------------------------------------

/// A symbolic name, with what lies beneath it.
pub open spec fn symbol_path(name: Seq<char>, rest: Seq<char>) -> Seq<char> {
    if rest.len() == 0 {
        name
    } else {
        name + "/"@ + rest
    }
}

/// An ASCII letter or digit.
pub open spec fn is_alphanumeric(c: char) -> bool {
    'a' <= c <= 'z' || 'A' <= c <= 'Z' || '0' <= c <= '9'
}

/// The name of a directory that a Rust documentation test makes: `rustdoctest` and
/// six random letters or digits.
pub open spec fn is_volatile_name(name: Seq<char>) -> bool {
    &&& text::begins(name, "rustdoctest"@)
    &&& name.len() == "rustdoctest"@.len() + 6
    &&& forall|i: int|
        "rustdoctest"@.len() <= i < name.len() ==> is_alphanumeric(#[trigger] name[i])
}

/// The first component of a relative path.
pub open spec fn first_component(rest: Seq<char>) -> Seq<char> {
    match text::first_match(rest, "/"@) {
        Some(at) => rest.take(at),
        None => rest,
    }
}

/// A path beneath the temporary directory with a fixed name for a volatile
/// directory.
pub open spec fn steady_temp(rest: Seq<char>) -> Seq<char> {
    let name = first_component(rest);
    if is_volatile_name(name) {
        "rustdoctest@volatile"@ + rest.skip(name.len() as int)
    } else {
        rest
    }
}

/// The clean absolute form of a path that the project's commands use.
pub open spec fn absolute_form(raw: Seq<char>, context: ContextView) -> Seq<char> {
    path::cleaned(path::path_join(context.project_root, path::cleaned(raw)))
}

/// The path with a symbolic name for the first of the named directories that it
/// lies in.
pub open spec fn symbolic(raw: Seq<char>, context: ContextView) -> Seq<char> {
    let full = absolute_form(raw, context);
    if path::cleaned(raw) == "."@ {
        "$PROJECT"@
    } else if path::beneath(full, context.project_root) {
        symbol_path("$PROJECT"@, path::relative_to(full, context.project_root)->0)
    } else if context.home is Some && path::beneath(full, context.home->0) {
        symbol_path("$HOME"@, path::relative_to(full, context.home->0)->0)
    } else if path::beneath(full, context.temp) {
        symbol_path("$TMP"@, steady_temp(path::relative_to(full, context.temp)->0))
    } else {
        full
    }
}

/// A symbolic name, with what lies beneath it.
fn symbol(name: &str, rest: &str) -> (r: String)
    ensures
        r@ == symbol_path(name@, rest@),
{
    if rest.is_empty() {
        name.to_owned()
    } else {
        name.to_owned().concat("/").concat(rest)
    }
}

/// Tells whether a name is that of a directory of a Rust documentation test.
fn volatile_name(name: &[char]) -> (r: bool)
    ensures
        r == is_volatile_name(name@),
{
    let rest = match text::strip_front(name, "rustdoctest") {
        Some(rest) => rest,
        None => {
            return false;
        },
    };
    if rest.len() != 6 {
        return false;
    }
    let ghost skipped = "rustdoctest"@.len();
    let mut i: usize = 0;
    while i < rest.len()
        invariant
            i <= rest@.len(),
            skipped == "rustdoctest"@.len(),
            rest@ == name@.skip(skipped as int),
            name@.len() == skipped + rest@.len(),
            forall|k: int| skipped <= k < skipped + i ==> is_alphanumeric(#[trigger] name@[k]),
        decreases rest@.len() - i,
    {
        let c: char = rest[i];
        assert(c == name@[skipped + i]);
        if !(('a' <= c && c <= 'z') || ('A' <= c && c <= 'Z') || ('0' <= c && c <= '9')) {
            return false;
        }
        i = i + 1;
    }
    true
}

/// A path beneath the temporary directory with a fixed name for a volatile
/// directory.
fn steady(rest: &str) -> (r: String)
    ensures
        r@ == steady_temp(rest@),
{
    let chars = text::to_chars(rest);
    let end: usize = match text::find(chars.as_slice(), "/") {
        Some(at) => at,
        None => chars.len(),
    };
    let name = slice_subrange(chars.as_slice(), 0, end);
    assert(name@ == first_component(rest@));
    if volatile_name(name) {
        "rustdoctest@volatile".to_owned().concat(rest.substring_char(end, chars.len()))
    } else {
        rest.to_owned()
    }
}

/// The path with a symbolic name for the first of the named directories that it
/// lies in.
pub fn normalize_runtime_path(raw: &str, context: &NormalizeContext) -> (r: String)
    ensures
        r@ == symbolic(raw@, context@),
{
    let clean = path::lexical_clean(raw);
    if text::same_str(clean.as_str(), ".") {
        return "$PROJECT".to_owned();
    }
    let joined = path::join(context.project_root.as_str(), clean.as_str());
    let full = path::lexical_clean(joined.as_str());
    proof {
        path::law_clean_is_idempotent(joined@);
    }
    if let Some(rest) = path::strip_prefix(full.as_str(), context.project_root.as_str()) {
        return symbol("$PROJECT", rest.as_str());
    }
    if let Some(home) = &context.home {
        if let Some(rest) = path::strip_prefix(full.as_str(), home.as_str()) {
            return symbol("$HOME", rest.as_str());
        }
    }
    if let Some(rest) = path::strip_prefix(full.as_str(), context.temp.as_str()) {
        return symbol("$TMP", steady(rest.as_str()).as_str());
    }
    full
}

// ---------------------------------------------------------------------------
// Noise
// ---------------------------------------------------------------------------

/// A shared library in one of the system's library directories.
pub open spec fn is_system_library(path: Seq<char>) -> bool {
    &&& text::first_match(path, ".so"@) is Some
    &&& {
        ||| text::begins(path, "/lib/"@)
        ||| text::begins(path, "/lib64/"@)
        ||| text::begins(path, "/usr/lib/"@)
        ||| text::begins(path, "/usr/lib64/"@)
    }
}

/// A file that the loader, the locale or the time zone of the system makes every
/// command read.
pub open spec fn is_noise(path: Seq<char>) -> bool {
    ||| path == "/etc/ld.so.cache"@
    ||| path == "/etc/localtime"@
    ||| path == "/proc/filesystems"@
    ||| path == "/proc/mounts"@
    ||| path == "/proc/self/maps"@
    ||| path == "/proc/self/mountinfo"@
    ||| text::begins(path, "/proc/self/"@)
    ||| text::begins(path, "/usr/share/locale/"@)
    ||| text::begins(path, "/usr/share/coreutils/locales/"@)
    ||| text::begins(path, "/usr/share/zoneinfo/"@)
    ||| text::begins(path, "/usr/lib/locale/"@)
    ||| text::first_match(path, "/gconv/gconv-modules.cache"@) is Some
    ||| is_system_library(path)
}

/// The socket of the name service cache.
pub open spec fn is_socket_noise(path: Seq<char>) -> bool {
    ||| path == "/var/run/nscd/socket"@
    ||| path == "/run/nscd/socket"@
}

/// Tells whether a path is that of a shared library of the system.
pub fn is_shared_library(path: &str) -> (r: bool)
    ensures
        r == is_system_library(path@),
{
    let chars = text::to_chars(path);
    let chars = chars.as_slice();
    let system_lib = text::starts_with(chars, "/lib/")
        || text::starts_with(chars, "/lib64/")
        || text::starts_with(chars, "/usr/lib/")
        || text::starts_with(chars, "/usr/lib64/");
    system_lib && text::contains(chars, ".so")
}

/// Tells whether reading a file is system noise.
pub fn is_runtime_noise(path: &str) -> (r: bool)
    ensures
        r == is_noise(path@),
{
    let chars = text::to_chars(path);
    let chars = chars.as_slice();
    text::spells(chars, "/etc/ld.so.cache")
        || text::spells(chars, "/etc/localtime")
        || text::spells(chars, "/proc/filesystems")
        || text::spells(chars, "/proc/mounts")
        || text::spells(chars, "/proc/self/maps")
        || text::spells(chars, "/proc/self/mountinfo")
        || text::starts_with(chars, "/proc/self/")
        || text::starts_with(chars, "/usr/share/locale/")
        || text::starts_with(chars, "/usr/share/coreutils/locales/")
        || text::starts_with(chars, "/usr/share/zoneinfo/")
        || text::starts_with(chars, "/usr/lib/locale/")
        || text::contains(chars, "/gconv/gconv-modules.cache")
        || is_shared_library(path)
}

/// Tells whether connecting to a socket is system noise.
pub fn is_runtime_socket_noise(path: &str) -> (r: bool)
    ensures
        r == is_socket_noise(path@),
{
    let chars = text::to_chars(path);
    text::spells(chars.as_slice(), "/var/run/nscd/socket")
        || text::spells(chars.as_slice(), "/run/nscd/socket")
}

// ---------------------------------------------------------------------------
// Behaviors
// ---------------------------------------------------------------------------

/// The canonical form of a behavior; none where it is hidden as system noise.
pub open spec fn normalized(
    b: BehaviorView,
    include_system: bool,
    context: ContextView,
) -> Option<BehaviorView> {
    match b {
        BehaviorView::Exec { path } => Some(BehaviorView::Exec { path: symbolic(path, context) }),
        BehaviorView::FileRead { path } => {
            let path = symbolic(path, context);
            if !include_system && is_noise(path) {
                None
            } else {
                Some(BehaviorView::FileRead { path })
            }
        },
        BehaviorView::FileWrite { path } => Some(
            BehaviorView::FileWrite { path: symbolic(path, context) },
        ),
        BehaviorView::FileDelete { path } => Some(
            BehaviorView::FileDelete { path: symbolic(path, context) },
        ),
        BehaviorView::FileRename { from, to } => Some(
            BehaviorView::FileRename {
                from: symbolic(from, context),
                to: symbolic(to, context),
            },
        ),
        BehaviorView::RenameExchange { left, right } => Some(
            exchanged(symbolic(left, context), symbolic(right, context)),
        ),
        BehaviorView::DirectoryCreate { path } => Some(
            BehaviorView::DirectoryCreate { path: symbolic(path, context) },
        ),
        BehaviorView::DirectoryDelete { path } => Some(
            BehaviorView::DirectoryDelete { path: symbolic(path, context) },
        ),
        BehaviorView::SymlinkCreate { target, link } => Some(
            BehaviorView::SymlinkCreate { target, link: symbolic(link, context) },
        ),
        BehaviorView::HardlinkCreate { from, to, follow_symlink, empty_path } => Some(
            BehaviorView::HardlinkCreate {
                from: symbolic(from, context),
                to: symbolic(to, context),
                follow_symlink,
                empty_path,
            },
        ),
        BehaviorView::NetworkConnect { address } => Some(b),
        BehaviorView::UnixConnect { path } => {
            let path = symbolic(path, context);
            if !include_system && is_socket_noise(path) {
                None
            } else {
                Some(BehaviorView::UnixConnect { path })
            }
        },
        BehaviorView::UnixAbstractConnect { address } => Some(b),
    }
}

/// The exchange of two names, the one that comes first on the left.
pub open spec fn exchanged(a: Seq<char>, b: Seq<char>) -> BehaviorView {
    if behavior::text_less(b, a) {
        BehaviorView::RenameExchange { left: b, right: a }
    } else {
        BehaviorView::RenameExchange { left: a, right: b }
    }
}

/// The canonical form of a behavior; none where it is hidden as system noise.
pub fn normalize_behavior(
    behavior: Behavior,
    include_system: bool,
    context: &NormalizeContext,
) -> (r: Option<Behavior>)
    ensures
        match r {
            Some(b) => normalized(behavior@, include_system, context@) == Some(b@),
            None => normalized(behavior@, include_system, context@) is None,
        },
{
    match behavior {
        Behavior::FileRead { path } => {
            let path = normalize_runtime_path(path.as_str(), context);
            if !include_system && is_runtime_noise(path.as_str()) {
                return None;
            }
            Some(Behavior::FileRead { path })
        },
        Behavior::FileWrite { path } => Some(
            Behavior::FileWrite { path: normalize_runtime_path(path.as_str(), context) },
        ),
        Behavior::FileDelete { path } => Some(
            Behavior::FileDelete { path: normalize_runtime_path(path.as_str(), context) },
        ),
        Behavior::FileRename { from, to } => Some(
            Behavior::FileRename {
                from: normalize_runtime_path(from.as_str(), context),
                to: normalize_runtime_path(to.as_str(), context),
            },
        ),
        Behavior::RenameExchange { left, right } => {
            let left = normalize_runtime_path(left.as_str(), context);
            let right = normalize_runtime_path(right.as_str(), context);
            if behavior::place_text(right.as_str(), left.as_str()) == Place::Before {
                Some(Behavior::RenameExchange { left: right, right: left })
            } else {
                Some(Behavior::RenameExchange { left, right })
            }
        },
        Behavior::DirectoryCreate { path } => Some(
            Behavior::DirectoryCreate { path: normalize_runtime_path(path.as_str(), context) },
        ),
        Behavior::DirectoryDelete { path } => Some(
            Behavior::DirectoryDelete { path: normalize_runtime_path(path.as_str(), context) },
        ),
        Behavior::SymlinkCreate { target, link } => Some(
            Behavior::SymlinkCreate { target, link: normalize_runtime_path(link.as_str(), context) },
        ),
        Behavior::HardlinkCreate { from, to, follow_symlink, empty_path } => Some(
            Behavior::HardlinkCreate {
                from: normalize_runtime_path(from.as_str(), context),
                to: normalize_runtime_path(to.as_str(), context),
                follow_symlink,
                empty_path,
            },
        ),
        Behavior::Exec { path } => Some(
            Behavior::Exec { path: normalize_runtime_path(path.as_str(), context) },
        ),
        Behavior::UnixConnect { path } => {
            let path = normalize_runtime_path(path.as_str(), context);
            if !include_system && is_runtime_socket_noise(path.as_str()) {
                return None;
            }
            Some(Behavior::UnixConnect { path })
        },
        Behavior::UnixAbstractConnect { address } => Some(
            Behavior::UnixAbstractConnect { address },
        ),
        Behavior::NetworkConnect { address } => Some(Behavior::NetworkConnect { address }),
    }
}

/// A set of behaviors with the canonical form of one more.
pub open spec fn recorded(
    known: Set<BehaviorView>,
    b: BehaviorView,
    include_system: bool,
    context: ContextView,
) -> Set<BehaviorView> {
    match normalized(b, include_system, context) {
        Some(v) => known.insert(v),
        None => known,
    }
}

impl BehaviorLock {
    /// Adds the canonical form of a behavior, unless it is hidden as system noise.
    pub fn insert_normalized(
        &mut self,
        behavior: Behavior,
        include_system: bool,
        context: &NormalizeContext,
    )
        ensures
            final(self).version == old(self).version,
            final(self)@ == recorded(old(self)@, behavior@, include_system, context@),
    {
        if let Some(behavior) = normalize_behavior(behavior, include_system, context) {
            self.insert(behavior);
        }
    }
}

// ---------------------------------------------------------------------------
// Laws
// ---------------------------------------------------------------------------

/// How a path is spelled makes no difference: only its clean form counts.
pub proof fn law_spelling_makes_no_difference(raw: Seq<char>, context: ContextView)
    ensures
        symbolic(path::cleaned(raw), context) == symbolic(raw, context),
{
    path::law_clean_is_idempotent(raw);
}

/// The clean absolute path with the given parts, seen from the directory with the first
/// of them.
proof fn lemma_from_base(base: Seq<Seq<char>>, parts: Seq<Seq<char>>, context: ContextView)
    requires
        path::clean_list(true, base),
        path::clean_list(true, parts),
    ensures
        ({
            let full = path::written(true, base + parts);
            &&& path::cleaned(full) == full
            &&& full != "."@
            &&& absolute_form(full, context) == full
            &&& path::beneath(full, path::written(true, base))
            &&& path::relative_to(full, path::written(true, base)) == Some(
                text::joined(parts, "/"@),
            )
        }),
{
    let full = path::written(true, base + parts);
    let root = path::written(true, base);
    path::lemma_clean_concat(base, parts);
    path::lemma_written(true, base + parts);
    path::lemma_written(true, base);
    reveal_strlit(".");
    reveal_strlit("/");
    assert(path::absolute(full));
    assert("."@[0] == '.');
    let whole = path::components(full);
    let start = path::components(root);
    assert(whole =~= seq!["/"@] + (base + parts));
    assert(start =~= seq!["/"@] + base);
    assert(start.is_prefix_of(whole)) by {
        assert(whole.take(start.len() as int) =~= start);
    }
    assert(whole.skip(start.len() as int) =~= parts);
}

/// A path of the project has the same symbolic form wherever the project lies, and
/// whether it is written as an absolute path or as one relative to the project.
pub proof fn law_project_paths_are_portable(
    root: Seq<Seq<char>>,
    parts: Seq<Seq<char>>,
    context: ContextView,
)
    requires
        path::clean_list(true, root),
        path::clean_list(true, parts),
        context.project_root == path::written(true, root),
    ensures
        symbolic(path::written(true, root + parts), context) == symbol_path(
            "$PROJECT"@,
            text::joined(parts, "/"@),
        ),
        symbolic(path::written(false, parts), context) == symbol_path(
            "$PROJECT"@,
            text::joined(parts, "/"@),
        ),
{
    lemma_from_base(root, parts, context);
    if parts.len() == 0 {
        assert(path::clean_list(false, parts));
        path::lemma_written(false, parts);
        assert(text::joined(parts, "/"@) =~= Seq::<char>::empty());
    } else {
        path::law_join_puts_parts_behind_parts(root, parts);
    }
}

/// A path in the home directory, and not in the project, has the same symbolic form
/// whatever the home directory is.
pub proof fn law_home_paths_are_portable(
    home: Seq<Seq<char>>,
    parts: Seq<Seq<char>>,
    context: ContextView,
)
    requires
        path::clean_list(true, home),
        path::clean_list(true, parts),
        context.home == Some(path::written(true, home)),
        !path::beneath(path::written(true, home + parts), context.project_root),
    ensures
        symbolic(path::written(true, home + parts), context) == symbol_path(
            "$HOME"@,
            text::joined(parts, "/"@),
        ),
{
    lemma_from_base(home, parts, context);
}

/// A path in the temporary directory, and neither in the project nor in the home
/// directory, has the same symbolic form whatever the temporary directory is.
pub proof fn law_temp_paths_are_portable(
    temp: Seq<Seq<char>>,
    parts: Seq<Seq<char>>,
    context: ContextView,
)
    requires
        path::clean_list(true, temp),
        path::clean_list(true, parts),
        context.temp == path::written(true, temp),
        !path::beneath(path::written(true, temp + parts), context.project_root),
        context.home is Some ==> !path::beneath(
            path::written(true, temp + parts),
            context.home->0,
        ),
    ensures
        symbolic(path::written(true, temp + parts), context) == symbol_path(
            "$TMP"@,
            steady_temp(text::joined(parts, "/"@)),
        ),
{
    lemma_from_base(temp, parts, context);
}

/// The first slash in a text behind a name without one.
proof fn lemma_first_component(name: Seq<char>, rest: Seq<char>)
    requires
        !name.contains('/'),
        rest.len() == 0 || rest[0] == '/',
    ensures
        first_component(name + rest) == name,
{
    reveal_strlit("/");
    assert("/"@ =~= seq!['/']);
    let whole = name + rest;
    text::lemma_first_char(whole, '/', name.len() as int);
    if rest.len() == 0 {
        assert(whole =~= name);
    } else {
        assert(whole.take(name.len() as int) =~= name);
    }
}

/// The random name of a directory of a documentation test leaves no trace; what lies
/// beneath the directory is kept.
pub proof fn law_volatile_names_are_steady(name: Seq<char>, rest: Seq<char>)
    requires
        is_volatile_name(name),
        rest.len() == 0 || rest[0] == '/',
    ensures
        steady_temp(name + rest) == "rustdoctest@volatile"@ + rest,
{
    reveal_strlit("rustdoctest");
    if name.contains('/') {
        let k = choose|k: int| 0 <= k < name.len() && name[k] == '/';
        if k < "rustdoctest"@.len() {
            assert(name.subrange(0, "rustdoctest"@.len() as int)[k] == '/');
            assert("rustdoctest"@[k] == '/');
            assert(false);
        }
        assert(is_alphanumeric(name[k]));
    }
    lemma_first_component(name, rest);
    assert((name + rest).skip(name.len() as int) =~= rest);
}

/// Only reads and connections to Unix sockets can be hidden as noise: writes, and all
/// that changes something, are always recorded.
pub proof fn law_changes_are_never_hidden(
    b: BehaviorView,
    include_system: bool,
    context: ContextView,
)
    requires
        !(b is FileRead),
        !(b is UnixConnect),
    ensures
        normalized(b, include_system, context) is Some,
{
}

/// Where the system is included, nothing is hidden.
pub proof fn law_nothing_is_hidden_on_request(b: BehaviorView, context: ContextView)
    ensures
        normalized(b, true, context) is Some,
{
}

/// Normalizing changes the names in a behavior and never its kind.
pub proof fn law_kind_is_kept(b: BehaviorView, include_system: bool, context: ContextView)
    requires
        normalized(b, include_system, context) is Some,
    ensures
        behavior::kind_rank(normalized(b, include_system, context)->0) == behavior::kind_rank(b),
{
}

/// An exchange of two names is the same in both directions.
pub proof fn law_exchange_has_no_direction(
    left: Seq<char>,
    right: Seq<char>,
    include_system: bool,
    context: ContextView,
)
    ensures
        normalized(BehaviorView::RenameExchange { left, right }, include_system, context)
            == normalized(
            BehaviorView::RenameExchange { left: right, right: left },
            include_system,
            context,
        ),
{
    let a = symbolic(left, context);
    let b = symbolic(right, context);
    behavior::lemma_text_order(a, b, a);
    behavior::lemma_text_order(b, a, b);
}

/// The path is one of the files that the system makes every command read: six files, what
/// lies in five directories, the cache of character conversions, and shared libraries in
/// the four library directories.
pub open spec fn is_system_file(p: Seq<char>) -> bool {
    ||| p == "/etc/ld.so.cache"@ || p == "/etc/localtime"@ || p == "/proc/filesystems"@
    ||| p == "/proc/mounts"@ || p == "/proc/self/maps"@ || p == "/proc/self/mountinfo"@
    ||| "/proc/self/"@.is_prefix_of(p) || "/usr/share/locale/"@.is_prefix_of(p)
    ||| "/usr/share/coreutils/locales/"@.is_prefix_of(p)
    ||| "/usr/share/zoneinfo/"@.is_prefix_of(p) || "/usr/lib/locale/"@.is_prefix_of(p)
    ||| text::holds(p, "/gconv/gconv-modules.cache"@)
    ||| text::holds(p, ".so"@) && ("/lib/"@.is_prefix_of(p) || "/lib64/"@.is_prefix_of(p)
        || "/usr/lib/"@.is_prefix_of(p) || "/usr/lib64/"@.is_prefix_of(p))
}

/// A read is hidden exactly where the system is not included and its path is one of the
/// system's files; every other read is recorded under its symbolic path.
pub proof fn law_which_reads_are_hidden(
    raw: Seq<char>,
    include_system: bool,
    context: ContextView,
)
    ensures
        ({
            let path = symbolic(raw, context);
            let after = normalized(BehaviorView::FileRead { path: raw }, include_system, context);
            after == (if !include_system && is_system_file(path) {
                None
            } else {
                Some(BehaviorView::FileRead { path })
            })
        }),
{
    let path = symbolic(raw, context);
    text::law_begins_and_ends(path, "/proc/self/"@);
    text::law_begins_and_ends(path, "/usr/share/locale/"@);
    text::law_begins_and_ends(path, "/usr/share/coreutils/locales/"@);
    text::law_begins_and_ends(path, "/usr/share/zoneinfo/"@);
    text::law_begins_and_ends(path, "/usr/lib/locale/"@);
    text::law_begins_and_ends(path, "/lib/"@);
    text::law_begins_and_ends(path, "/lib64/"@);
    text::law_begins_and_ends(path, "/usr/lib/"@);
    text::law_begins_and_ends(path, "/usr/lib64/"@);
    text::law_holds(path, "/gconv/gconv-modules.cache"@);
    text::law_holds(path, ".so"@);
}

/// A connection to a pathname socket is hidden exactly where the system is not included and
/// the socket is that of the name service cache.
pub proof fn law_which_sockets_are_hidden(
    raw: Seq<char>,
    include_system: bool,
    context: ContextView,
)
    ensures
        ({
            let path = symbolic(raw, context);
            let after = normalized(BehaviorView::UnixConnect { path: raw }, include_system, context);
            after == (if !include_system && (path == "/var/run/nscd/socket"@ || path
                == "/run/nscd/socket"@) {
                None
            } else {
                Some(BehaviorView::UnixConnect { path })
            })
        }),
{
}

/// What normalizing makes of each behavior on one name: paths become symbolic, addresses
/// stay.
pub proof fn law_lone_names_are_normalized(
    raw: Seq<char>,
    include_system: bool,
    context: ContextView,
)
    ensures
        normalized(BehaviorView::Exec { path: raw }, include_system, context) == Some(
            BehaviorView::Exec { path: symbolic(raw, context) },
        ),
        normalized(BehaviorView::FileWrite { path: raw }, include_system, context) == Some(
            BehaviorView::FileWrite { path: symbolic(raw, context) },
        ),
        normalized(BehaviorView::FileDelete { path: raw }, include_system, context) == Some(
            BehaviorView::FileDelete { path: symbolic(raw, context) },
        ),
        normalized(BehaviorView::DirectoryCreate { path: raw }, include_system, context) == Some(
            BehaviorView::DirectoryCreate { path: symbolic(raw, context) },
        ),
        normalized(BehaviorView::DirectoryDelete { path: raw }, include_system, context) == Some(
            BehaviorView::DirectoryDelete { path: symbolic(raw, context) },
        ),
        normalized(BehaviorView::NetworkConnect { address: raw }, include_system, context) == Some(
            BehaviorView::NetworkConnect { address: raw },
        ),
        normalized(BehaviorView::UnixAbstractConnect { address: raw }, include_system, context)
            == Some(BehaviorView::UnixAbstractConnect { address: raw }),
{
}

/// What normalizing makes of each behavior on two names: paths become symbolic, the target
/// of a symbolic link and the flags of a hard link stay, and an exchange is written with
/// the lesser name first.
pub proof fn law_pairs_of_names_are_normalized(
    a: Seq<char>,
    b: Seq<char>,
    follow_symlink: bool,
    empty_path: bool,
    include_system: bool,
    context: ContextView,
)
    ensures
        normalized(BehaviorView::FileRename { from: a, to: b }, include_system, context) == Some(
            BehaviorView::FileRename { from: symbolic(a, context), to: symbolic(b, context) },
        ),
        normalized(BehaviorView::SymlinkCreate { target: a, link: b }, include_system, context)
            == Some(BehaviorView::SymlinkCreate { target: a, link: symbolic(b, context) }),
        normalized(
            BehaviorView::HardlinkCreate { from: a, to: b, follow_symlink, empty_path },
            include_system,
            context,
        ) == Some(
            BehaviorView::HardlinkCreate {
                from: symbolic(a, context),
                to: symbolic(b, context),
                follow_symlink,
                empty_path,
            },
        ),
        !behavior::text_less(symbolic(b, context), symbolic(a, context)) ==> normalized(
            BehaviorView::RenameExchange { left: a, right: b },
            include_system,
            context,
        ) == Some(
            BehaviorView::RenameExchange {
                left: symbolic(a, context),
                right: symbolic(b, context),
            },
        ),
{
}

/// A clean absolute path in none of the named directories stays as it is.
pub proof fn law_other_paths_stay(parts: Seq<Seq<char>>, context: ContextView)
    requires
        path::clean_list(true, parts),
        !path::beneath(path::written(true, parts), context.project_root),
        context.home is Some ==> !path::beneath(path::written(true, parts), context.home->0),
        !path::beneath(path::written(true, parts), context.temp),
    ensures
        symbolic(path::written(true, parts), context) == path::written(true, parts),
{
    let none = Seq::<Seq<char>>::empty();
    assert(path::clean_list(true, none));
    assert(none + parts =~= parts);
    lemma_from_base(none, parts, context);
}

/// A relative path is seen from the project.
pub proof fn law_relative_paths_are_seen_from_the_project(raw: Seq<char>, context: ContextView)
    requires
        !path::absolute(raw),
        path::cleaned(raw) != "."@,
        path::absolute(context.project_root),
    ensures
        symbolic(raw, context) == symbolic(
            path::path_join(context.project_root, path::cleaned(raw)),
            context,
        ),
{
    let full = path::path_join(context.project_root, path::cleaned(raw));
    path::law_clean_is_idempotent(raw);
    path::law_clean_is_idempotent(full);
    assert(full[0] == context.project_root[0]);
    assert(path::absolute(full));
    reveal_strlit(".");
    assert(path::cleaned(full) != "."@) by {
        assert("."@[0] == '.');
    }
}

/// Only the name of a documentation test's directory is taken for volatile:
/// `rustdoctest` and exactly six letters or digits, as a whole first component.
pub proof fn law_other_names_are_kept(name: Seq<char>, rest: Seq<char>)
    requires
        !name.contains('/'),
        rest.len() == 0 || rest[0] == '/',
        !"rustdoctest"@.is_prefix_of(name) || name.len() != 17 || exists|i: int|
            11 <= i < 17 && !is_alphanumeric(#[trigger] name[i]),
    ensures
        steady_temp(name + rest) == name + rest,
{
    reveal_strlit("rustdoctest");
    assert("rustdoctest"@.len() == 11);
    text::law_begins_and_ends(name, "rustdoctest"@);
    lemma_first_component(name, rest);
}

/// A name of `rustdoctest` and six letters or digits is volatile.
pub proof fn law_volatile_names(tail: Seq<char>)
    ensures
        is_volatile_name("rustdoctest"@ + tail) <==> tail.len() == 6 && forall|i: int|
            0 <= i < 6 ==> {
                let c = #[trigger] tail[i];
                'a' <= c <= 'z' || 'A' <= c <= 'Z' || '0' <= c <= '9'
            },
{
    reveal_strlit("rustdoctest");
    let name = "rustdoctest"@ + tail;
    assert("rustdoctest"@.len() == 11);
    text::law_begins_and_ends("rustdoctest"@, tail);
    if is_volatile_name(name) {
        assert forall|i: int| 0 <= i < 6 implies is_alphanumeric(#[trigger] tail[i]) by {
            assert(name[i + 11] == tail[i]);
        }
    }
}

/// What lies beneath a named directory stands behind its name and a slash, and the
/// directory itself is its name alone.
pub proof fn law_symbolic_names(name: Seq<char>, rest: Seq<char>)
    ensures
        symbol_path(name, Seq::empty()) == name,
        rest.len() > 0 ==> symbol_path(name, rest) == name + seq!['/'] + rest,
{
    reveal_strlit("/");
    assert("/"@ =~= seq!['/']);
}

} // verus!
