//! The behavior vocabulary, its order and how a behavior is printed.

use vstd::prelude::*;
use vstd::string::*;

use crate::text;

verus! {

/// One observed kind of runtime behavior.
#[derive(Debug, PartialEq, Eq, PartialOrd, Ord)]
pub enum Behavior {
    /// A program was executed.
    Exec { path: String },
    /// A file was opened for reading.
    FileRead { path: String },
    /// A file was opened for writing, created or truncated.
    FileWrite { path: String },
    /// A file was removed.
    FileDelete { path: String },
    /// A file or directory was renamed.
    FileRename { from: String, to: String },
    /// Two names were exchanged; the order of the two says nothing.
    RenameExchange { left: String, right: String },
    /// A directory was created.
    DirectoryCreate { path: String },
    /// A directory was removed.
    DirectoryDelete { path: String },
    /// A symbolic link was created.
    SymlinkCreate { target: String, link: String },
    /// A hard link was created.
    HardlinkCreate { from: String, to: String, follow_symlink: bool, empty_path: bool },
    /// A connection to an IPv4 or IPv6 destination was initiated.
    NetworkConnect { address: String },
    /// A connection to a pathname Unix socket was made.
    UnixConnect { path: String },
    /// A connection to an abstract Unix socket was made.
    UnixAbstractConnect { address: String },
}

/// A behavior as a mathematical value.
pub enum BehaviorView {
    Exec { path: Seq<char> },
    FileRead { path: Seq<char> },
    FileWrite { path: Seq<char> },
    FileDelete { path: Seq<char> },
    FileRename { from: Seq<char>, to: Seq<char> },
    RenameExchange { left: Seq<char>, right: Seq<char> },
    DirectoryCreate { path: Seq<char> },
    DirectoryDelete { path: Seq<char> },
    SymlinkCreate { target: Seq<char>, link: Seq<char> },
    HardlinkCreate { from: Seq<char>, to: Seq<char>, follow_symlink: bool, empty_path: bool },
    NetworkConnect { address: Seq<char> },
    UnixConnect { path: Seq<char> },
    UnixAbstractConnect { address: Seq<char> },
}

impl View for Behavior {
    type V = BehaviorView;

    open spec fn view(&self) -> BehaviorView {
        match self {
            Behavior::Exec { path } => BehaviorView::Exec { path: path@ },
            Behavior::FileRead { path } => BehaviorView::FileRead { path: path@ },
            Behavior::FileWrite { path } => BehaviorView::FileWrite { path: path@ },
            Behavior::FileDelete { path } => BehaviorView::FileDelete { path: path@ },
            Behavior::FileRename { from, to } => BehaviorView::FileRename { from: from@, to: to@ },
            Behavior::RenameExchange { left, right } => BehaviorView::RenameExchange {
                left: left@,
                right: right@,
            },
            Behavior::DirectoryCreate { path } => BehaviorView::DirectoryCreate { path: path@ },
            Behavior::DirectoryDelete { path } => BehaviorView::DirectoryDelete { path: path@ },
            Behavior::SymlinkCreate { target, link } => BehaviorView::SymlinkCreate {
                target: target@,
                link: link@,
            },
            Behavior::HardlinkCreate { from, to, follow_symlink, empty_path } => {
                BehaviorView::HardlinkCreate {
                    from: from@,
                    to: to@,
                    follow_symlink: *follow_symlink,
                    empty_path: *empty_path,
                }
            },
            Behavior::NetworkConnect { address } => BehaviorView::NetworkConnect {
                address: address@,
            },
            Behavior::UnixConnect { path } => BehaviorView::UnixConnect { path: path@ },
            Behavior::UnixAbstractConnect { address } => BehaviorView::UnixAbstractConnect {
                address: address@,
            },
        }
    }
}

impl Clone for Behavior {
    fn clone(&self) -> (r: Self)
        ensures
            r@ == self@,
    {
        match self {
            Behavior::Exec { path } => Behavior::Exec { path: path.clone() },
            Behavior::FileRead { path } => Behavior::FileRead { path: path.clone() },
            Behavior::FileWrite { path } => Behavior::FileWrite { path: path.clone() },
            Behavior::FileDelete { path } => Behavior::FileDelete { path: path.clone() },
            Behavior::FileRename { from, to } => Behavior::FileRename {
                from: from.clone(),
                to: to.clone(),
            },
            Behavior::RenameExchange { left, right } => Behavior::RenameExchange {
                left: left.clone(),
                right: right.clone(),
            },
            Behavior::DirectoryCreate { path } => Behavior::DirectoryCreate { path: path.clone() },
            Behavior::DirectoryDelete { path } => Behavior::DirectoryDelete { path: path.clone() },
            Behavior::SymlinkCreate { target, link } => Behavior::SymlinkCreate {
                target: target.clone(),
                link: link.clone(),
            },
            Behavior::HardlinkCreate { from, to, follow_symlink, empty_path } => {
                Behavior::HardlinkCreate {
                    from: from.clone(),
                    to: to.clone(),
                    follow_symlink: *follow_symlink,
                    empty_path: *empty_path,
                }
            },
            Behavior::NetworkConnect { address } => Behavior::NetworkConnect {
                address: address.clone(),
            },
            Behavior::UnixConnect { path } => Behavior::UnixConnect { path: path.clone() },
            Behavior::UnixAbstractConnect { address } => Behavior::UnixAbstractConnect {
                address: address.clone(),
            },
        }
    }
}

// ---------------------------------------------------------------------------
// Order
// ---------------------------------------------------------------------------

/// `a` comes before `b` in the order of their characters.
pub open spec fn text_less(a: Seq<char>, b: Seq<char>) -> bool
    decreases a.len(),
{
    if b.len() == 0 {
        false
    } else if a.len() == 0 {
        true
    } else if a[0] != b[0] {
        a[0] < b[0]
    } else {
        text_less(a.drop_first(), b.drop_first())
    }
}

/// The kinds of behavior in their order.
pub open spec fn kind_rank(b: BehaviorView) -> int {
    match b {
        BehaviorView::Exec { .. } => 0,
        BehaviorView::FileRead { .. } => 1,
        BehaviorView::FileWrite { .. } => 2,
        BehaviorView::FileDelete { .. } => 3,
        BehaviorView::FileRename { .. } => 4,
        BehaviorView::RenameExchange { .. } => 5,
        BehaviorView::DirectoryCreate { .. } => 6,
        BehaviorView::DirectoryDelete { .. } => 7,
        BehaviorView::SymlinkCreate { .. } => 8,
        BehaviorView::HardlinkCreate { .. } => 9,
        BehaviorView::NetworkConnect { .. } => 10,
        BehaviorView::UnixConnect { .. } => 11,
        BehaviorView::UnixAbstractConnect { .. } => 12,
    }
}

/// The first text of a behavior.
pub open spec fn first_text(b: BehaviorView) -> Seq<char> {
    match b {
        BehaviorView::Exec { path } => path,
        BehaviorView::FileRead { path } => path,
        BehaviorView::FileWrite { path } => path,
        BehaviorView::FileDelete { path } => path,
        BehaviorView::FileRename { from, .. } => from,
        BehaviorView::RenameExchange { left, .. } => left,
        BehaviorView::DirectoryCreate { path } => path,
        BehaviorView::DirectoryDelete { path } => path,
        BehaviorView::SymlinkCreate { target, .. } => target,
        BehaviorView::HardlinkCreate { from, .. } => from,
        BehaviorView::NetworkConnect { address } => address,
        BehaviorView::UnixConnect { path } => path,
        BehaviorView::UnixAbstractConnect { address } => address,
    }
}

/// The second text of a behavior, where it has two.
pub open spec fn second_text(b: BehaviorView) -> Seq<char> {
    match b {
        BehaviorView::FileRename { to, .. } => to,
        BehaviorView::RenameExchange { right, .. } => right,
        BehaviorView::SymlinkCreate { link, .. } => link,
        BehaviorView::HardlinkCreate { to, .. } => to,
        _ => Seq::empty(),
    }
}

/// The flags of a behavior as a number, a set flag above an unset one.
pub open spec fn flag_rank(b: BehaviorView) -> int {
    match b {
        BehaviorView::HardlinkCreate { follow_symlink, empty_path, .. } => (if follow_symlink {
            2int
        } else {
            0
        }) + (if empty_path {
            1int
        } else {
            0
        }),
        _ => 0,
    }
}

/// `a` comes before `b`: by kind, then by the texts, then by the flags.
pub open spec fn precedes(a: BehaviorView, b: BehaviorView) -> bool {
    if kind_rank(a) != kind_rank(b) {
        kind_rank(a) < kind_rank(b)
    } else if first_text(a) != first_text(b) {
        text_less(first_text(a), first_text(b))
    } else if second_text(a) != second_text(b) {
        text_less(second_text(a), second_text(b))
    } else {
        flag_rank(a) < flag_rank(b)
    }
}

/// No text comes before itself, of two different texts one comes first, and the
/// order is transitive.
pub proof fn lemma_text_order(a: Seq<char>, b: Seq<char>, c: Seq<char>)
    ensures
        !text_less(a, a),
        text_less(a, b) || text_less(b, a) || a == b,
        !(text_less(a, b) && text_less(b, a)),
        text_less(a, b) && text_less(b, c) ==> text_less(a, c),
    decreases a.len() + b.len() + c.len(),
{
    if a.len() > 0 {
        lemma_text_order(
            a.drop_first(),
            if b.len() > 0 {
                b.drop_first()
            } else {
                b
            },
            if c.len() > 0 {
                c.drop_first()
            } else {
                c
            },
        );
        if b.len() > 0 && a[0] == b[0] && a.drop_first() == b.drop_first() {
            assert(a == seq![a[0]] + a.drop_first());
            assert(b == seq![b[0]] + b.drop_first());
        }
    } else if b.len() == 0 {
        assert(a == b);
    }
}

/// The order of behaviors is strict and total: no behavior comes before itself, of
/// two different ones exactly one comes first, and the order is transitive.
pub proof fn law_behavior_order(a: BehaviorView, b: BehaviorView, c: BehaviorView)
    ensures
        !precedes(a, a),
        precedes(a, b) || precedes(b, a) || a == b,
        !(precedes(a, b) && precedes(b, a)),
        precedes(a, b) && precedes(b, c) ==> precedes(a, c),
{
    lemma_text_order(first_text(a), first_text(b), first_text(c));
    lemma_text_order(second_text(a), second_text(b), second_text(c));
}

/// Which of two values comes first.
#[derive(Debug, Clone, Copy, PartialEq, Eq, Structural)]
pub enum Place {
    Before,
    Same,
    After,
}

/// Compares two texts by their characters.
pub fn place_text(a: &str, b: &str) -> (r: Place)
    ensures
        r == Place::Before <==> text_less(a@, b@),
        r == Place::Same <==> a@ == b@,
        r == Place::After <==> text_less(b@, a@),
{
    let x = text::to_chars(a);
    let y = text::to_chars(b);
    let mut i: usize = 0;
    proof {
        lemma_text_order(a@, b@, a@);
        assert(x@.skip(0) == x@);
        assert(y@.skip(0) == y@);
    }
    while i < x.len() && i < y.len()
        invariant
            x@ == a@,
            y@ == b@,
            i <= x@.len(),
            i <= y@.len(),
            x@.take(i as int) == y@.take(i as int),
            text_less(x@, y@) == text_less(x@.skip(i as int), y@.skip(i as int)),
            text_less(y@, x@) == text_less(y@.skip(i as int), x@.skip(i as int)),
        decreases x@.len() - i,
    {
        assert(x@.skip(i as int)[0] == x@[i as int]);
        assert(y@.skip(i as int)[0] == y@[i as int]);
        if x[i] < y[i] {
            return Place::Before;
        }
        if x[i] > y[i] {
            return Place::After;
        }
        assert(x@.skip(i as int).drop_first() == x@.skip(i + 1));
        assert(y@.skip(i as int).drop_first() == y@.skip(i + 1));
        assert(x@.take(i + 1) == x@.take(i as int).push(x@[i as int]));
        assert(y@.take(i + 1) == y@.take(i as int).push(y@[i as int]));
        i = i + 1;
    }
    if i < x.len() {
        Place::After
    } else if i < y.len() {
        Place::Before
    } else {
        assert(x@.take(i as int) == x@);
        assert(y@.take(i as int) == y@);
        Place::Same
    }
}

impl Behavior {
    /// The kind of this behavior, its two texts and its flags, as the order takes them.
    fn sort_key(&self) -> (r: (u8, &str, &str, u8))
        ensures
            r.0 == kind_rank(self@),
            r.1@ == first_text(self@),
            r.2@ == second_text(self@),
            r.3 == flag_rank(self@),
    {
        proof {
            reveal_strlit("");
            assert(""@ =~= Seq::<char>::empty());
        }
        match self {
            Behavior::Exec { path } => (0, path.as_str(), "", 0),
            Behavior::FileRead { path } => (1, path.as_str(), "", 0),
            Behavior::FileWrite { path } => (2, path.as_str(), "", 0),
            Behavior::FileDelete { path } => (3, path.as_str(), "", 0),
            Behavior::FileRename { from, to } => (4, from.as_str(), to.as_str(), 0),
            Behavior::RenameExchange { left, right } => (5, left.as_str(), right.as_str(), 0),
            Behavior::DirectoryCreate { path } => (6, path.as_str(), "", 0),
            Behavior::DirectoryDelete { path } => (7, path.as_str(), "", 0),
            Behavior::SymlinkCreate { target, link } => (8, target.as_str(), link.as_str(), 0),
            Behavior::HardlinkCreate { from, to, follow_symlink, empty_path } => {
                let follow: u8 = if *follow_symlink {
                    2
                } else {
                    0
                };
                let empty: u8 = if *empty_path {
                    1
                } else {
                    0
                };
                (9, from.as_str(), to.as_str(), follow + empty)
            },
            Behavior::NetworkConnect { address } => (10, address.as_str(), "", 0),
            Behavior::UnixConnect { path } => (11, path.as_str(), "", 0),
            Behavior::UnixAbstractConnect { address } => (12, address.as_str(), "", 0),
        }
    }

    /// Compares two behaviors by kind, then by the texts, then by the flags.
    pub fn place(&self, other: &Behavior) -> (r: Place)
        ensures
            r == Place::Before <==> precedes(self@, other@),
            r == Place::Same <==> self@ == other@,
            r == Place::After <==> precedes(other@, self@),
    {
        proof {
            law_behavior_order(self@, other@, self@);
        }
        let (rank_a, first_a, second_a, flags_a) = self.sort_key();
        let (rank_b, first_b, second_b, flags_b) = other.sort_key();
        proof {
            lemma_text_order(first_a@, first_b@, first_a@);
            lemma_text_order(second_a@, second_b@, second_a@);
        }
        if rank_a < rank_b {
            return Place::Before;
        }
        if rank_a > rank_b {
            return Place::After;
        }
        let by_first = place_text(first_a, first_b);
        if by_first != Place::Same {
            return by_first;
        }
        let by_second = place_text(second_a, second_b);
        if by_second != Place::Same {
            return by_second;
        }
        if flags_a < flags_b {
            Place::Before
        } else if flags_a > flags_b {
            Place::After
        } else {
            Place::Same
        }
    }
}

// ---------------------------------------------------------------------------
// Printing
// ---------------------------------------------------------------------------

/// A behavior as one line of text.
pub open spec fn rendered(b: BehaviorView) -> Seq<char> {
    match b {
        BehaviorView::Exec { path } => "exec     "@ + path,
        BehaviorView::FileRead { path } => "read     "@ + path,
        BehaviorView::FileWrite { path } => "write    "@ + path,
        BehaviorView::FileDelete { path } => "delete   "@ + path,
        BehaviorView::FileRename { from, to } => "rename   "@ + from + " -> "@ + to,
        BehaviorView::RenameExchange { left, right } => "exchange "@ + left + " <-> "@ + right,
        BehaviorView::DirectoryCreate { path } => "mkdir    "@ + path,
        BehaviorView::DirectoryDelete { path } => "rmdir    "@ + path,
        BehaviorView::SymlinkCreate { target, link } => "symlink  "@ + link + " -> "@ + target,
        BehaviorView::HardlinkCreate { from, to, .. } => "hardlink "@ + from + " -> "@ + to,
        BehaviorView::NetworkConnect { address } => "connect  "@ + address,
        BehaviorView::UnixConnect { path } => "ipc      "@ + path,
        BehaviorView::UnixAbstractConnect { address } => "ipc      "@ + address,
    }
}

/// A behavior as one line of text.
pub fn render(item: &Behavior) -> (r: String)
    ensures
        r@ == rendered(item@),
{
    match item {
        Behavior::Exec { path } => "exec     ".to_owned().concat(path.as_str()),
        Behavior::FileRead { path } => "read     ".to_owned().concat(path.as_str()),
        Behavior::FileWrite { path } => "write    ".to_owned().concat(path.as_str()),
        Behavior::FileDelete { path } => "delete   ".to_owned().concat(path.as_str()),
        Behavior::FileRename { from, to } => "rename   ".to_owned()
            .concat(from.as_str())
            .concat(" -> ")
            .concat(to.as_str()),
        Behavior::RenameExchange { left, right } => "exchange ".to_owned()
            .concat(left.as_str())
            .concat(" <-> ")
            .concat(right.as_str()),
        Behavior::DirectoryCreate { path } => "mkdir    ".to_owned().concat(path.as_str()),
        Behavior::DirectoryDelete { path } => "rmdir    ".to_owned().concat(path.as_str()),
        Behavior::SymlinkCreate { target, link } => "symlink  ".to_owned()
            .concat(link.as_str())
            .concat(" -> ")
            .concat(target.as_str()),
        Behavior::HardlinkCreate { from, to, .. } => "hardlink ".to_owned()
            .concat(from.as_str())
            .concat(" -> ")
            .concat(to.as_str()),
        Behavior::NetworkConnect { address } => "connect  ".to_owned().concat(address.as_str()),
        Behavior::UnixConnect { path } => "ipc      ".to_owned().concat(path.as_str()),
        Behavior::UnixAbstractConnect { address } => "ipc      ".to_owned()
            .concat(address.as_str()),
    }
}

/// How each behavior on one name is shown.
pub proof fn law_lone_names_are_shown(name: Seq<char>)
    ensures
        rendered(BehaviorView::Exec { path: name }) == "exec     "@ + name,
        rendered(BehaviorView::FileRead { path: name }) == "read     "@ + name,
        rendered(BehaviorView::FileWrite { path: name }) == "write    "@ + name,
        rendered(BehaviorView::FileDelete { path: name }) == "delete   "@ + name,
        rendered(BehaviorView::DirectoryCreate { path: name }) == "mkdir    "@ + name,
        rendered(BehaviorView::DirectoryDelete { path: name }) == "rmdir    "@ + name,
        rendered(BehaviorView::NetworkConnect { address: name }) == "connect  "@ + name,
        rendered(BehaviorView::UnixConnect { path: name }) == "ipc      "@ + name,
        rendered(BehaviorView::UnixAbstractConnect { address: name }) == "ipc      "@ + name,
{
}

/// How each behavior on two names is shown.
pub proof fn law_pairs_are_shown(a: Seq<char>, b: Seq<char>, follow: bool, empty: bool)
    ensures
        rendered(BehaviorView::FileRename { from: a, to: b }) == "rename   "@ + a + " -> "@ + b,
        rendered(BehaviorView::RenameExchange { left: a, right: b }) == "exchange "@ + a
            + " <-> "@ + b,
        rendered(BehaviorView::SymlinkCreate { target: a, link: b }) == "symlink  "@ + b
            + " -> "@ + a,
        rendered(
            BehaviorView::HardlinkCreate {
                from: a,
                to: b,
                follow_symlink: follow,
                empty_path: empty,
            },
        ) == "hardlink "@ + a + " -> "@ + b,
{
}

/// A text comes before another one exactly where it is the beginning of the other, or where
/// the first character in which they differ is the lesser one.
pub proof fn law_texts_are_ordered_by_characters(
    common: Seq<char>,
    a: Seq<char>,
    b: Seq<char>,
)
    requires
        a.len() == 0 || b.len() == 0 || a[0] != b[0],
    ensures
        text_less(common + a, common + b) <==> b.len() > 0 && (a.len() == 0 || a[0] < b[0]),
    decreases common.len(),
{
    if common.len() == 0 {
        assert(common + a =~= a);
        assert(common + b =~= b);
    } else {
        assert((common + a).drop_first() =~= common.drop_first() + a);
        assert((common + b).drop_first() =~= common.drop_first() + b);
        law_texts_are_ordered_by_characters(common.drop_first(), a, b);
    }
}

/// The kinds of behavior follow one another, whatever their texts and flags are.
pub proof fn law_kinds_follow_one_another(
    p: Seq<char>,
    q: Seq<char>,
    r: Seq<char>,
    s: Seq<char>,
    f: bool,
    e: bool,
)
    ensures
        precedes(
            BehaviorView::Exec { path: p },
            BehaviorView::FileRead { path: r },
        ),
        precedes(
            BehaviorView::FileRead { path: p },
            BehaviorView::FileWrite { path: r },
        ),
        precedes(
            BehaviorView::FileWrite { path: p },
            BehaviorView::FileDelete { path: r },
        ),
        precedes(
            BehaviorView::FileDelete { path: p },
            BehaviorView::FileRename { from: r, to: s },
        ),
        precedes(
            BehaviorView::FileRename { from: p, to: q },
            BehaviorView::RenameExchange { left: r, right: s },
        ),
        precedes(
            BehaviorView::RenameExchange { left: p, right: q },
            BehaviorView::DirectoryCreate { path: r },
        ),
        precedes(
            BehaviorView::DirectoryCreate { path: p },
            BehaviorView::DirectoryDelete { path: r },
        ),
        precedes(
            BehaviorView::DirectoryDelete { path: p },
            BehaviorView::SymlinkCreate { target: r, link: s },
        ),
        precedes(
            BehaviorView::SymlinkCreate { target: p, link: q },
            BehaviorView::HardlinkCreate { from: r, to: s, follow_symlink: f, empty_path: e },
        ),
        precedes(
            BehaviorView::HardlinkCreate { from: p, to: q, follow_symlink: f, empty_path: e },
            BehaviorView::NetworkConnect { address: r },
        ),
        precedes(
            BehaviorView::NetworkConnect { address: p },
            BehaviorView::UnixConnect { path: r },
        ),
        precedes(
            BehaviorView::UnixConnect { path: p },
            BehaviorView::UnixAbstractConnect { address: r },
        ),
{
}

/// Behaviors of one kind on one path or address follow one another by that text.
pub proof fn law_lone_names_follow_one_another(p: Seq<char>, q: Seq<char>)
    ensures
        text_less(p, q) ==> precedes(
            BehaviorView::Exec { path: p },
            BehaviorView::Exec { path: q },
        ),
        text_less(p, q) ==> precedes(
            BehaviorView::FileRead { path: p },
            BehaviorView::FileRead { path: q },
        ),
        text_less(p, q) ==> precedes(
            BehaviorView::FileWrite { path: p },
            BehaviorView::FileWrite { path: q },
        ),
        text_less(p, q) ==> precedes(
            BehaviorView::FileDelete { path: p },
            BehaviorView::FileDelete { path: q },
        ),
        text_less(p, q) ==> precedes(
            BehaviorView::DirectoryCreate { path: p },
            BehaviorView::DirectoryCreate { path: q },
        ),
        text_less(p, q) ==> precedes(
            BehaviorView::DirectoryDelete { path: p },
            BehaviorView::DirectoryDelete { path: q },
        ),
        text_less(p, q) ==> precedes(
            BehaviorView::NetworkConnect { address: p },
            BehaviorView::NetworkConnect { address: q },
        ),
        text_less(p, q) ==> precedes(
            BehaviorView::UnixConnect { path: p },
            BehaviorView::UnixConnect { path: q },
        ),
        text_less(p, q) ==> precedes(
            BehaviorView::UnixAbstractConnect { address: p },
            BehaviorView::UnixAbstractConnect { address: q },
        ),
{
    lemma_text_order(p, q, q);
}

/// Behaviors of one kind on two paths follow one another by the first path, then by the
/// second, and hard links then by whether links are followed and by whether the path may be
/// empty.
pub proof fn law_pairs_follow_one_another(
    p: Seq<char>,
    q: Seq<char>,
    r: Seq<char>,
    s: Seq<char>,
    f: bool,
    e: bool,
    g: bool,
    d: bool,
)
    ensures
        text_less(p, q) ==> precedes(
            BehaviorView::FileRename { from: p, to: r },
            BehaviorView::FileRename { from: q, to: s },
        ),
        text_less(r, s) ==> precedes(
            BehaviorView::FileRename { from: p, to: r },
            BehaviorView::FileRename { from: p, to: s },
        ),
        text_less(p, q) ==> precedes(
            BehaviorView::RenameExchange { left: p, right: r },
            BehaviorView::RenameExchange { left: q, right: s },
        ),
        text_less(r, s) ==> precedes(
            BehaviorView::RenameExchange { left: p, right: r },
            BehaviorView::RenameExchange { left: p, right: s },
        ),
        text_less(p, q) ==> precedes(
            BehaviorView::SymlinkCreate { target: p, link: r },
            BehaviorView::SymlinkCreate { target: q, link: s },
        ),
        text_less(r, s) ==> precedes(
            BehaviorView::SymlinkCreate { target: p, link: r },
            BehaviorView::SymlinkCreate { target: p, link: s },
        ),
        text_less(p, q) ==> precedes(
            BehaviorView::HardlinkCreate { from: p, to: r, follow_symlink: f, empty_path: e },
            BehaviorView::HardlinkCreate { from: q, to: s, follow_symlink: g, empty_path: d },
        ),
        text_less(r, s) ==> precedes(
            BehaviorView::HardlinkCreate { from: p, to: r, follow_symlink: f, empty_path: e },
            BehaviorView::HardlinkCreate { from: p, to: s, follow_symlink: g, empty_path: d },
        ),
        precedes(
            BehaviorView::HardlinkCreate { from: p, to: r, follow_symlink: false, empty_path: e },
            BehaviorView::HardlinkCreate { from: p, to: r, follow_symlink: true, empty_path: d },
        ),
        precedes(
            BehaviorView::HardlinkCreate { from: p, to: r, follow_symlink: f, empty_path: false },
            BehaviorView::HardlinkCreate { from: p, to: r, follow_symlink: f, empty_path: true },
        ),
{
    lemma_text_order(p, q, q);
    lemma_text_order(r, s, s);
}

} // verus!
