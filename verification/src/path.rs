//! Unix paths as text: joining, lexical cleaning and component-wise prefixes.

use vstd::prelude::*;
use vstd::string::*;

use crate::text;

verus! {

/// A path that starts at the root.
pub open spec fn absolute(path: Seq<char>) -> bool {
    path.len() > 0 && path[0] == '/'
}

/// `path` as seen from `base`: an absolute path stays as it is.
pub open spec fn path_join(base: Seq<char>, path: Seq<char>) -> Seq<char> {
    if absolute(path) {
        path
    } else if base.len() > 0 && base.last() != '/' {
        base + "/"@ + path
    } else {
        base + path
    }
}

/// A piece between slashes that names nothing.
pub open spec fn is_void(part: Seq<char>) -> bool {
    part == Seq::<char>::empty() || part == "."@
}

/// The parts of a path that remain once each `..` has taken the part in front of
/// it. Above the root there is nothing; a relative path keeps the `..` that it
/// starts with.
pub open spec fn clean_parts(rooted: bool, parts: Seq<Seq<char>>) -> Seq<Seq<char>>
    decreases parts.len(),
{
    if parts.len() == 0 {
        Seq::empty()
    } else {
        let before = clean_parts(rooted, parts.drop_last());
        let part = parts.last();
        if is_void(part) {
            before
        } else if part != ".."@ {
            before.push(part)
        } else if before.len() > 0 && before.last() != ".."@ {
            before.drop_last()
        } else if rooted {
            before
        } else {
            before.push(part)
        }
    }
}

/// The path that the given clean parts write.
pub open spec fn written(rooted: bool, parts: Seq<Seq<char>>) -> Seq<char> {
    if rooted {
        "/"@ + text::joined(parts, "/"@)
    } else if parts.len() == 0 {
        "."@
    } else {
        text::joined(parts, "/"@)
    }
}

/// The lexically clean form of a path.
pub open spec fn cleaned(path: Seq<char>) -> Seq<char> {
    written(absolute(path), clean_parts(absolute(path), text::pieces(path, '/')))
}

/// The parts that name something.
pub open spec fn named_parts(parts: Seq<Seq<char>>) -> Seq<Seq<char>>
    decreases parts.len(),
{
    if parts.len() == 0 {
        Seq::empty()
    } else if is_void(parts.last()) {
        named_parts(parts.drop_last())
    } else {
        named_parts(parts.drop_last()).push(parts.last())
    }
}

/// The components of a path: the root or a `.` that it starts with, then the parts
/// that name something.
pub open spec fn components(path: Seq<char>) -> Seq<Seq<char>> {
    let parts = text::pieces(path, '/');
    if absolute(path) {
        seq!["/"@] + named_parts(parts)
    } else if parts[0] == "."@ {
        seq!["."@] + named_parts(parts)
    } else {
        named_parts(parts)
    }
}

/// `path` is `base` or lies beneath it.
pub open spec fn beneath(path: Seq<char>, base: Seq<char>) -> bool {
    components(base).is_prefix_of(components(path))
}

/// What a clean `path` is when seen from `base`, where it is `base` or lies
/// beneath it.
pub open spec fn relative_to(path: Seq<char>, base: Seq<char>) -> Option<Seq<char>> {
    if !beneath(path, base) {
        None
    } else if components(base).len() == 0 {
        Some(path)
    } else {
        Some(text::joined(components(path).skip(components(base).len() as int), "/"@))
    }
}

/// Tells whether a path starts at the root.
pub fn is_absolute(path: &str) -> (r: bool)
    ensures
        r == absolute(path@),
{
    let chars = text::to_chars(path);
    chars.len() > 0 && chars[0] == '/'
}

/// `path` as seen from `base`.
pub fn join(base: &str, path: &str) -> (r: String)
    ensures
        r@ == path_join(base@, path@),
{
    if is_absolute(path) {
        return path.to_owned();
    }
    let chars = text::to_chars(base);
    let mut r = base.to_owned();
    if chars.len() > 0 && chars[chars.len() - 1] != '/' {
        r.append("/");
    }
    r.append(path);
    r
}

/// Tells whether a piece between slashes names nothing.
fn void(part: &[char]) -> (r: bool)
    ensures
        r == is_void(part@),
{
    if part.len() == 0 {
        assert(part@ == Seq::<char>::empty());
        true
    } else {
        text::spells(part, ".")
    }
}

/// The lexically clean form of a path.
pub fn lexical_clean(path: &str) -> (r: String)
    ensures
        r@ == cleaned(path@),
{
    let chars = text::to_chars(path);
    let rooted: bool = is_absolute(path);
    let pieces = text::split(chars.as_slice(), '/');
    let ghost all = text::runs(pieces@);
    let mut parts: Vec<&[char]> = Vec::new();
    let mut i: usize = 0;
    assert(text::runs(parts@) == clean_parts(rooted, all.take(0)));
    while i < pieces.len()
        invariant
            i <= pieces@.len(),
            all == text::runs(pieces@),
            text::runs(parts@) == clean_parts(rooted, all.take(i as int)),
        decreases pieces@.len() - i,
    {
        let part = pieces[i];
        let ghost before = text::runs(parts@);
        assert(all.take(i + 1).drop_last() == all.take(i as int));
        assert(all.take(i + 1).last() == part@);
        if !void(part) {
            let up: bool = text::spells(part, "..");
            if up && parts.len() > 0 && !text::spells(parts[parts.len() - 1], "..") {
                assert(before.last() != ".."@);
                parts.pop();
                assert(text::runs(parts@) == before.drop_last());
            } else if !up || !rooted {
                assert(up && before.len() > 0 ==> before.last() == ".."@);
                parts.push(part);
                assert(text::runs(parts@) == before.push(part@));
            } else {
                assert(before.len() > 0 ==> before.last() == ".."@);
            }
        }
        i = i + 1;
    }
    assert(all.take(i as int) == all);
    assert(parts@.len() == text::runs(parts@).len());
    let joined = text::join(&parts, "/");
    if rooted {
        "/".to_owned().concat(joined.as_str())
    } else if parts.len() == 0 {
        ".".to_owned()
    } else {
        joined
    }
}

/// The components of a path.
fn path_components<'a>(chars: &'a [char], root: &'a [char]) -> (r: Vec<&'a [char]>)
    requires
        root@ == "/"@,
    ensures
        text::runs(r@) == components(chars@),
{
    let pieces = text::split(chars, '/');
    let ghost all = text::runs(pieces@);
    proof {
        text::lemma_pieces(chars@, '/');
    }
    let mut r: Vec<&'a [char]> = Vec::new();
    if chars.len() > 0 && chars[0] == '/' {
        r.push(root);
        assert(text::runs(r@) == seq!["/"@]);
    } else if text::spells(pieces[0], ".") {
        r.push(pieces[0]);
        assert(text::runs(r@) == seq!["."@]);
    }
    let ghost first = text::runs(r@);
    let mut i: usize = 0;
    assert(first + named_parts(all.take(0)) == first);
    while i < pieces.len()
        invariant
            i <= pieces@.len(),
            all == text::runs(pieces@),
            text::runs(r@) == first + named_parts(all.take(i as int)),
        decreases pieces@.len() - i,
    {
        let ghost before = text::runs(r@);
        assert(all.take(i + 1).drop_last() == all.take(i as int));
        assert(all.take(i + 1).last() == pieces@[i as int]@);
        if !void(pieces[i]) {
            r.push(pieces[i]);
            assert(text::runs(r@) == before.push(pieces@[i as int]@));
        }
        i = i + 1;
    }
    assert(all.take(i as int) == all);
    assert(first.len() == 0 ==> first + named_parts(all) == named_parts(all));
    r
}

/// Tells whether the parts of `base` are the first ones of `parts`.
fn shared_prefix(parts: &Vec<&[char]>, base: &Vec<&[char]>) -> (r: bool)
    ensures
        r == text::runs(base@).is_prefix_of(text::runs(parts@)),
{
    if base.len() > parts.len() {
        return false;
    }
    let mut i: usize = 0;
    while i < base.len()
        invariant
            i <= base@.len() <= parts@.len(),
            forall|k: int| 0 <= k < i ==> (#[trigger] base@[k])@ == parts@[k]@,
        decreases base@.len() - i,
    {
        if !text::same(base[i], parts[i]) {
            assert(text::runs(base@)[i as int] != text::runs(parts@).take(
                base@.len() as int,
            )[i as int]);
            return false;
        }
        i = i + 1;
    }
    assert(text::runs(base@) =~= text::runs(parts@).take(base@.len() as int)) by {
        assert forall|k: int| 0 <= k < base@.len() implies text::runs(base@)[k] == text::runs(
            parts@,
        ).take(base@.len() as int)[k] by {
            assert(base@[k]@ == parts@[k]@);
        }
    }
    true
}

/// Tells whether `path` is `base` or lies beneath it.
pub fn starts_with(path: &str, base: &str) -> (r: bool)
    ensures
        r == beneath(path@, base@),
{
    let root = text::to_chars("/");
    let path = text::to_chars(path);
    let base = text::to_chars(base);
    let parts = path_components(path.as_slice(), root.as_slice());
    let base_parts = path_components(base.as_slice(), root.as_slice());
    shared_prefix(&parts, &base_parts)
}

/// What a clean `path` is when seen from `base`, where it is `base` or lies
/// beneath it.
pub(crate) fn strip_prefix(path: &str, base: &str) -> (r: Option<String>)
    requires
        cleaned(path@) == path@,
    ensures
        match r {
            Some(rest) => relative_to(path@, base@) == Some(rest@),
            None => relative_to(path@, base@) is None,
        },
{
    let root = text::to_chars("/");
    let chars = text::to_chars(path);
    let base = text::to_chars(base);
    let parts = path_components(chars.as_slice(), root.as_slice());
    let base_parts = path_components(base.as_slice(), root.as_slice());
    assert(base_parts@.len() == text::runs(base_parts@).len());
    assert(parts@.len() == text::runs(parts@).len());
    if !shared_prefix(&parts, &base_parts) {
        return None;
    }
    let n: usize = base_parts.len();
    if n == 0 {
        return Some(path.to_owned());
    }
    let mut rest: Vec<&[char]> = Vec::new();
    let mut i: usize = n;
    while i < parts.len()
        invariant
            n <= i <= parts@.len(),
            text::runs(rest@) == text::runs(parts@).subrange(n as int, i as int),
        decreases parts@.len() - i,
    {
        let ghost before = text::runs(rest@);
        rest.push(parts[i]);
        assert(text::runs(rest@) == before.push(parts@[i as int]@));
        assert(text::runs(parts@).subrange(n as int, i + 1) == before.push(parts@[i as int]@));
        i = i + 1;
    }
    assert(text::runs(parts@).subrange(n as int, i as int) == text::runs(parts@).skip(n as int));
    Some(text::join(&rest, "/"))
}


// ---------------------------------------------------------------------------
// What cleaning gives
// ---------------------------------------------------------------------------

/// A part that can stand in a clean path: it names something and holds no slash.
pub open spec fn plain_part(part: Seq<char>) -> bool {
    !is_void(part) && !part.contains('/')
}

/// The parts of a clean path: each names something, and a `..` stands only in
/// front of all else, and not beneath the root.
pub open spec fn clean_list(rooted: bool, parts: Seq<Seq<char>>) -> bool {
    &&& forall|i: int| 0 <= i < parts.len() ==> plain_part(#[trigger] parts[i])
    &&& forall|i: int|
        0 <= i < parts.len() && #[trigger] parts[i] == ".."@ ==> !rooted && (forall|j: int|
            0 <= j < i ==> #[trigger] parts[j] == ".."@)
}

/// The parts of the clean form of `path`.
pub open spec fn parts_of(path: Seq<char>) -> Seq<Seq<char>> {
    clean_parts(absolute(path), text::pieces(path, '/'))
}

/// What cleaning leaves are the parts of a clean path.
pub proof fn lemma_clean_parts(rooted: bool, parts: Seq<Seq<char>>)
    requires
        forall|i: int| 0 <= i < parts.len() ==> !(#[trigger] parts[i]).contains('/'),
    ensures
        clean_list(rooted, clean_parts(rooted, parts)),
    decreases parts.len(),
{
    if parts.len() > 0 {
        let front = parts.drop_last();
        assert forall|i: int| 0 <= i < front.len() implies !(#[trigger] front[i]).contains('/') by {
            assert(front[i] == parts[i]);
        }
        lemma_clean_parts(rooted, front);
        let before = clean_parts(rooted, front);
        let after = clean_parts(rooted, parts);
        assert(!parts[parts.len() - 1].contains('/'));
        if after == before.push(parts.last()) {
            assert forall|i: int| 0 <= i < after.len() implies plain_part(#[trigger] after[i]) by {
                if i < before.len() {
                    assert(after[i] == before[i]);
                }
            }
            assert forall|i: int|
                0 <= i < after.len() && #[trigger] after[i] == ".."@ implies !rooted && (forall|
                j: int,
            |
                0 <= j < i ==> #[trigger] after[j] == ".."@) by {
                if i < before.len() {
                    assert(after[i] == before[i]);
                    assert forall|j: int| 0 <= j < i implies #[trigger] after[j] == ".."@ by {
                        assert(after[j] == before[j]);
                    }
                } else {
                    assert forall|j: int| 0 <= j < i implies #[trigger] after[j] == ".."@ by {
                        assert(after[j] == before[j]);
                        assert(before[before.len() - 1] == ".."@);
                    }
                }
            }
        } else if after == before.drop_last() {
            assert forall|i: int| 0 <= i < after.len() implies after[i] == before[i] by {}
        }
    }
}

/// Clean parts stay as they are when they are cleaned, also behind the empty piece
/// that a slash in front makes.
proof fn lemma_clean_parts_fixed(rooted: bool, parts: Seq<Seq<char>>)
    requires
        clean_list(rooted, parts),
    ensures
        clean_parts(rooted, parts) == parts,
        clean_parts(rooted, seq![Seq::<char>::empty()] + parts) == parts,
        named_parts(parts) == parts,
        named_parts(seq![Seq::<char>::empty()] + parts) == parts,
    decreases parts.len(),
{
    let void = seq![Seq::<char>::empty()];
    if parts.len() == 0 {
        assert(void + parts == void);
        assert(void.drop_last() == Seq::<Seq<char>>::empty());
        assert(clean_parts(rooted, void.drop_last()) == parts);
        assert(named_parts(void.drop_last()) == parts);
    } else {
        let front = parts.drop_last();
        assert forall|i: int| 0 <= i < front.len() implies front[i] == parts[i] by {}
        assert(clean_list(rooted, front));
        lemma_clean_parts_fixed(rooted, front);
        assert((void + parts).drop_last() == void + front);
        assert((void + parts).last() == parts.last());
        assert(plain_part(parts[parts.len() - 1]));
        assert(front.push(parts.last()) == parts);
        if parts.last() == ".."@ {
            assert(parts[parts.len() - 1] == ".."@);
            if front.len() > 0 {
                assert(parts[front.len() - 1] == ".."@);
            }
        }
    }
}

/// What a path written from clean parts consists of.
pub proof fn lemma_written(rooted: bool, parts: Seq<Seq<char>>)
    requires
        clean_list(rooted, parts),
    ensures
        absolute(written(rooted, parts)) == rooted,
        parts_of(written(rooted, parts)) == parts,
        cleaned(written(rooted, parts)) == written(rooted, parts),
        rooted ==> components(written(rooted, parts)) == seq!["/"@] + parts,
        !rooted && parts.len() > 0 ==> components(written(rooted, parts)) == parts,
{
    reveal_strlit("/");
    reveal_strlit(".");
    assert("/"@ =~= seq!['/']);
    assert("."@ =~= seq!['.']);
    let void = seq![Seq::<char>::empty()];
    let body = text::joined(parts, "/"@);
    let path = written(rooted, parts);
    lemma_clean_parts_fixed(rooted, parts);
    assert forall|i: int| 0 <= i < parts.len() implies !(#[trigger] parts[i]).contains('/') by {
        assert(plain_part(parts[i]));
    }
    if parts.len() > 0 {
        text::lemma_pieces_joined(parts, '/');
    }
    if rooted {
        assert(path == Seq::<char>::empty().push('/') + body);
        text::lemma_pieces_concat(Seq::empty(), body, '/');
        if parts.len() == 0 {
            assert(text::pieces(path, '/') == void + void);
            assert((void + void).drop_last() == void);
            assert(void.drop_last() == Seq::<Seq<char>>::empty());
            assert(clean_parts(rooted, Seq::<Seq<char>>::empty()) == parts);
            assert(clean_parts(rooted, void) == parts);
            assert(named_parts(void) == parts);
            assert(named_parts(void + void) == parts);
        }
    } else if parts.len() == 0 {
        assert(!"."@.contains('/'));
        text::lemma_pieces_single("."@, '/');
        assert(seq!["."@].drop_last() == Seq::<Seq<char>>::empty());
        assert(clean_parts(rooted, Seq::<Seq<char>>::empty()) == parts);
        assert(clean_parts(rooted, seq!["."@]) == parts);
    } else {
        lemma_joined_starts(parts, "/"@);
        assert(plain_part(parts[0]));
        assert(parts[0].len() > 0) by {
            assert(parts[0] =~= Seq::<char>::empty() || parts[0].len() > 0);
        }
        if path[0] == '/' {
            assert(parts[0][0] == '/');
            assert(parts[0].contains('/'));
        }
    }
}

/// A joined text starts with its first part.
proof fn lemma_joined_starts(parts: Seq<Seq<char>>, sep: Seq<char>)
    requires
        parts.len() > 0,
    ensures
        parts[0].is_prefix_of(text::joined(parts, sep)),
    decreases parts.len(),
{
    if parts.len() > 1 {
        lemma_joined_starts(parts.drop_last(), sep);
        let front = text::joined(parts.drop_last(), sep);
        assert(text::joined(parts, sep).take(parts[0].len() as int) == front.take(
            parts[0].len() as int,
        ));
    }
}

/// A path that is clean is written from its clean parts.
pub proof fn lemma_parts_of(path: Seq<char>)
    ensures
        clean_list(absolute(path), parts_of(path)),
        cleaned(path) == written(absolute(path), parts_of(path)),
{
    text::lemma_pieces(path, '/');
    lemma_clean_parts(absolute(path), text::pieces(path, '/'));
}

/// Cleaning a clean path changes nothing, and a path stays absolute or relative.
pub proof fn law_clean_is_idempotent(path: Seq<char>)
    ensures
        cleaned(cleaned(path)) == cleaned(path),
        absolute(cleaned(path)) == absolute(path),
        clean_list(absolute(path), parts_of(cleaned(path))),
{
    lemma_parts_of(path);
    lemma_written(absolute(path), parts_of(path));
}

/// Joining two lists of parts one after the other.
pub proof fn lemma_joined_concat(a: Seq<Seq<char>>, b: Seq<Seq<char>>, sep: Seq<char>)
    requires
        a.len() > 0,
        b.len() > 0,
    ensures
        text::joined(a + b, sep) == text::joined(a, sep) + sep + text::joined(b, sep),
    decreases b.len(),
{
    let all = a + b;
    assert(all.last() == b.last());
    assert(all.drop_last() =~= a + b.drop_last());
    if b.len() == 1 {
        assert(a + b.drop_last() =~= a);
        assert(text::joined(b, sep) =~= b.last());
        assert(text::joined(all, sep) =~= text::joined(a, sep) + sep + b.last());
    } else {
        lemma_joined_concat(a, b.drop_last(), sep);
        assert(text::joined(all, sep) =~= text::joined(a, sep) + sep + text::joined(b, sep));
    }
}

/// A joined text ends with its last part.
proof fn lemma_joined_ends(parts: Seq<Seq<char>>, sep: Seq<char>)
    requires
        parts.len() > 0,
        parts.last().len() > 0,
    ensures
        text::joined(parts, sep).len() > 0,
        text::joined(parts, sep).last() == parts.last().last(),
{
}

/// One clean absolute path behind another.
pub proof fn lemma_clean_concat(a: Seq<Seq<char>>, b: Seq<Seq<char>>)
    requires
        clean_list(true, a),
        clean_list(true, b),
    ensures
        clean_list(true, a + b),
{
    let all = a + b;
    assert forall|i: int| 0 <= i < all.len() implies plain_part(#[trigger] all[i]) by {
        if i < a.len() {
            assert(all[i] == a[i]);
        } else {
            assert(all[i] == b[i - a.len()]);
        }
    }
    assert forall|i: int| 0 <= i < all.len() implies #[trigger] all[i] != ".."@ by {
        if i < a.len() {
            assert(all[i] == a[i]);
        } else {
            assert(all[i] == b[i - a.len()]);
        }
    }
}

/// Joining a clean relative path to a clean absolute one gives the path with the parts
/// of both.
pub proof fn law_join_puts_parts_behind_parts(base: Seq<Seq<char>>, parts: Seq<Seq<char>>)
    requires
        clean_list(true, base),
        clean_list(true, parts),
        parts.len() > 0,
    ensures
        path_join(written(true, base), written(false, parts)) == written(true, base + parts),
        cleaned(written(true, base + parts)) == written(true, base + parts),
        !absolute(written(false, parts)),
        cleaned(written(false, parts)) == written(false, parts),
        written(false, parts) != "."@,
{
    reveal_strlit("/");
    assert("/"@ =~= seq!['/']);
    let front = written(true, base);
    let rest = written(false, parts);
    assert(clean_list(false, parts));
    lemma_written(false, parts);
    lemma_clean_concat(base, parts);
    lemma_written(true, base + parts);
    assert(clean_list(false, Seq::<Seq<char>>::empty()));
    lemma_written(false, Seq::empty());
    assert(rest != "."@);
    assert(front[0] == '/');
    if base.len() == 0 {
        assert(text::joined(base, "/"@) =~= Seq::<char>::empty());
        assert(front =~= "/"@);
        assert(base + parts =~= parts);
    } else {
        assert(plain_part(base[base.len() - 1]));
        assert(base.last().len() > 0) by {
            assert(base.last() =~= Seq::<char>::empty() || base.last().len() > 0);
        }
        lemma_joined_ends(base, "/"@);
        assert(front.last() == base.last().last());
        if front.last() == '/' {
            assert(base.last()[base.last().len() - 1] == '/');
            assert(base.last().contains('/'));
        }
        lemma_joined_concat(base, parts, "/"@);
        assert(front + "/"@ + rest =~= written(true, base + parts));
    }
}

/// Joining: an absolute path stays, and a relative one is put behind the base, with one
/// slash between them where the base does not end in one.
pub proof fn law_path_join(base: Seq<char>, path: Seq<char>)
    ensures
        path.len() > 0 && path[0] == '/' ==> path_join(base, path) == path,
        path.len() == 0 || path[0] != '/' ==> path_join(base, path) == (if base.len() == 0
            || base[base.len() - 1] == '/' {
            base + path
        } else {
            base + seq!['/'] + path
        }),
{
    reveal_strlit("/");
    assert("/"@ =~= seq!['/']);
}

/// A part that names nothing can be left out.
pub proof fn law_void_parts_vanish(
    rooted: bool,
    a: Seq<Seq<char>>,
    part: Seq<char>,
    b: Seq<Seq<char>>,
)
    requires
        part.len() == 0 || part == seq!['.'],
    ensures
        clean_parts(rooted, a + seq![part] + b) == clean_parts(rooted, a + b),
    decreases b.len(),
{
    reveal_strlit(".");
    assert("."@ =~= seq!['.']);
    let longer = a + seq![part] + b;
    if b.len() == 0 {
        assert(part.len() == 0 ==> part =~= Seq::<char>::empty());
        assert(longer.drop_last() =~= a);
        assert(longer.last() == part);
        assert(a + b =~= a);
    } else {
        assert(longer.drop_last() =~= a + seq![part] + b.drop_last());
        assert((a + b).drop_last() =~= a + b.drop_last());
        law_void_parts_vanish(rooted, a, part, b.drop_last());
    }
}

/// A name and the `..` behind it can be left out.
pub proof fn law_parents_undo_names(
    rooted: bool,
    a: Seq<Seq<char>>,
    name: Seq<char>,
    b: Seq<Seq<char>>,
)
    requires
        name.len() > 0,
        name != seq!['.'],
        name != seq!['.', '.'],
    ensures
        clean_parts(rooted, a + seq![name, seq!['.', '.']] + b) == clean_parts(rooted, a + b),
    decreases b.len(),
{
    reveal_strlit(".");
    reveal_strlit("..");
    assert("."@ =~= seq!['.']);
    assert(".."@ =~= seq!['.', '.']);
    let up = seq!['.', '.'];
    let longer = a + seq![name, up] + b;
    if b.len() == 0 {
        let named = a.push(name);
        assert(longer.drop_last() =~= named);
        assert(longer.last() == up);
        assert(named.drop_last() =~= a);
        assert(!is_void(up)) by {
            assert(up.len() == 2);
        }
        assert(clean_parts(rooted, named) == clean_parts(rooted, a).push(name));
        assert(clean_parts(rooted, a).push(name).drop_last() =~= clean_parts(rooted, a));
        assert(a + b =~= a);
    } else {
        assert(longer.drop_last() =~= a + seq![name, up] + b.drop_last());
        assert((a + b).drop_last() =~= a + b.drop_last());
        law_parents_undo_names(rooted, a, name, b.drop_last());
    }
}

/// There is nothing above the root: a `..` directly beneath it can be left out.
pub proof fn law_nothing_above_the_root(b: Seq<Seq<char>>)
    ensures
        clean_parts(true, seq![seq!['.', '.']] + b) == clean_parts(true, b),
    decreases b.len(),
{
    reveal_strlit("..");
    assert(".."@ =~= seq!['.', '.']);
    let up = seq!['.', '.'];
    let longer = seq![up] + b;
    if b.len() == 0 {
        assert(longer =~= seq![up]);
        assert(longer.drop_last() =~= Seq::<Seq<char>>::empty());
        assert(clean_parts(true, Seq::<Seq<char>>::empty()) =~= Seq::<Seq<char>>::empty());
        assert(!is_void(up)) by {
            reveal_strlit(".");
            assert(up.len() == 2);
        }
        assert(b =~= Seq::<Seq<char>>::empty());
    } else {
        assert(longer.drop_last() =~= seq![up] + b.drop_last());
        law_nothing_above_the_root(b.drop_last());
    }
}

/// Parts of which none is void and none is a `..` behind something else stay as they are.
pub proof fn law_clean_parts_stay(rooted: bool, parts: Seq<Seq<char>>)
    requires
        forall|i: int|
            0 <= i < parts.len() ==> {
                &&& (#[trigger] parts[i]).len() > 0
                &&& parts[i] != seq!['.']
                &&& parts[i] == seq!['.', '.'] ==> !rooted && forall|j: int|
                    0 <= j < i ==> #[trigger] parts[j] == seq!['.', '.']
            },
    ensures
        clean_parts(rooted, parts) == parts,
    decreases parts.len(),
{
    reveal_strlit(".");
    reveal_strlit("..");
    assert("."@ =~= seq!['.']);
    assert(".."@ =~= seq!['.', '.']);
    if parts.len() == 0 {
        assert(clean_parts(rooted, parts) =~= parts);
    } else {
        let front = parts.drop_last();
        assert forall|i: int| 0 <= i < front.len() implies {
            &&& (#[trigger] front[i]).len() > 0
            &&& front[i] != seq!['.']
            &&& front[i] == seq!['.', '.'] ==> !rooted && forall|j: int|
                0 <= j < i ==> #[trigger] front[j] == seq!['.', '.']
        } by {
            assert(front[i] == parts[i]);
            assert forall|j: int| 0 <= j < i && parts[i] == seq!['.', '.'] implies
                #[trigger] front[j] == seq!['.', '.'] by {
                assert(front[j] == parts[j]);
            }
        }
        law_clean_parts_stay(rooted, front);
        let last = parts[parts.len() - 1];
        assert(last.len() > 0 && last != seq!['.']);
        if last == seq!['.', '.'] && front.len() > 0 {
            assert(parts[front.len() - 1] == seq!['.', '.']);
        }
        assert(front.push(parts.last()) =~= parts);
    }
}

/// The clean form of a path is written from its parts, behind a slash where the path is
/// absolute, and is a dot where nothing is left.
pub proof fn law_how_paths_are_written(path: Seq<char>)
    ensures
        ({
            let rooted = path.len() > 0 && path[0] == '/';
            let parts = clean_parts(rooted, text::pieces(path, '/'));
            cleaned(path) == (if rooted {
                seq!['/'] + text::joined(parts, seq!['/'])
            } else if parts.len() == 0 {
                seq!['.']
            } else {
                text::joined(parts, seq!['/'])
            })
        }),
{
    reveal_strlit(".");
    reveal_strlit("/");
    assert("."@ =~= seq!['.']);
    assert("/"@ =~= seq!['/']);
}

/// A clean absolute path lies beneath another one exactly where its parts begin with those
/// of the other.
pub proof fn law_beneath_is_by_parts(path: Seq<Seq<char>>, base: Seq<Seq<char>>)
    requires
        clean_list(true, path),
        clean_list(true, base),
    ensures
        beneath(written(true, path), written(true, base)) <==> base.is_prefix_of(path),
{
    lemma_written(true, path);
    lemma_written(true, base);
    let p = seq!["/"@] + path;
    let b = seq!["/"@] + base;
    if base.is_prefix_of(path) {
        assert(p.take(b.len() as int) =~= b) by {
            assert forall|i: int| 0 <= i < b.len() implies p.take(b.len() as int)[i] == b[i] by {
                if i > 0 {
                    assert(path.take(base.len() as int)[i - 1] == base[i - 1]);
                }
            }
        }
    }
    if b.is_prefix_of(p) {
        assert(path.take(base.len() as int) =~= base) by {
            assert forall|i: int| 0 <= i < base.len() implies path[i] == base[i] by {
                assert(p.take(b.len() as int)[i + 1] == b[i + 1]);
            }
        }
    }
}

/// The parts of a path that count are those that are neither empty nor a dot, in their
/// order.
pub proof fn law_named_parts(parts: Seq<Seq<char>>, part: Seq<char>)
    ensures
        named_parts(Seq::empty()) == Seq::<Seq<char>>::empty(),
        named_parts(parts.push(part)) == (if part.len() == 0 || part == seq!['.'] {
            named_parts(parts)
        } else {
            named_parts(parts) + seq![part]
        }),
{
    reveal_strlit(".");
    assert("."@ =~= seq!['.']);
    assert(parts.push(part).drop_last() =~= parts);
    assert(part.len() == 0 ==> part =~= Seq::<char>::empty());
    assert(named_parts(parts).push(part) =~= named_parts(parts) + seq![part]);
}

/// A path lies beneath an absolute one exactly where it is absolute too and its parts that
/// count begin with those of the other.
pub proof fn law_beneath_by_named_parts(path: Seq<char>, base: Seq<char>)
    requires
        base.len() > 0 && base[0] == '/',
    ensures
        beneath(path, base) <==> {
            &&& path.len() > 0 && path[0] == '/'
            &&& named_parts(text::pieces(base, '/')).is_prefix_of(
                named_parts(text::pieces(path, '/')),
            )
        },
{
    reveal_strlit("/");
    reveal_strlit(".");
    assert("/"@ =~= seq!['/']);
    assert("."@ =~= seq!['.']);
    let root = seq!["/"@];
    let b = named_parts(text::pieces(base, '/'));
    let p = named_parts(text::pieces(path, '/'));
    let whole = components(path);
    let start = components(base);
    assert(start == root + b);
    if absolute(path) {
        assert(whole == root + p);
        if b.is_prefix_of(p) {
            assert(whole.take(start.len() as int) =~= start) by {
                assert forall|i: int| 0 <= i < start.len() implies whole[i] == start[i] by {
                    if i > 0 {
                        assert(p.take(b.len() as int)[i - 1] == b[i - 1]);
                    }
                }
            }
        }
        if start.is_prefix_of(whole) {
            assert(p.take(b.len() as int) =~= b) by {
                assert forall|i: int| 0 <= i < b.len() implies p[i] == b[i] by {
                    assert(whole.take(start.len() as int)[i + 1] == start[i + 1]);
                }
            }
        }
    } else if start.is_prefix_of(whole) {
        assert(whole.take(start.len() as int)[0] == start[0]);
        assert(whole[0] == "/"@);
        text::lemma_pieces(path, '/');
        lemma_named_from(text::pieces(path, '/'), "/"@);
        if text::pieces(path, '/')[0] == "."@ {
            assert(whole[0] == "."@);
            assert(seq!['.'][0] != seq!['/'][0]);
        } else {
            assert(whole == p);
            assert(p.contains("/"@));
            let all = text::pieces(path, '/');
            let k = choose|k: int| 0 <= k < all.len() && all[k] == "/"@;
            assert(!all[k].contains('/'));
            assert(seq!['/'][0] == '/');
            assert(all[k][0] == '/');
        }
    }
}

/// The parts that count are among the parts.
proof fn lemma_named_from(parts: Seq<Seq<char>>, part: Seq<char>)
    ensures
        named_parts(parts).contains(part) ==> parts.contains(part),
    decreases parts.len(),
{
    if parts.len() > 0 {
        let front = parts.drop_last();
        lemma_named_from(front, part);
        if named_parts(parts).contains(part) {
            if named_parts(front).contains(part) {
                let k = choose|k: int| 0 <= k < front.len() && front[k] == part;
                assert(parts[k] == part);
            } else {
                let k = choose|k: int|
                    0 <= k < named_parts(parts).len() && named_parts(parts)[k] == part;
                if k < named_parts(front).len() {
                    assert(named_parts(front)[k] == part);
                }
                assert(parts[parts.len() - 1] == part);
            }
        }
    }
}

} // verus!
