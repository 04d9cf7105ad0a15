//! Text as a sequence of characters: searching, trimming, splitting and joining.

use vstd::prelude::*;
use vstd::slice::slice_subrange;
use vstd::string::*;

verus! {

/// The characters with the Unicode `White_Space` property.
pub open spec fn is_space(c: char) -> bool {
    ||| 0x09 <= c as u32 <= 0x0d
    ||| c as u32 == 0x20
    ||| c as u32 == 0x85
    ||| c as u32 == 0xa0
    ||| c as u32 == 0x1680
    ||| 0x2000 <= c as u32 <= 0x200a
    ||| 0x2028 <= c as u32 <= 0x2029
    ||| c as u32 == 0x202f
    ||| c as u32 == 0x205f
    ||| c as u32 == 0x3000
}

/// `pat` stands in `s` at index `i`.
pub open spec fn matches_at(s: Seq<char>, pat: Seq<char>, i: int) -> bool {
    &&& 0 <= i
    &&& i + pat.len() <= s.len()
    &&& s.subrange(i, i + pat.len()) == pat
}

/// `s` starts with `pat`.
pub open spec fn begins(s: Seq<char>, pat: Seq<char>) -> bool {
    matches_at(s, pat, 0)
}

/// `s` ends with `pat`.
pub open spec fn ends(s: Seq<char>, pat: Seq<char>) -> bool {
    matches_at(s, pat, s.len() - pat.len())
}

/// The first index at or after `from` at which `pat` stands in `s`.
pub open spec fn first_match_from(s: Seq<char>, pat: Seq<char>, from: int) -> Option<int>
    decreases s.len() - from + 1,
{
    if from < 0 || from + pat.len() > s.len() {
        None
    } else if matches_at(s, pat, from) {
        Some(from)
    } else {
        first_match_from(s, pat, from + 1)
    }
}

/// The first index at which `pat` stands in `s`.
pub open spec fn first_match(s: Seq<char>, pat: Seq<char>) -> Option<int> {
    first_match_from(s, pat, 0)
}

/// The last index at or before `upto` at which `pat` stands in `s`.
pub open spec fn last_match_upto(s: Seq<char>, pat: Seq<char>, upto: int) -> Option<int>
    decreases upto + 1,
{
    if upto < 0 {
        None
    } else if matches_at(s, pat, upto) {
        Some(upto)
    } else {
        last_match_upto(s, pat, upto - 1)
    }
}

/// The last index at which `pat` stands in `s`.
pub open spec fn last_match(s: Seq<char>, pat: Seq<char>) -> Option<int> {
    last_match_upto(s, pat, s.len() - pat.len())
}

/// `s` without the whitespace in front.
pub open spec fn trim_front(s: Seq<char>) -> Seq<char>
    decreases s.len(),
{
    if s.len() > 0 && is_space(s[0]) {
        trim_front(s.drop_first())
    } else {
        s
    }
}

/// `s` without the whitespace at its end.
pub open spec fn trim_back(s: Seq<char>) -> Seq<char>
    decreases s.len(),
{
    if s.len() > 0 && is_space(s.last()) {
        trim_back(s.drop_last())
    } else {
        s
    }
}

/// `s` without the whitespace on both sides.
pub open spec fn trimmed(s: Seq<char>) -> Seq<char> {
    trim_back(trim_front(s))
}

/// The longest prefix of `s` that holds no whitespace.
pub open spec fn word_prefix(s: Seq<char>) -> Seq<char>
    decreases s.len(),
{
    if s.len() > 0 && !is_space(s[0]) {
        seq![s[0]] + word_prefix(s.drop_first())
    } else {
        Seq::empty()
    }
}

/// The first whitespace-separated word of `s`, where there is one.
pub open spec fn first_word(s: Seq<char>) -> Option<Seq<char>> {
    let rest = trim_front(s);
    if rest.len() == 0 {
        None
    } else {
        Some(word_prefix(rest))
    }
}

/// The pieces of `s` between the separators `sep`: one more than there are separators.
pub open spec fn pieces(s: Seq<char>, sep: char) -> Seq<Seq<char>>
    decreases s.len(),
{
    if s.len() == 0 {
        seq![Seq::empty()]
    } else {
        let before = pieces(s.drop_last(), sep);
        if s.last() == sep {
            before.push(Seq::empty())
        } else {
            before.drop_last().push(before.last().push(s.last()))
        }
    }
}

/// The parts with `sep` between each two of them.
pub open spec fn joined(parts: Seq<Seq<char>>, sep: Seq<char>) -> Seq<char>
    decreases parts.len(),
{
    if parts.len() == 0 {
        Seq::empty()
    } else if parts.len() == 1 {
        parts[0]
    } else {
        joined(parts.drop_last(), sep) + sep + parts.last()
    }
}

/// The characters of a string.
pub fn to_chars(s: &str) -> (v: Vec<char>)
    ensures
        v@ == s@,
{
    let mut v: Vec<char> = Vec::new();
    for c in it: s.chars()
        invariant
            it.seq() == s@,
            v@ == s@.take(it.index() as int),
    {
        v.push(c);
    }
    assert(s@.take(s@.len() as int) == s@);
    v
}

/// Tells whether a character has the Unicode `White_Space` property.
pub fn is_whitespace(c: char) -> (r: bool)
    ensures
        r == is_space(c),
{
    let u: u32 = c as u32;
    (0x09 <= u && u <= 0x0d) || u == 0x20 || u == 0x85 || u == 0xa0 || u == 0x1680
        || (0x2000 <= u && u <= 0x200a) || (0x2028 <= u && u <= 0x2029) || u == 0x202f
        || u == 0x205f || u == 0x3000
}

/// `String::push`: appends one character.
pub assume_specification[ String::push ](s: &mut String, c: char)
    ensures
        final(s)@ == old(s)@.push(c),
;

/// The string made of the given characters.
pub fn from_chars(v: &[char]) -> (r: String)
    ensures
        r@ == v@,
{
    let mut r = String::new();
    let mut i: usize = 0;
    while i < v.len()
        invariant
            i <= v@.len(),
            r@ == v@.take(i as int),
        decreases v@.len() - i,
    {
        r.push(v[i]);
        assert(v@.take(i + 1) == v@.take(i as int).push(v@[i as int]));
        i = i + 1;
    }
    assert(v@.take(i as int) == v@);
    r
}

/// Tells whether two runs of characters are the same.
pub fn same(a: &[char], b: &[char]) -> (r: bool)
    ensures
        r == (a@ == b@),
{
    if a.len() != b.len() {
        return false;
    }
    let mut i: usize = 0;
    while i < a.len()
        invariant
            i <= a@.len(),
            a@.len() == b@.len(),
            forall|k: int| 0 <= k < i ==> a@[k] == b@[k],
        decreases a@.len() - i,
    {
        if a[i] != b[i] {
            return false;
        }
        i = i + 1;
    }
    assert(a@ =~= b@);
    true
}

/// Tells whether a run of characters spells the given string.
pub fn spells(a: &[char], b: &str) -> (r: bool)
    ensures
        r == (a@ == b@),
{
    let b = to_chars(b);
    same(a, b.as_slice())
}

/// Tells whether two strings hold the same characters.
pub fn same_str(a: &str, b: &str) -> (r: bool)
    ensures
        r == (a@ == b@),
{
    let a = to_chars(a);
    spells(a.as_slice(), b)
}

/// Tells whether `pat` stands in `s` at index `i`.
pub fn occurs_at(s: &[char], pat: &[char], i: usize) -> (r: bool)
    ensures
        r == matches_at(s@, pat@, i as int),
{
    if i > s.len() || pat.len() > s.len() - i {
        return false;
    }
    let r = same(slice_subrange(s, i, i + pat.len()), pat);
    r
}

/// Tells whether `s` starts with `pat`.
pub fn starts_with(s: &[char], pat: &str) -> (r: bool)
    ensures
        r == begins(s@, pat@),
{
    let pat = to_chars(pat);
    occurs_at(s, pat.as_slice(), 0)
}

/// Tells whether `s` ends with `pat`.
pub fn ends_with(s: &[char], pat: &str) -> (r: bool)
    ensures
        r == ends(s@, pat@),
{
    let pat = to_chars(pat);
    if pat.len() > s.len() {
        false
    } else {
        occurs_at(s, pat.as_slice(), s.len() - pat.len())
    }
}

/// What follows `pat` where `s` starts with it.
pub fn strip_front<'a>(s: &'a [char], pat: &str) -> (r: Option<&'a [char]>)
    ensures
        match r {
            Some(rest) => begins(s@, pat@) && rest@ == s@.skip(pat@.len() as int),
            None => !begins(s@, pat@),
        },
{
    let pat = to_chars(pat);
    if occurs_at(s, pat.as_slice(), 0) {
        Some(slice_subrange(s, pat.len(), s.len()))
    } else {
        None
    }
}

/// What precedes `pat` where `s` ends with it.
pub fn strip_back<'a>(s: &'a [char], pat: &str) -> (r: Option<&'a [char]>)
    ensures
        match r {
            Some(rest) => ends(s@, pat@) && rest@ == s@.take(s@.len() - pat@.len()),
            None => !ends(s@, pat@),
        },
{
    if ends_with(s, pat) {
        let pat = to_chars(pat);
        Some(slice_subrange(s, 0, s.len() - pat.len()))
    } else {
        None
    }
}

/// The first index at which `pat` stands in `s`.
pub fn find(s: &[char], pat: &str) -> (r: Option<usize>)
    ensures
        match r {
            Some(i) => first_match(s@, pat@) == Some(i as int) && i + pat@.len() <= s@.len(),
            None => first_match(s@, pat@) is None,
        },
{
    let p = to_chars(pat);
    if p.len() > s.len() {
        return None;
    }
    let last: usize = s.len() - p.len();
    let mut i: usize = 0;
    loop
        invariant
            p@ == pat@,
            i <= last,
            last + pat@.len() == s@.len(),
            first_match(s@, pat@) == first_match_from(s@, pat@, i as int),
        decreases last - i,
    {
        if occurs_at(s, p.as_slice(), i) {
            return Some(i);
        }
        if i == last {
            assert(first_match_from(s@, pat@, i + 1) is None);
            return None;
        }
        i = i + 1;
    }
}

/// The last index at which `pat` stands in `s`.
pub fn rfind(s: &[char], pat: &str) -> (r: Option<usize>)
    ensures
        match r {
            Some(i) => last_match(s@, pat@) == Some(i as int) && i + pat@.len() <= s@.len(),
            None => last_match(s@, pat@) is None,
        },
{
    let p = to_chars(pat);
    if p.len() > s.len() {
        return None;
    }
    let mut i: usize = s.len() - p.len();
    loop
        invariant
            p@ == pat@,
            i + pat@.len() <= s@.len(),
            last_match(s@, pat@) == last_match_upto(s@, pat@, i as int),
        decreases i,
    {
        if occurs_at(s, p.as_slice(), i) {
            return Some(i);
        }
        if i == 0 {
            assert(last_match_upto(s@, pat@, -1) is None);
            return None;
        }
        i = i - 1;
    }
}

/// Tells whether `pat` stands anywhere in `s`.
pub fn contains(s: &[char], pat: &str) -> (r: bool)
    ensures
        r == (first_match(s@, pat@) is Some),
{
    find(s, pat).is_some()
}

/// Drops the whitespace in front.
pub fn trim_start(s: &[char]) -> (r: &[char])
    ensures
        r@ == trim_front(s@),
{
    let mut i: usize = 0;
    assert(s@.skip(0) == s@);
    while i < s.len() && is_whitespace(s[i])
        invariant
            i <= s@.len(),
            trim_front(s@) == trim_front(s@.skip(i as int)),
        decreases s@.len() - i,
    {
        assert(s@.skip(i as int).drop_first() == s@.skip(i + 1));
        i = i + 1;
    }
    slice_subrange(s, i, s.len())
}

/// Drops the whitespace at the end.
pub fn trim_end(s: &[char]) -> (r: &[char])
    ensures
        r@ == trim_back(s@),
{
    let mut n: usize = s.len();
    assert(s@.take(n as int) == s@);
    while n > 0 && is_whitespace(s[n - 1])
        invariant
            n <= s@.len(),
            trim_back(s@) == trim_back(s@.take(n as int)),
        decreases n,
    {
        assert(s@.take(n as int).drop_last() == s@.take(n - 1));
        n = n - 1;
    }
    slice_subrange(s, 0, n)
}

/// Drops the whitespace on both sides.
pub fn trim(s: &[char]) -> (r: &[char])
    ensures
        r@ == trimmed(s@),
{
    trim_end(trim_start(s))
}

/// The first whitespace-separated word.
pub fn leading_word(s: &[char]) -> (r: Option<&[char]>)
    ensures
        match r {
            Some(w) => first_word(s@) == Some(w@),
            None => first_word(s@) is None,
        },
{
    let rest = trim_start(s);
    if rest.len() == 0 {
        return None;
    }
    let mut n: usize = 0;
    assert(rest@.skip(0) == rest@);
    assert(rest@.take(0) + word_prefix(rest@) == word_prefix(rest@));
    while n < rest.len() && !is_whitespace(rest[n])
        invariant
            n <= rest@.len(),
            word_prefix(rest@) == rest@.take(n as int) + word_prefix(rest@.skip(n as int)),
        decreases rest@.len() - n,
    {
        assert(rest@.skip(n as int).drop_first() == rest@.skip(n + 1));
        assert(rest@.take(n + 1) == rest@.take(n as int) + seq![rest@[n as int]]);
        n = n + 1;
    }
    assert(word_prefix(rest@.skip(n as int)) == Seq::<char>::empty());
    Some(slice_subrange(rest, 0, n))
}

/// The views of a list of strings.
pub open spec fn strings(v: Seq<String>) -> Seq<Seq<char>> {
    Seq::new(v.len(), |i: int| v[i]@)
}

/// A copy of a list of strings.
pub fn copied(list: &Vec<String>) -> (r: Vec<String>)
    ensures
        strings(r@) == strings(list@),
{
    let ghost all = strings(list@);
    let mut r: Vec<String> = Vec::new();
    let mut i: usize = 0;
    assert(strings(r@) =~= all.take(0));
    while i < list.len()
        invariant
            i <= list@.len(),
            all == strings(list@),
            strings(r@) == all.take(i as int),
        decreases list@.len() - i,
    {
        let ghost before = strings(r@);
        let item = list[i].clone();
        assert(item@ == all[i as int]);
        r.push(item);
        assert(strings(r@) =~= before.push(all[i as int]));
        assert(all.take(i + 1) =~= all.take(i as int).push(all[i as int]));
        i = i + 1;
    }
    assert(all.take(i as int) =~= all);
    r
}

/// The views of a list of character runs.
pub open spec fn runs(v: Seq<&[char]>) -> Seq<Seq<char>> {
    Seq::new(v.len(), |i: int| v[i]@)
}

/// Splits at every `sep`.
pub fn split<'a>(s: &'a [char], sep: char) -> (r: Vec<&'a [char]>)
    ensures
        runs(r@) == pieces(s@, sep),
{
    let mut r: Vec<&'a [char]> = Vec::new();
    let mut start: usize = 0;
    let mut i: usize = 0;
    assert(s@.subrange(0, 0) == Seq::<char>::empty());
    assert(runs(r@).push(s@.subrange(0, 0)) == pieces(s@.take(0), sep));
    while i < s.len()
        invariant
            start <= i <= s@.len(),
            pieces(s@.take(i as int), sep) == runs(r@).push(s@.subrange(start as int, i as int)),
        decreases s@.len() - i,
    {
        let ghost before = runs(r@).push(s@.subrange(start as int, i as int));
        assert(s@.take(i + 1).drop_last() == s@.take(i as int));
        if s[i] == sep {
            r.push(slice_subrange(s, start, i));
            assert(runs(r@) == before);
            start = i + 1;
            assert(s@.subrange(start as int, i + 1) == Seq::<char>::empty());
        } else {
            assert(before.drop_last() == runs(r@));
            assert(s@.subrange(start as int, i + 1) == before.last().push(s@[i as int]));
        }
        i = i + 1;
    }
    assert(s@.take(i as int) == s@);
    let ghost before = runs(r@).push(s@.subrange(start as int, i as int));
    r.push(slice_subrange(s, start, i));
    assert(runs(r@) == before);
    r
}

/// Joins the parts with `sep` between each two of them.
pub fn join(parts: &Vec<&[char]>, sep: &str) -> (r: String)
    ensures
        r@ == joined(runs(parts@), sep@),
{
    let mut r = String::new();
    let mut i: usize = 0;
    assert(runs(parts@).take(0).len() == 0);
    while i < parts.len()
        invariant
            i <= parts@.len(),
            r@ == joined(runs(parts@).take(i as int), sep@),
        decreases parts@.len() - i,
    {
        let ghost next = runs(parts@).take(i + 1);
        assert(next.drop_last() == runs(parts@).take(i as int));
        if i > 0 {
            r.append(sep);
        }
        let part = from_chars(parts[i]);
        r.append(part.as_str());
        assert(next.last() == parts@[i as int]@);
        i = i + 1;
    }
    assert(runs(parts@).take(i as int) == runs(parts@));
    r
}

/// `c` is one of `0` to `9`.
pub open spec fn is_digit(c: char) -> bool {
    '0' <= c <= '9'
}

/// Every character is one of `0` to `9`.
pub open spec fn all_digits(s: Seq<char>) -> bool {
    forall|i: int| 0 <= i < s.len() ==> is_digit(#[trigger] s[i])
}

/// The number that a run of decimal digits writes.
pub open spec fn digits_value(s: Seq<char>) -> nat
    decreases s.len(),
{
    if s.len() == 0 {
        0
    } else {
        digits_value(s.drop_last()) * 10 + (s.last() as u32 - '0' as u32) as nat
    }
}

/// `s` without a plus sign in front of something.
pub open spec fn unsigned_digits(s: Seq<char>) -> Seq<char> {
    if s.len() > 1 && s[0] == '+' {
        s.drop_first()
    } else {
        s
    }
}

/// The `u32` that `s` writes in decimal, with or without a plus sign in front.
pub open spec fn decimal_u32(s: Seq<char>) -> Option<u32> {
    let digits = unsigned_digits(s);
    if digits.len() > 0 && all_digits(digits) && digits_value(digits) <= u32::MAX {
        Some(digits_value(digits) as u32)
    } else {
        None
    }
}

/// A longer run of digits does not write a smaller number.
proof fn lemma_digits_value_grows(s: Seq<char>, n: int)
    requires
        0 <= n <= s.len(),
    ensures
        digits_value(s.take(n)) <= digits_value(s),
    decreases s.len() - n,
{
    if n < s.len() {
        assert(s.take(n + 1).drop_last() == s.take(n));
        lemma_digits_value_grows(s, n + 1);
    } else {
        assert(s.take(n) == s);
    }
}

/// Reads a `u32` in decimal, with or without a plus sign in front.
pub fn parse_u32(s: &[char]) -> (r: Option<u32>)
    ensures
        r == decimal_u32(s@),
{
    let digits = if s.len() > 1 && s[0] == '+' {
        slice_subrange(s, 1, s.len())
    } else {
        s
    };
    assert(digits@ == unsigned_digits(s@));
    if digits.len() == 0 {
        return None;
    }
    let mut value: u32 = 0;
    let mut i: usize = 0;
    while i < digits.len()
        invariant
            i <= digits@.len(),
            digits@.len() > 0,
            digits@ == unsigned_digits(s@),
            forall|k: int| 0 <= k < i ==> is_digit(#[trigger] digits@[k]),
            value == digits_value(digits@.take(i as int)),
        decreases digits@.len() - i,
    {
        let c: char = digits[i];
        if c < '0' || c > '9' {
            return None;
        }
        assert(digits@.take(i + 1).drop_last() == digits@.take(i as int));
        proof {
            lemma_digits_value_grows(digits@, i + 1);
        }
        let next: u64 = value as u64 * 10 + (c as u32 - '0' as u32) as u64;
        if next > u32::MAX as u64 {
            return None;
        }
        value = next as u32;
        i = i + 1;
    }
    assert(digits@.take(i as int) == digits@);
    Some(value)
}

/// There is at least one piece, and no piece holds the separator.
pub proof fn lemma_pieces(s: Seq<char>, sep: char)
    ensures
        pieces(s, sep).len() >= 1,
        forall|i: int| 0 <= i < pieces(s, sep).len() ==> !(#[trigger] pieces(s, sep)[i]).contains(sep),
    decreases s.len(),
{
    if s.len() > 0 {
        let before = pieces(s.drop_last(), sep);
        lemma_pieces(s.drop_last(), sep);
        assert forall|i: int| 0 <= i < pieces(s, sep).len() implies !(#[trigger] pieces(
            s,
            sep,
        )[i]).contains(sep) by {
            if i < before.len() - 1 {
                assert(pieces(s, sep)[i] == before[i]);
            } else if s.last() != sep {
                let longer = before.last().push(s.last());
                assert(pieces(s, sep)[i] == longer);
                assert forall|k: int| 0 <= k < longer.len() implies longer[k] != sep by {
                    if k < before.last().len() {
                        assert(before.last()[k] == longer[k]);
                        assert(!before[before.len() - 1].contains(sep));
                    }
                }
            } else if i == before.len() - 1 {
                assert(pieces(s, sep)[i] == before[i]);
            }
        }
    }
}

/// The pieces of two texts with a separator between them.
pub proof fn lemma_pieces_concat(a: Seq<char>, b: Seq<char>, sep: char)
    ensures
        pieces(a.push(sep) + b, sep) == pieces(a, sep) + pieces(b, sep),
    decreases b.len(),
{
    let s = a.push(sep) + b;
    lemma_pieces(b, sep);
    if b.len() == 0 {
        assert(s == a.push(sep));
        assert(s.drop_last() == a);
        assert(pieces(s, sep) == pieces(a, sep) + pieces(b, sep));
    } else {
        let c = b.drop_last();
        lemma_pieces_concat(a, c, sep);
        lemma_pieces(c, sep);
        assert(s.drop_last() == a.push(sep) + c);
        let before = pieces(a, sep) + pieces(c, sep);
        assert(before.last() == pieces(c, sep).last());
        assert(before.drop_last() == pieces(a, sep) + pieces(c, sep).drop_last());
        assert(pieces(s, sep) == pieces(a, sep) + pieces(b, sep));
    }
}

/// A text without the separator is its only piece.
pub proof fn lemma_pieces_single(s: Seq<char>, sep: char)
    requires
        !s.contains(sep),
    ensures
        pieces(s, sep) == seq![s],
    decreases s.len(),
{
    if s.len() > 0 {
        let t = s.drop_last();
        assert(s.last() != sep) by {
            assert(s[s.len() - 1] == s.last());
        }
        assert forall|k: int| 0 <= k < t.len() implies t[k] != sep by {
            assert(s[k] == t[k]);
        }
        lemma_pieces_single(t, sep);
        assert(t.push(s.last()) == s);
        assert(pieces(s, sep) == seq![s]);
    } else {
        assert(s == Seq::<char>::empty());
    }
}

/// Splitting undoes joining, where no part holds the separator.
pub proof fn lemma_pieces_joined(parts: Seq<Seq<char>>, sep: char)
    requires
        parts.len() > 0,
        forall|i: int| 0 <= i < parts.len() ==> !(#[trigger] parts[i]).contains(sep),
    ensures
        pieces(joined(parts, seq![sep]), sep) == parts,
    decreases parts.len(),
{
    if parts.len() == 1 {
        lemma_pieces_single(parts[0], sep);
        assert(parts == seq![parts[0]]);
    } else {
        let front = parts.drop_last();
        assert forall|i: int| 0 <= i < front.len() implies !(#[trigger] front[i]).contains(sep) by {
            assert(front[i] == parts[i]);
        }
        lemma_pieces_joined(front, sep);
        lemma_pieces_single(parts.last(), sep);
        assert(joined(parts, seq![sep]) == joined(front, seq![sep]).push(sep) + parts.last());
        lemma_pieces_concat(joined(front, seq![sep]), parts.last(), sep);
        assert(front + seq![parts.last()] == parts);
    }
}

/// Where a character stands for the first time.
pub proof fn lemma_first_char(s: Seq<char>, c: char, at: int)
    requires
        0 <= at <= s.len(),
        forall|i: int| 0 <= i < at ==> #[trigger] s[i] != c,
        at < s.len() ==> s[at] == c,
    ensures
        first_match(s, seq![c]) == (if at < s.len() {
            Some(at)
        } else {
            None
        }),
{
    lemma_first_char_from(s, c, 0, at);
}

/// Where a character stands for the first time from some place on.
proof fn lemma_first_char_from(s: Seq<char>, c: char, from: int, at: int)
    requires
        0 <= from <= at <= s.len(),
        forall|i: int| from <= i < at ==> #[trigger] s[i] != c,
        at < s.len() ==> s[at] == c,
    ensures
        first_match_from(s, seq![c], from) == (if at < s.len() {
            Some(at)
        } else {
            None
        }),
    decreases at - from,
{
    if from < at {
        assert(s.subrange(from, from + 1)[0] == s[from]);
        lemma_first_char_from(s, c, from + 1, at);
    } else if at < s.len() {
        assert(s.subrange(from, from + 1) =~= seq![c]);
    }
}

// ---------------------------------------------------------------------------
// Laws
// ---------------------------------------------------------------------------

/// A text begins with its first part and ends with its last part, and with nothing else.
pub proof fn law_begins_and_ends(a: Seq<char>, b: Seq<char>)
    ensures
        begins(a + b, a),
        ends(a + b, b),
        begins(a, b) <==> b.is_prefix_of(a),
        ends(a, b) <==> b.is_suffix_of(a),
{
    let whole = a + b;
    assert(whole.subrange(0, a.len() as int) =~= a);
    assert(whole.subrange(a.len() as int, whole.len() as int) =~= b);
    if b.len() <= a.len() {
        assert(a.subrange(0, b.len() as int) =~= b <==> b.is_prefix_of(a));
        assert(a.subrange(a.len() - b.len(), a.len() as int) =~= b <==> b.is_suffix_of(a));
    }
}

/// What a text begins with, character by character.
pub proof fn lemma_begins(s: Seq<char>, pat: Seq<char>, i: int)
    ensures
        begins(s, pat) && 0 <= i < pat.len() ==> pat.len() <= s.len() && s[i] == pat[i],
        begins(s, pat) <==> pat.is_prefix_of(s),
        pat.len() == 1 ==> (begins(s, pat) <==> s.len() > 0 && s[0] == pat[0]),
{
    law_begins_and_ends(s, pat);
    if begins(s, pat) && 0 <= i < pat.len() {
        assert(s.subrange(0, pat.len() as int)[i] == s[i]);
    }
    if pat.len() == 1 && s.len() > 0 {
        if s[0] == pat[0] {
            assert(s.subrange(0, 1) =~= pat);
        } else {
            assert(s.subrange(0, 1)[0] != pat[0]);
        }
    }
}

/// Where the search from some place on ends.
proof fn lemma_first_match_from(s: Seq<char>, pat: Seq<char>, from: int)
    requires
        0 <= from,
    ensures
        match first_match_from(s, pat, from) {
            Some(at) => {
                &&& from <= at <= s.len() - pat.len()
                &&& s.subrange(at, at + pat.len()) == pat
                &&& forall|k: int|
                    from <= k < at ==> #[trigger] s.subrange(k, k + pat.len()) != pat
            },
            None => forall|k: int|
                from <= k <= s.len() - pat.len() ==> #[trigger] s.subrange(k, k + pat.len())
                    != pat,
        },
    decreases s.len() - from + 1,
{
    if from + pat.len() <= s.len() && !matches_at(s, pat, from) {
        lemma_first_match_from(s, pat, from + 1);
    }
}

/// The first match is the first place at which the pattern stands, and there is one
/// wherever the pattern stands anywhere.
pub proof fn law_first_match(s: Seq<char>, pat: Seq<char>)
    ensures
        match first_match(s, pat) {
            Some(at) => {
                &&& 0 <= at <= s.len() - pat.len()
                &&& s.subrange(at, at + pat.len()) == pat
                &&& forall|k: int| 0 <= k < at ==> #[trigger] s.subrange(k, k + pat.len()) != pat
            },
            None => forall|k: int|
                0 <= k <= s.len() - pat.len() ==> #[trigger] s.subrange(k, k + pat.len()) != pat,
        },
{
    lemma_first_match_from(s, pat, 0);
}

/// Where the search up to some place ends.
proof fn lemma_last_match_upto(s: Seq<char>, pat: Seq<char>, upto: int)
    requires
        upto <= s.len() - pat.len(),
    ensures
        match last_match_upto(s, pat, upto) {
            Some(at) => {
                &&& 0 <= at <= upto
                &&& s.subrange(at, at + pat.len()) == pat
                &&& forall|k: int|
                    at < k <= upto ==> #[trigger] s.subrange(k, k + pat.len()) != pat
            },
            None => forall|k: int|
                0 <= k <= upto ==> #[trigger] s.subrange(k, k + pat.len()) != pat,
        },
    decreases upto + 1,
{
    if upto >= 0 && !matches_at(s, pat, upto) {
        lemma_last_match_upto(s, pat, upto - 1);
    }
}

/// The last match is the last place at which the pattern stands, and there is one
/// wherever the pattern stands anywhere.
pub proof fn law_last_match(s: Seq<char>, pat: Seq<char>)
    ensures
        match last_match(s, pat) {
            Some(at) => {
                &&& 0 <= at <= s.len() - pat.len()
                &&& s.subrange(at, at + pat.len()) == pat
                &&& forall|k: int|
                    at < k <= s.len() - pat.len() ==> #[trigger] s.subrange(k, k + pat.len())
                        != pat
            },
            None => forall|k: int|
                0 <= k <= s.len() - pat.len() ==> #[trigger] s.subrange(k, k + pat.len()) != pat,
        },
{
    lemma_last_match_upto(s, pat, s.len() - pat.len());
}

/// Every character is whitespace.
pub open spec fn all_space(s: Seq<char>) -> bool {
    forall|i: int| 0 <= i < s.len() ==> is_space(#[trigger] s[i])
}

/// The text is empty or starts with something else than whitespace.
pub open spec fn starts_solid(s: Seq<char>) -> bool {
    s.len() == 0 || !is_space(s[0])
}

/// The text is empty or ends with something else than whitespace.
pub open spec fn ends_solid(s: Seq<char>) -> bool {
    s.len() == 0 || !is_space(s[s.len() - 1])
}

/// Whitespace in front is taken away, and nothing else.
pub proof fn law_trim_front(space: Seq<char>, s: Seq<char>)
    requires
        all_space(space),
        starts_solid(s),
    ensures
        trim_front(space + s) == s,
    decreases space.len(),
{
    if space.len() == 0 {
        assert(space + s =~= s);
    } else {
        assert(is_space(space[0]));
        assert((space + s).drop_first() =~= space.drop_first() + s);
        assert forall|i: int| 0 <= i < space.drop_first().len() implies is_space(
            #[trigger] space.drop_first()[i],
        ) by {
            assert(space.drop_first()[i] == space[i + 1]);
        }
        law_trim_front(space.drop_first(), s);
    }
}

/// Whitespace at the end is taken away, and nothing else.
pub proof fn law_trim_back(s: Seq<char>, space: Seq<char>)
    requires
        all_space(space),
        ends_solid(s),
    ensures
        trim_back(s + space) == s,
    decreases space.len(),
{
    if space.len() == 0 {
        assert(s + space =~= s);
    } else {
        assert(is_space(space[space.len() - 1]));
        assert((s + space).drop_last() =~= s + space.drop_last());
        assert((s + space).last() == space.last());
        assert forall|i: int| 0 <= i < space.drop_last().len() implies is_space(
            #[trigger] space.drop_last()[i],
        ) by {
            assert(space.drop_last()[i] == space[i]);
        }
        law_trim_back(s, space.drop_last());
    }
}

/// Whitespace on both sides is taken away, and nothing else.
pub proof fn law_trimmed(front: Seq<char>, s: Seq<char>, back: Seq<char>)
    requires
        all_space(front),
        all_space(back),
        starts_solid(s),
        ends_solid(s),
    ensures
        trimmed(front + s + back) == s,
{
    if s.len() == 0 {
        assert(front + s + back =~= (front + back) + s);
        assert(all_space(front + back));
        law_trim_front(front + back, s);
        assert(trim_back(s) =~= s);
    } else {
        assert(front + s + back =~= front + (s + back));
        law_trim_front(front, s + back);
        law_trim_back(s, back);
    }
}

/// The first word of a text that starts with the word.
proof fn lemma_word_prefix(word: Seq<char>, rest: Seq<char>)
    requires
        forall|i: int| 0 <= i < word.len() ==> !is_space(#[trigger] word[i]),
        rest.len() == 0 || is_space(rest[0]),
    ensures
        word_prefix(word + rest) == word,
    decreases word.len(),
{
    if word.len() == 0 {
        assert(word + rest =~= rest);
        assert(word_prefix(rest) =~= word);
    } else {
        assert(!is_space(word[0]));
        assert((word + rest).drop_first() =~= word.drop_first() + rest);
        assert forall|i: int| 0 <= i < word.drop_first().len() implies !is_space(
            #[trigger] word.drop_first()[i],
        ) by {
            assert(word.drop_first()[i] == word[i + 1]);
        }
        lemma_word_prefix(word.drop_first(), rest);
        assert(seq![word[0]] + word.drop_first() =~= word);
    }
}

/// The first word runs from the first character that is no whitespace up to the next
/// whitespace.
pub proof fn law_first_word(space: Seq<char>, word: Seq<char>, rest: Seq<char>)
    requires
        all_space(space),
        word.len() > 0,
        forall|i: int| 0 <= i < word.len() ==> !is_space(#[trigger] word[i]),
        rest.len() == 0 || is_space(rest[0]),
    ensures
        first_word(space + word + rest) == Some(word),
        first_word(space) is None,
{
    assert(!is_space(word[0]));
    assert(space + word + rest =~= space + (word + rest));
    law_trim_front(space, word + rest);
    lemma_word_prefix(word, rest);
    assert(space + Seq::<char>::empty() =~= space);
    law_trim_front(space, Seq::empty());
}

/// Splitting leaves out the separators and nothing else.
pub proof fn law_pieces(s: Seq<char>, sep: char)
    ensures
        joined(pieces(s, sep), seq![sep]) == s,
        forall|i: int|
            0 <= i < pieces(s, sep).len() ==> !(#[trigger] pieces(s, sep)[i]).contains(sep),
    decreases s.len(),
{
    lemma_pieces(s, sep);
    if s.len() == 0 {
        assert(joined(pieces(s, sep), seq![sep]) =~= s);
    } else {
        let front = s.drop_last();
        let before = pieces(front, sep);
        let after = pieces(s, sep);
        law_pieces(front, sep);
        lemma_pieces(front, sep);
        assert(s =~= front.push(s.last()));
        if s.last() == sep {
            assert(after.drop_last() =~= before);
            assert(joined(after, seq![sep]) =~= joined(before, seq![sep]) + seq![sep]);
        } else if before.len() == 1 {
            assert(after.len() == 1);
            assert(joined(after, seq![sep]) =~= s);
        } else {
            assert(after.drop_last() =~= before.drop_last());
            assert(joined(after, seq![sep]) =~= joined(before, seq![sep]).push(s.last()));
        }
    }
}

/// A number in decimal, without zeros in front.
pub open spec fn numeral(n: nat) -> Seq<char>
    decreases n,
{
    let digit = ('0' as u32 + (n % 10) as u32) as char;
    if n < 10 {
        seq![digit]
    } else {
        numeral(n / 10).push(digit)
    }
}

/// A numeral consists of digits and writes its number.
pub proof fn lemma_numeral(n: nat)
    ensures
        numeral(n).len() > 0,
        all_digits(numeral(n)),
        digits_value(numeral(n)) == n,
    decreases n,
{
    let d = (n % 10) as u32;
    let digit = ('0' as u32 + d) as char;
    assert(d < 10);
    assert(digit as u32 == 48 + d);
    assert(is_digit(digit));
    if n < 10 {
        assert(seq![digit].drop_last() =~= Seq::<char>::empty());
        assert(digits_value(Seq::<char>::empty()) == 0);
        assert(digits_value(seq![digit]) == d);
    } else {
        lemma_numeral(n / 10);
        assert(numeral(n).drop_last() =~= numeral(n / 10));
        assert((n / 10) * 10 + n % 10 == n);
    }
}

/// Every `u32` is read from its numeral, and a numeral that is too large is refused.
pub proof fn law_numerals_are_read(n: nat)
    ensures
        decimal_u32(numeral(n)) == (if n <= u32::MAX {
            Some(n as u32)
        } else {
            None
        }),
{
    lemma_numeral(n);
    assert(is_digit(numeral(n)[0]));
    assert(unsigned_digits(numeral(n)) == numeral(n));
}

/// A zero in front of digits does not change their number.
proof fn lemma_zero_in_front(s: Seq<char>)
    ensures
        digits_value(seq!['0'] + s) == digits_value(s),
    decreases s.len(),
{
    let longer = seq!['0'] + s;
    if s.len() == 0 {
        assert(longer.drop_last() =~= Seq::<char>::empty());
        assert(digits_value(Seq::<char>::empty()) == 0);
    } else {
        assert(longer.drop_last() =~= seq!['0'] + s.drop_last());
        lemma_zero_in_front(s.drop_last());
    }
}

/// A plus sign or a zero in front of digits changes nothing, and what is read consists of
/// digits.
pub proof fn law_only_digits_are_read(s: Seq<char>)
    requires
        decimal_u32(s) is Some,
    ensures
        forall|i: int|
            0 <= i < s.len() ==> '0' <= #[trigger] s[i] <= '9' || (i == 0 && s[i] == '+'),
        s[0] != '+' ==> decimal_u32(seq!['+'] + s) == decimal_u32(s),
        s[0] != '+' ==> decimal_u32(seq!['0'] + s) == decimal_u32(s),
{
    let digits = unsigned_digits(s);
    assert forall|i: int| 0 <= i < s.len() implies '0' <= #[trigger] s[i] <= '9' || (i == 0 && s[i]
        == '+') by {
        if digits == s {
            assert(is_digit(digits[i]));
        } else if i > 0 {
            assert(digits[i - 1] == s[i]);
            assert(is_digit(digits[i - 1]));
        }
    }
    if s[0] != '+' {
        assert((seq!['+'] + s).drop_first() =~= s);
        lemma_zero_in_front(s);
        let longer = seq!['0'] + s;
        assert(all_digits(longer)) by {
            assert forall|i: int| 0 <= i < longer.len() implies is_digit(#[trigger] longer[i]) by {
                if i > 0 {
                    assert(longer[i] == s[i - 1]);
                }
            }
        }
    }
}

/// The pattern stands somewhere in the text.
pub open spec fn holds(s: Seq<char>, pat: Seq<char>) -> bool {
    exists|k: int|
        0 <= k <= s.len() - pat.len() && #[trigger] s.subrange(k, k + pat.len()) == pat
}

/// A search finds a pattern exactly where the text holds it.
pub proof fn law_holds(s: Seq<char>, pat: Seq<char>)
    ensures
        holds(s, pat) <==> first_match(s, pat) is Some,
        holds(s, pat) <==> last_match(s, pat) is Some,
{
    law_first_match(s, pat);
    law_last_match(s, pat);
}

/// The first place of a pattern, where it stands there and nowhere before.
pub proof fn lemma_first_at(s: Seq<char>, pat: Seq<char>, at: int)
    requires
        0 <= at <= s.len() - pat.len(),
        s.subrange(at, at + pat.len()) == pat,
        forall|k: int| 0 <= k < at ==> #[trigger] s.subrange(k, k + pat.len()) != pat,
    ensures
        first_match(s, pat) == Some(at),
{
    law_first_match(s, pat);
}

/// The last place of a pattern, where it stands there and nowhere behind.
pub proof fn lemma_last_at(s: Seq<char>, pat: Seq<char>, at: int)
    requires
        0 <= at <= s.len() - pat.len(),
        s.subrange(at, at + pat.len()) == pat,
        forall|k: int|
            at < k <= s.len() - pat.len() ==> #[trigger] s.subrange(k, k + pat.len()) != pat,
    ensures
        last_match(s, pat) == Some(at),
{
    law_last_match(s, pat);
}

/// The first place of a pattern behind a text that does not hold its first character.
pub proof fn lemma_first_behind(a: Seq<char>, pat: Seq<char>, rest: Seq<char>)
    requires
        pat.len() > 0,
        !a.contains(pat[0]),
    ensures
        first_match(a + pat + rest, pat) == Some(a.len() as int),
{
    let s = a + pat + rest;
    assert(s.subrange(a.len() as int, a.len() as int + pat.len()) =~= pat);
    assert forall|k: int| 0 <= k < a.len() implies #[trigger] s.subrange(k, k + pat.len())
        != pat by {
        assert(s.subrange(k, k + pat.len())[0] == a[k]);
        assert(a.contains(a[k]));
    }
    lemma_first_at(s, pat, a.len() as int);
}

/// The last place of a pattern in front of a text that does not hold it, where the pattern
/// does not overlap itself.
pub proof fn lemma_last_before(a: Seq<char>, pat: Seq<char>, rest: Seq<char>)
    requires
        pat.len() > 0,
        !holds(rest, pat),
        forall|i: int| 0 < i < pat.len() ==> #[trigger] pat[i] != pat[0],
    ensures
        last_match(a + pat + rest, pat) == Some(a.len() as int),
{
    let s = a + pat + rest;
    let at = a.len() as int;
    assert(s.subrange(at, at + pat.len()) =~= pat);
    assert forall|k: int|
        at < k <= s.len() - pat.len() implies #[trigger] s.subrange(k, k + pat.len()) != pat by {
        let t = s.subrange(k, k + pat.len());
        if k < at + pat.len() {
            assert(t[0] == pat[k - at]);
        } else {
            let j = k - at - pat.len();
            assert(t =~= rest.subrange(j, j + pat.len()));
        }
    }
    lemma_last_at(s, pat, at);
}

/// A character stands nowhere in a text exactly where a search for it finds nothing.
pub proof fn lemma_no_char(s: Seq<char>, c: char)
    ensures
        first_match(s, seq![c]) is None <==> !s.contains(c),
{
    law_first_match(s, seq![c]);
    if s.contains(c) {
        let k = choose|k: int| 0 <= k < s.len() && s[k] == c;
        assert(s.subrange(k, k + seq![c].len()) =~= seq![c]);
    }
    if first_match(s, seq![c]) is Some {
        let at = first_match(s, seq![c])->0;
        assert(s.subrange(at, at + seq![c].len())[0] == c);
        assert(s[at] == c);
    }
}

/// The whitespace characters, one by one.
pub proof fn law_white_space(c: char)
    ensures
        is_space(c) <==> {
            ||| c == '\u{9}' || c == '\u{a}' || c == '\u{b}' || c == '\u{c}'
            ||| c == '\u{d}' || c == '\u{20}' || c == '\u{85}' || c == '\u{a0}'
            ||| c == '\u{1680}' || c == '\u{2000}' || c == '\u{2001}' || c == '\u{2002}'
            ||| c == '\u{2003}' || c == '\u{2004}' || c == '\u{2005}' || c == '\u{2006}'
            ||| c == '\u{2007}' || c == '\u{2008}' || c == '\u{2009}' || c == '\u{200a}'
            ||| c == '\u{2028}' || c == '\u{2029}' || c == '\u{202f}' || c == '\u{205f}'
            ||| c == '\u{3000}'
        },
{
}

} // verus!
