//! Interpretation of raw `strace -ff -qq -yy` output.
//!
//! These helpers answer one question before any behavior is derived: what did
//! strace actually report? Keeping that apart from behavior derivation makes
//! the "did this syscall really happen?" decision a thing of its own.

use vstd::prelude::*;
use vstd::slice::slice_subrange;
use vstd::string::*;
use vstd::utf8::*;

use crate::text;

verus! {

/// `\`
pub const BACKSLASH: u8 = 0x5c;

/// `"`
pub const DOUBLE_QUOTE: u8 = 0x22;

/// `'`
pub const SINGLE_QUOTE: u8 = 0x27;

// ---------------------------------------------------------------------------
// Quoted strings
// ---------------------------------------------------------------------------

/// Where a scan for quoted strings stands after some characters.
pub struct QuoteScan {
    /// The scan is inside a quoted string.
    pub in_quote: bool,
    /// The last character was a backslash that takes the next one with it.
    pub escaped: bool,
    /// The index behind the last opening quote.
    pub start: int,
    /// The closed quoted strings, each from the index behind its opening quote
    /// up to the index of its closing quote.
    pub spans: Seq<(int, int)>,
}

/// The scan moves over the character `c` at index `pos`.
pub open spec fn scan_step(q: QuoteScan, c: char, pos: int) -> QuoteScan {
    if q.escaped {
        QuoteScan { escaped: false, ..q }
    } else if c == '\\' && q.in_quote {
        QuoteScan { escaped: true, ..q }
    } else if c == '"' && !q.in_quote {
        QuoteScan { in_quote: true, start: pos + 1, ..q }
    } else if c == '"' {
        QuoteScan { in_quote: false, spans: q.spans.push((q.start, pos)), ..q }
    } else {
        q
    }
}

/// The scan over all of `s`.
pub open spec fn scan_quotes(s: Seq<char>) -> QuoteScan
    decreases s.len(),
{
    if s.len() == 0 {
        QuoteScan { in_quote: false, escaped: false, start: 0, spans: Seq::empty() }
    } else {
        scan_step(scan_quotes(s.drop_last()), s.last(), s.len() - 1)
    }
}

/// The closed quoted strings of `s`, in order.
pub open spec fn quoted_spans(s: Seq<char>) -> Seq<(int, int)> {
    scan_quotes(s).spans
}

/// What stands between the quotes of the quoted string number `n`, still escaped.
pub open spec fn raw_quoted(s: Seq<char>, n: int) -> Seq<char> {
    s.subrange(quoted_spans(s)[n].0, quoted_spans(s)[n].1)
}

/// The decoded quoted string number `n`, where there are that many.
pub open spec fn quoted(s: Seq<char>, n: int) -> Option<Seq<char>> {
    if 0 <= n < quoted_spans(s).len() {
        Some(decoded(raw_quoted(s, n)))
    } else {
        None
    }
}

/// The index of the quote that closes the quoted string number `n`.
pub open spec fn quote_close(s: Seq<char>, n: int) -> Option<int> {
    if 0 <= n < quoted_spans(s).len() {
        Some(quoted_spans(s)[n].1)
    } else {
        None
    }
}

/// Every closed quoted string lies inside `s`, and the scan of a prefix finds a
/// prefix of the quoted strings of `s`.
pub proof fn lemma_quoted_spans(s: Seq<char>, k: int)
    requires
        0 <= k <= s.len(),
    ensures
        scan_quotes(s).in_quote ==> 0 <= scan_quotes(s).start <= s.len(),
        scan_quotes(s).escaped ==> scan_quotes(s).in_quote,
        forall|i: int|
            0 <= i < quoted_spans(s).len() ==> 0 <= (#[trigger] quoted_spans(s)[i]).0
                <= quoted_spans(s)[i].1 < s.len() && s[quoted_spans(s)[i].1] == '"',
        quoted_spans(s.take(k)).len() <= quoted_spans(s).len(),
        forall|i: int|
            0 <= i < quoted_spans(s.take(k)).len() ==> #[trigger] quoted_spans(s.take(k))[i]
                == quoted_spans(s)[i],
    decreases s.len(),
{
    if s.len() > 0 {
        let t = s.drop_last();
        if k < s.len() {
            assert(s.take(k) == t.take(k));
            lemma_quoted_spans(t, k);
        } else {
            assert(s.take(k) == s);
            lemma_quoted_spans(t, t.len() as int);
        }
        assert forall|i: int| 0 <= i < quoted_spans(s).len() implies 0 <= (
        #[trigger] quoted_spans(s)[i]).0 <= quoted_spans(s)[i].1 < s.len()
            && s[quoted_spans(s)[i].1] == '"' by {
            if i < quoted_spans(t).len() {
                assert(quoted_spans(s)[i] == quoted_spans(t)[i]);
            }
        }
    } else {
        assert(s.take(k) == s);
    }
}

/// The bounds of the quoted string number `wanted`.
fn quoted_span(s: &[char], wanted: usize) -> (r: Option<(usize, usize)>)
    ensures
        match r {
            Some(span) => {
                &&& wanted < quoted_spans(s@).len()
                &&& quoted_spans(s@)[wanted as int] == (span.0 as int, span.1 as int)
                &&& span.0 <= span.1 < s@.len()
            },
            None => wanted >= quoted_spans(s@).len(),
        },
{
    let mut in_quote: bool = false;
    let mut escaped: bool = false;
    let mut start: usize = 0;
    let mut index: usize = 0;
    let mut pos: usize = 0;
    while pos < s.len()
        invariant
            pos <= s@.len(),
            index <= pos,
            index <= wanted,
            scan_quotes(s@.take(pos as int)).in_quote == in_quote,
            scan_quotes(s@.take(pos as int)).escaped == escaped,
            scan_quotes(s@.take(pos as int)).start == start,
            quoted_spans(s@.take(pos as int)).len() == index,
        decreases s@.len() - pos,
    {
        let c: char = s[pos];
        proof {
            assert(s@.take(pos + 1).drop_last() == s@.take(pos as int));
            lemma_quoted_spans(s@, pos + 1);
            lemma_quoted_spans(s@.take(pos as int), pos as int);
        }
        if escaped {
            escaped = false;
        } else if c == '\\' && in_quote {
            escaped = true;
        } else if c == '"' {
            if !in_quote {
                start = pos + 1;
                in_quote = true;
            } else {
                if index == wanted {
                    assert(quoted_spans(s@.take(pos + 1))[index as int] == (
                        start as int,
                        pos as int,
                    ));
                    return Some((start, pos));
                }
                index = index + 1;
                in_quote = false;
            }
        }
        pos = pos + 1;
    }
    assert(s@.take(pos as int) == s@);
    None
}

/// Tells whether there is a quoted string number `wanted`.
pub(crate) fn has_quoted(s: &[char], wanted: usize) -> (r: bool)
    ensures
        r == (quote_close(s@, wanted as int) is Some),
{
    quoted_span(s, wanted).is_some()
}

/// What follows the quoted string number `wanted`.
pub(crate) fn after_quoted(s: &[char], wanted: usize) -> (r: &[char])
    requires
        quote_close(s@, wanted as int) is Some,
    ensures
        r@ == s@.skip(quote_close(s@, wanted as int)->0 + 1),
{
    let total: usize = s.len();
    match quoted_span(s, wanted) {
        Some((_, close)) => slice_subrange(s, close + 1, total),
        None => s,
    }
}

// ---------------------------------------------------------------------------
// Escapes
// ---------------------------------------------------------------------------

/// The value of a hexadecimal digit.
pub open spec fn hex_digit(byte: u8) -> Option<u8> {
    if ('0' as u8) <= byte <= ('9' as u8) {
        Some((byte - ('0' as u8)) as u8)
    } else if ('a' as u8) <= byte <= ('f' as u8) {
        Some((byte - ('a' as u8) + 10) as u8)
    } else if ('A' as u8) <= byte <= ('F' as u8) {
        Some((byte - ('A' as u8) + 10) as u8)
    } else {
        None
    }
}

/// `byte` is one of `0` to `7`.
pub open spec fn is_octal(byte: u8) -> bool {
    ('0' as u8) <= byte <= ('7' as u8)
}

/// The byte that a backslash and `byte` stand for, where strace knows that pair.
pub open spec fn simple_escape(byte: u8) -> Option<u8> {
    if byte == BACKSLASH || byte == DOUBLE_QUOTE || byte == SINGLE_QUOTE {
        Some(byte)
    } else if byte == ('a' as u8) {
        Some(0x07)
    } else if byte == ('b' as u8) {
        Some(0x08)
    } else if byte == ('f' as u8) {
        Some(0x0c)
    } else if byte == ('n' as u8) {
        Some(0x0a)
    } else if byte == ('r' as u8) {
        Some(0x0d)
    } else if byte == ('t' as u8) {
        Some(0x09)
    } else if byte == ('v' as u8) {
        Some(0x0b)
    } else {
        None
    }
}

/// How many octal digits, three at most, stand behind the first byte of `b`.
pub open spec fn octal_digits(b: Seq<u8>) -> int {
    if b.len() < 2 || !is_octal(b[1]) {
        0
    } else if b.len() < 3 || !is_octal(b[2]) {
        1
    } else if b.len() < 4 || !is_octal(b[3]) {
        2
    } else {
        3
    }
}

/// The number that the octal digits behind the first byte of `b` write.
pub open spec fn octal_value(b: Seq<u8>) -> int {
    let n = octal_digits(b);
    if n == 0 {
        0
    } else if n == 1 {
        b[1] - ('0' as u8)
    } else if n == 2 {
        (b[1] - ('0' as u8)) * 8 + (b[2] - ('0' as u8))
    } else {
        ((b[1] - ('0' as u8)) * 8 + (b[2] - ('0' as u8))) * 8 + (b[3] - ('0' as u8))
    }
}

/// How many bytes the first unit of `b` takes, and the bytes that it stands for:
/// a plain byte, or an escape. What is no known escape stands for itself.
pub open spec fn first_unit(b: Seq<u8>) -> (int, Seq<u8>) {
    if b[0] != BACKSLASH {
        (1, seq![b[0]])
    } else if b.len() == 1 {
        (1, seq![b[0]])
    } else if simple_escape(b[1]) is Some {
        (2, seq![simple_escape(b[1])->0])
    } else if b[1] == ('x' as u8) && b.len() > 3 && hex_digit(b[2]) is Some && hex_digit(b[3]) is Some {
        (4, seq![(hex_digit(b[2])->0 * 16 + hex_digit(b[3])->0) as u8])
    } else if is_octal(b[1]) && octal_value(b) <= 255 {
        (1 + octal_digits(b), seq![octal_value(b) as u8])
    } else if is_octal(b[1]) {
        (1 + octal_digits(b), b.take(1 + octal_digits(b)))
    } else {
        (2, b.take(2))
    }
}

/// The bytes that the escaped bytes `b` stand for.
pub open spec fn unescaped(b: Seq<u8>) -> Seq<u8>
    decreases b.len(),
{
    if b.len() == 0 {
        Seq::empty()
    } else {
        first_unit(b).1 + unescaped(b.skip(first_unit(b).0))
    }
}

/// The text that strace printed as `raw` between quotes. Where the bytes are not
/// UTF-8, the text stays as it was printed.
pub open spec fn decoded(raw: Seq<char>) -> Seq<char> {
    let bytes = unescaped(encode_utf8(raw));
    if valid_utf8(bytes) {
        decode_utf8(bytes)
    } else {
        raw
    }
}

/// `String::from_utf8`: the string whose UTF-8 encoding is `bytes`; none where
/// `bytes` are not valid UTF-8.
#[verifier::external_body]
fn string_from_utf8(bytes: Vec<u8>) -> (r: Option<String>)
    ensures
        match r {
            Some(s) => valid_utf8(bytes@) && s@ == decode_utf8(bytes@),
            None => !valid_utf8(bytes@),
        },
{
    String::from_utf8(bytes).ok()
}

/// The value of a hexadecimal digit.
pub fn hex_value(byte: u8) -> (r: Option<u8>)
    ensures
        r == hex_digit(byte),
{
    if ('0' as u8) <= byte && byte <= ('9' as u8) {
        Some(byte - ('0' as u8))
    } else if ('a' as u8) <= byte && byte <= ('f' as u8) {
        Some(byte - ('a' as u8) + 10)
    } else if ('A' as u8) <= byte && byte <= ('F' as u8) {
        Some(byte - ('A' as u8) + 10)
    } else {
        None
    }
}

/// The byte that a backslash and `byte` stand for.
fn known_escape(byte: u8) -> (r: Option<u8>)
    ensures
        r == simple_escape(byte),
{
    if byte == BACKSLASH || byte == DOUBLE_QUOTE || byte == SINGLE_QUOTE {
        Some(byte)
    } else if byte == ('a' as u8) {
        Some(0x07)
    } else if byte == ('b' as u8) {
        Some(0x08)
    } else if byte == ('f' as u8) {
        Some(0x0c)
    } else if byte == ('n' as u8) {
        Some(0x0a)
    } else if byte == ('r' as u8) {
        Some(0x0d)
    } else if byte == ('t' as u8) {
        Some(0x09)
    } else if byte == ('v' as u8) {
        Some(0x0b)
    } else {
        None
    }
}

/// Reads the octal escape that starts at `at`: its number of digits and its value.
fn octal_escape(bytes: &[u8], at: usize) -> (r: (usize, u16))
    requires
        at + 1 < bytes@.len(),
        is_octal(bytes@[at + 1]),
    ensures
        r.0 == octal_digits(bytes@.skip(at as int)),
        r.1 == octal_value(bytes@.skip(at as int)),
        1 <= r.0 <= 3,
        at + r.0 < bytes@.len(),
{
    let ghost b = bytes@.skip(at as int);
    let n: usize = bytes.len() - at;
    let d1: u16 = (bytes[at + 1] - ('0' as u8)) as u16;
    if n < 3 || bytes[at + 2] < ('0' as u8) || bytes[at + 2] > ('7' as u8) {
        return (1, d1);
    }
    let d2: u16 = (bytes[at + 2] - ('0' as u8)) as u16;
    if n < 4 || bytes[at + 3] < ('0' as u8) || bytes[at + 3] > ('7' as u8) {
        return (2, d1 * 8 + d2);
    }
    let d3: u16 = (bytes[at + 3] - ('0' as u8)) as u16;
    (3, (d1 * 8 + d2) * 8 + d3)
}

/// Appends what the unit that starts at `at` stands for, and gives the index behind it.
fn decode_unit(bytes: &[u8], at: usize, out: &mut Vec<u8>) -> (next: usize)
    requires
        at < bytes@.len(),
    ensures
        next == at + first_unit(bytes@.skip(at as int)).0,
        at < next <= bytes@.len(),
        final(out)@ == old(out)@ + first_unit(bytes@.skip(at as int)).1,
{
    let ghost b = bytes@.skip(at as int);
    if bytes[at] != BACKSLASH || bytes.len() - at == 1 {
        out.push(bytes[at]);
        return at + 1;
    }
    let kind: u8 = bytes[at + 1];
    if let Some(byte) = known_escape(kind) {
        out.push(byte);
        return at + 2;
    }
    if kind == ('x' as u8) && bytes.len() - at > 3 {
        if let (Some(high), Some(low)) = (hex_value(bytes[at + 2]), hex_value(bytes[at + 3])) {
            out.push(high * 16 + low);
            return at + 4;
        }
    }
    let mut length: usize = 2;
    if ('0' as u8) <= kind && kind <= ('7' as u8) {
        let (digits, value) = octal_escape(bytes, at);
        if value <= 255 {
            out.push(value as u8);
            return at + 1 + digits;
        }
        length = 1 + digits;
    }
    // Preserve unknown escapes instead of inventing semantics.
    let total: usize = bytes.len();
    let mut i: usize = 0;
    while i < length
        invariant
            i <= length,
            total == bytes@.len(),
            at + length <= total,
            b == bytes@.skip(at as int),
            out@ == old(out)@ + b.take(i as int),
        decreases length - i,
    {
        out.push(bytes[at + i]);
        assert(b.take(i + 1) == b.take(i as int).push(b[i as int]));
        i = i + 1;
    }
    at + length
}

/// Decodes what strace printed between quotes.
pub fn decode_strace_string(raw: &str) -> (r: String)
    ensures
        r@ == decoded(raw@),
{
    let bytes = raw.as_bytes();
    let mut out: Vec<u8> = Vec::new();
    let mut index: usize = 0;
    assert(bytes@.skip(0) == bytes@);
    while index < bytes.len()
        invariant
            index <= bytes@.len(),
            unescaped(bytes@) == out@ + unescaped(bytes@.skip(index as int)),
        decreases bytes@.len() - index,
    {
        let ghost rest = bytes@.skip(index as int);
        let ghost before = out@;
        let next: usize = decode_unit(bytes, index, &mut out);
        assert(rest.skip(next - index) == bytes@.skip(next as int));
        assert(before + (first_unit(rest).1 + unescaped(rest.skip(first_unit(rest).0))) == out@
            + unescaped(bytes@.skip(next as int)));
        index = next;
    }
    assert(out@ + unescaped(bytes@.skip(index as int)) == out@);
    match string_from_utf8(out) {
        Some(s) => s,
        None => raw.to_owned(),
    }
}

/// The decoded quoted string number `wanted`.
pub fn nth_quoted_string(line: &str, wanted: usize) -> (r: Option<String>)
    ensures
        match r {
            Some(s) => quoted(line@, wanted as int) == Some(s@),
            None => quoted(line@, wanted as int) is None,
        },
{
    let chars = text::to_chars(line);
    match quoted_span(chars.as_slice(), wanted) {
        Some((start, end)) => Some(decode_strace_string(line.substring_char(start, end))),
        None => None,
    }
}

/// The first quoted string, decoded.
pub fn first_quoted_string(line: &str) -> (r: Option<String>)
    ensures
        match r {
            Some(s) => quoted(line@, 0) == Some(s@),
            None => quoted(line@, 0) is None,
        },
{
    nth_quoted_string(line, 0)
}

/// The byte offset of the quote that closes the quoted string number `wanted`.
pub fn quoted_end(line: &str, wanted: usize) -> (r: Option<usize>)
    ensures
        match r {
            Some(offset) => {
                &&& quote_close(line@, wanted as int) is Some
                &&& offset == encode_utf8(line@.take(quote_close(line@, wanted as int)->0)).len()
            },
            None => quote_close(line@, wanted as int) is None,
        },
{
    let chars = text::to_chars(line);
    match quoted_span(chars.as_slice(), wanted) {
        Some((_, end)) => Some(line.substring_char(0, end).as_bytes().len()),
        None => None,
    }
}

// ---------------------------------------------------------------------------
// Whole lines
// ---------------------------------------------------------------------------

/// What follows the first ` resumed>` on a line that starts with `<... `.
pub open spec fn resumed_rest(line: Seq<char>) -> Option<Seq<char>> {
    let rest = line.skip("<... "@.len() as int);
    if !text::begins(line, "<... "@) {
        None
    } else {
        match text::first_match(rest, " resumed>"@) {
            Some(at) => Some(rest.skip(at + " resumed>"@.len())),
            None => None,
        }
    }
}

/// A signal delivery or an exit notice, which carries no syscall result.
pub open spec fn is_notice(line: Seq<char>) -> bool {
    text::begins(line, "---"@) || text::begins(line, "+++"@)
}

/// The entry half of an interrupted syscall.
pub open spec fn is_unfinished(line: Seq<char>) -> bool {
    text::ends(line, "<unfinished ...>"@)
}

/// What an entry half says of the syscall.
pub open spec fn unfinished_head(line: Seq<char>) -> Seq<char> {
    text::trim_back(line.take(line.len() - "<unfinished ...>"@.len()))
}

/// The lines that are whole so far, and the entry half that still waits for its result.
pub struct Reassembly {
    pub lines: Seq<Seq<char>>,
    pub pending: Option<Seq<char>>,
}

/// One more trace line, without whitespace at its end.
pub open spec fn reassembly_step(r: Reassembly, line: Seq<char>) -> Reassembly {
    if line.len() == 0 || is_notice(line) {
        r
    } else if is_unfinished(line) {
        Reassembly { pending: Some(unfinished_head(line)), ..r }
    } else if resumed_rest(line) is Some {
        match r.pending {
            Some(head) => Reassembly {
                lines: r.lines.push(head + resumed_rest(line)->0),
                pending: None,
            },
            None => r,
        }
    } else {
        Reassembly { lines: r.lines.push(line), ..r }
    }
}

/// The reassembly of the given trace lines.
pub open spec fn reassembly(raw: Seq<Seq<char>>) -> Reassembly
    decreases raw.len(),
{
    if raw.len() == 0 {
        Reassembly { lines: Seq::empty(), pending: None }
    } else {
        reassembly_step(reassembly(raw.drop_last()), text::trim_back(raw.last()))
    }
}

/// The whole syscall lines of a trace.
pub open spec fn whole_lines(trace: Seq<char>) -> Seq<Seq<char>> {
    reassembly(text::pieces(trace, '\n')).lines
}

/// The tail of a resumed syscall line.
pub fn resumed_tail(line: &str) -> (r: Option<&str>)
    ensures
        match r {
            Some(tail) => resumed_rest(line@) == Some(tail@),
            None => resumed_rest(line@) is None,
        },
{
    let chars = text::to_chars(line);
    let total: usize = chars.len();
    let opening = text::to_chars("<... ");
    let marker = text::to_chars(" resumed>");
    match text::strip_front(chars.as_slice(), "<... ") {
        Some(rest) => match text::find(rest, " resumed>") {
            Some(at) => {
                let from: usize = opening.len() + at + marker.len();
                assert(line@.subrange(from as int, line@.len() as int) == rest@.skip(
                    at + marker@.len(),
                ));
                Some(line.substring_char(from, total))
            },
            None => None,
        },
        None => None,
    }
}

/// Splices interrupted syscalls back into single lines.
///
/// strace reports a syscall that is interrupted mid-flight as two lines: an
/// entry line ending in `<unfinished ...>`, and a later `<... name resumed>`
/// line that carries the real result. Neither half can be interpreted on its
/// own, so the halves are rejoined before anything is read out of them.
///
/// An entry half that never reports a result is dropped, and so is a resumed
/// half with no recorded entry: no behavior is recorded that the kernel never
/// confirmed.
pub fn reassemble_trace_lines(text: &str) -> (r: Vec<String>)
    ensures
        text::strings(r@) == whole_lines(text@),
{
    let chars = text::to_chars(text);
    let raw = text::split(chars.as_slice(), '\n');
    let mut lines: Vec<String> = Vec::new();
    let mut pending: Option<String> = None;
    let ghost all = text::runs(raw@);
    let mut i: usize = 0;
    assert(all.take(0).len() == 0);
    while i < raw.len()
        invariant
            i <= raw@.len(),
            all == text::runs(raw@),
            reassembly(all.take(i as int)).lines == text::strings(lines@),
            match pending {
                Some(head) => reassembly(all.take(i as int)).pending == Some(head@),
                None => reassembly(all.take(i as int)).pending is None,
            },
        decreases raw@.len() - i,
    {
        let line = text::trim_end(raw[i]);
        let ghost before = text::strings(lines@);
        assert(all.take(i + 1).drop_last() == all.take(i as int));
        assert(all.take(i + 1).last() == raw@[i as int]@);
        i = i + 1;
        if line.len() == 0 || text::starts_with(line, "---") || text::starts_with(line, "+++") {
            continue;
        }
        if let Some(head) = text::strip_back(line, "<unfinished ...>") {
            pending = Some(text::from_chars(text::trim_end(head)));
            continue;
        }
        let owned = text::from_chars(line);
        if let Some(tail) = resumed_tail(owned.as_str()) {
            if let Some(head) = pending {
                lines.push(head.concat(tail));
                assert(text::strings(lines@) == before.push(head@ + tail@));
            }
            pending = None;
            continue;
        }
        lines.push(owned);
        assert(text::strings(lines@) == before.push(line@));
    }
    assert(all.take(i as int) == all);
    lines
}

/// The text that strace printed behind the last `) = `, without whitespace around it.
pub open spec fn result_of(line: Seq<char>) -> Option<Seq<char>> {
    match text::last_match(line, ") = "@) {
        Some(at) => Some(text::trimmed(line.skip(at + ") = "@.len()))),
        None => None,
    }
}

/// strace printed a result, and it is neither negative nor unknown.
pub open spec fn succeeded(line: Seq<char>) -> bool {
    match result_of(line) {
        Some(result) => !text::begins(result, "-"@) && !text::begins(result, "?"@),
        None => false,
    }
}

/// A `connect` that was initiated and has not finished yet.
pub open spec fn in_progress(line: Seq<char>) -> bool {
    &&& text::begins(line, "connect("@)
    &&& match result_of(line) {
        Some(result) => {
            let errno = text::first_word(result.skip("-1 "@.len() as int));
            &&& text::begins(result, "-1 "@)
            &&& errno == Some("EINPROGRESS"@) || errno == Some("EALREADY"@)
        },
        None => false,
    }
}

/// The reported result proves that the operation reached the kernel.
pub open spec fn observable(line: Seq<char>) -> bool {
    succeeded(line) || in_progress(line)
}

/// Where the trimmed part of `s` lies in `s`.
proof fn lemma_trimmed_bounds(s: Seq<char>)
    ensures
        text::trim_front(s).len() <= s.len(),
        text::trim_front(s) == s.skip(s.len() - text::trim_front(s).len()),
        text::trimmed(s).len() <= text::trim_front(s).len(),
        text::trimmed(s) == text::trim_front(s).take(text::trimmed(s).len() as int),
{
    lemma_trim_front_bounds(s);
    lemma_trim_back_bounds(text::trim_front(s));
}

proof fn lemma_trim_front_bounds(s: Seq<char>)
    ensures
        text::trim_front(s).len() <= s.len(),
        text::trim_front(s) == s.skip(s.len() - text::trim_front(s).len()),
    decreases s.len(),
{
    if s.len() > 0 && text::is_space(s[0]) {
        lemma_trim_front_bounds(s.drop_first());
    }
}

proof fn lemma_trim_back_bounds(s: Seq<char>)
    ensures
        text::trim_back(s).len() <= s.len(),
        text::trim_back(s) == s.take(text::trim_back(s).len() as int),
    decreases s.len(),
{
    if s.len() > 0 && text::is_space(s.last()) {
        lemma_trim_back_bounds(s.drop_last());
    }
}

/// The text strace printed after the syscall's closing `) = `.
///
/// Anchoring on the result region matters: a quoted path may itself contain
/// text that looks like a failed result.
pub fn syscall_result(line: &str) -> (r: Option<&str>)
    ensures
        match r {
            Some(result) => result_of(line@) == Some(result@),
            None => result_of(line@) is None,
        },
{
    let chars = text::to_chars(line);
    let total: usize = chars.len();
    let marker = text::to_chars(") = ");
    match text::rfind(chars.as_slice(), ") = ") {
        Some(at) => {
            let rest = slice_subrange(chars.as_slice(), at + marker.len(), total);
            let front = text::trim_start(rest);
            let result = text::trim_end(front);
            proof {
                lemma_trimmed_bounds(rest@);
            }
            let from: usize = total - front.len();
            assert(line@.subrange(from as int, from + result@.len()) == result@);
            Some(line.substring_char(from, from + result.len()))
        },
        None => None,
    }
}

/// A syscall counts as successful only when strace printed a non-negative
/// result for it. Failures (`-1 ERRNO`), restarts (`? ERESTARTSYS`) and lines
/// carrying no result at all are all rejected.
pub fn syscall_succeeded(line: &str) -> (r: bool)
    ensures
        r == succeeded(line@),
{
    match syscall_result(line) {
        Some(result) => {
            let result = text::to_chars(result);
            !text::starts_with(result.as_slice(), "-") && !text::starts_with(result.as_slice(), "?")
        },
        None => false,
    }
}

/// A non-blocking `connect()` reports `-1 EINPROGRESS`, and a later attempt on
/// the same socket reports `-1 EALREADY`, while the connection is genuinely
/// initiated toward the printed destination. Treating those as "did not
/// happen" would hide the destinations of every event-loop based client.
///
/// This is deliberately limited to those two errno values. `ECONNREFUSED`,
/// `EACCES`, `ENETUNREACH` and friends mean no connection was initiated.
pub fn connect_in_progress(line: &str) -> (r: bool)
    ensures
        r == in_progress(line@),
{
    let chars = text::to_chars(line);
    if !text::starts_with(chars.as_slice(), "connect(") {
        return false;
    }
    let result = match syscall_result(line) {
        Some(result) => text::to_chars(result),
        None => {
            return false;
        },
    };
    let errno = match text::strip_front(result.as_slice(), "-1 ") {
        Some(errno) => errno,
        None => {
            return false;
        },
    };
    match text::leading_word(errno) {
        Some(word) => text::spells(word, "EINPROGRESS") || text::spells(word, "EALREADY"),
        None => false,
    }
}

/// Syscalls whose reported result proves the operation reached the kernel.
pub fn observable_syscall(line: &str) -> (r: bool)
    ensures
        r == observable(line@),
{
    syscall_succeeded(line) || connect_in_progress(line)
}

// ---------------------------------------------------------------------------
// Parts of a line
// ---------------------------------------------------------------------------

/// What stands between the first quoted string and the last `) =`.
pub open spec fn open_flags(line: Seq<char>) -> Seq<char> {
    let end = match text::last_match(line, ") ="@) {
        Some(at) => at,
        None => line.len() as int,
    };
    match quote_close(line, 0) {
        Some(close) => if close + 1 < end {
            line.subrange(close + 1, end)
        } else {
            Seq::empty()
        },
        None => Seq::empty(),
    }
}

/// `c` can stand in the name of a flag.
pub open spec fn is_flag_char(c: char) -> bool {
    'a' <= c <= 'z' || 'A' <= c <= 'Z' || '0' <= c <= '9' || c == '_'
}

/// A whole token stands in `flags` from `a` up to `b`: flag characters, with none
/// in front of them and none behind them.
pub open spec fn token_at(flags: Seq<char>, a: int, b: int) -> bool {
    &&& 0 <= a <= b <= flags.len()
    &&& forall|i: int| a <= i < b ==> is_flag_char(#[trigger] flags[i])
    &&& a > 0 ==> !is_flag_char(flags[a - 1])
    &&& b < flags.len() ==> !is_flag_char(flags[b])
}

/// `wanted` is a whole token of `flags`.
pub open spec fn has_token(flags: Seq<char>, wanted: Seq<char>) -> bool {
    exists|a: int, b: int| #[trigger] token_at(flags, a, b) && flags.subrange(a, b) == wanted
}

/// What stands between the first `<` and the next `>`.
pub open spec fn angled(value: Seq<char>) -> Option<Seq<char>> {
    between(value, "<"@, ">"@)
}

/// What stands between the first `start` and the next `end`.
pub open spec fn between(line: Seq<char>, start: Seq<char>, end: Seq<char>) -> Option<Seq<char>> {
    match text::first_match(line, start) {
        Some(at) => {
            let rest = line.skip(at + start.len());
            match text::first_match(rest, end) {
                Some(n) => Some(rest.take(n)),
                None => None,
            }
        },
        None => None,
    }
}

/// The decoded string whose opening quote stands directly behind the first `field`.
pub open spec fn quoted_field(line: Seq<char>, field: Seq<char>) -> Option<Seq<char>> {
    match text::first_match(line, field) {
        Some(at) => {
            let rest = line.skip(at + field.len());
            if text::begins(rest, "\""@) {
                quoted(rest, 0)
            } else {
                None
            }
        },
        None => None,
    }
}

/// The address of an abstract Unix socket, with the `@` in front of its name.
pub open spec fn abstract_address(line: Seq<char>) -> Option<Seq<char>> {
    match quoted_field(line, "sun_path=@"@) {
        Some(name) => Some("@"@ + name),
        None => None,
    }
}

/// The printed argument region between the first quoted path and the result.
///
/// Excluding the result keeps `-yy` descriptor annotations such as
/// `3</project/O_WRONLY>` from being read as access flags.
pub fn file_open_flags(line: &str) -> (r: &str)
    ensures
        r@ == open_flags(line@),
{
    let chars = text::to_chars(line);
    let total: usize = chars.len();
    let close: usize = match quoted_span(chars.as_slice(), 0) {
        Some((_, close)) => close,
        None => {
            return line.substring_char(0, 0);
        },
    };
    let end: usize = match text::rfind(chars.as_slice(), ") =") {
        Some(at) => at,
        None => total,
    };
    if close + 1 < end {
        line.substring_char(close + 1, end)
    } else {
        line.substring_char(0, 0)
    }
}

/// Tells whether a character can stand in the name of a flag.
fn flag_char(c: char) -> (r: bool)
    ensures
        r == is_flag_char(c),
{
    ('a' <= c && c <= 'z') || ('A' <= c && c <= 'Z') || ('0' <= c && c <= '9') || c == '_'
}

/// Whole-token flag lookup inside a printed argument region.
///
/// Substring matching would find `O_RDWR` inside unrelated text, so the region
/// is split on every character that cannot appear in a flag name.
pub fn flags_have_token(flags: &str, wanted: &str) -> (r: bool)
    ensures
        r == has_token(flags@, wanted@),
{
    let chars = text::to_chars(flags);
    let mut start: usize = 0;
    let mut i: usize = 0;
    while i < chars.len()
        invariant
            chars@ == flags@,
            start <= i <= chars@.len(),
            forall|k: int| start <= k < i ==> is_flag_char(#[trigger] chars@[k]),
            start > 0 ==> !is_flag_char(chars@[start - 1]),
            forall|a: int, b: int|
                #[trigger] token_at(chars@, a, b) && a < start ==> chars@.subrange(a, b) != wanted@,
        decreases chars@.len() - i,
    {
        if !flag_char(chars[i]) {
            assert(token_at(chars@, start as int, i as int));
            if text::spells(slice_subrange(chars.as_slice(), start, i), wanted) {
                return true;
            }
            assert forall|a: int, b: int| #[trigger]
                token_at(chars@, a, b) && a < i + 1 implies chars@.subrange(a, b) != wanted@ by {
                if a >= start {
                    if a > start {
                        assert(is_flag_char(chars@[a - 1]));
                    }
                    if b < i {
                        assert(is_flag_char(chars@[b]));
                    }
                    if b > i {
                        assert(!is_flag_char(chars@[i as int]));
                    }
                    assert(a == start && b == i);
                }
            }
            start = i + 1;
        }
        i = i + 1;
    }
    let r = text::spells(slice_subrange(chars.as_slice(), start, i), wanted);
    proof {
        assert(token_at(chars@, start as int, i as int));
        assert forall|a: int, b: int| #[trigger] token_at(chars@, a, b) && a >= start implies a
            == start && b == i by {
            if a > start {
                assert(is_flag_char(chars@[a - 1]));
            }
            if b < i {
                assert(is_flag_char(chars@[b]));
            }
        }
    }
    r
}

/// What stands between the first `start` and the next `end`.
pub fn extract_between(line: &str, start: &str, end: &str) -> (r: Option<String>)
    ensures
        match r {
            Some(s) => between(line@, start@, end@) == Some(s@),
            None => between(line@, start@, end@) is None,
        },
{
    let chars = text::to_chars(line);
    let total: usize = chars.len();
    let marker = text::to_chars(start);
    match text::find(chars.as_slice(), start) {
        Some(at) => {
            let rest = slice_subrange(chars.as_slice(), at + marker.len(), total);
            match text::find(rest, end) {
                Some(n) => Some(text::from_chars(slice_subrange(rest, 0, n))),
                None => None,
            }
        },
        None => None,
    }
}

/// The path that `-yy` prints in angle brackets behind a descriptor.
pub fn angle_path(value: &str) -> (r: Option<String>)
    ensures
        match r {
            Some(s) => angled(value@) == Some(s@),
            None => angled(value@) is None,
        },
{
    extract_between(value, "<", ">")
}

/// The decoded string whose opening quote stands directly behind the first `field`.
///
/// Pathname Unix sockets are quoted directly. Abstract sockets are printed
/// otherwise: see [`extract_strace_abstract_unix_address`].
pub fn extract_strace_quoted_field(line: &str, field: &str) -> (r: Option<String>)
    ensures
        match r {
            Some(s) => quoted_field(line@, field@) == Some(s@),
            None => quoted_field(line@, field@) is None,
        },
{
    let chars = text::to_chars(line);
    let total: usize = chars.len();
    let marker = text::to_chars(field);
    match text::find(chars.as_slice(), field) {
        Some(at) => {
            let rest = slice_subrange(chars.as_slice(), at + marker.len(), total);
            if text::starts_with(rest, "\"") {
                first_quoted_string(text::from_chars(rest).as_str())
            } else {
                None
            }
        },
        None => None,
    }
}

/// The address of an abstract Unix socket, with the `@` in front of its name.
pub fn extract_strace_abstract_unix_address(line: &str) -> (r: Option<String>)
    ensures
        match r {
            Some(s) => abstract_address(line@) == Some(s@),
            None => abstract_address(line@) is None,
        },
{
    match extract_strace_quoted_field(line, "sun_path=@") {
        Some(name) => Some("@".to_owned().concat(name.as_str())),
        None => None,
    }
}

// ---------------------------------------------------------------------------
// Laws
// ---------------------------------------------------------------------------

/// A failed or unknown result is never taken for an operation, with one exception: a
/// `connect` that was initiated and is still in progress.
pub proof fn law_only_connect_may_be_in_progress(line: Seq<char>)
    ensures
        observable(line) && !succeeded(line) ==> text::begins(line, "connect("@),
        !text::begins(line, "connect("@) ==> (observable(line) <==> succeeded(line)),
{
}

/// A line without a result is not observable.
pub proof fn law_no_result_is_not_observable(line: Seq<char>)
    requires
        text::last_match(line, ") = "@) is None,
    ensures
        !observable(line),
{
}

/// A trace line, without whitespace at its end, that is a notice or empty.
pub open spec fn is_idle(raw: Seq<char>) -> bool {
    text::trim_back(raw).len() == 0 || is_notice(text::trim_back(raw))
}

/// Notices of signals and exits leave no line.
pub proof fn law_notices_are_dropped(raw: Seq<Seq<char>>, idle: Seq<Seq<char>>)
    requires
        forall|i: int| 0 <= i < idle.len() ==> is_idle(#[trigger] idle[i]),
    ensures
        reassembly(raw + idle) == reassembly(raw),
    decreases idle.len(),
{
    if idle.len() == 0 {
        assert(raw + idle =~= raw);
    } else {
        assert((raw + idle).drop_last() =~= raw + idle.drop_last());
        assert((raw + idle).last() == idle.last());
        assert(is_idle(idle[idle.len() - 1]));
        assert forall|i: int| 0 <= i < idle.drop_last().len() implies is_idle(
            #[trigger] idle.drop_last()[i],
        ) by {
            assert(idle.drop_last()[i] == idle[i]);
        }
        law_notices_are_dropped(raw, idle.drop_last());
    }
}

/// The two halves of an interrupted syscall become one line, whatever notices stand
/// between them.
pub proof fn law_halves_become_one_line(
    raw: Seq<Seq<char>>,
    entry: Seq<char>,
    idle: Seq<Seq<char>>,
    resumed: Seq<char>,
)
    requires
        !is_idle(entry),
        is_unfinished(text::trim_back(entry)),
        forall|i: int| 0 <= i < idle.len() ==> is_idle(#[trigger] idle[i]),
        !is_idle(resumed),
        !is_unfinished(text::trim_back(resumed)),
        resumed_rest(text::trim_back(resumed)) is Some,
    ensures
        reassembly((raw.push(entry) + idle).push(resumed)).lines == reassembly(raw).lines.push(
            unfinished_head(text::trim_back(entry)) + resumed_rest(text::trim_back(resumed))->0,
        ),
        reassembly((raw.push(entry) + idle).push(resumed)).pending is None,
{
    assert(raw.push(entry).drop_last() =~= raw);
    law_notices_are_dropped(raw.push(entry), idle);
    let halves = raw.push(entry) + idle;
    assert(halves.push(resumed).drop_last() =~= halves);
}

/// An entry half leaves no line of its own.
pub proof fn law_entry_half_alone_is_dropped(raw: Seq<Seq<char>>, entry: Seq<char>)
    requires
        !is_idle(entry),
        is_unfinished(text::trim_back(entry)),
    ensures
        reassembly(raw.push(entry)).lines == reassembly(raw).lines,
{
    assert(raw.push(entry).drop_last() =~= raw);
}

/// A resumed half without an entry half leaves no line.
pub proof fn law_resumed_half_alone_is_dropped(raw: Seq<Seq<char>>, resumed: Seq<char>)
    requires
        reassembly(raw).pending is None,
        !is_unfinished(text::trim_back(resumed)),
        resumed_rest(text::trim_back(resumed)) is Some,
    ensures
        reassembly(raw.push(resumed)) == reassembly(raw),
{
    assert(raw.push(resumed).drop_last() =~= raw);
}

/// What the lines of two parts of a trace give, where no entry half is pending between
/// them.
proof fn lemma_reassembly_concat(a: Seq<Seq<char>>, b: Seq<Seq<char>>)
    requires
        reassembly(a).pending is None,
    ensures
        reassembly(a + b).lines == reassembly(a).lines + reassembly(b).lines,
        reassembly(a + b).pending == reassembly(b).pending,
    decreases b.len(),
{
    if b.len() == 0 {
        assert(a + b =~= a);
        assert(reassembly(a).lines + reassembly(b).lines =~= reassembly(a).lines);
    } else {
        assert((a + b).drop_last() =~= a + b.drop_last());
        assert((a + b).last() == b.last());
        lemma_reassembly_concat(a, b.drop_last());
        assert(reassembly(a + b).lines =~= reassembly(a).lines + reassembly(b).lines);
    }
}

/// Lines of which none is an entry half leave no entry half pending.
proof fn lemma_nothing_pending(raw: Seq<Seq<char>>)
    requires
        forall|i: int|
            0 <= i < raw.len() ==> is_idle(#[trigger] raw[i]) || !is_unfinished(
                text::trim_back(raw[i]),
            ),
    ensures
        reassembly(raw).pending is None,
    decreases raw.len(),
{
    if raw.len() > 0 {
        let front = raw.drop_last();
        assert forall|i: int| 0 <= i < front.len() implies is_idle(#[trigger] front[i])
            || !is_unfinished(text::trim_back(front[i])) by {
            assert(front[i] == raw[i]);
        }
        lemma_nothing_pending(front);
        assert(is_idle(raw[raw.len() - 1]) || !is_unfinished(
            text::trim_back(raw[raw.len() - 1]),
        ));
    }
}

/// Two texts, one behind the other, give the whole lines of the first and then those of
/// the second, where the first leaves no entry half pending.
pub proof fn law_texts_are_read_one_after_the_other(first: Seq<char>, second: Seq<char>)
    requires
        reassembly(text::pieces(first, '\n')).pending is None,
    ensures
        whole_lines(first.push('\n') + second) == whole_lines(first) + whole_lines(second),
{
    text::lemma_pieces_concat(first, second, '\n');
    lemma_reassembly_concat(text::pieces(first, '\n'), text::pieces(second, '\n'));
}

/// Two texts, one behind the other, give the whole lines of the first and then those of
/// the second, where no line of the first is the entry half of an interrupted syscall.
pub proof fn law_texts_without_entry_halves_are_read_apart(first: Seq<char>, second: Seq<char>)
    requires
        forall|i: int|
            0 <= i < text::pieces(first, '\n').len() ==> is_idle(
                #[trigger] text::pieces(first, '\n')[i],
            ) || !is_unfinished(text::trim_back(text::pieces(first, '\n')[i])),
    ensures
        whole_lines(first.push('\n') + second) == whole_lines(first) + whole_lines(second),
{
    lemma_nothing_pending(text::pieces(first, '\n'));
    law_texts_are_read_one_after_the_other(first, second);
}

/// Bytes without a backslash stand for themselves.
proof fn lemma_unescaped_plain(b: Seq<u8>)
    requires
        !b.contains(BACKSLASH),
    ensures
        unescaped(b) == b,
    decreases b.len(),
{
    if b.len() > 0 {
        assert(b[0] != BACKSLASH);
        let rest = b.skip(1);
        assert forall|k: int| 0 <= k < rest.len() implies rest[k] != BACKSLASH by {
            assert(rest[k] == b[k + 1]);
        }
        lemma_unescaped_plain(rest);
        assert(seq![b[0]] + rest =~= b);
    } else {
        assert(unescaped(b) =~= b);
    }
}

/// The encoding of a character other than a backslash holds no backslash.
proof fn lemma_encoding_of_char(c: char)
    requires
        c != '\\',
    ensures
        !encode_scalar(c as u32).contains(BACKSLASH),
{
    let v = c as u32;
    assert(v != 0x5c);
    assert((0xC0u8 | ((v >> 6) & 0x1F) as u8) >= 0x80u8) by (bit_vector);
    assert((0xE0u8 | ((v >> 12) & 0x0F) as u8) >= 0x80u8) by (bit_vector);
    assert((0xF0u8 | ((v >> 18) & 0x7) as u8) >= 0x80u8) by (bit_vector);
    assert((0x80u8 | (v & 0x3F) as u8) >= 0x80u8) by (bit_vector);
    assert((0x80u8 | ((v >> 6) & 0x3F) as u8) >= 0x80u8) by (bit_vector);
    assert((0x80u8 | ((v >> 12) & 0x3F) as u8) >= 0x80u8) by (bit_vector);
    assert(v <= 0x7F && v != 0x5c ==> (v & 0x7F) as u8 != 0x5cu8) by (bit_vector);
}

/// The encoding of a text without a backslash holds no backslash.
proof fn lemma_encoding_of_text(s: Seq<char>)
    requires
        !s.contains('\\'),
    ensures
        !encode_utf8(s).contains(BACKSLASH),
    decreases s.len(),
{
    if s.len() > 0 {
        let first = encode_scalar(s[0] as u32);
        let rest = encode_utf8(s.drop_first());
        assert(s.contains(s[0]));
        lemma_encoding_of_char(s[0]);
        assert forall|k: int| 0 <= k < s.drop_first().len() implies s.drop_first()[k] != '\\' by {
            assert(s.drop_first()[k] == s[k + 1]);
            assert(s.contains(s[k + 1]));
        }
        lemma_encoding_of_text(s.drop_first());
        assert forall|k: int| 0 <= k < encode_utf8(s).len() implies encode_utf8(s)[k] != BACKSLASH by {
            if k < first.len() {
                assert(first.contains(first[k]));
            } else {
                assert(rest.contains(rest[k - first.len()]));
            }
        }
    }
}

/// A text without a backslash is read as it was printed.
pub proof fn law_plain_text_is_kept(raw: Seq<char>)
    requires
        !raw.contains('\\'),
    ensures
        decoded(raw) == raw,
{
    lemma_encoding_of_text(raw);
    lemma_unescaped_plain(encode_utf8(raw));
    encode_utf8_valid_utf8(raw);
    encode_utf8_decode_utf8(raw);
}

/// Each byte as a backslash and three octal digits.
pub open spec fn octal_bytes(b: Seq<u8>) -> Seq<u8>
    decreases b.len(),
{
    if b.len() == 0 {
        Seq::empty()
    } else {
        seq![
            BACKSLASH,
            (('0' as u8) + b[0] / 64) as u8,
            (('0' as u8) + b[0] / 8 % 8) as u8,
            (('0' as u8) + b[0] % 8) as u8,
        ] + octal_bytes(b.skip(1))
    }
}

/// Octal escapes are undone, whatever the bytes are.
proof fn lemma_octal_bytes(b: Seq<u8>)
    ensures
        unescaped(octal_bytes(b)) == b,
    decreases b.len(),
{
    if b.len() == 0 {
        assert(unescaped(octal_bytes(b)) =~= b);
    } else {
        let all = octal_bytes(b);
        let x = b[0] as int;
        lemma_octal_bytes(b.skip(1));
        assert(all.skip(4) =~= octal_bytes(b.skip(1)));
        assert(0 <= x / 64 <= 3 && 0 <= x / 8 % 8 <= 7 && 0 <= x % 8 <= 7);
        assert(all[1] - ('0' as u8) == x / 64);
        assert(all[2] - ('0' as u8) == x / 8 % 8);
        assert(all[3] - ('0' as u8) == x % 8);
        assert((x / 64 * 8 + x / 8 % 8) * 8 + x % 8 == x) by (nonlinear_arith)
            requires
                0 <= x <= 255,
        ;
        assert(simple_escape(all[1]) is None);
        assert(octal_value(all) == x);
        assert(seq![b[0]] + b.skip(1) =~= b);
    }
}

/// A text that strace prints byte for byte as octal escapes is read back whole, in
/// whatever language it is.
pub proof fn law_octal_escapes_are_undone(text: Seq<char>, raw: Seq<char>)
    requires
        encode_utf8(raw) == octal_bytes(encode_utf8(text)),
    ensures
        decoded(raw) == text,
{
    lemma_octal_bytes(encode_utf8(text));
    encode_utf8_valid_utf8(text);
    encode_utf8_decode_utf8(text);
}

/// `raw` writes each byte of `b` as a backslash, an `x` and two hexadecimal digits, in
/// either case of letters.
pub open spec fn hex_written(raw: Seq<u8>, b: Seq<u8>) -> bool
    decreases b.len(),
{
    if b.len() == 0 {
        raw.len() == 0
    } else {
        &&& raw.len() >= 4
        &&& raw[0] == BACKSLASH
        &&& raw[1] == ('x' as u8)
        &&& hex_digit(raw[2]) == Some((b[0] / 16) as u8)
        &&& hex_digit(raw[3]) == Some((b[0] % 16) as u8)
        &&& hex_written(raw.skip(4), b.skip(1))
    }
}

/// The first unit of `raw` writes the byte: the byte itself, a pair that strace knows, or
/// its value in hexadecimal or octal digits.
pub open spec fn unit_writes(raw: Seq<u8>, byte: u8) -> bool {
    ||| raw[0] != BACKSLASH && raw[0] == byte
    ||| {
        &&& raw.len() >= 2
        &&& raw[0] == BACKSLASH
        &&& simple_escape(raw[1]) == Some(byte)
    }
    ||| {
        &&& raw.len() >= 4
        &&& raw[0] == BACKSLASH
        &&& raw[1] == ('x' as u8)
        &&& hex_digit(raw[2]) == Some((byte / 16) as u8)
        &&& hex_digit(raw[3]) == Some((byte % 16) as u8)
    }
    ||| {
        &&& raw.len() >= 2
        &&& raw[0] == BACKSLASH
        &&& is_octal(raw[1])
        &&& octal_value(raw) == byte
    }
}

/// `raw` writes the bytes `b`, each of them in any of the ways that strace has.
pub open spec fn writes(raw: Seq<u8>, b: Seq<u8>) -> bool
    decreases b.len(),
{
    if b.len() == 0 {
        raw.len() == 0
    } else {
        &&& raw.len() > 0
        &&& unit_writes(raw, b[0])
        &&& writes(raw.skip(first_unit(raw).0), b.skip(1))
    }
}

/// What the first unit stands for, where it writes a byte.
proof fn lemma_unit_writes(raw: Seq<u8>, byte: u8)
    requires
        raw.len() > 0,
        unit_writes(raw, byte),
    ensures
        first_unit(raw).1 == seq![byte],
        1 <= first_unit(raw).0 <= raw.len(),
{
    if raw.len() >= 4 && raw[1] == ('x' as u8) {
        assert(simple_escape(raw[1]) is None);
        assert(!is_octal(raw[1]));
    }
    if raw.len() >= 2 && is_octal(raw[1]) {
        assert(simple_escape(raw[1]) is None);
        assert(raw[1] != ('x' as u8));
    }
}

/// What was written is read.
proof fn lemma_writes(raw: Seq<u8>, b: Seq<u8>)
    requires
        writes(raw, b),
    ensures
        unescaped(raw) == b,
    decreases b.len(),
{
    if b.len() == 0 {
        assert(unescaped(raw) =~= b);
    } else {
        lemma_unit_writes(raw, b[0]);
        lemma_writes(raw.skip(first_unit(raw).0), b.skip(1));
        assert(seq![b[0]] + b.skip(1) =~= b);
    }
}

/// Writing every byte in hexadecimal is one of the ways to write bytes.
proof fn lemma_hex_written(raw: Seq<u8>, b: Seq<u8>)
    requires
        hex_written(raw, b),
    ensures
        writes(raw, b),
    decreases b.len(),
{
    if b.len() > 0 {
        assert(simple_escape(raw[1]) is None);
        assert(first_unit(raw).0 == 4);
        lemma_hex_written(raw.skip(4), b.skip(1));
    }
}

/// A text is read back whole, in whatever mix of plain bytes and escapes strace prints it
/// and in whatever language it is.
pub proof fn law_escapes_are_undone(text: Seq<char>, raw: Seq<char>)
    requires
        writes(encode_utf8(raw), encode_utf8(text)),
    ensures
        decoded(raw) == text,
{
    lemma_writes(encode_utf8(raw), encode_utf8(text));
    encode_utf8_valid_utf8(text);
    encode_utf8_decode_utf8(text);
}

/// A text that strace prints byte for byte as hexadecimal escapes is read back whole, in
/// whatever language it is and in either case of letters.
pub proof fn law_hex_escapes_are_undone(text: Seq<char>, raw: Seq<char>)
    requires
        hex_written(encode_utf8(raw), encode_utf8(text)),
    ensures
        decoded(raw) == text,
{
    lemma_hex_written(encode_utf8(raw), encode_utf8(text));
    law_escapes_are_undone(text, raw);
}

/// The hexadecimal digits, in both cases of letters, and their values.
pub proof fn law_hex_digits(byte: u8)
    ensures
        hex_digit(0x30) == Some(0u8),
        hex_digit(0x31) == Some(1u8),
        hex_digit(0x32) == Some(2u8),
        hex_digit(0x33) == Some(3u8),
        hex_digit(0x34) == Some(4u8),
        hex_digit(0x35) == Some(5u8),
        hex_digit(0x36) == Some(6u8),
        hex_digit(0x37) == Some(7u8),
        hex_digit(0x38) == Some(8u8),
        hex_digit(0x39) == Some(9u8),
        hex_digit(0x41) == Some(10u8),
        hex_digit(0x61) == Some(10u8),
        hex_digit(0x42) == Some(11u8),
        hex_digit(0x62) == Some(11u8),
        hex_digit(0x43) == Some(12u8),
        hex_digit(0x63) == Some(12u8),
        hex_digit(0x44) == Some(13u8),
        hex_digit(0x64) == Some(13u8),
        hex_digit(0x45) == Some(14u8),
        hex_digit(0x65) == Some(14u8),
        hex_digit(0x46) == Some(15u8),
        hex_digit(0x66) == Some(15u8),
        hex_digit(byte) is Some <==> 0x30 <= byte <= 0x39 || 0x41 <= byte <= 0x46 || 0x61 <= byte
            <= 0x66,
{
}

/// The pairs that strace knows: a backslash, either quote, and the letters `a`, `b`, `t`,
/// `n`, `v`, `f` and `r`.
pub proof fn law_known_escapes(byte: u8)
    ensures
        simple_escape(0x5c) == Some(0x5cu8),
        simple_escape(0x22) == Some(0x22u8),
        simple_escape(0x27) == Some(0x27u8),
        simple_escape(0x61) == Some(0x07u8),
        simple_escape(0x62) == Some(0x08u8),
        simple_escape(0x74) == Some(0x09u8),
        simple_escape(0x6e) == Some(0x0au8),
        simple_escape(0x76) == Some(0x0bu8),
        simple_escape(0x66) == Some(0x0cu8),
        simple_escape(0x72) == Some(0x0du8),
        simple_escape(byte) is Some <==> {
            ||| byte == 0x5c || byte == 0x22 || byte == 0x27 || byte == 0x61 || byte == 0x62
            ||| byte == 0x74 || byte == 0x6e || byte == 0x76 || byte == 0x66 || byte == 0x72
        },
{
}

/// One plain byte, one known pair, or one byte in hexadecimal stands for one byte, and what
/// follows is read as if it stood alone.
pub proof fn law_units_are_read_one_by_one(byte: u8, high: u8, low: u8, rest: Seq<u8>)
    ensures
        byte != 0x5c ==> unescaped(seq![byte] + rest) == seq![byte] + unescaped(rest),
        simple_escape(byte) is Some ==> unescaped(seq![0x5cu8, byte] + rest) == seq![
            simple_escape(byte)->0,
        ] + unescaped(rest),
        hex_digit(high) is Some && hex_digit(low) is Some ==> unescaped(
            seq![0x5cu8, 0x78u8, high, low] + rest,
        ) == seq![(16 * hex_digit(high)->0 + hex_digit(low)->0) as u8] + unescaped(rest),
{
    assert((seq![byte] + rest).skip(1) =~= rest);
    assert((seq![0x5cu8, byte] + rest).skip(2) =~= rest);
    assert((seq![0x5cu8, 0x78u8, high, low] + rest).skip(4) =~= rest);
    assert(simple_escape(0x78) is None);
}

/// A backslash that belongs to no escape stays, with the byte behind it.
pub proof fn law_other_backslashes_stay(byte: u8, rest: Seq<u8>)
    ensures
        unescaped(seq![0x5cu8]) == seq![0x5cu8],
        simple_escape(byte) is None && byte != 0x78 && !(0x30 <= byte <= 0x37) ==> unescaped(
            seq![0x5cu8, byte] + rest,
        ) == seq![0x5cu8, byte] + unescaped(rest),
        rest.len() < 2 || hex_digit(rest[0]) is None || hex_digit(rest[1]) is None ==> unescaped(
            seq![0x5cu8, 0x78u8] + rest,
        ) == seq![0x5cu8, 0x78u8] + unescaped(rest),
{
    let alone = seq![0x5cu8];
    assert(alone.skip(1) =~= Seq::<u8>::empty());
    assert(unescaped(Seq::<u8>::empty()) =~= Seq::<u8>::empty());
    assert(seq![0x5cu8] + Seq::<u8>::empty() =~= seq![0x5cu8]);
    let pair = seq![0x5cu8, byte] + rest;
    assert(pair.skip(2) =~= rest);
    assert(pair.take(2) =~= seq![0x5cu8, byte]);
    let hex = seq![0x5cu8, 0x78u8] + rest;
    assert(hex.skip(2) =~= rest);
    assert(hex.take(2) =~= seq![0x5cu8, 0x78u8]);
    assert(simple_escape(0x78) is None);
    if rest.len() >= 2 {
        assert(hex[2] == rest[0] && hex[3] == rest[1]);
    }
}

/// One, two or three octal digits stand for the byte that they write, and stay where they
/// write more than a byte holds; a fourth one is a byte of its own.
pub proof fn law_octal_digits(a: u8, b: u8, c: u8, rest: Seq<u8>)
    requires
        0x30 <= a <= 0x37,
        0x30 <= b <= 0x37,
        0x30 <= c <= 0x37,
    ensures
        rest.len() == 0 || !(0x30 <= rest[0] <= 0x37) ==> unescaped(seq![0x5cu8, a] + rest)
            == seq![(a - 0x30) as u8] + unescaped(rest),
        rest.len() == 0 || !(0x30 <= rest[0] <= 0x37) ==> unescaped(seq![0x5cu8, a, b] + rest)
            == seq![(8 * (a - 0x30) + (b - 0x30)) as u8] + unescaped(rest),
        a <= 0x33 ==> unescaped(seq![0x5cu8, a, b, c] + rest) == seq![
            (64 * (a - 0x30) + 8 * (b - 0x30) + (c - 0x30)) as u8,
        ] + unescaped(rest),
        a > 0x33 ==> unescaped(seq![0x5cu8, a, b, c] + rest) == seq![0x5cu8, a, b, c] + unescaped(
            rest,
        ),
{
    let one = seq![0x5cu8, a] + rest;
    let two = seq![0x5cu8, a, b] + rest;
    let three = seq![0x5cu8, a, b, c] + rest;
    assert(simple_escape(a) is None);
    assert(one.skip(2) =~= rest);
    assert(two.skip(3) =~= rest);
    assert(three.skip(4) =~= rest);
    assert(three.take(4) =~= seq![0x5cu8, a, b, c]);
    if rest.len() > 0 {
        assert(one[2] == rest[0] && two[3] == rest[0]);
    }
    assert(octal_value(three) == 64 * (a - 0x30) + 8 * (b - 0x30) + (c - 0x30));
}

/// The text that is read has the bytes that were written, where they are UTF-8, and
/// otherwise stays as it was printed.
pub proof fn law_other_bytes_stay_as_printed(raw: Seq<char>)
    ensures
        ({
            let bytes = unescaped(encode_utf8(raw));
            if valid_utf8(bytes) {
                encode_utf8(decoded(raw)) == bytes
            } else {
                decoded(raw) == raw
            }
        }),
{
    if valid_utf8(unescaped(encode_utf8(raw))) {
        decode_utf8_encode_utf8(unescaped(encode_utf8(raw)));
    }
}

} // verus!
