//! What the lines of a trace mean, as laws over lines as strace prints them.

use vstd::prelude::*;

use crate::strace;
use crate::text;

verus! {

// ---------------------------------------------------------------------------
// Quoted strings
// ---------------------------------------------------------------------------

/// What can stand between two quotes: a backslash takes the next character with it, and a
/// quote stands only behind a backslash.
pub open spec fn enclosed(raw: Seq<char>) -> bool
    decreases raw.len(),
{
    if raw.len() == 0 {
        true
    } else if raw[0] == '"' {
        false
    } else if raw[0] == '\\' {
        raw.len() >= 2 && enclosed(raw.skip(2))
    } else {
        enclosed(raw.skip(1))
    }
}

/// A scan outside of quotes goes over a text without quotes.
proof fn lemma_scan_outside(s: Seq<char>, plain: Seq<char>)
    requires
        !strace::scan_quotes(s).in_quote,
        !strace::scan_quotes(s).escaped,
        !plain.contains('"'),
    ensures
        strace::scan_quotes(s + plain) == strace::scan_quotes(s),
    decreases plain.len(),
{
    if plain.len() == 0 {
        assert(s + plain =~= s);
    } else {
        let front = plain.drop_last();
        assert((s + plain).drop_last() =~= s + front);
        assert(plain.contains(plain.last()));
        assert forall|k: int| 0 <= k < front.len() implies front[k] != '"' by {
            assert(plain.contains(plain[k]));
        }
        lemma_scan_outside(s, front);
    }
}

/// A scan inside of quotes goes over what can stand there.
proof fn lemma_scan_inside(s: Seq<char>, raw: Seq<char>)
    requires
        strace::scan_quotes(s).in_quote,
        !strace::scan_quotes(s).escaped,
        enclosed(raw),
    ensures
        strace::scan_quotes(s + raw) == strace::scan_quotes(s),
    decreases raw.len(),
{
    if raw.len() == 0 {
        assert(s + raw =~= s);
    } else if raw[0] == '\\' {
        let one = s.push(raw[0]);
        let two = one.push(raw[1]);
        assert(one.drop_last() =~= s);
        assert(two.drop_last() =~= one);
        assert(strace::scan_quotes(one) == (strace::QuoteScan {
            escaped: true,
            ..strace::scan_quotes(s)
        }));
        assert(strace::scan_quotes(two) == strace::scan_quotes(s));
        lemma_scan_inside(two, raw.skip(2));
        assert(two + raw.skip(2) =~= s + raw);
    } else {
        let one = s.push(raw[0]);
        assert(one.drop_last() =~= s);
        assert(strace::scan_quotes(one) == strace::scan_quotes(s));
        lemma_scan_inside(one, raw.skip(1));
        assert(one + raw.skip(1) =~= s + raw);
    }
}

/// A scan outside of quotes goes over a quoted string.
proof fn lemma_scan_quoted(s: Seq<char>, plain: Seq<char>, raw: Seq<char>)
    requires
        !strace::scan_quotes(s).in_quote,
        !strace::scan_quotes(s).escaped,
        !plain.contains('"'),
        enclosed(raw),
    ensures
        ({
            let before = strace::scan_quotes(s);
            let open = (s.len() + plain.len() + 1) as int;
            let after = strace::scan_quotes(s + plain + seq!['"'] + raw + seq!['"']);
            &&& !after.in_quote
            &&& !after.escaped
            &&& after.spans == before.spans.push((open, open + raw.len()))
        }),
{
    let a = s + plain;
    let b = a.push('"');
    let c = b + raw;
    let d = c.push('"');
    lemma_scan_outside(s, plain);
    assert(b.drop_last() =~= a);
    lemma_scan_inside(b, raw);
    assert(d.drop_last() =~= c);
    assert(s + plain + seq!['"'] + raw + seq!['"'] =~= d);
}

/// The first quoted string of a line, decoded, and the place of the quote that closes it.
pub proof fn law_first_quoted_string(head: Seq<char>, raw: Seq<char>, rest: Seq<char>)
    requires
        !head.contains('"'),
        enclosed(raw),
    ensures
        ({
            let line = head + seq!['"'] + raw + seq!['"'] + rest;
            &&& strace::quoted(line, 0) == Some(strace::decoded(raw))
            &&& strace::quote_close(line, 0) == Some((head.len() + 1 + raw.len()) as int)
            &&& !rest.contains('"') ==> strace::quoted(line, 1) is None
        }),
{
    let first = head + seq!['"'] + raw + seq!['"'];
    let line = first + rest;
    let none = Seq::<char>::empty();
    assert(none + head + seq!['"'] + raw + seq!['"'] =~= first);
    lemma_scan_quoted(none, head, raw);
    strace::lemma_quoted_spans(line, first.len() as int);
    assert(line.take(first.len() as int) =~= first);
    let open = head.len() as int + 1;
    assert(strace::quoted_spans(first)[0] == (open, open + raw.len()));
    assert(line.subrange(open, open + raw.len()) =~= raw);
    if !rest.contains('"') {
        lemma_scan_outside(first, rest);
    }
}

/// The second quoted string of a line, decoded, and the place of the quote that closes it.
pub proof fn law_second_quoted_string(
    head: Seq<char>,
    first: Seq<char>,
    middle: Seq<char>,
    second: Seq<char>,
    rest: Seq<char>,
)
    requires
        !head.contains('"'),
        enclosed(first),
        !middle.contains('"'),
        enclosed(second),
    ensures
        ({
            let line = head + seq!['"'] + first + seq!['"'] + middle + seq!['"'] + second + seq![
                '"',
            ] + rest;
            &&& strace::quoted(line, 0) == Some(strace::decoded(first))
            &&& strace::quoted(line, 1) == Some(strace::decoded(second))
            &&& strace::quote_close(line, 0) == Some((head.len() + 1 + first.len()) as int)
            &&& strace::quote_close(line, 1) == Some(
                (head.len() + first.len() + middle.len() + second.len() + 3) as int,
            )
        }),
{
    let none = Seq::<char>::empty();
    let one = head + seq!['"'] + first + seq!['"'];
    let two = one + middle + seq!['"'] + second + seq!['"'];
    let line = two + rest;
    assert(none + head + seq!['"'] + first + seq!['"'] =~= one);
    lemma_scan_quoted(none, head, first);
    lemma_scan_quoted(one, middle, second);
    strace::lemma_quoted_spans(line, two.len() as int);
    assert(line.take(two.len() as int) =~= two);
    let a = head.len() as int + 1;
    let b = (one.len() + middle.len()) as int + 1;
    assert(strace::quoted_spans(two)[0] == (a, a + first.len()));
    assert(strace::quoted_spans(two)[1] == (b, b + second.len()));
    assert(line.subrange(a, a + first.len()) =~= first);
    assert(line.subrange(b, b + second.len()) =~= second);
    assert(head + seq!['"'] + first + seq!['"'] + middle + seq!['"'] + second + seq!['"'] + rest
        =~= line);
}

/// A line without a quote has no quoted string.
pub proof fn law_no_quoted_string(line: Seq<char>)
    requires
        !line.contains('"'),
    ensures
        strace::quoted(line, 0) is None,
{
    let none = Seq::<char>::empty();
    lemma_scan_outside(none, line);
    assert(none + line =~= line);
}

// ---------------------------------------------------------------------------
// Results
// ---------------------------------------------------------------------------

/// The result of a line is what stands behind the last `) = `, without whitespace around
/// it; the operation succeeded exactly where the result starts neither with a minus nor
/// with a question mark.
pub proof fn law_results(head: Seq<char>, result: Seq<char>)
    requires
        !text::holds(result, ") = "@),
    ensures
        ({
            let line = head + ") = "@ + result;
            let shown = text::trimmed(result);
            &&& strace::result_of(line) == Some(shown)
            &&& strace::succeeded(line) <==> shown.len() == 0 || (shown[0] != '-' && shown[0]
                != '?')
            &&& strace::succeeded(line) ==> strace::observable(line)
            &&& strace::observable(line) && !"connect("@.is_prefix_of(line) ==> strace::succeeded(
                line,
            )
        }),
{
    reveal_strlit(") = ");
    reveal_strlit("-");
    reveal_strlit("?");
    let line = head + ") = "@ + result;
    let shown = text::trimmed(result);
    text::lemma_last_before(head, ") = "@, result);
    assert(line.skip(head.len() as int + ") = "@.len()) =~= result);
    text::lemma_begins(shown, "-"@, 0);
    text::lemma_begins(shown, "?"@, 0);
    text::law_begins_and_ends(line, "connect("@);
}

/// A line without a `) = ` has no result and did not succeed.
pub proof fn law_no_result(line: Seq<char>)
    requires
        !text::holds(line, ") = "@),
    ensures
        strace::result_of(line) is None,
        !strace::succeeded(line),
        !strace::observable(line),
{
    text::law_holds(line, ") = "@);
}

/// A `connect` that failed is observable exactly where its error is `EINPROGRESS` or
/// `EALREADY`; any other call that failed is not observable.
pub proof fn law_connections_in_progress(
    head: Seq<char>,
    errno: Seq<char>,
    tail: Seq<char>,
)
    requires
        errno.len() > 0,
        forall|i: int| 0 <= i < errno.len() ==> !text::is_space(#[trigger] errno[i]),
        tail.len() == 0 || text::is_space(tail[0]),
        text::ends_solid(tail),
        !text::holds("-1 "@ + errno + tail, ") = "@),
    ensures
        ({
            let line = head + ") = "@ + ("-1 "@ + errno + tail);
            strace::observable(line) <==> "connect("@.is_prefix_of(line) && (errno
                == "EINPROGRESS"@ || errno == "EALREADY"@)
        }),
{
    reveal_strlit("-1 ");
    let result = "-1 "@ + errno + tail;
    let line = head + ") = "@ + result;
    let none = Seq::<char>::empty();
    assert(!text::is_space('-'));
    assert(result[0] == '-');
    assert(!text::is_space(errno[errno.len() - 1]));
    assert(text::ends_solid(result)) by {
        if tail.len() > 0 {
            assert(result[result.len() - 1] == tail[tail.len() - 1]);
        } else {
            assert(result[result.len() - 1] == errno[errno.len() - 1]);
        }
    }
    assert(none + result + none =~= result);
    text::law_trimmed(none, result, none);
    law_results(head, result);
    text::law_begins_and_ends(line, "connect("@);
    assert("-1 "@ + errno + tail =~= "-1 "@ + (errno + tail));
    text::law_begins_and_ends("-1 "@, errno + tail);
    assert(result.skip("-1 "@.len() as int) =~= none + errno + tail);
    text::law_first_word(none, errno, tail);
}

// ---------------------------------------------------------------------------
// Parts of a line
// ---------------------------------------------------------------------------

/// The flags of an open are what stands between its quoted path and the last `) =`.
pub proof fn law_open_flags(
    head: Seq<char>,
    raw: Seq<char>,
    flags: Seq<char>,
    result: Seq<char>,
)
    requires
        !head.contains('"'),
        enclosed(raw),
        !text::holds(result, ") ="@),
    ensures
        strace::open_flags(
            head + seq!['"'] + raw + seq!['"'] + (flags + ") ="@ + result),
        ) == flags,
{
    reveal_strlit(") =");
    let rest = flags + ") ="@ + result;
    let quoted = head + seq!['"'] + raw + seq!['"'];
    let line = quoted + rest;
    law_first_quoted_string(head, raw, rest);
    text::lemma_last_before(quoted + flags, ") ="@, result);
    assert(quoted + flags + ") ="@ + result =~= line);
    let close = (head.len() + 1 + raw.len()) as int;
    let end = quoted.len() + flags.len();
    if flags.len() == 0 {
        assert(strace::open_flags(line) =~= flags);
    } else {
        assert(line.subrange(close + 1, end as int) =~= flags);
    }
}

/// Where no `) =` stands in the line, the flags reach to its end; where no path is quoted,
/// there are none.
pub proof fn law_flags_without_a_result(head: Seq<char>, raw: Seq<char>, flags: Seq<char>)
    requires
        !head.contains('"'),
        enclosed(raw),
    ensures
        ({
            let line = head + seq!['"'] + raw + seq!['"'] + flags;
            !text::holds(line, ") ="@) ==> strace::open_flags(line) == flags
        }),
        strace::open_flags(head) == Seq::<char>::empty(),
{
    let line = head + seq!['"'] + raw + seq!['"'] + flags;
    law_first_quoted_string(head, raw, flags);
    law_no_quoted_string(head);
    text::law_last_match(line, ") ="@);
    let close = (head.len() + 1 + raw.len()) as int;
    if !text::holds(line, ") ="@) {
        if text::last_match(line, ") ="@) is Some {
            let at = text::last_match(line, ") ="@)->0;
            assert(line.subrange(at, at + ") ="@.len()) == ") ="@);
        }
        if flags.len() == 0 {
            assert(strace::open_flags(line) =~= flags);
        } else {
            assert(line.subrange(close + 1, line.len() as int) =~= flags);
        }
    }
}

/// `c` is a letter, a digit or an underscore.
pub open spec fn in_names(c: char) -> bool {
    'a' <= c <= 'z' || 'A' <= c <= 'Z' || '0' <= c <= '9' || c == '_'
}

/// A name is among the flags where it stands there with no letter, digit or underscore
/// directly in front of it or behind it.
pub proof fn law_flags_are_whole_names(before: Seq<char>, name: Seq<char>, after: Seq<char>)
    requires
        forall|i: int| 0 <= i < name.len() ==> in_names(#[trigger] name[i]),
        before.len() == 0 || !in_names(before[before.len() - 1]),
        after.len() == 0 || !in_names(after[0]),
    ensures
        strace::has_token(before + name + after, name),
{
    let flags = before + name + after;
    let a = before.len() as int;
    let b = a + name.len();
    assert(flags.subrange(a, b) =~= name);
    assert forall|i: int| a <= i < b implies strace::is_flag_char(#[trigger] flags[i]) by {
        assert(in_names(name[i - a]));
    }
    assert(strace::token_at(flags, a, b));
}

/// A name that is among the flags stands there with no letter, digit or underscore
/// directly in front of it or behind it.
pub proof fn law_only_whole_names_are_flags(flags: Seq<char>, name: Seq<char>)
    requires
        strace::has_token(flags, name),
    ensures
        exists|a: int|
            {
                &&& 0 <= a <= flags.len() - name.len()
                &&& #[trigger] flags.subrange(a, a + name.len()) == name
                &&& a > 0 ==> !in_names(flags[a - 1])
                &&& a + name.len() < flags.len() ==> !in_names(flags[a + name.len()])
            },
{
    let (a, b) = choose|a: int, b: int| #[trigger]
        strace::token_at(flags, a, b) && flags.subrange(a, b) == name;
    assert(b == a + name.len());
    assert(flags.subrange(a, a + name.len()) == name);
}

/// What stands between two markers: from behind the first place of the first one up to the
/// next place of the second one.
pub proof fn law_between(
    line: Seq<char>,
    start: Seq<char>,
    end: Seq<char>,
    at: int,
    n: int,
)
    requires
        0 <= at <= line.len() - start.len(),
        line.subrange(at, at + start.len()) == start,
        forall|k: int| 0 <= k < at ==> #[trigger] line.subrange(k, k + start.len()) != start,
        0 <= n <= line.len() - at - start.len() - end.len(),
        ({
            let rest = line.skip(at + start.len());
            &&& rest.subrange(n, n + end.len()) == end
            &&& forall|k: int| 0 <= k < n ==> #[trigger] rest.subrange(k, k + end.len()) != end
        }),
    ensures
        strace::between(line, start, end) == Some(
            line.subrange(at + start.len(), at + start.len() + n),
        ),
{
    let rest = line.skip(at + start.len());
    text::lemma_first_at(line, start, at);
    text::lemma_first_at(rest, end, n);
    assert(rest.take(n) =~= line.subrange(at + start.len(), at + start.len() + n));
}

/// Where one of the markers is missing, nothing stands between them.
pub proof fn law_nothing_between(line: Seq<char>, start: Seq<char>, end: Seq<char>)
    requires
        !text::holds(line, start) || !text::holds(line, end),
    ensures
        strace::between(line, start, end) is None,
{
    text::law_holds(line, start);
    text::law_first_match(line, start);
    if let Some(at) = text::first_match(line, start) {
        let rest = line.skip(at + start.len());
        text::law_holds(rest, end);
        if text::holds(rest, end) {
            let k = choose|k: int|
                0 <= k <= rest.len() - end.len() && #[trigger] rest.subrange(k, k + end.len())
                    == end;
            let j = at + start.len() + k;
            assert(line.subrange(j, j + end.len()) =~= end);
            assert(text::holds(line, end));
        }
    }
}

/// The path in angle brackets.
pub proof fn law_angled(number: Seq<char>, path: Seq<char>, rest: Seq<char>)
    requires
        !number.contains('<'),
        !path.contains('>'),
    ensures
        strace::angled(number + seq!['<'] + path + seq!['>'] + rest) == Some(path),
        strace::angled(number) is None,
{
    reveal_strlit("<");
    reveal_strlit(">");
    assert("<"@ =~= seq!['<']);
    assert(">"@ =~= seq!['>']);
    let line = number + seq!['<'] + path + seq!['>'] + rest;
    let tail = path + seq!['>'] + rest;
    assert(line =~= number + seq!['<'] + tail);
    text::lemma_first_behind(number, seq!['<'], tail);
    assert(line.skip(number.len() as int + 1) =~= tail);
    text::lemma_first_behind(path, seq!['>'], rest);
    assert(tail.take(path.len() as int) =~= path);
    text::lemma_no_char(number, '<');
}

/// The string in quotes directly behind the first place of a field, and nothing where
/// something else than a quote stands there.
pub proof fn law_quoted_field(
    line: Seq<char>,
    field: Seq<char>,
    at: int,
    raw: Seq<char>,
    rest: Seq<char>,
)
    requires
        0 <= at <= line.len() - field.len(),
        line.subrange(at, at + field.len()) == field,
        forall|k: int| 0 <= k < at ==> #[trigger] line.subrange(k, k + field.len()) != field,
        enclosed(raw),
    ensures
        line.skip(at + field.len()) == seq!['"'] + raw + seq!['"'] + rest
            ==> strace::quoted_field(line, field) == Some(strace::decoded(raw)),
        line.len() == at + field.len() || line[at + field.len()] != '"' ==> strace::quoted_field(
            line,
            field,
        ) is None,
{
    reveal_strlit("\"");
    assert("\""@ =~= seq!['"']);
    let tail = line.skip(at + field.len());
    text::lemma_first_at(line, field, at);
    text::lemma_begins(tail, "\""@, 0);
    if tail == seq!['"'] + raw + seq!['"'] + rest {
        let none = Seq::<char>::empty();
        assert(tail =~= none + seq!['"'] + raw + seq!['"'] + rest);
        law_first_quoted_string(none, raw, rest);
    }
}

/// A field that a line does not hold has no value, and an abstract address is the field
/// `sun_path=@` with an `@` in front.
pub proof fn law_fields(line: Seq<char>, field: Seq<char>)
    ensures
        !text::holds(line, field) ==> strace::quoted_field(line, field) is None,
        strace::abstract_address(line) == (match strace::quoted_field(line, "sun_path=@"@) {
            Some(name) => Some(seq!['@'] + name),
            None => None,
        }),
{
    reveal_strlit("@");
    assert("@"@ =~= seq!['@']);
    text::law_holds(line, field);
}

// ---------------------------------------------------------------------------
// Whole lines
// ---------------------------------------------------------------------------

/// A line that ends neither in a newline nor in whitespace.
pub open spec fn tidy(line: Seq<char>) -> bool {
    !line.contains('\n') && text::ends_solid(line)
}

/// The lines of a text without a newline.
proof fn lemma_one_line(line: Seq<char>)
    requires
        tidy(line),
    ensures
        text::pieces(line, '\n') == seq![line],
        text::trim_back(line) == line,
        strace::reassembly(seq![line]) == strace::reassembly_step(
            strace::Reassembly { lines: Seq::empty(), pending: None },
            line,
        ),
{
    text::lemma_pieces_single(line, '\n');
    let none = Seq::<char>::empty();
    assert(line + none =~= line);
    text::law_trim_back(line, none);
    let empty = strace::Reassembly { lines: Seq::<Seq<char>>::empty(), pending: None };
    assert(strace::reassembly(Seq::<Seq<char>>::empty()) == empty);
    assert(seq![line].drop_last() =~= Seq::<Seq<char>>::empty());
}

/// A line that is no notice and no half of an interrupted syscall is kept as it is.
pub proof fn law_whole_lines_are_kept(line: Seq<char>)
    requires
        tidy(line),
        line.len() > 0,
        !"---"@.is_prefix_of(line),
        !"+++"@.is_prefix_of(line),
        !"<unfinished ...>"@.is_suffix_of(line),
        !"<... "@.is_prefix_of(line) || !text::holds(line, " resumed>"@),
    ensures
        strace::whole_lines(line) == seq![line],
{
    lemma_one_line(line);
    text::law_begins_and_ends(line, "---"@);
    text::law_begins_and_ends(line, "+++"@);
    text::law_begins_and_ends(line, "<unfinished ...>"@);
    text::law_begins_and_ends(line, "<... "@);
    let rest = line.skip("<... "@.len() as int);
    if "<... "@.is_prefix_of(line) {
        text::law_holds(rest, " resumed>"@);
        if text::holds(rest, " resumed>"@) {
            let k = choose|k: int|
                0 <= k <= rest.len() - " resumed>"@.len() && #[trigger] rest.subrange(
                    k,
                    k + " resumed>"@.len(),
                ) == " resumed>"@;
            let j = k + "<... "@.len();
            assert(line.subrange(j, j + " resumed>"@.len()) =~= " resumed>"@);
            assert(text::holds(line, " resumed>"@));
        }
    }
    assert(strace::whole_lines(line) =~= seq![line]);
}

/// Notices of signals and exits, and empty lines, leave nothing.
pub proof fn law_notices_leave_nothing(more: Seq<char>)
    requires
        tidy(more),
    ensures
        strace::whole_lines("---"@ + more) == Seq::<Seq<char>>::empty(),
        strace::whole_lines("+++"@ + more) == Seq::<Seq<char>>::empty(),
        strace::whole_lines(Seq::empty()) == Seq::<Seq<char>>::empty(),
{
    reveal_strlit("---");
    reveal_strlit("+++");
    lemma_tidy("---"@, more);
    lemma_tidy("+++"@, more);
    lemma_one_line("---"@ + more);
    lemma_one_line("+++"@ + more);
    lemma_one_line(Seq::empty());
    text::law_begins_and_ends("---"@, more);
    text::law_begins_and_ends("+++"@, more);
}

/// Two tidy texts, one behind the other.
proof fn lemma_tidy(a: Seq<char>, b: Seq<char>)
    requires
        tidy(a),
        tidy(b),
    ensures
        tidy(a + b),
{
    let s = a + b;
    assert forall|k: int| 0 <= k < s.len() implies s[k] != '\n' by {
        if k < a.len() {
            assert(a.contains(a[k]));
        } else {
            assert(b.contains(b[k - a.len()]));
        }
    }
}

/// A head that is no notice does not become one with what follows it.
proof fn lemma_mark_in_front(
    dashes: Seq<char>,
    c: char,
    head: Seq<char>,
    space: Seq<char>,
    mark: Seq<char>,
)
    requires
        dashes == seq![c, c, c],
        !text::is_space(c),
        c != '<',
        !dashes.is_prefix_of(head),
        text::all_space(space),
        mark.len() > 0,
        mark[0] == '<',
    ensures
        !text::begins(head + space + mark, dashes),
{
    let entry = head + space + mark;
    if text::begins(entry, dashes) {
        text::lemma_begins(entry, dashes, 0);
        text::lemma_begins(entry, dashes, 1);
        text::lemma_begins(entry, dashes, 2);
        if head.len() >= 3 {
            assert(head.take(3) =~= dashes);
        } else {
            let k = head.len() as int;
            assert(entry[k] == c);
            if space.len() > 0 {
                assert(entry[k] == space[0]);
                assert(text::is_space(space[0]));
            } else {
                assert(entry[k] == mark[0]);
            }
        }
    }
}

/// What the entry half of an interrupted syscall leaves pending.
proof fn lemma_entry_half(head: Seq<char>, space: Seq<char>)
    requires
        tidy(head),
        head.len() > 0,
        !"---"@.is_prefix_of(head),
        !"+++"@.is_prefix_of(head),
        text::all_space(space),
        !space.contains('\n'),
    ensures
        ({
            let entry = head + space + "<unfinished ...>"@;
            &&& tidy(entry)
            &&& strace::reassembly(seq![entry]) == (strace::Reassembly {
                lines: Seq::empty(),
                pending: Some(head),
            })
        }),
{
    reveal_strlit("---");
    reveal_strlit("+++");
    reveal_strlit("<unfinished ...>");
    let mark = "<unfinished ...>"@;
    let entry = head + space + mark;
    assert(mark.len() == 16 && mark[0] == '<' && mark[15] == '>');
    assert(tidy(entry)) by {
        assert(entry[entry.len() - 1] == mark[15]);
        assert(!text::is_space('>'));
        assert forall|k: int| 0 <= k < entry.len() implies entry[k] != '\n' by {
            if k < head.len() {
                assert(head.contains(head[k]));
            } else if k < head.len() + space.len() {
                assert(space.contains(space[k - head.len()]));
            } else {
                assert(entry[k] == mark[k - head.len() - space.len()]);
            }
        }
    }
    lemma_one_line(entry);
    text::law_begins_and_ends(head + space, mark);
    assert("---"@ =~= seq!['-', '-', '-']);
    assert("+++"@ =~= seq!['+', '+', '+']);
    lemma_mark_in_front("---"@, '-', head, space, mark);
    lemma_mark_in_front("+++"@, '+', head, space, mark);
    assert(entry.take(entry.len() - mark.len()) =~= head + space);
    text::law_trim_back(head, space);
}

/// What the resumed half of an interrupted syscall says.
proof fn lemma_resumed_half(name: Seq<char>, tail: Seq<char>)
    requires
        tidy(name),
        !name.contains(' '),
        tidy(tail),
    ensures
        ({
            let resumed = "<... "@ + name + " resumed>"@ + tail;
            &&& tidy(resumed)
            &&& resumed.len() > 0
            &&& !strace::is_notice(resumed)
            &&& strace::resumed_rest(resumed) == Some(tail)
        }),
{
    reveal_strlit("---");
    reveal_strlit("+++");
    reveal_strlit("<... ");
    reveal_strlit(" resumed>");
    let front = "<... "@ + name + " resumed>"@;
    let resumed = front + tail;
    assert("<... "@.len() == 5);
    assert(" resumed>"@.len() == 9 && " resumed>"@[8] == '>' && " resumed>"@[0] == ' ');
    assert(tidy(front)) by {
        assert(front[front.len() - 1] == " resumed>"@[8]);
        assert(!text::is_space('>'));
        assert forall|k: int| 0 <= k < front.len() implies front[k] != '\n' by {
            if k < 5 {
                assert(front[k] == "<... "@[k]);
            } else if k < 5 + name.len() {
                assert(name.contains(name[k - 5]));
            } else {
                assert(front[k] == " resumed>"@[k - 5 - name.len()]);
            }
        }
    }
    lemma_tidy(front, tail);
    assert(resumed[0] == "<... "@[0]);
    text::lemma_begins(resumed, "---"@, 0);
    text::lemma_begins(resumed, "+++"@, 0);
    let rest = name + " resumed>"@ + tail;
    assert(resumed =~= "<... "@ + rest);
    text::law_begins_and_ends("<... "@, rest);
    assert(resumed.skip("<... "@.len() as int) =~= rest);
    text::lemma_first_behind(name, " resumed>"@, tail);
    assert(rest.skip(name.len() as int + " resumed>"@.len()) =~= tail);
}

/// An interrupted syscall: the entry half, without the whitespace in front of its mark, and
/// what the resumed half says become one line.
pub proof fn law_interrupted_call(
    head: Seq<char>,
    space: Seq<char>,
    name: Seq<char>,
    tail: Seq<char>,
)
    requires
        tidy(head),
        head.len() > 0,
        !"---"@.is_prefix_of(head),
        !"+++"@.is_prefix_of(head),
        text::all_space(space),
        !space.contains('\n'),
        tidy(name),
        !name.contains(' '),
        tidy(tail),
        !"<unfinished ...>"@.is_suffix_of("<... "@ + name + " resumed>"@ + tail),
    ensures
        ({
            let entry = head + space + "<unfinished ...>"@;
            let resumed = "<... "@ + name + " resumed>"@ + tail;
            &&& strace::whole_lines(entry.push('\n') + resumed) == seq![head + tail]
            &&& strace::whole_lines(entry) == Seq::<Seq<char>>::empty()
            &&& strace::whole_lines(resumed) == Seq::<Seq<char>>::empty()
        }),
{
    let entry = head + space + "<unfinished ...>"@;
    let resumed = "<... "@ + name + " resumed>"@ + tail;
    lemma_entry_half(head, space);
    lemma_resumed_half(name, tail);
    text::law_begins_and_ends(resumed, "<unfinished ...>"@);
    lemma_one_line(entry);
    lemma_one_line(resumed);
    text::lemma_pieces_concat(entry, resumed, '\n');
    let halves = seq![entry] + seq![resumed];
    assert(halves.drop_last() =~= seq![entry]);
    assert(halves.last() == resumed);
    assert(Seq::<Seq<char>>::empty().push(head + tail) =~= seq![head + tail]);
    assert(strace::reassembly(halves).lines == seq![head + tail]);
}

} // verus!
