//! Reading raw strace output.

use runprint::strace::{
    angle_path, connect_in_progress, decode_strace_string, extract_between,
    extract_strace_abstract_unix_address, extract_strace_quoted_field,
    file_open_flags, first_quoted_string, flags_have_token, hex_value, nth_quoted_string,
    observable_syscall, quoted_end,
    reassemble_trace_lines, syscall_result, syscall_succeeded,
};

#[test]
fn decodes_strace_c_escapes() {
    let line = r#"openat(AT_FDCWD, "quote\"name\\tail\040space\012line", O_RDONLY) = 3"#;

    assert_eq!(
        nth_quoted_string(line, 0).as_deref(),
        Some("quote\"name\\tail space\nline")
    );
}

#[test]
fn decodes_strace_octal_utf8() {
    let line = r#"openat(AT_FDCWD, "caf\303\251.txt", O_RDONLY) = 3"#;

    assert_eq!(nth_quoted_string(line, 0).as_deref(), Some("café.txt"));
}

#[test]
fn preserves_unknown_strace_escape() {
    let line = r#"openat(AT_FDCWD, "odd\qname.txt", O_RDONLY) = 3"#;

    assert_eq!(
        nth_quoted_string(line, 0).as_deref(),
        Some(r"odd\qname.txt")
    );
}

#[test]
fn parses_two_rename_paths() {
    let line = r#"rename("old.txt", "new.txt") = 0"#;

    assert_eq!(nth_quoted_string(line, 0).as_deref(), Some("old.txt"));
    assert_eq!(nth_quoted_string(line, 1).as_deref(), Some("new.txt"));
}

#[test]
fn interrupted_syscall_takes_its_result_from_the_resumed_line() {
    let text = "openat(AT_FDCWD</p>, \"x\", O_RDONLY <unfinished ...>\n<... openat resumed>) = 3</p/x>\n";

    let lines = reassemble_trace_lines(text);

    assert_eq!(lines.len(), 1);
    assert!(syscall_succeeded(&lines[0]));
    assert_eq!(syscall_result(&lines[0]), Some("3</p/x>"));
    assert_eq!(nth_quoted_string(&lines[0], 0).as_deref(), Some("x"));
    assert!(flags_have_token(file_open_flags(&lines[0]), "O_RDONLY"));
}

#[test]
fn interrupted_syscall_that_failed_is_not_observable() {
    let text = "openat(AT_FDCWD</p>, \"x\", O_WRONLY|O_CREAT <unfinished ...>\n<... openat resumed>) = -1 EACCES (Permission denied)\n";

    let lines = reassemble_trace_lines(text);

    assert_eq!(lines.len(), 1);
    assert!(!observable_syscall(&lines[0]));
}

#[test]
fn unresumed_syscall_entry_is_dropped() {
    let text = "openat(AT_FDCWD</p>, \"never.txt\", O_RDONLY <unfinished ...>\n";

    assert!(reassemble_trace_lines(text).is_empty());
}

#[test]
fn resumed_line_without_an_entry_is_dropped() {
    let text = "<... openat resumed>) = 3</p/x>\n";

    assert!(reassemble_trace_lines(text).is_empty());
}

#[test]
fn signal_and_exit_notices_are_dropped() {
    let text =
        "--- SIGCHLD {si_signo=SIGCHLD, si_code=CLD_EXITED} ---\n+++ exited with 0 +++\n";

    assert!(reassemble_trace_lines(text).is_empty());
}

#[test]
fn signal_between_halves_does_not_break_the_splice() {
    let text = "connect(3, {sa_family=AF_UNIX}, 12 <unfinished ...>\n--- SIGWINCH {si_signo=SIGWINCH} ---\n<... connect resumed>) = 0\n";

    let lines = reassemble_trace_lines(text);

    assert_eq!(lines.len(), 1);
    assert!(observable_syscall(&lines[0]));
}

#[test]
fn failed_syscall_is_not_observable() {
    let line =
        r#"openat(AT_FDCWD, "missing", O_RDONLY) = -1 ENOENT (No such file or directory)"#;

    assert!(!observable_syscall(line));
}

#[test]
fn restarted_syscall_is_not_observable() {
    let line = "connect(3, {sa_family=AF_INET}, 16) = ? ERESTARTSYS (To be restarted)";

    assert!(!observable_syscall(line));
}

#[test]
fn quoted_path_containing_failure_text_stays_observable() {
    let line = r#"openat(AT_FDCWD</p>, "report = -1 draft.txt", O_RDONLY) = 3"#;

    assert!(observable_syscall(line));
    assert_eq!(syscall_result(line), Some("3"));
}

#[test]
fn nonblocking_connect_is_observable() {
    let line = "connect(3<TCP:[127.0.0.1:1]>, {sa_family=AF_INET}, 16) = -1 EINPROGRESS (Operation now in progress)";

    assert!(observable_syscall(line));
}

#[test]
fn repeated_nonblocking_connect_is_observable() {
    let line = "connect(3<TCP:[127.0.0.1:1]>, {sa_family=AF_INET}, 16) = -1 EALREADY (Operation already in progress)";

    assert!(observable_syscall(line));
}

#[test]
fn refused_connect_is_not_observable() {
    let line = "connect(3<TCP:[127.0.0.1:1]>, {sa_family=AF_INET}, 16) = -1 ECONNREFUSED (Connection refused)";

    assert!(!observable_syscall(line));
}

#[test]
fn denied_connect_is_not_observable() {
    let line = "connect(3<TCP:[127.0.0.1:1]>, {sa_family=AF_INET}, 16) = -1 EACCES (Permission denied)";

    assert!(!observable_syscall(line));
}

#[test]
fn in_progress_errno_only_applies_to_connect() {
    let line =
        r#"openat(AT_FDCWD, "x", O_RDONLY) = -1 EINPROGRESS (Operation now in progress)"#;

    assert!(!observable_syscall(line));
}

#[test]
fn flag_tokens_are_matched_whole() {
    let openat2 = ", {flags=O_WRONLY|O_CREAT, mode=0644, resolve=0}, 24";

    assert!(flags_have_token(openat2, "O_CREAT"));
    assert!(flags_have_token(openat2, "O_WRONLY"));
    assert!(!flags_have_token(openat2, "O_RDWR"));
    assert!(!flags_have_token(", XO_CREATX", "O_CREAT"));
    assert!(!flags_have_token("", "O_PATH"));
}

#[test]
fn open_flags_exclude_the_result_annotation() {
    let line = r#"openat(AT_FDCWD</p>, "x", O_RDONLY) = 3</p/O_WRONLY>"#;

    assert!(flags_have_token(file_open_flags(line), "O_RDONLY"));
    assert!(!flags_have_token(file_open_flags(line), "O_WRONLY"));
}

#[test]
fn abstract_unix_address_is_prefixed() {
    let line =
        r#"connect(4<UNIX-STREAM:[84234]>, {sa_family=AF_UNIX, sun_path=@"abstract"}, 20) = 0"#;

    assert_eq!(
        extract_strace_abstract_unix_address(line).as_deref(),
        Some("@abstract")
    );
}

#[test]
fn abstract_field_is_not_read_as_a_pathname_socket() {
    let line =
        r#"connect(4<UNIX-STREAM:[84234]>, {sa_family=AF_UNIX, sun_path=@"abstract"}, 20) = 0"#;

    assert_eq!(extract_strace_quoted_field(line, "sun_path="), None);
}

#[test]
fn extracts_ipv6_literal_between_markers() {
    let line = r#"connect(3, {sa_family=AF_INET6, sin6_port=htons(443), inet_pton(AF_INET6, "2001:db8::1", &sin6_addr)}, 28) = 0"#;

    assert_eq!(
        extract_between(line, "sin6_port=htons(", ")").as_deref(),
        Some("443")
    );
    assert_eq!(
        extract_between(line, "inet_pton(AF_INET6, \"", "\"").as_deref(),
        Some("2001:db8::1")
    );
}

#[test]
fn every_escape_is_decoded() {
    assert_eq!(decode_strace_string(r"\a\b\f\n\r\t\v"), "\u{7}\u{8}\u{c}\n\r\t\u{b}");
    assert_eq!(decode_strace_string(r"\\ \' \x41\x7e"), "\\ ' A~");
    assert_eq!(decode_strace_string(r"\0\1018\1"), "\0A8\u{1}");
    assert_eq!(decode_strace_string(r"\777"), r"\777");
    assert_eq!(decode_strace_string(r"\xZ1 \"), r"\xZ1 \");
    assert_eq!(decode_strace_string("plain é"), "plain é");
}

#[test]
fn bytes_that_are_no_text_stay_as_printed() {
    assert_eq!(decode_strace_string(r"a\377b"), r"a\377b");
}

#[test]
fn octal_escapes_give_back_any_text() {
    let text = "naïve 文字 \u{1f600}\\\"";
    let raw: String = text.bytes().map(|byte| format!("\\{byte:03o}")).collect();

    assert_eq!(decode_strace_string(&raw), text);
}

#[test]
fn hexadecimal_digits_have_values() {
    assert_eq!(hex_value(b'0'), Some(0));
    assert_eq!(hex_value(b'9'), Some(9));
    assert_eq!(hex_value(b'a'), Some(10));
    assert_eq!(hex_value(b'F'), Some(15));
    assert_eq!(hex_value(b'g'), None);
}

#[test]
fn quotes_end_where_they_are_not_escaped() {
    let line = r#"rename("é\"x", "b") = 0"#;

    assert_eq!(quoted_end(line, 0), line.find(r#"", "b"#));
    assert_eq!(quoted_end(line, 1), line.find(r#"") = 0"#));
    assert_eq!(quoted_end(line, 2), None);
    assert_eq!(first_quoted_string(line).as_deref(), Some("é\"x"));
    assert_eq!(first_quoted_string("open(\"half"), None);
}

#[test]
fn entry_halves_take_the_next_result() {
    let lines = reassemble_trace_lines("a( <unfinished ...>\nb() = 0\n<... a resumed>x) = 1\n");

    assert_eq!(lines, vec!["b() = 0", "a(x) = 1"]);
}

#[test]
fn the_last_result_counts() {
    assert_eq!(syscall_result("write(1, \") = 9\") = 7 "), Some("7"));
    assert_eq!(syscall_result("exit_group(0) = ?"), Some("?"));
    assert_eq!(syscall_result("no result"), None);
    assert!(!syscall_succeeded("no result"));
    assert!(!observable_syscall("no result"));
    assert!(connect_in_progress("connect(3, {}, 16) = -1 EALREADY (x)"));
    assert!(!connect_in_progress("connect(3, {}, 16) = -1 EINPROGRESSX (x)"));
}

#[test]
fn annotations_are_read_between_markers() {
    assert_eq!(angle_path("3</a/b>").as_deref(), Some("/a/b"));
    assert_eq!(angle_path("3"), None);
    assert_eq!(extract_between("a[b]c", "[", "]").as_deref(), Some("b"));
    assert_eq!(extract_between("a[b", "[", "]"), None);
    assert_eq!(
        extract_strace_quoted_field(r#"{sun_path="/run/\"x"}"#, "sun_path=").as_deref(),
        Some("/run/\"x")
    );
}

#[test]
fn hexadecimal_escapes_give_back_any_text() {
    let text = "naïve 文字 \u{1f600}\\\"";
    let lower: String = text.bytes().map(|byte| format!("\\x{byte:02x}")).collect();
    let upper: String = text.bytes().map(|byte| format!("\\x{byte:02X}")).collect();

    assert_eq!(decode_strace_string(&lower), text);
    assert_eq!(decode_strace_string(&upper), text);
}

#[test]
fn texts_are_read_one_after_the_other() {
    let first = "a() = 0\nb( <unfinished ...>\n<... b resumed>) = 1\n<... x resumed>) = 9";
    let second = "<... y resumed>) = 9\nc() = 2\n+++ exited with 0 +++\n";

    let mut apart = reassemble_trace_lines(first);
    apart.extend(reassemble_trace_lines(second));

    assert_eq!(reassemble_trace_lines(&format!("{first}\n{second}")), apart);
    assert_eq!(apart, vec!["a() = 0", "b() = 1", "c() = 2"]);
}

#[test]
fn mixed_escapes_give_back_the_text() {
    assert_eq!(
        decode_strace_string(r"a\xc3\251\n\7x\\\x4A"),
        "aé\n\u{7}x\\J"
    );
}
