use orvane::diagnostic::Diagnostic;
use orvane::source::SourceMap;
use orvane::span::Span;

/// Compares one stream's text with its expectation; an absent expectation
/// means the stream must be empty.
fn compare_bytes(what: &str, expected: Option<&str>, actual: &str) -> Result<(), String> {
    let expected = expected.unwrap_or("");
    if actual == expected {
        Ok(())
    } else {
        Err(diff_report(what, expected, actual))
    }
}

/// Decodes captured output to text with `LF` line endings.
fn decode_output(bytes: &[u8]) -> String {
    normalize_line_endings(&String::from_utf8_lossy(bytes))
}

/// Replaces `CRLF` with `LF`, leaving lone `CR` bytes untouched.
fn normalize_line_endings(text: &str) -> String {
    text.replace("\r\n", "\n")
}

fn diff_report(what: &str, expected: &str, actual: &str) -> String {
    format!(
        "--- {what} mismatch ---\nexpected:\n{}\nactual:\n{}\n---",
        indent(expected),
        indent(actual)
    )
}

fn indent(text: &str) -> String {
    if text.is_empty() {
        return "    <empty>".to_owned();
    }
    text.lines()
        .map(|line| format!("    {line}"))
        .collect::<Vec<_>>()
        .join("\n")
}

/// Keeps only the stable `CODE:line:col: message` lines.
fn normalize_diagnostics(stderr: &str) -> String {
    let mut out = String::new();
    for line in stderr.lines() {
        if is_diagnostic_line(line) {
            out.push_str(line);
            out.push('\n');
        }
    }
    out
}

fn is_diagnostic_line(line: &str) -> bool {
    let Some((code, rest)) = line.split_once(':') else {
        return false;
    };
    if !is_diagnostic_code(code) {
        return false;
    }
    let mut parts = rest.splitn(2, ':');
    let line_no = parts.next().unwrap_or_default();
    let remainder = parts.next().unwrap_or_default();
    if line_no.parse::<u32>().is_err() {
        return false;
    }
    let col = remainder
        .split_once(':')
        .map(|(c, _)| c)
        .unwrap_or(remainder);
    col.parse::<u32>().is_ok()
}

fn is_diagnostic_code(code: &str) -> bool {
    let bytes = code.as_bytes();
    match bytes {
        [b'E' | b'W' | b'R', d0, d1, d2, d3] => [d0, d1, d2, d3].iter().all(|b| b.is_ascii_digit()),
        _ => false,
    }
}

fn strict_stdout(actual: &str, expected: Option<&str>) -> Result<(), String> {
    compare_bytes("stdout", expected, actual)
}

fn strict_diagnostics(actual: &str, expected: Option<&str>) -> Result<(), String> {
    compare_bytes("diagnostics", expected, actual)
}

#[test]
fn diagnostic_normalization_keeps_only_stable_lines() {
    let stderr = "Error: something\n  --> file.orv\nE0101:2:5: unexpected token\n   ^\nR0001:9:1: division by zero\n";
    assert_eq!(
        normalize_diagnostics(stderr),
        "E0101:2:5: unexpected token\nR0001:9:1: division by zero\n"
    );
}

#[test]
fn diagnostic_line_detection_is_strict() {
    assert!(is_diagnostic_line("E0001:1:1: invalid character"));
    assert!(is_diagnostic_line("W0001:10:20: unused"));
    assert!(is_diagnostic_line("R0010:3:4: unsatisfied"));
    assert!(!is_diagnostic_line("E01:1:1: too short"));
    assert!(!is_diagnostic_line("Error:1:1: wrong prefix"));
    assert!(!is_diagnostic_line("E0001::1: missing line"));
    assert!(!is_diagnostic_line("E0001:1:1 no second colon in coords"));
}

#[test]
fn empty_expectation_renders_placeholder() {
    assert_eq!(indent(""), "    <empty>");
    assert_eq!(indent("a\nb"), "    a\n    b");
}

#[test]
fn decode_output_normalizes_crlf() {
    assert_eq!(decode_output(b"orv 0.1.0\r\n"), "orv 0.1.0\n");
    assert_eq!(decode_output(b"a\r\nb\r\n"), "a\nb\n");
}

#[test]
fn decode_output_keeps_lf_and_lone_cr() {
    assert_eq!(decode_output(b"a\nb\n"), "a\nb\n");
    assert_eq!(normalize_line_endings("a\rb"), "a\rb");
    assert_eq!(normalize_line_endings("plain"), "plain");
}

#[test]
fn missing_out_requires_empty_stdout() {
    assert!(strict_stdout("", None).is_ok(), "empty stdout with no .out is fine");
    let err = strict_stdout("hello\n", None).expect_err("printing without .out must fail");
    assert!(err.contains("stdout mismatch"), "got: {err}");
    assert!(err.contains("hello"), "got: {err}");
}

#[test]
fn missing_err_requires_zero_diagnostics() {
    assert!(strict_diagnostics("", None).is_ok(), "no diagnostics with no .err is fine");
    let err = strict_diagnostics("E0101:2:5: unexpected token\n", None)
        .expect_err("diagnostics without .err must fail");
    assert!(err.contains("diagnostics mismatch"), "got: {err}");
    assert!(err.contains("E0101:2:5"), "got: {err}");
}

#[test]
fn present_out_must_match_exactly() {
    assert!(strict_stdout("ok\n", Some("ok\n")).is_ok());
    assert!(strict_stdout("ok\n", Some("ok")).is_err());
    assert!(strict_stdout("ok", Some("ok\n")).is_err());
}

#[test]
fn compact_rendering_is_a_stable_diagnostic_line() {
    let mut sources = SourceMap::new();
    let id = sources.add("x.orv", "let a = 1\n  bad\n");
    let diagnostic = Diagnostic::error("E0101", "unexpected token", Span::new(id, 12, 15));
    let line = diagnostic.render_compact(&sources);
    assert!(is_diagnostic_line(&line), "got: {line}");
    assert_eq!(line, "E0101:2:3: unexpected token");
}
