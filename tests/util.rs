use sayo::util::{black, blue, cyan, error_lines, gray, green, magenta, red, tidy_usage, yellow};

#[test]
fn colors_wrap_text_in_escapes() {
    assert_eq!(red("x"), "\x1b[31mx\x1b[0m");
    assert_eq!(green("x"), "\x1b[32mx\x1b[0m");
    assert_eq!(yellow("x"), "\x1b[33mx\x1b[0m");
    assert_eq!(blue("[sayo]>"), "\x1b[34m[sayo]>\x1b[0m");
    assert_eq!(magenta(""), "\x1b[35m\x1b[0m");
    assert_eq!(cyan("[+]"), "\x1b[36m[+]\x1b[0m");
    assert_eq!(gray("x"), "\x1b[37mx\x1b[0m");
    assert_eq!(black("x"), "\x1b[30mx\x1b[0m");
}

#[test]
fn tidy_usage_pads_to_column() {
    let line = tidy_usage("listen <port>", "Listen on a port");
    assert_eq!(line, format!("  listen <port>{}Listen on a port", " ".repeat(10)));
    assert_eq!(line.len(), 2 + 23 + "Listen on a port".len());
}

#[test]
fn tidy_usage_long_command_gets_no_padding() {
    let c = "a".repeat(30);
    assert_eq!(tidy_usage(&c, "d"), format!("  {}d", c));
}

#[test]
fn error_lines_without_causes() {
    let lines = error_lines("failed to execute command", &vec!["session with id 3 not found".to_string()]);
    assert_eq!(lines, vec!["session with id 3 not found".to_string(), " -> failed to execute command".to_string()]);
}

#[test]
fn error_lines_with_causes() {
    let chain = vec!["outer".to_string(), "middle".to_string(), "root cause".to_string()];
    let lines = error_lines("msg", &chain);
    assert_eq!(
        lines,
        vec![
            "root cause".to_string(),
            "  -> middle".to_string(),
            "   -> outer".to_string(),
            "    -> msg".to_string(),
        ]
    );
}
