use kernel::fs::path::{basename, normalize, parent};
use kernel::shell::{command_of, line_end, parse_line, Command};
use kernel::shell::builtins::{echo, format_kb, hexdump_lines, pipe_test, stress_test, uptime, Shell, StressTest};

#[test]
fn normalize_resolves_dot_dot() {
    assert_eq!(normalize("/a/b/../c"), "/a/c");
}

#[test]
fn normalize_drops_dot() {
    assert_eq!(normalize("/a/./b"), "/a/b");
}

#[test]
fn normalize_collapses_slashes() {
    assert_eq!(normalize("///a///b///"), "/a/b");
}

#[test]
fn normalize_dot_dot_above_root() {
    assert_eq!(normalize("/../../../tmp"), "/tmp");
    assert_eq!(normalize("/tmp/../../etc"), "/etc");
}

#[test]
fn normalize_root_forms() {
    assert_eq!(normalize("/"), "/");
    assert_eq!(normalize("/."), "/");
    assert_eq!(normalize("/.."), "/");
}

#[test]
fn normalize_is_idempotent_on_example() {
    let once = normalize("/x/./y/../z//");
    assert_eq!(normalize(&once), once);
}

#[test]
fn basename_and_parent() {
    assert_eq!(basename("/a/b/c.txt"), "c.txt");
    assert_eq!(basename("/"), "");
    assert_eq!(parent("/a/b/c"), "/a/b");
    assert_eq!(parent("/a"), "/");
}

#[test]
fn parse_line_splits_and_quotes() {
    let (cmd, args) = parse_line("echo  'a b' \"c d\" e\\ f");
    assert_eq!(cmd, "echo");
    assert_eq!(args, vec!["a b".to_string(), "c d".to_string(), "e f".to_string()]);
}

#[test]
fn parse_line_empty() {
    let (cmd, args) = parse_line("   \t ");
    assert_eq!(cmd, "");
    assert!(args.is_empty());
}

#[test]
fn parse_line_backslash_in_single_quotes_is_literal() {
    let (cmd, args) = parse_line("echo 'a\\b'");
    assert_eq!(cmd, "echo");
    assert_eq!(args, vec!["a\\b".to_string()]);
}

#[test]
fn command_names() {
    assert!(command_of("help") == Command::Help);
    assert!(command_of("halt") == Command::Shutdown);
    assert!(command_of("pipe-test") == Command::PipeTest);
    assert!(command_of("nope") == Command::Unknown);
}

#[test]
fn line_end_on_newline_and_full_buffer() {
    let buf = vec![b'l', b's', b'\n', 0];
    assert_eq!(line_end(&buf, 3), Some(2));
    assert_eq!(line_end(&buf, 2), None);
    let full = vec![b'x'; 1024];
    assert_eq!(line_end(&full, 1024), Some(1024));
}

#[test]
fn echo_joins_with_spaces() {
    let out = echo(&vec!["hello".to_string(), "world".to_string()]);
    assert_eq!(out, b"hello world\n".to_vec());
    assert_eq!(echo(&vec![]), b"\n".to_vec());
}

#[test]
fn uptime_formats() {
    assert_eq!(uptime(5_000), b"up 5s\n".to_vec());
    assert_eq!(uptime(125_000), b"up 2m 5s\n".to_vec());
    assert_eq!(uptime(3_725_000), b"up 1h 2m 5s\n".to_vec());
}

#[test]
fn format_kb_units() {
    assert_eq!(format_kb(512), b"512 KiB".to_vec());
    assert_eq!(format_kb(2048), b"2 MiB".to_vec());
}

#[test]
fn hexdump_one_short_line() {
    let out = hexdump_lines(b"AB\x01");
    let expected = format!("00000000  41 42 01 {} |AB.|\n", " ".repeat(13 * 3 + 1));
    assert_eq!(String::from_utf8(out).unwrap(), expected);
}

#[test]
fn hexdump_second_line_offset() {
    let data: Vec<u8> = (0u8..17).collect();
    let out = String::from_utf8(hexdump_lines(&data)).unwrap();
    let lines: Vec<&str> = out.lines().collect();
    assert_eq!(lines.len(), 2);
    assert!(lines[1].starts_with("00000010  10 "));
}

#[test]
fn pipe_test_passes() {
    assert!(pipe_test());
}

#[test]
fn stress_test_selection() {
    assert!(stress_test(&vec![]).unwrap() == vec![StressTest::Alloc, StressTest::Vfs, StressTest::Pipe]);
    assert!(stress_test(&vec!["vfs".to_string()]).unwrap() == vec![StressTest::Vfs]);
    assert!(stress_test(&vec!["bogus".to_string()]).is_none());
}

#[test]
fn shell_resolve_path_relative() {
    let mut sh = Shell::new();
    sh.init_cwd();
    assert_eq!(sh.resolve_path("tmp/x"), "/tmp/x");
    assert_eq!(sh.pwd(), b"/\n".to_vec());
}
