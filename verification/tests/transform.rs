use mlog_labels::labels::{discover, LabelMap};
use mlog_labels::pattern::{line_from, scan, Captured, Line, JUMP_PATTERN};
use mlog_labels::resolve::{compile, read_jumps, transform};
use mlog_labels::rewrite::{label_text, rewrite, rewrite_line, TransformError};
use mlog_labels::text::{decimal_string, split_lines};
use regex::Regex;

fn jump_pattern() -> Regex {
    Regex::new(JUMP_PATTERN).unwrap()
}

fn plain(text: &str) -> Line {
    Line { text: text.to_string(), found: None }
}

fn jump(text: &str, target: &str, arguments: &str) -> Line {
    Line {
        text: text.to_string(),
        found: Some(Captured {
            target: Some(target.to_string()),
            arguments: Some(arguments.to_string()),
        }),
    }
}

fn id(labels: &LabelMap, target: &str) -> Option<usize> {
    labels.id_of(&target.to_string())
}

#[test]
fn label_stands_before_the_target_line() {
    let out = transform("foo\njump 2 bar\nbaz\nqux", &jump_pattern());
    assert_eq!(out, Ok("foo\njump jump_0 bar\njump_0:\nbaz\nqux\n".to_string()));
}

#[test]
fn same_input_gives_same_output() {
    let re = jump_pattern();
    let input = "jump 3 a\nx\njump 0 b\njump 3 c\ny\n";
    let first = transform(input, &re);
    let second = transform(input, &re);
    assert!(first.is_ok());
    assert_eq!(first, second);
    let other = Regex::new(JUMP_PATTERN).unwrap();
    assert_eq!(transform(input, &other), first);
}

#[test]
fn shared_target_has_one_label() {
    let re = jump_pattern();
    let input = "jump 2 a\njump 2 b\nend\n".to_string();
    let labels = read_jumps(&input, &re);
    assert_eq!(labels.len(), 1);
    assert_eq!(id(&labels, "2"), Some(0));
    let out = transform(&input, &re).unwrap();
    assert_eq!(out, "jump jump_0 a\njump jump_0 b\njump_0:\nend\n");
    assert_eq!(out.matches("jump_0:").count(), 1);
}

#[test]
fn identifiers_follow_first_sight() {
    let re = jump_pattern();
    let input = "jump 5 a\njump 3 b\njump 5 c\nnoise\njump 7 d\njump 3 e".to_string();
    let labels = read_jumps(&input, &re);
    assert_eq!(labels.len(), 3);
    assert_eq!(id(&labels, "5"), Some(0));
    assert_eq!(id(&labels, "3"), Some(1));
    assert_eq!(id(&labels, "7"), Some(2));
    assert_eq!(id(&labels, "4"), None);
}

#[test]
fn repeated_target_does_not_skip_an_identifier() {
    let re = jump_pattern();
    let input = "jump 1 a\njump 1 b\njump 0 c\n".to_string();
    let labels = read_jumps(&input, &re);
    assert_eq!(id(&labels, "1"), Some(0));
    assert_eq!(id(&labels, "0"), Some(1));
    assert_eq!(
        transform(&input, &re),
        Ok("jump_1:\njump jump_0 a\njump_0:\njump jump_0 b\njump jump_1 c\n".to_string())
    );
}

#[test]
fn jump_and_declaration_carry_the_same_label() {
    let re = jump_pattern();
    let out = transform("a\nb\njump 4 x\njump 1 y\nc\n", &re).unwrap();
    let lines: Vec<&str> = out.lines().collect();
    assert_eq!(lines, vec!["a", "jump_1:", "b", "jump jump_0 x", "jump jump_1 y", "jump_0:", "c"]);
}

#[test]
fn other_lines_pass_unchanged_and_in_order() {
    let re = jump_pattern();
    let out = transform("  set x 1\n\njump 0 always\n# jump\njumpy 3 4\n", &re).unwrap();
    assert_eq!(out, "jump_0:\n  set x 1\n\njump jump_0 always\n# jump\njumpy 3 4\n");
}

#[test]
fn target_past_the_end_has_a_label_and_no_declaration() {
    let re = jump_pattern();
    let out = transform("jump 9 far\nend\n", &re);
    assert_eq!(out, Ok("jump jump_0 far\nend\n".to_string()));
}

#[test]
fn rerun_on_own_output_resolves_nothing_more() {
    let re = jump_pattern();
    let once = transform("foo\njump 2 bar\nbaz\nqux", &re).unwrap();
    let labels = read_jumps(&once, &re);
    assert_eq!(labels.len(), 0);
    let twice = transform(&once, &re).unwrap();
    assert_eq!(twice, once);
    assert_ne!(twice, "foo\njump 2 bar\nbaz\nqux\n");
}

#[test]
fn rerun_on_own_output_is_not_the_identity() {
    let re = jump_pattern();
    let once = transform("jump 0 jump 1 x", &re).unwrap();
    assert_eq!(once, "jump_0:\njump jump_0 jump 1 x\n");
    let twice = transform(&once, &re).unwrap();
    assert_eq!(twice, "jump_0:\njump_0:\njump jump_0 x\n");
    assert_ne!(twice, once);
}

#[test]
fn match_inside_a_line_drops_what_stands_before_it() {
    let re = jump_pattern();
    assert_eq!(transform("  jump 0 x", &re), Ok("jump_0:\njump jump_0 x\n".to_string()));
}

#[test]
fn targets_are_compared_as_written() {
    let re = jump_pattern();
    let input = "jump 01 a\nb\n".to_string();
    let labels = read_jumps(&input, &re);
    assert_eq!(id(&labels, "01"), Some(0));
    assert_eq!(id(&labels, "1"), None);
    assert_eq!(transform(&input, &re), Ok("jump jump_0 a\nb\n".to_string()));
}

#[test]
fn jump_needs_target_and_arguments() {
    let re = jump_pattern();
    let input = "jump 1\njump 1 \njump x y\njump 1  z\n";
    assert_eq!(
        transform(input, &re),
        Ok("jump 1\njump_0:\njump 1 \njump x y\njump jump_0  z\n".to_string())
    );
}

#[test]
fn empty_text_gives_empty_text() {
    let re = jump_pattern();
    assert_eq!(transform("", &re), Ok(String::new()));
    assert_eq!(read_jumps(&String::new(), &re).len(), 0);
}

#[test]
fn compile_without_the_label_fails() {
    let re = jump_pattern();
    let input = "ok\njump 0 a\n".to_string();
    let empty = LabelMap::new();
    assert_eq!(compile(&input, &empty, &re), Err(TransformError::MissingLabel { line: 1 }));
}

#[test]
fn compile_with_the_discovered_labels_is_the_transform() {
    let re = jump_pattern();
    let input = "jump 1 a\nb\njump 0 c\n".to_string();
    let labels = read_jumps(&input, &re);
    assert_eq!(compile(&input, &labels, &re), transform(&input, &re));
    assert_eq!(
        compile(&input, &labels, &re),
        Ok("jump_1:\njump jump_0 a\njump_0:\nb\njump jump_1 c\n".to_string())
    );
}

#[test]
fn compile_uses_the_labels_it_is_given() {
    let re = jump_pattern();
    let mut labels = LabelMap::new();
    assert_eq!(labels.record("7".to_string()), 0);
    assert_eq!(labels.record("0".to_string()), 1);
    let input = "jump 0 a\n".to_string();
    assert_eq!(compile(&input, &labels, &re), Ok("jump_1:\njump jump_1 a\n".to_string()));
}

#[test]
fn match_without_a_group_is_malformed() {
    let re = Regex::new(r"jump(?: (\d+))?(?: (.+))?").unwrap();
    assert_eq!(transform("fine\njump\n", &re), Err(TransformError::MalformedMatch { line: 1 }));
    assert_eq!(transform("jump 0", &re), Err(TransformError::MalformedMatch { line: 0 }));
    let labels = read_jumps(&"jump 0".to_string(), &re);
    assert_eq!(id(&labels, "0"), Some(0));
    assert_eq!(transform("jump 0 x", &re), Ok("jump_0:\njump jump_0 x\n".to_string()));
}

#[test]
fn first_failing_line_is_reported() {
    let lines = vec![
        plain("a"),
        jump("jump 1 x", "1", "x"),
        Line { text: "m".to_string(), found: Some(Captured { target: None, arguments: None }) },
        jump("jump 2 y", "2", "y"),
    ];
    let mut labels = LabelMap::new();
    labels.record("1".to_string());
    assert_eq!(rewrite(&lines, &labels), Err(TransformError::MalformedMatch { line: 2 }));
    let none = LabelMap::new();
    assert_eq!(rewrite(&lines, &none), Err(TransformError::MissingLabel { line: 1 }));
}

#[test]
fn missing_label_is_found_before_missing_arguments() {
    let line = Line {
        text: "jump 3".to_string(),
        found: Some(Captured { target: Some("3".to_string()), arguments: None }),
    };
    let none = LabelMap::new();
    assert_eq!(rewrite_line(&none, 4, &line), Err(TransformError::MissingLabel { line: 4 }));
    let mut labels = LabelMap::new();
    labels.record("3".to_string());
    assert_eq!(rewrite_line(&labels, 4, &line), Err(TransformError::MalformedMatch { line: 4 }));
}

#[test]
fn discover_and_rewrite_on_given_lines() {
    let lines = vec![
        plain("foo"),
        jump("jump 2 bar", "2", "bar"),
        plain("baz"),
        plain("qux"),
    ];
    let labels = discover(&lines);
    assert_eq!(labels.len(), 1);
    assert_eq!(id(&labels, "2"), Some(0));
    assert_eq!(rewrite(&lines, &labels), Ok("foo\njump jump_0 bar\njump_0:\nbaz\nqux\n".to_string()));
}

#[test]
fn discover_skips_a_match_without_target() {
    let lines = vec![
        Line { text: "m".to_string(), found: Some(Captured { target: None, arguments: Some("a".to_string()) }) },
        jump("jump 4 b", "4", "b"),
    ];
    let labels = discover(&lines);
    assert_eq!(labels.len(), 1);
    assert_eq!(id(&labels, "4"), Some(0));
}

#[test]
fn rewrite_line_of_each_kind() {
    let mut labels = LabelMap::new();
    labels.record("10".to_string());
    labels.record("2".to_string());
    assert_eq!(rewrite_line(&labels, 0, &plain("keep me")), Ok("keep me".to_string()));
    assert_eq!(
        rewrite_line(&labels, 0, &jump("jump 2 if x", "2", "if x")),
        Ok("jump jump_1 if x".to_string())
    );
}

#[test]
fn label_map_records_each_target_once() {
    let mut labels = LabelMap::new();
    assert_eq!(labels.len(), 0);
    assert_eq!(id(&labels, "1"), None);
    assert_eq!(labels.record("1".to_string()), 0);
    assert_eq!(labels.record("8".to_string()), 1);
    assert_eq!(labels.record("1".to_string()), 0);
    assert_eq!(labels.len(), 2);
    assert_eq!(id(&labels, "8"), Some(1));
}

#[test]
fn many_labels_get_many_digits() {
    let re = jump_pattern();
    let mut input = String::new();
    for k in 0..12 {
        input.push_str(&format!("jump {} a\n", 100 + k));
    }
    input.push_str("jump 111 b\n");
    let out = transform(&input, &re).unwrap();
    assert!(out.ends_with("jump jump_10 a\njump jump_11 a\njump jump_11 b\n"));
    assert!(out.starts_with("jump jump_0 a\njump jump_1 a\n"));
}

#[test]
fn decimal_string_values() {
    assert_eq!(decimal_string(0), "0");
    assert_eq!(decimal_string(7), "7");
    assert_eq!(decimal_string(10), "10");
    assert_eq!(decimal_string(4096), "4096");
    assert_eq!(decimal_string(usize::MAX), usize::MAX.to_string());
}

#[test]
fn label_text_values() {
    assert_eq!(label_text(0), "jump_0");
    assert_eq!(label_text(12), "jump_12");
}

#[test]
fn scan_splits_lines_as_the_text_has_them() {
    let re = jump_pattern();
    let texts = |input: &str| -> Vec<String> {
        scan(input, &re).into_iter().map(|l| l.text).collect()
    };
    assert_eq!(texts(""), Vec::<String>::new());
    assert_eq!(texts("\n"), vec![""]);
    assert_eq!(texts("a"), vec!["a"]);
    assert_eq!(texts("a\n"), vec!["a"]);
    assert_eq!(texts("a\n\nb"), vec!["a", "", "b"]);
    assert_eq!(texts("a\r\nb\r\n"), vec!["a", "b"]);
    assert_eq!(texts("a\r\r\nb"), vec!["a\r", "b"]);
    assert_eq!(texts("a\rb\n"), vec!["a\rb"]);
    assert_eq!(texts("a\nb\r"), vec!["a", "b\r"]);
    assert_eq!(texts("\r\n\n"), vec!["", ""]);
}

#[test]
fn scan_finds_the_groups() {
    let re = jump_pattern();
    let lines = scan("x\njump 12 a b c\n", &re);
    assert_eq!(lines.len(), 2);
    assert!(lines[0].found.is_none());
    let found = lines[1].found.as_ref().unwrap();
    assert_eq!(lines[1].text, "jump 12 a b c");
    assert_eq!(found.target.as_deref(), Some("12"));
    assert_eq!(found.arguments.as_deref(), Some("a b c"));
}

#[test]
fn line_from_keeps_what_it_is_given() {
    let line = line_from("t".to_string(), Some((Some("1".to_string()), None)));
    assert_eq!(line.text, "t");
    let found = line.found.unwrap();
    assert_eq!(found.target, Some("1".to_string()));
    assert_eq!(found.arguments, None);
    assert!(line_from("u".to_string(), None).found.is_none());
}

#[test]
fn carriage_return_line_endings_become_line_feeds() {
    let re = jump_pattern();
    assert_eq!(
        transform("jump 1 a\r\nb\r\n", &re),
        Ok("jump jump_0 a\njump_0:\nb\n".to_string())
    );
}

#[test]
fn split_lines_agrees_with_the_lines_of_std() {
    let samples = [
        "",
        "\n",
        "\r",
        "\r\n",
        "a",
        "a\n",
        "a\nb",
        "a\n\nb\n",
        "a\r\nb\r\n",
        "a\r\r\nb",
        "a\rb\n",
        "a\nb\r",
        "\r\r",
        "\n\n\n",
        "\r\n\r\n",
        "x\r\ny\rz\n\r",
        "h\u{e9}llo\n\u{4e16}\u{754c}\r\n",
    ];
    for text in samples {
        let expected: Vec<String> = text.lines().map(|l| l.to_string()).collect();
        assert_eq!(split_lines(text), expected, "for {:?}", text);
    }
}

#[test]
fn split_lines_values() {
    assert_eq!(split_lines("one\ntwo\r\nthree"), vec!["one", "two", "three"]);
    assert_eq!(split_lines("one\r"), vec!["one\r"]);
    assert_eq!(split_lines(""), Vec::<String>::new());
}
