use std::collections::HashMap;

use pgrep::{scan, Action, EntryKind, Event, Failure, FailureKind, Matcher, Record, Stage, Walker};

enum Node {
    File(Vec<u8>),
    Dir(Vec<String>),
    Unreadable,
    Unlistable,
    Special,
}

struct Outcome {
    results: Vec<(String, Vec<Record>)>,
    errors: Vec<Failure>,
    end: Result<(), Failure>,
}

fn failure(kind: FailureKind, detail: &str) -> Failure {
    Failure::new(kind, detail.to_string())
}

fn walk(root: &str, pattern: &str, tree: &HashMap<String, Node>) -> Outcome {
    let matcher = Matcher::compile(pattern).unwrap();
    let (mut walker, mut action) = Walker::start(root.to_string(), matcher);
    let mut results = Vec::new();
    let mut errors = Vec::new();
    loop {
        let event = match action {
            Action::Resolve(p) => {
                let kind = match tree.get(&p) {
                    None => Err(failure(FailureKind::PathNotFound, &p)),
                    Some(Node::File(_)) | Some(Node::Unreadable) => Ok(EntryKind::File),
                    Some(Node::Dir(_)) | Some(Node::Unlistable) => Ok(EntryKind::Directory),
                    Some(Node::Special) => Ok(EntryKind::Other),
                };
                Event::Resolved(p, kind)
            }
            Action::Read(p) => {
                let bytes = match tree.get(&p) {
                    Some(Node::File(b)) => Ok(b.clone()),
                    _ => Err(failure(FailureKind::ReadFailure, &p)),
                };
                Event::Read(p, bytes)
            }
            Action::List(p) => match tree.get(&p) {
                Some(Node::Dir(children)) => Event::Listed(Ok(children
                    .iter()
                    .map(|c| match c.strip_prefix('!') {
                        Some(bad) => Err(failure(FailureKind::ListFailure, bad)),
                        None => Ok(c.clone()),
                    })
                    .collect())),
                _ => Event::Listed(Err(failure(FailureKind::ListFailure, &p))),
            },
            Action::ReportResult(p, records) => {
                results.push((p, records));
                Event::Delivered
            }
            Action::ReportError(e) => {
                errors.push(e);
                Event::Delivered
            }
            Action::Finish(end) => {
                assert_eq!(walker.stage(), Stage::Finished);
                return Outcome { results, errors, end };
            }
        };
        assert!(walker.accepts(&event));
        action = walker.step(event);
    }
}

fn pairs(records: &[Record]) -> Vec<(usize, String)> {
    records.iter().map(|r| (r.line_index, r.text.clone())).collect()
}

fn scenario_tree() -> HashMap<String, Node> {
    let mut t = HashMap::new();
    t.insert("d".to_string(), Node::Dir(vec!["d/a.txt".to_string(), "d/sub".to_string()]));
    t.insert("d/a.txt".to_string(), Node::File(b"foo\nbar\nfoobar\n".to_vec()));
    t.insert("d/sub".to_string(), Node::Dir(vec!["d/sub/b.txt".to_string()]));
    t.insert("d/sub/b.txt".to_string(), Node::File(b"baz\n".to_vec()));
    t
}

#[test]
fn scan_reports_matching_lines_in_order() {
    let m = Matcher::compile("foo").unwrap();
    let r = scan(b"foo\nbar\nfoobar\n", &m);
    assert_eq!(pairs(&r), vec![(0, "foo".to_string()), (2, "foobar".to_string())]);
}

#[test]
fn walk_reports_every_file_even_without_matches() {
    let out = walk("d", "foo", &scenario_tree());
    assert!(out.end.is_ok());
    assert!(out.errors.is_empty());
    assert_eq!(out.results.len(), 2);
    assert_eq!(out.results[0].0, "d/a.txt");
    assert_eq!(pairs(&out.results[0].1), vec![(0, "foo".to_string()), (2, "foobar".to_string())]);
    assert_eq!(out.results[1].0, "d/sub/b.txt");
    assert!(out.results[1].1.is_empty());
}

#[test]
fn unbalanced_group_is_an_invalid_pattern() {
    match Matcher::compile("(") {
        Err(e) => {
            assert_eq!(e.kind, FailureKind::InvalidPattern);
            assert!(!e.detail.is_empty());
            assert!(e.describe().starts_with("invalid pattern: "));
            assert_eq!(e.detail, regex::Regex::new("(").unwrap_err().to_string());
        }
        Ok(_) => panic!("an unbalanced group compiled"),
    }
}

#[test]
fn missing_root_is_fatal() {
    let out = walk("nowhere", "foo", &scenario_tree());
    assert!(out.results.is_empty());
    assert!(out.errors.is_empty());
    assert_eq!(out.end.unwrap_err().kind, FailureKind::PathNotFound);
}

#[test]
fn invalid_utf8_scans_to_nothing() {
    let m = Matcher::compile("foo").unwrap();
    assert!(scan(b"foo\n\xff\xfe foo\n", &m).is_empty());
    let mut t = HashMap::new();
    t.insert("bin".to_string(), Node::File(vec![b'f', b'o', b'o', 0xc3, 0x28]));
    let out = walk("bin", "foo", &t);
    assert!(out.end.is_ok());
    assert_eq!(out.results.len(), 1);
    assert!(out.results[0].1.is_empty());
}

#[test]
fn one_unreadable_entry_does_not_stop_the_walk() {
    let mut t = HashMap::new();
    let names = ["r/1", "r/locked", "r/2", "r/3"];
    t.insert("r".to_string(), Node::Dir(names.iter().map(|s| s.to_string()).collect()));
    t.insert("r/1".to_string(), Node::File(b"foo\n".to_vec()));
    t.insert("r/locked".to_string(), Node::Unreadable);
    t.insert("r/2".to_string(), Node::File(b"x\n".to_vec()));
    t.insert("r/3".to_string(), Node::File(b"a foo\n".to_vec()));
    let out = walk("r", "foo", &t);
    assert!(out.end.is_ok());
    let paths: Vec<&str> = out.results.iter().map(|(p, _)| p.as_str()).collect();
    assert_eq!(paths, vec!["r/1", "r/2", "r/3"]);
    assert_eq!(out.errors.len(), 1);
    assert_eq!(out.errors[0].kind, FailureKind::ReadFailure);
    assert_eq!(out.errors[0].detail, "r/locked");
}

#[test]
fn unreadable_root_file_is_fatal() {
    let mut t = HashMap::new();
    t.insert("f".to_string(), Node::Unreadable);
    let out = walk("f", "foo", &t);
    assert!(out.results.is_empty());
    assert!(out.errors.is_empty());
    assert_eq!(out.end.unwrap_err().kind, FailureKind::ReadFailure);
}

#[test]
fn missing_entry_goes_to_the_error_sink() {
    let mut t = scenario_tree();
    t.insert("d/sub".to_string(), Node::Special);
    t.insert("d".to_string(), Node::Dir(vec!["d/gone".to_string(), "d/a.txt".to_string(), "d/sub".to_string()]));
    let out = walk("d", "bar", &t);
    assert!(out.end.is_ok());
    assert_eq!(out.errors.len(), 1);
    assert_eq!(out.errors[0].kind, FailureKind::PathNotFound);
    assert_eq!(out.results.len(), 1);
    assert_eq!(pairs(&out.results[0].1), vec![(1, "bar".to_string()), (2, "foobar".to_string())]);
}

#[test]
fn unlistable_root_is_fatal_with_nothing_reported() {
    let mut t = HashMap::new();
    t.insert("r".to_string(), Node::Unlistable);
    let out = walk("r", "foo", &t);
    assert!(out.results.is_empty());
    assert!(out.errors.is_empty());
    assert_eq!(out.end.unwrap_err().kind, FailureKind::ListFailure);
}

#[test]
fn failing_listing_entry_is_reported_and_siblings_visited() {
    let mut t = HashMap::new();
    t.insert("r".to_string(), Node::Dir(vec!["r/1".to_string(), "!r/bad".to_string(), "r/2".to_string()]));
    t.insert("r/1".to_string(), Node::File(b"foo".to_vec()));
    t.insert("r/2".to_string(), Node::File(b"no
foo".to_vec()));
    let out = walk("r", "foo", &t);
    assert!(out.end.is_ok());
    let paths: Vec<&str> = out.results.iter().map(|(p, _)| p.as_str()).collect();
    assert_eq!(paths, vec!["r/1", "r/2"]);
    assert_eq!(pairs(&out.results[1].1), vec![(1, "foo".to_string())]);
    assert_eq!(out.errors.len(), 1);
    assert_eq!(out.errors[0].kind, FailureKind::ListFailure);
    assert_eq!(out.errors[0].detail, "r/bad");
}

#[test]
fn unlistable_subdirectory_is_reported_and_siblings_visited() {
    let mut t = HashMap::new();
    t.insert("r".to_string(), Node::Dir(vec!["r/locked".to_string(), "r/1".to_string()]));
    t.insert("r/locked".to_string(), Node::Unlistable);
    t.insert("r/1".to_string(), Node::File(b"foo".to_vec()));
    let out = walk("r", "foo", &t);
    assert!(out.end.is_ok());
    assert_eq!(out.errors.len(), 1);
    assert_eq!(out.errors[0].kind, FailureKind::ListFailure);
    assert_eq!(out.results.len(), 1);
    assert_eq!(out.results[0].0, "r/1");
}

#[test]
fn stepping_by_hand_follows_the_listing() {
    let matcher = Matcher::compile("foo").unwrap();
    let (mut w, a) = Walker::start("r".to_string(), matcher);
    assert!(matches!(a, Action::Resolve(ref p) if p == "r"));
    let a = w.step(Event::Resolved("r".to_string(), Ok(EntryKind::Directory)));
    assert!(matches!(a, Action::List(ref p) if p == "r"));
    let a = w.step(Event::Listed(Ok(vec![
        Err(failure(FailureKind::ListFailure, "entry")),
        Ok("r/1".to_string()),
    ])));
    assert!(matches!(a, Action::ReportError(ref e) if e.detail == "entry"));
    let a = w.step(Event::Delivered);
    assert!(matches!(a, Action::Resolve(ref p) if p == "r/1"));
    let a = w.step(Event::Resolved("r/1".to_string(), Ok(EntryKind::File)));
    assert!(matches!(a, Action::Read(_)));
    let a = w.step(Event::Read("r/1".to_string(), Ok(b"foo".to_vec())));
    match a {
        Action::ReportResult(p, rs) => {
            assert_eq!(p, "r/1");
            assert_eq!(pairs(&rs), vec![(0, "foo".to_string())]);
        }
        _ => panic!("expected a report"),
    }
    let a = w.step(Event::Delivered);
    assert!(matches!(a, Action::Finish(Ok(()))));
}

#[test]
fn special_entries_are_skipped() {
    let mut t = HashMap::new();
    t.insert("s".to_string(), Node::Special);
    let out = walk("s", "foo", &t);
    assert!(out.end.is_ok());
    assert!(out.results.is_empty());
    assert!(out.errors.is_empty());
}

#[test]
fn walking_twice_gives_the_same_results() {
    let t = scenario_tree();
    let a = walk("d", "o", &t);
    let b = walk("d", "o", &t);
    assert_eq!(a.results.len(), b.results.len());
    for (x, y) in a.results.iter().zip(b.results.iter()) {
        assert_eq!(x.0, y.0);
        assert_eq!(pairs(&x.1), pairs(&y.1));
    }
}

#[test]
fn matching_is_repeatable() {
    let m = Matcher::compile("^f.o$").unwrap();
    assert_eq!(m.pattern(), "^f.o$");
    for line in ["foo", "afoo", "fxo", ""] {
        assert_eq!(m.matches(line), m.matches(line));
    }
    assert!(m.matches("fxo"));
    assert!(!m.matches("afoo"));
}

#[test]
fn lone_carriage_return_ends_a_line() {
    let m = Matcher::compile("^foo").unwrap();
    assert_eq!(pairs(&scan(b"bar\rfoo\n", &m)), vec![(1, "foo".to_string())]);
    let all = Matcher::compile("").unwrap();
    assert_eq!(
        pairs(&scan(b"x\r\r\ny\r", &all)),
        vec![(0, "x".to_string()), (1, String::new()), (2, "y".to_string())]
    );
}

#[test]
fn crlf_and_bare_cr_lines() {
    let m = Matcher::compile("b").unwrap();
    let r = scan(b"a\r\nb\r\n\r\nb\rc\nlast b\r", &m);
    assert_eq!(
        pairs(&r),
        vec![(1, "b".to_string()), (3, "b".to_string()), (5, "last b".to_string())]
    );
}

#[test]
fn lines_edge_cases() {
    let m = Matcher::compile("").unwrap();
    assert!(scan(b"", &m).is_empty());
    let r = scan(b"\n\nx", &m);
    assert_eq!(pairs(&r), vec![(0, String::new()), (1, String::new()), (2, "x".to_string())]);
    let r = scan(b"x\n", &m);
    assert_eq!(pairs(&r), vec![(0, "x".to_string())]);
}

#[test]
fn multibyte_text_is_sliced_at_lines() {
    let m = Matcher::compile("é").unwrap();
    let r = scan("añb\ncafé\nzz\n日本é".as_bytes(), &m);
    assert_eq!(pairs(&r), vec![(1, "café".to_string()), (3, "日本é".to_string())]);
}

#[test]
fn failure_description_carries_kind_and_detail() {
    let f = failure(FailureKind::PermissionDenied, "x/y");
    assert_eq!(f.describe(), "permission denied: x/y");
    assert_eq!(FailureKind::ReadFailure.name(), "cannot read file: ");
}

#[test]
fn scan_indices_strictly_increase_and_all_match() {
    let m = Matcher::compile("[0-9]+").unwrap();
    let content = b"a1\nb\nc22\r\n\nd\n333\ne4";
    let r = scan(content, &m);
    assert_eq!(
        pairs(&r),
        vec![(0, "a1".to_string()), (2, "c22".to_string()), (5, "333".to_string()), (6, "e4".to_string())]
    );
    for w in r.windows(2) {
        assert!(w[0].line_index < w[1].line_index);
    }
    for rec in &r {
        assert!(m.matches(&rec.text));
    }
}
