use ginto::source::{compute_line_starts, FileId, LineColumn, SourceManager};
use ginto::span::{BytePos, Span};

#[test]
fn line_starts_record_offset_zero_and_after_each_line_feed() {
    let starts = compute_line_starts("ab\ncd\ne");
    assert_eq!(starts, vec![BytePos(0), BytePos(3), BytePos(6)]);
    let empty = compute_line_starts("");
    assert_eq!(empty, vec![BytePos(0)]);
    let trailing = compute_line_starts("x\n");
    assert_eq!(trailing, vec![BytePos(0), BytePos(2)]);
}

#[test]
fn line_col_round_trip() {
    let mut sm = SourceManager::new();
    let id = sm.add_file("f".to_string(), "ab\ncd\ne".to_string());
    let file = sm.get_file(id).unwrap();
    // For each offset O with line starts L, the line i satisfies
    // L[i] <= O < L[i+1], reported 1-based.
    assert_eq!(file.line_col(BytePos(0)), LineColumn { line: 1, col: 1 });
    assert_eq!(file.line_col(BytePos(1)), LineColumn { line: 1, col: 2 });
    assert_eq!(file.line_col(BytePos(2)), LineColumn { line: 1, col: 3 });
    assert_eq!(file.line_col(BytePos(3)), LineColumn { line: 2, col: 1 });
    assert_eq!(file.line_col(BytePos(5)), LineColumn { line: 2, col: 3 });
    assert_eq!(file.line_col(BytePos(6)), LineColumn { line: 3, col: 1 });
}

#[test]
fn line_col_clamps_past_end_of_file_to_last_line() {
    let mut sm = SourceManager::new();
    let id = sm.add_file("f".to_string(), "ab\ncd".to_string());
    let file = sm.get_file(id).unwrap();
    assert_eq!(file.line_col(BytePos(40)), LineColumn { line: 2, col: 38 });
}

#[test]
fn source_returns_exact_substring_or_none() {
    let mut sm = SourceManager::new();
    let id = sm.add_file("f".to_string(), "hello\nworld".to_string());
    let file = sm.get_file(id).unwrap();
    assert_eq!(file.source(Span::new(BytePos(6), BytePos(11))), Some("world"));
    assert_eq!(file.source(Span::new(BytePos(0), BytePos(5))), Some("hello"));
    assert_eq!(file.source(Span::new(BytePos(0), BytePos(12))), None);
}

#[test]
fn file_ids_are_stable_indices() {
    let mut sm = SourceManager::new();
    let a = sm.add_file("a".to_string(), "one".to_string());
    let b = sm.add_file("b".to_string(), "two".to_string());
    assert_eq!(a, FileId(0));
    assert_eq!(b, FileId(1));
    assert_eq!(sm.get_file(a).unwrap().source, "one");
    assert_eq!(sm.get_file(b).unwrap().name, "b");
    assert!(sm.get_file(FileId(2)).is_none());
}
