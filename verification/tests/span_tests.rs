use ginto::span::{BytePos, Span, Spanned};

#[test]
fn merge_takes_min_start_and_max_end() {
    let a = Span::new(BytePos(3), BytePos(7));
    let b = Span::new(BytePos(5), BytePos(12));
    let m = a.merge(b);
    assert_eq!(m.start, BytePos(3));
    assert_eq!(m.end, BytePos(12));
    let n = b.merge(a);
    assert_eq!(n, m);
}

#[test]
fn merge_with_itself_is_identity() {
    let a = Span::new(BytePos(4), BytePos(9));
    assert_eq!(a.merge(a), a);
}

#[test]
fn merge_is_associative_on_values() {
    let a = Span::new(BytePos(0), BytePos(2));
    let b = Span::new(BytePos(5), BytePos(6));
    let c = Span::new(BytePos(1), BytePos(9));
    assert_eq!(a.merge(b).merge(c), a.merge(b.merge(c)));
}

#[test]
fn len_and_is_empty() {
    let a = Span::from_range(2..6);
    assert_eq!(a.len(), 4);
    assert!(!a.is_empty());
    let z = Span::from_range(3..3);
    assert_eq!(z.len(), 0);
    assert!(z.is_empty());
}

#[test]
fn spanned_pairs_value_and_span() {
    let s = Spanned::new(41u64, Span::new(BytePos(0), BytePos(2)));
    assert_eq!(s.inner, 41);
    assert_eq!(s.span.start.0, 0);
    assert_eq!(s.span.end.0, 2);
    let t = s.map(|x| x + 1);
    assert_eq!(t.inner, 42);
    assert_eq!(t.span, Span::new(BytePos(0), BytePos(2)));
}
