use diag::pos::{BytePos, ColIdx, LineIdx, Span};

#[test]
fn hull_of_span_with_itself() {
    let a = Span::new(BytePos(3), BytePos(9));
    assert_eq!(a.hull(&a), a);
}

#[test]
fn hull_is_commutative() {
    let a = Span::new(BytePos(3), BytePos(9));
    let b = Span::new(BytePos(5), BytePos(20));
    assert_eq!(a.hull(&b), b.hull(&a));
    let d = Span::dummy();
    assert_eq!(a.hull(&d), d.hull(&a));
    assert_eq!(d.hull(&d), Span::dummy());
}

#[test]
fn hull_contains_both_inputs() {
    let a = Span::new(BytePos(3), BytePos(9));
    let b = Span::new(BytePos(5), BytePos(20));
    let h = a.hull(&b);
    assert_eq!(h, Span::new(BytePos(3), BytePos(20)));
    assert!(h.contains(a));
    assert!(h.contains(b));
}

#[test]
fn dummy_span_properties() {
    let d = Span::dummy();
    assert!(d.is_dummy());
    assert_eq!(d.len(), 0);
    assert!(!d.contains(Span::new(BytePos(1), BytePos(2))));
    assert!(!d.contains(Span::dummy()));
    let a = Span::new(BytePos(4), BytePos(7));
    assert_eq!(d.hull(&a), a);
    assert_eq!(a.hull(&d), a);
}

#[test]
fn span_len_and_contains() {
    let a = Span::new(BytePos(4), BytePos(7));
    assert_eq!(a.len(), 3);
    assert!(!a.is_dummy());
    assert!(a.contains(Span::new(BytePos(4), BytePos(7))));
    assert!(a.contains(Span::new(BytePos(5), BytePos(6))));
    assert!(!a.contains(Span::new(BytePos(3), BytePos(6))));
    assert!(!a.contains(Span::new(BytePos(5), BytePos(8))));
}

#[test]
fn span_constructors() {
    let s = Span::single(BytePos(5));
    assert_eq!(s, Span::new(BytePos(5), BytePos(6)));
    assert_eq!(s.len(), 1);
    let p = Span::from_pair((BytePos(2), BytePos(8)));
    assert_eq!(p, Span::new(BytePos(2), BytePos(8)));
    let e = Span::new(BytePos(9), BytePos(9));
    assert_eq!(e.len(), 0);
    assert!(!e.is_dummy());
}

#[test]
fn index_types_default_to_zero() {
    assert_eq!(BytePos::default(), BytePos(0));
    assert_eq!(LineIdx::default(), LineIdx(0));
    assert_eq!(ColIdx::default(), ColIdx(0));
}
