use diag::pos::{BytePos, Span};
use diag::report::{Remark, RemarkKind, Report, ReportKind, Snippet};

#[test]
fn simple_error_holds_one_error_remark() {
    let span = Span::new(BytePos(3), BytePos(9));
    let r = Report::simple_error("msg".to_string(), span);
    assert_eq!(r.kind, ReportKind::Error);
    assert_eq!(r.span, span);
    assert_eq!(r.remarks.len(), 1);
    assert_eq!(r.remarks[0].kind, RemarkKind::Error);
    assert_eq!(r.remarks[0].desc, "msg");
    assert_eq!(r.remarks[0].snippet, Some(Snippet::Orig(span)));
}

#[test]
fn simple_warning_holds_one_warning_remark() {
    let span = Span::new(BytePos(0), BytePos(2));
    let r = Report::simple_warning("careful".to_string(), span);
    assert_eq!(r.kind, ReportKind::Warning);
    assert_eq!(r.span, span);
    assert_eq!(r.remarks.len(), 1);
    assert_eq!(r.remarks[0].kind, RemarkKind::Warning);
    assert_eq!(r.remarks[0].desc, "careful");
    assert_eq!(r.remarks[0].snippet, Some(Snippet::Orig(span)));
}

#[test]
fn builder_keeps_insertion_order() {
    let span = Span::new(BytePos(3), BytePos(9));
    let other = Span::new(BytePos(12), BytePos(15));
    let r = Report::simple_error("first".to_string(), span)
        .with_note("second".to_string())
        .with_span_note("third".to_string(), other)
        .with_remark(Remark::new(
            RemarkKind::Warning,
            "fourth".to_string(),
            Some(Snippet::Replace { span: other, with: "better".to_string() }),
        ));
    assert_eq!(r.remarks.len(), 4);
    assert_eq!(r.remarks[0].desc, "first");
    assert_eq!(r.remarks[1].kind, RemarkKind::Note);
    assert_eq!(r.remarks[1].desc, "second");
    assert_eq!(r.remarks[1].snippet, None);
    assert_eq!(r.remarks[2].kind, RemarkKind::Note);
    assert_eq!(r.remarks[2].snippet, Some(Snippet::Orig(other)));
    assert_eq!(r.remarks[3].kind, RemarkKind::Warning);
    assert_eq!(
        r.remarks[3].snippet,
        Some(Snippet::Replace { span: other, with: "better".to_string() })
    );
}

#[test]
fn remark_constructors_set_kinds() {
    let e = Remark::error("e".to_string(), None);
    assert_eq!(e.kind, RemarkKind::Error);
    let w = Remark::warning("w".to_string(), None);
    assert_eq!(w.kind, RemarkKind::Warning);
    let n = Remark::note("n".to_string(), Some(Snippet::Orig(Span::dummy())));
    assert_eq!(n.kind, RemarkKind::Note);
    assert_eq!(n.snippet, Some(Snippet::Orig(Span::dummy())));
}
