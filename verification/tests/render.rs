use diag::filemap::FileMap;
use diag::pos::{BytePos, Span};
use diag::print::{render, Color, PrintOptions, Seg};
use diag::report::{Remark, RemarkKind, Report, Snippet};

fn indexed(name: &str, text: &str) -> FileMap {
    let mut fm = FileMap::new(name.to_string(), text.to_string());
    fm.find_lines();
    fm
}

fn line_string(line: &Vec<Seg>) -> String {
    let mut bytes: Vec<u8> = Vec::new();
    for seg in line {
        bytes.extend_from_slice(&seg.text);
    }
    String::from_utf8(bytes).unwrap()
}

#[test]
fn underline_is_tab_compensated() {
    // "away" is underlined over exactly 4 columns even though a tab
    // precedes it on the line
    let fm = indexed("t.txt", "\tfar away.\n");
    let rep = Report::simple_error("bad word".to_string(), Span::new(BytePos(5), BytePos(9)));
    let out = render(&rep, &fm, PrintOptions::default());
    // header, message, snippet line, underline, blank, blank
    assert_eq!(out.len(), 6);
    let snippet = line_string(&out[2]);
    assert_eq!(snippet, "   1 |     far away.");
    let underline = line_string(&out[3]);
    assert_eq!(underline, "               ^^^^");
    assert_eq!(underline.matches('^').count(), 4);
    // the highlighted segment is the spanned word, tab-adjusted
    assert_eq!(out[2][2].text, b"away".to_vec());
    assert_eq!(out[2][2].style.fg, Color::Yellow);
}

#[test]
fn underline_without_tabs_has_same_width() {
    let fm = indexed("t.txt", "far away.\n");
    let rep = Report::simple_error("bad word".to_string(), Span::new(BytePos(4), BytePos(8)));
    let out = render(&rep, &fm, PrintOptions::default());
    let underline = line_string(&out[3]);
    assert_eq!(underline.matches('^').count(), 4);
    assert_eq!(underline, "           ^^^^");
}

#[test]
fn word_wrap_keeps_words_whole_and_under_budget() {
    let fm = indexed("t.txt", "x\n");
    let desc = "that's a good question. I would be terrified the whole time not \
                knowing where that train would take me. I mean: it could be a bad \
                place! I really hope I triggered a line break by now...";
    let rep = Report::simple_warning(desc.to_string(), Span::new(BytePos(0), BytePos(1)));
    let out = render(&rep, &fm, PrintOptions::default());
    // message lines sit between the header and the snippet gutter line
    let mut message_lines: Vec<String> = Vec::new();
    for line in out.iter().skip(1) {
        let s = line_string(line);
        if s.starts_with("      =====>  ") || s.starts_with("           >  ") {
            message_lines.push(s);
        }
    }
    assert!(message_lines.len() > 1, "expected the long text to wrap");
    let mut rendered_words: Vec<String> = Vec::new();
    for s in &message_lines {
        assert!(s.chars().count() <= 80, "line too wide: {:?}", s);
        // both lead-ins are 23 columns wide for a warning label, so
        // the wrapped text always starts at the same column
        let tail = &s[23..];
        for w in tail.split_whitespace() {
            rendered_words.push(w.to_string());
        }
    }
    let input_words: Vec<String> = desc.split_whitespace().map(|w| w.to_string()).collect();
    assert_eq!(rendered_words, input_words, "words must survive wrapping unbroken");
}

#[test]
fn dummy_primary_span_shows_marker_in_header() {
    let fm = indexed("dummy.txt", "no-content");
    let rep = Report::simple_error("oh noes".to_string(), Span::dummy());
    let out = render(&rep, &fm, PrintOptions::default());
    let header = line_string(&out[0]);
    assert_eq!(header, "+---- ERROR in dummy.txt : <dummy-span> ----+");
    assert_eq!(out[0][3].text, b"<dummy-span>".to_vec());
    // the remark's dummy snippet becomes a visible placeholder line
    let placeholder = line_string(&out[2]);
    assert_eq!(placeholder, "   ? | ! no snippet due to <dummy-span>, this is a bug !");
}

#[test]
fn error_then_note_blocks_with_aligned_underlines() {
    // "train" at offset 10, "triain" at offset 28
    let text = "0123456789train\n012345678901triain x\n";
    assert_eq!(&text[10..15], "train");
    assert_eq!(&text[28..34], "triain");
    let fm = indexed("train.txt", text);
    let rep = Report::simple_error(
        "unknown symbol `trian`".to_string(),
        Span::new(BytePos(28), BytePos(34)),
    )
    .with_span_note("previously defined here".to_string(), Span::new(BytePos(10), BytePos(15)));
    let out = render(&rep, &fm, PrintOptions::default());
    let header = line_string(&out[0]);
    assert_eq!(header, "+---- ERROR in train.txt : 2 ----+");
    // error block first
    assert_eq!(line_string(&out[1]), "      =====>  error: unknown symbol `trian` ");
    assert_eq!(line_string(&out[2]), "   2 | 012345678901triain x");
    assert_eq!(out[2][2].text, b"triain".to_vec());
    assert_eq!(line_string(&out[3]), "                   ^^^^^^");
    assert_eq!(line_string(&out[4]), "");
    // then the note block
    assert_eq!(line_string(&out[5]), "      =====>  note: previously defined here ");
    assert_eq!(line_string(&out[6]), "   1 | 0123456789train");
    assert_eq!(out[6][2].text, b"train".to_vec());
    assert_eq!(line_string(&out[7]), "                 ^^^^^");
    assert_eq!(line_string(&out[8]), "");
    assert_eq!(line_string(&out[9]), "");
    assert_eq!(out.len(), 10);
}

#[test]
fn replace_snippet_shows_replacement_and_its_width() {
    let fm = indexed("t.txt", "far cheese!\n");
    let span = Span::new(BytePos(4), BytePos(10));
    let rep = Report::simple_error("wrong word".to_string(), span).with_remark(Remark::note(
        "try this".to_string(),
        Some(Snippet::Replace { span, with: "away.".to_string() }),
    ));
    let out = render(&rep, &fm, PrintOptions::default());
    // second remark's snippet: line with the replacement spliced in
    assert_eq!(line_string(&out[6]), "   1 | far away.!");
    assert_eq!(out[6][2].text, b"away.".to_vec());
    assert_eq!(out[6][2].style.fg, Color::Green);
    // underline spans the replacement's width, not the original's
    let underline = line_string(&out[7]);
    assert_eq!(underline.matches('^').count(), 5);
    assert_eq!(underline, "           ^^^^^");
}

#[test]
fn multi_line_span_highlights_ends_and_prints_middle() {
    let fm = indexed("t.txt", "ab\ncd\nef\n");
    let rep = Report::simple_error("spans lines".to_string(), Span::new(BytePos(1), BytePos(7)));
    let out = render(&rep, &fm, PrintOptions::default());
    assert_eq!(line_string(&out[0]), "+---- ERROR in t.txt : 1-3 ----+");
    assert_eq!(line_string(&out[2]), "   1 | ab");
    assert_eq!(out[2][2].text, b"b".to_vec());
    assert_eq!(out[2][2].style.fg, Color::Yellow);
    // the fully enclosed line is shown verbatim, unhighlighted
    assert_eq!(line_string(&out[3]), "   2 | cd");
    assert_eq!(out[3][1].style.fg, Color::Plain);
    assert_eq!(line_string(&out[4]), "   3 | ef");
    assert_eq!(out[4][1].text, b"e".to_vec());
    assert_eq!(out[4][1].style.fg, Color::Yellow);
    // no underline after a multi-line snippet: blank, then final blank
    assert_eq!(line_string(&out[5]), "");
    assert_eq!(line_string(&out[6]), "");
    assert_eq!(out.len(), 7);
}

#[test]
fn note_without_snippet_gets_its_own_blank_line() {
    let fm = indexed("t.txt", "x\n");
    let rep = Report::simple_warning("w".to_string(), Span::new(BytePos(0), BytePos(1)))
        .with_note("just saying".to_string());
    let out = render(&rep, &fm, PrintOptions::default());
    // header, warning msg, snippet, underline, blank, note msg, blank, final blank
    assert_eq!(line_string(&out[1]), "      =====>  warning: w ");
    assert_eq!(line_string(&out[5]), "      =====>  note: just saying ");
    assert_eq!(line_string(&out[6]), "");
    assert_eq!(line_string(&out[7]), "");
    assert_eq!(out.len(), 8);
}

#[test]
fn end_of_file_span_renders() {
    // a span ending exactly at the text length must not fail
    let fm = indexed("t.txt", "a\nb\nc");
    let rep = Report::simple_error("at the end".to_string(), Span::new(BytePos(4), BytePos(5)));
    let out = render(&rep, &fm, PrintOptions::default());
    assert_eq!(line_string(&out[0]), "+---- ERROR in t.txt : 3 ----+");
    assert_eq!(line_string(&out[2]), "   3 | c");
    assert_eq!(line_string(&out[3]), "       ^");
}

#[test]
fn empty_description_still_renders_label_line() {
    let fm = indexed("t.txt", "x\n");
    let rep = Report::simple_error("".to_string(), Span::new(BytePos(0), BytePos(1)));
    let out = render(&rep, &fm, PrintOptions::default());
    assert_eq!(line_string(&out[1]), "      =====>  error: ");
}

#[test]
fn empty_span_underlines_one_caret() {
    let fm = indexed("t.txt", "abcdef\n");
    let rep = Report::simple_error("here".to_string(), Span::new(BytePos(3), BytePos(3)));
    let out = render(&rep, &fm, PrintOptions::default());
    assert_eq!(line_string(&out[2]), "   1 | abcdef");
    assert_eq!(line_string(&out[3]), "          ^");
}

#[test]
fn gutter_pads_line_numbers_to_four_columns() {
    let mut text = String::new();
    for _ in 0..999 {
        text.push_str("x\n");
    }
    text.push_str("target\n");
    let fm = indexed("big.txt", &text);
    // line index 999 displays as 1000 and fills the gutter
    let rep = Report::simple_error("found".to_string(), Span::new(BytePos(1998), BytePos(2004)));
    let out = render(&rep, &fm, PrintOptions::default());
    assert_eq!(line_string(&out[0]), "+---- ERROR in big.txt : 1000 ----+");
    assert_eq!(line_string(&out[2]), "1000 | target");
    // a one-digit line number is right-aligned in the same width
    let rep2 = Report::simple_error("first".to_string(), Span::new(BytePos(0), BytePos(1)));
    let out2 = render(&rep2, &fm, PrintOptions::default());
    assert_eq!(line_string(&out2[2]), "   1 | x");
}
