use diag::filemap::FileMap;
use diag::pos::{BytePos, LineIdx};

fn indexed(text: &str) -> FileMap {
    let mut fm = FileMap::new("test.txt".to_string(), text.to_string());
    fm.find_lines();
    fm
}

#[test]
fn locate_in_newline_terminated_text() {
    let fm = indexed("abc\ndef\n");
    let l0 = fm.get_loc(BytePos(0));
    assert_eq!((l0.line.0, l0.col.0), (0, 0));
    // the newline belongs to the preceding line
    let l3 = fm.get_loc(BytePos(3));
    assert_eq!((l3.line.0, l3.col.0), (0, 3));
    let l4 = fm.get_loc(BytePos(4));
    assert_eq!((l4.line.0, l4.col.0), (1, 0));
    // one past the final newline: the trailing empty line
    let l8 = fm.get_loc(BytePos(8));
    assert_eq!((l8.line.0, l8.col.0), (2, 0));
}

#[test]
fn locate_end_of_unterminated_text() {
    // length 5; the end-of-file offset resolves to a valid trailing
    // location on the last line instead of failing
    let fm = indexed("a\nb\nc");
    let l = fm.get_loc(BytePos(5));
    assert_eq!(l.line.0, 2);
    assert_eq!(l.col.0, 1);
    let l4 = fm.get_loc(BytePos(4));
    assert_eq!((l4.line.0, l4.col.0), (2, 0));
}

#[test]
fn line_text_without_terminator() {
    let fm = indexed("abc\ndef\n");
    assert_eq!(fm.get_line(LineIdx(0)), Some(b"abc".to_vec()));
    assert_eq!(fm.get_line(LineIdx(1)), Some(b"def".to_vec()));
    // the trailing empty line exists, lines past it do not
    assert_eq!(fm.get_line(LineIdx(2)), Some(b"".to_vec()));
    assert_eq!(fm.get_line(LineIdx(3)), None);
}

#[test]
fn line_text_of_unterminated_text() {
    let fm = indexed("a\nb\nc");
    assert_eq!(fm.num_lines(), 3);
    assert_eq!(fm.get_line(LineIdx(2)), Some(b"c".to_vec()));
    assert_eq!(fm.get_line(LineIdx(3)), None);
}

#[test]
fn empty_text_has_one_empty_line() {
    let fm = indexed("");
    assert_eq!(fm.num_lines(), 1);
    let l = fm.get_loc(BytePos(0));
    assert_eq!((l.line.0, l.col.0), (0, 0));
    assert_eq!(fm.get_line(LineIdx(0)), Some(b"".to_vec()));
    assert_eq!(fm.get_line(LineIdx(1)), None);
}

#[test]
fn filename_and_len_are_kept() {
    let fm = indexed("abc\n");
    assert_eq!(fm.filename(), "test.txt");
    assert_eq!(fm.len_bytes(), 4);
}

#[test]
fn indexing_check_tracks_find_lines() {
    let mut fm = FileMap::new("t.txt".to_string(), "abc\ndef".to_string());
    assert!(!fm.is_indexed_check());
    fm.find_lines();
    assert!(fm.is_indexed_check());
    // indexing again changes nothing
    fm.find_lines();
    assert!(fm.is_indexed_check());
    assert_eq!(fm.num_lines(), 2);
}
