use bstr::ByteSlice;
use linegrep::matcher::{LineTerminator, Match};
use linegrep::searcher::lines;

#[test]
fn bstr_rfind_byte() {
    let line = "Hello, World!";
    let bytes = line.as_bytes();
    let idx = bytes.rfind_byte(b',').unwrap();
    println!("{idx}");
    assert_eq!(5, idx);
}

#[test]
fn preceding() {
    let bytes = b"abc\nefg\nxyz";
    let term = '\n' as u8;
    let pos1 = lines::preceding(bytes, term, 0);
    let pos2 = lines::preceding(bytes, term, 1);
    assert_eq!(pos1, 8);
    assert_eq!(pos2, 4);

    let bytes = b"abc\nxyz\n";
    let pos1 = lines::preceding(bytes, term, 0);
    assert_eq!(pos1, 4);
}

#[test]
fn preceding_runs_out_of_lines() {
    let bytes = b"abc\nefg\nxyz";
    assert_eq!(lines::preceding(bytes, b'\n', 2), 0);
    assert_eq!(lines::preceding(bytes, b'\n', 9), 0);
    assert_eq!(lines::preceding(b"", b'\n', 0), 0);
    assert_eq!(lines::preceding(b"\nabc", b'\n', 0), 1);
    assert_eq!(lines::preceding(b"\nabc", b'\n', 1), 0);
    assert_eq!(lines::preceding_by_pos(bytes, 4, b'\n', 0), 0);
    assert_eq!(lines::preceding_by_pos(bytes, 5, b'\n', 0), 4);
}

#[test]
fn locate_finds_the_line_around_an_offset() {
    let bytes = b"abc\nefg\nxyz";
    let line = lines::locate(bytes, b'\n', Match::zero(9));
    assert_eq!((line.start(), line.end()), (8, 11));
    let line = lines::locate(bytes, b'\n', Match::zero(5));
    assert_eq!((line.start(), line.end()), (4, 8));
    let line = lines::locate(bytes, b'\n', Match::new(1, 2));
    assert_eq!((line.start(), line.end()), (0, 4));
}

#[test]
fn locate_ends_at_the_next_terminator_only() {
    let bytes = b"one\ntwo\nthree\nfour\n";
    let line = lines::locate(bytes, b'\n', Match::zero(5));
    assert_eq!((line.start(), line.end()), (4, 8));
    let line = lines::locate(bytes, b'\n', Match::zero(0));
    assert_eq!((line.start(), line.end()), (0, 4));
    let line = lines::locate(bytes, b'\n', Match::zero(bytes.len()));
    assert_eq!((line.start(), line.end()), (19, 19));
}

#[test]
fn count_counts_terminators() {
    assert_eq!(lines::count(b"abc\nefg\nxyz", b'\n'), 2);
    assert_eq!(lines::count(b"", b'\n'), 0);
    assert_eq!(lines::count(b"\n\n\n", b'\n'), 3);
    assert_eq!(lines::count(b"a,b,c", b','), 2);
}

#[test]
fn without_terminator_strips_one_terminator() {
    let lf = LineTerminator::byte(b'\n');
    assert_eq!(lines::without_terminator(b"abc\n", lf), b"abc");
    assert_eq!(lines::without_terminator(b"abc\r\n", lf), b"abc\r");
    assert_eq!(lines::without_terminator(b"abc", lf), b"abc");
    assert_eq!(lines::without_terminator(b"", lf), b"");
    let crlf = LineTerminator::crlf();
    assert_eq!(lines::without_terminator(b"abc\r\n", crlf), b"abc");
    assert_eq!(lines::without_terminator(b"abc\n", crlf), b"abc");
    assert_eq!(lines::without_terminator(b"\n", crlf), b"");
}
