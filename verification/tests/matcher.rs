use linegrep::matcher::{ByteSet, LineMatchKind, LineTerminator, Match};

#[test]
fn match_keeps_its_bounds() {
    let m = Match::new(3, 7);
    assert_eq!(m.start(), 3);
    assert_eq!(m.end(), 7);
    assert_eq!(m.len(), 4);
    assert!(!m.is_empty());
    assert_eq!(m, Match::new(3, 7));
    assert_ne!(m, Match::new(3, 8));
}

#[test]
fn match_may_be_empty() {
    let m = Match::zero(5);
    assert_eq!((m.start(), m.end()), (5, 5));
    assert_eq!(m.len(), 0);
    assert!(m.is_empty());
    assert!(Match::new(0, 0).is_empty());
}

#[test]
fn match_with_start_and_with_end_replace_one_bound() {
    let m = Match::new(3, 7);
    let a = m.with_start(5);
    assert_eq!((a.start(), a.end()), (5, 7));
    let b = m.with_end(9);
    assert_eq!((b.start(), b.end()), (3, 9));
    let c = m.with_start(7).with_end(7);
    assert!(c.is_empty());
}

#[test]
fn match_offset_shifts_both_bounds() {
    let m = Match::new(3, 7).offset(10);
    assert_eq!((m.start(), m.end()), (13, 17));
    let same = Match::new(3, 7).offset(0);
    assert_eq!(same, Match::new(3, 7));
}

#[test]
fn match_slices_bytes() {
    let bytes = b"hello world";
    assert_eq!(Match::new(6, 11).slice(bytes), b"world");
    assert_eq!(Match::new(0, 0).slice(bytes), b"");
    assert_eq!(Match::new(0, 11).slice(bytes), bytes);
}

#[test]
fn line_terminator_of_one_byte() {
    let t = LineTerminator::byte(b'\n');
    assert!(!t.is_crlf());
    assert_eq!(t.as_byte(), b'\n');
    assert_eq!(t.as_bytes(), b"\n");
    assert_eq!(t, LineTerminator::default());
    let zero = LineTerminator::byte(0);
    assert_eq!(zero.as_byte(), 0);
    assert_eq!(zero.as_bytes(), [0u8]);
    assert_ne!(zero, t);
}

#[test]
fn line_terminator_crlf() {
    let t = LineTerminator::crlf();
    assert!(t.is_crlf());
    assert_eq!(t.as_byte(), b'\n');
    assert_eq!(t.as_bytes(), b"\r\n");
}

#[test]
fn line_terminator_is_suffix_looks_at_the_last_byte() {
    let t = LineTerminator::byte(b'\n');
    assert!(t.is_suffix(b"abc\n"));
    assert!(!t.is_suffix(b"abc"));
    assert!(!t.is_suffix(b""));
    assert!(!t.is_suffix(b"\nabc"));
    let crlf = LineTerminator::crlf();
    assert!(crlf.is_suffix(b"abc\r\n"));
    assert!(crlf.is_suffix(b"abc\n"));
    assert!(!crlf.is_suffix(b"abc\r"));
}

#[test]
fn byte_set_empty_and_full() {
    let empty = ByteSet::empty();
    let full = ByteSet::full();
    for b in 0..=255u8 {
        assert!(!empty.contains(b));
        assert!(full.contains(b));
    }
}

#[test]
fn byte_set_add_and_remove_one_byte() {
    let mut set = ByteSet::empty();
    set.add(b'a');
    set.add(0);
    set.add(255);
    set.add(64);
    set.add(b'a');
    for b in 0..=255u8 {
        assert_eq!(set.contains(b), b == b'a' || b == 0 || b == 255 || b == 64);
    }
    set.remove(b'a');
    set.remove(b'z');
    for b in 0..=255u8 {
        assert_eq!(set.contains(b), b == 0 || b == 255 || b == 64);
    }
}

#[test]
fn byte_set_add_all_and_remove_all_take_both_ends() {
    let mut set = ByteSet::empty();
    set.add_all(60, 70);
    for b in 0..=255u8 {
        assert_eq!(set.contains(b), (60..=70).contains(&b));
    }
    set.remove_all(63, 65);
    for b in 0..=255u8 {
        assert_eq!(set.contains(b), (60..=62).contains(&b) || (66..=70).contains(&b));
    }
    set.add_all(200, 255);
    assert!(set.contains(255));
    assert!(set.contains(200));
    assert!(!set.contains(199));
    set.remove_all(0, 255);
    for b in 0..=255u8 {
        assert!(!set.contains(b));
    }
}

#[test]
fn byte_set_ranges_that_are_empty_change_nothing() {
    let mut set = ByteSet::full();
    set.remove_all(9, 3);
    assert!(set.contains(5));
    let mut set = ByteSet::empty();
    set.add_all(9, 3);
    assert!(!set.contains(5));
}

#[test]
fn byte_set_clone_is_independent() {
    let mut set = ByteSet::empty();
    set.add(1);
    let copy = set.clone();
    set.add(2);
    assert!(copy.contains(1));
    assert!(!copy.contains(2));
}

#[test]
fn line_match_kind_carries_its_offset() {
    assert!(matches!(LineMatchKind::Confirmed(3), LineMatchKind::Confirmed(3)));
    assert!(matches!(LineMatchKind::Candidate(4), LineMatchKind::Candidate(4)));
}
