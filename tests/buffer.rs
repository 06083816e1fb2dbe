use cbase::{copy_str, fmt_to_buf, fmt_to_cstr, BufFmtWriter, ToCStr};

#[test]
fn copy_str_fits() {
    let mut dest = [0xAAu8; 8];
    let n = copy_str(&mut dest, b"abc");
    assert_eq!(n, 3);
    assert_eq!(&dest[..4], b"abc\0");
    assert_eq!(&dest[4..], &[0xAA; 4]);
}

#[test]
fn copy_str_truncates() {
    let mut dest = [0xAAu8; 4];
    let n = copy_str(&mut dest, b"abcdef");
    assert_eq!(n, 3);
    assert_eq!(&dest, b"abc\0");
}

#[test]
fn copy_str_capacity_one() {
    let mut dest = [0xAAu8; 1];
    let n = copy_str(&mut dest, b"abc");
    assert_eq!(n, 0);
    assert_eq!(dest, [0]);
}

#[test]
fn copy_str_empty_source() {
    let mut dest = [0xAAu8; 3];
    let n = copy_str(&mut dest, b"");
    assert_eq!(n, 0);
    assert_eq!(dest, [0, 0xAA, 0xAA]);
}

#[test]
fn fmt_below_capacity_keeps_everything() {
    let mut buf = [0xAAu8; 16];
    let n = fmt_to_buf(&mut buf, &["pid=", "42", " ok"]);
    assert_eq!(n, 9);
    assert_eq!(&buf[..10], b"pid=42 ok\0");
    assert_eq!(&buf[10..], &[0xAA; 6]);
}

#[test]
fn fmt_truncates_to_capacity_minus_one() {
    let mut buf = [0xAAu8; 5];
    let n = fmt_to_buf(&mut buf, &["hello", " ", "world"]);
    assert_eq!(n, 4);
    assert_eq!(&buf, b"hell\0");
}

#[test]
fn fmt_exact_fit_saturates() {
    let mut buf = [0xAAu8; 6];
    let n = fmt_to_buf(&mut buf, &["he", "llo"]);
    assert_eq!(n, 5);
    assert_eq!(&buf, b"hello\0");
}

#[test]
fn fmt_capacity_one_gives_empty_string() {
    let mut buf = [0xAAu8; 1];
    let n = fmt_to_buf(&mut buf, &["anything"]);
    assert_eq!(n, 0);
    assert_eq!(buf, [0]);
}

#[test]
fn fmt_no_fragments() {
    let mut buf = [0xAAu8; 3];
    let n = fmt_to_buf(&mut buf, &[]);
    assert_eq!(n, 0);
    assert_eq!(buf, [0, 0xAA, 0xAA]);
}

#[test]
fn fmt_cuts_inside_a_fragment() {
    let mut buf = [0xAAu8; 8];
    let n = fmt_to_buf(&mut buf, &["abc", "defgh", "ij"]);
    assert_eq!(n, 7);
    assert_eq!(&buf, b"abcdefg\0");
}

#[test]
fn fmt_to_cstr_ends_at_terminator() {
    let mut buf = [0xAAu8; 10];
    let s = fmt_to_cstr(&mut buf, &["a", "bc"]);
    assert_eq!(s, b"abc\0");
    let mut small = [0xAAu8; 3];
    let t = fmt_to_cstr(&mut small, &["xyz"]);
    assert_eq!(t, b"xy\0");
}

#[test]
fn writer_drops_after_full() {
    let mut buf = [0xAAu8; 4];
    let mut w = BufFmtWriter::new(&mut buf);
    assert_eq!(w.used(), 0);
    w.write_str("ab");
    assert_eq!(w.used(), 2);
    w.write_str("cd");
    assert_eq!(w.used(), 3);
    w.write_str("ef");
    assert_eq!(w.used(), 3);
    assert_eq!(&buf, b"abc\0");
}

#[test]
fn writer_new_terminates_at_once() {
    let mut buf = [0xAAu8; 3];
    let w = BufFmtWriter::new(&mut buf);
    assert_eq!(w.used(), 0);
    assert_eq!(buf, [0, 0xAA, 0xAA]);
}

#[test]
fn literal_length_and_bytes() {
    let lit = ToCStr("magisk");
    assert!(lit.has_no_nul());
    assert_eq!(lit.eval_len(), 7);
    let bytes: [u8; 7] = lit.eval_bytes();
    assert_eq!(&bytes, b"magisk\0");
}

#[test]
fn empty_literal() {
    let lit = ToCStr("");
    assert!(lit.has_no_nul());
    assert_eq!(lit.eval_len(), 1);
    let bytes: [u8; 1] = lit.eval_bytes();
    assert_eq!(bytes, [0]);
}

#[test]
fn literal_with_nul_is_rejected() {
    assert!(!ToCStr("ab\0c").has_no_nul());
    assert!(!ToCStr("\0").has_no_nul());
}
