use cram::header_text::{header_text, next_line_span};

#[test]
fn test_read_with_trailing_nul_padding() {
    const DATA: &[u8] = b"@HD\tVN:1.6\n";

    let mut buf = DATA.to_vec();
    buf.resize(1 << 10, 0);

    let text = header_text(&buf);

    assert_eq!(text, DATA);
}

#[test]
fn header_text_keeps_every_line_before_the_padding() {
    let mut buf = b"@HD\tVN:1.6\n@SQ\tSN:sq0\tLN:8\n".to_vec();
    buf.extend_from_slice(&[0, 0, 0, b'x', b'\n']);
    assert_eq!(header_text(&buf), b"@HD\tVN:1.6\n@SQ\tSN:sq0\tLN:8\n");

    // without padding or a final line feed, the text runs to the end
    assert_eq!(header_text(b"@CO\tno end"), b"@CO\tno end");
    assert_eq!(header_text(b""), b"");
    assert_eq!(header_text(&[0, b'a']), b"");
}

#[test]
fn line_spans() {
    let src = b"ab\ncd";
    assert_eq!(next_line_span(src, 0, true), (3, true));
    assert_eq!(next_line_span(src, 3, true), (2, false));
    assert_eq!(next_line_span(src, 5, true), (0, true));
    // a NUL inside a line does not end the text
    assert_eq!(next_line_span(&[b'a', 0, b'\n'], 1, false), (2, true));
}
