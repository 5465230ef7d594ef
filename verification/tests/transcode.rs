use bcp_exorcist::batch::{exorcize_csv_batch, handle_closing};
use bcp_exorcist::options::{unwrap_byte, TmpOptions};
use bcp_exorcist::stream::Transcoder;

/// Drives a whole run the way the stream driver does: feed the input in
/// chunks of `chunk_size` bytes, writing what each call hands back, then
/// finish.
fn run(input: &[u8], chunk_size: usize, sep: u8, eol: u8) -> Vec<u8> {
    let mut t = Transcoder::new(input.len() as u64, sep, eol);
    let mut out: Vec<u8> = Vec::new();
    let mut i = 0;
    while i < input.len() {
        let end = (i + chunk_size).min(input.len());
        let w = t.feed_chunk(&input[i..end]);
        out.extend_from_slice(&w);
        i = end;
    }
    let last = t.finish();
    out.extend_from_slice(&last);
    out
}

fn run_default(input: &[u8], chunk_size: usize) -> Vec<u8> {
    run(input, chunk_size, 0x1E, 0x1D)
}

#[test]
fn test_default_tmp_options() {
    let opts = TmpOptions::default();
    assert_eq!(opts.sep, b'\x1E');
    assert_eq!(opts.eol, b'\x1D');
}

#[test]
fn test_exorcize_csv_empty_input() {
    let mut t = Transcoder::new(0, 0x1E, 0x1D);
    let last = t.finish();
    assert!(last.is_empty());
}

#[test]
fn test_exorcize_csv_basic() {
    let input = b"field1\x1Efield2\x1Dfield3";
    let result = run_default(input, 1024);
    assert_eq!(result, b"\"field1\",\"field2\"\n\"field3\"");
}

#[test]
fn test_exorcize_csv_with_escape_characters() {
    let input = b"field1\\\x1Efield2\\\x1Dfield3";
    let result = run_default(input, 1024);
    assert_eq!(result, b"\"field1\\\\\",\"field2\\\\\"\n\"field3\"");
}

#[test]
fn test_exorcize_csv_batch() {
    let cases: Vec<(&[u8], &[u8])> = vec![
        (
            b"field1\x1Efield2\x1Efield3\x1D",
            b"field1\",\"field2\",\"field3\"\n\"",
        ),
        (
            b"field1\x1Dfield2\x1Dfield3\x1D",
            b"field1\"\n\"field2\"\n\"field3\"\n\"",
        ),
        (
            b"\"\"field\",\"field\",field\"\x1Efield3\x1D",
            b"\\\"\\\"field\\\",\\\"field\\\",field\\\"\",\"field3\"\n\"",
        ),
        (b"\x1E\x1E\x1D", b"\",\"\",\"\"\n\""),
        (b"\\\x1E\\\x1E\\\x1D", b"\\\\\",\"\\\\\",\"\\\\\"\n\""),
        (b"\0\x1E\0\x1E\0\x1D", b"\0\",\"\0\",\"\0\"\n\""),
    ];
    for (haystack, expected) in cases {
        let mut buf: Vec<u8> = Vec::new();
        exorcize_csv_batch(haystack, &mut buf, b'\x1E', b'\x1D');
        assert_eq!(buf, expected);
    }
}

#[test]
fn test_handle_closing() {
    let cases: Vec<(&[u8], &[u8])> = vec![
        (b"field1\",\"field2\"", b"field1\",\"field2\""),
        (b"field1\",\"field2\"\n", b"field1\",\"field2\"\n"),
        (b"field1\",\"field2\"\n\"", b"field1\",\"field2\"\n"),
        (b"field1\",\"field2", b"field1\",\"field2\""),
    ];
    for (input, expected) in cases {
        let mut buf = input.to_vec();
        handle_closing(&mut buf);
        assert_eq!(buf, expected);
    }
}

#[test]
fn plain_bytes_only_gain_surrounding_quotes() {
    let input = b"hello world, nothing special";
    let mut expected: Vec<u8> = Vec::new();
    expected.push(b'"');
    expected.extend_from_slice(input);
    expected.push(b'"');
    assert_eq!(run_default(input, 1024), expected);
}

#[test]
fn zero_length_input_gives_empty_output() {
    let mut t = Transcoder::new(0, 0x1E, 0x1D);
    let last = t.finish();
    assert_eq!(last, Vec::<u8>::new());
}

#[test]
fn chunk_size_does_not_change_output() {
    let input = b"alpha\x1Ebeta\x1Dgamma\"delta\x1Eepsilon";
    let whole = run_default(input, 1024);
    for chunk_size in [2usize, 3, 5, 7, 11, 16] {
        assert_eq!(run_default(input, chunk_size), whole);
    }
}

#[test]
fn closing_normalization_is_idempotent() {
    let cases: Vec<&[u8]> = vec![
        b"",
        b"\"",
        b"abc",
        b"abc\n",
        b"abc\n\"",
        b"abc\"",
        b"\n\"",
    ];
    for input in cases {
        let mut once = input.to_vec();
        handle_closing(&mut once);
        let mut twice = once.clone();
        handle_closing(&mut twice);
        assert_eq!(twice, once);
    }
}

#[test]
fn separators_and_terminator_scenario() {
    let result = run_default(b"field1\x1Efield2\x1Dfield3", 4);
    assert_eq!(result, b"\"field1\",\"field2\"\n\"field3\"");
}

#[test]
fn embedded_quote_is_escaped() {
    let result = run_default(b"a\"b\x1Ec", 1024);
    assert_eq!(result, b"\"a\\\"b\",\"c\"");
}

#[test]
fn adjacent_terminators_make_empty_record() {
    let result = run_default(b"a\x1D\x1Db", 1024);
    assert_eq!(result, b"\"a\"\n\"\"\n\"b\"");
}

#[test]
fn backslash_before_separator_is_doubled() {
    let result = run_default(b"a\\\x1Eb", 1024);
    assert_eq!(result, b"\"a\\\\\",\"b\"");
}

#[test]
fn custom_delimiters_are_honoured() {
    let result = run(b"x;y|z", 1024, b';', b'|');
    assert_eq!(result, b"\"x\",\"y\"\n\"z\"");
}

#[test]
fn unwrap_byte_defaults_and_errors() {
    assert_eq!(unwrap_byte(None, 0x1E), Ok(0x1E));
    assert_eq!(unwrap_byte(Some(&b""[..]), 0x1E), Ok(0x1E));
    assert_eq!(unwrap_byte(Some(&b";"[..]), 0x1E), Ok(b';'));
    let err = unwrap_byte(Some(&b";;"[..]), 0x1E).unwrap_err();
    assert_eq!(err.len, 2);
}
