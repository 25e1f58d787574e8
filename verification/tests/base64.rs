use duckkit::b64::{decode, decode_slice, encode_string, encoded_len, std_encode};

#[test]
fn encodes_the_known_vectors() {
    let cases: [(&str, &str); 7] = [
        ("", ""),
        ("f", "Zg=="),
        ("fo", "Zm8="),
        ("foo", "Zm9v"),
        ("foob", "Zm9vYg=="),
        ("fooba", "Zm9vYmE="),
        ("foobar", "Zm9vYmFy"),
    ];
    for (plain, text) in cases {
        assert_eq!(encode_string(plain.as_bytes()), text);
        assert_eq!(decode(text.as_bytes()), Some(plain.as_bytes().to_vec()));
        assert_eq!(encoded_len(plain.len()), text.len());
    }
}

#[test]
fn decoding_undoes_encoding() {
    for n in 0..80usize {
        let raw: Vec<u8> = (0..n).map(|i| (i * 37 + n * 11) as u8).collect();
        assert_eq!(decode(encode_string(&raw).as_bytes()), Some(raw));
    }
}

#[test]
fn decoding_takes_both_alphabets_and_blanks() {
    assert_eq!(decode(b"+/+/"), Some(vec![0xfb, 0xff, 0xbf]));
    assert_eq!(decode(b"-_-_"), Some(vec![0xfb, 0xff, 0xbf]));
    assert_eq!(decode(b" Z m\n9\r\tv= "), Some(b"foo".to_vec()));
    assert_eq!(decode(b"Zm9"), Some(b"fo".to_vec()));
    assert_eq!(decode(b"Z"), Some(vec![]));
}

#[test]
fn decoding_refuses_other_bytes() {
    assert_eq!(decode(b"Zm9*"), None);
    assert_eq!(decode(b"\xff"), None);
}

#[test]
fn a_short_buffer_is_filled_and_refused() {
    let mut out = [9u8; 2];
    assert_eq!(decode_slice(b"Zm9v", &mut out), None);
    assert_eq!(&out, b"fo");
    let mut out = [9u8; 5];
    assert_eq!(decode_slice(b"Zm9v", &mut out), Some(3));
    assert_eq!(&out, b"foo\x09\x09");
    let mut out = [9u8; 5];
    assert_eq!(decode_slice(b"Zm9v!Zm9v", &mut out), None);
    assert_eq!(&out, b"foo\x09\x09");
}

#[test]
fn encoding_leaves_the_rest_of_the_buffer() {
    let mut out = [7u8; 10];
    std_encode(b"fooba", &mut out);
    assert_eq!(&out, b"Zm9vYmE=\x07\x07");
}
