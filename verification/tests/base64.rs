use cochlea::base64::base64_encode;

/// RFC 4648 section 10 test vectors.
#[test]
fn base64_matches_rfc_vectors() {
    for (input, expected) in [
        (&b""[..], ""),
        (b"f", "Zg=="),
        (b"fo", "Zm8="),
        (b"foo", "Zm9v"),
        (b"foob", "Zm9vYg=="),
        (b"fooba", "Zm9vYmE="),
        (b"foobar", "Zm9vYmFy"),
    ] {
        assert_eq!(base64_encode(input), expected);
    }
}

#[test]
fn base64_uses_the_upper_end_of_the_alphabet() {
    assert_eq!(base64_encode(&[0xff, 0xfe, 0xfd]), "//79");
    assert_eq!(base64_encode(&[0xfb, 0xff]), "+/8=");
    assert_eq!(base64_encode(&[0x00]), "AA==");
}

#[test]
fn base64_length_is_four_per_started_group_of_three() {
    for n in 0..20usize {
        let bytes: Vec<u8> = (0..n).map(|i| (i * 37 % 256) as u8).collect();
        assert_eq!(base64_encode(&bytes).len(), 4 * ((n + 2) / 3));
    }
}

#[test]
fn base64_concatenates_over_whole_groups() {
    let a = b"abcdef";
    let b = b"gh";
    let mut joined = a.to_vec();
    joined.extend_from_slice(b);
    assert_eq!(
        base64_encode(&joined),
        format!("{}{}", base64_encode(a), base64_encode(b))
    );
}

#[test]
fn output_is_alphabet_then_padding() {
    for n in 0..12usize {
        let bytes: Vec<u8> = (0..n).map(|i| (i * 37 + 250) as u8).collect();
        let out = base64_encode(&bytes);
        let pad = (3 - n % 3) % 3;
        assert_eq!(out.len(), 4 * ((n + 2) / 3));
        let chars: Vec<char> = out.chars().collect();
        for (i, c) in chars.iter().enumerate() {
            if i + pad >= chars.len() {
                assert_eq!(*c, '=');
            } else {
                assert!(c.is_ascii_alphanumeric() || *c == '+' || *c == '/', "{out}");
            }
        }
    }
    assert_eq!(base64_encode(&[0xfb, 0xff, 0xbf]), "+/+/");
}
