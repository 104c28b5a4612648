use match3::url::{decode_url, encode_url, try_decode_url, url_digest};

#[test]
fn encoding() {
    let result = encode_url("www.google.com");
    assert_eq!(result, "d3d3Lmdvb2dsZS5jb20=");
}

#[test]
fn encoding_uses_the_url_safe_alphabet() {
    assert_eq!(encode_url("??>>"), "Pz8-Pg==");
    assert_eq!(encode_url("~~~"), "fn5-");
    assert_eq!(encode_url(""), "");
}

#[test]
fn decoding_gives_the_bytes_back() {
    assert_eq!(decode_url("d3d3Lmdvb2dsZS5jb20="), b"www.google.com".to_vec());
    assert_eq!(decode_url(&encode_url("a/b?c=d")), b"a/b?c=d".to_vec());
    assert_eq!(decode_url(""), Vec::<u8>::new());
}

#[test]
fn decoding_refuses_what_is_no_base64() {
    assert_eq!(try_decode_url("d3d3Lmdvb2dsZS5jb20="), Some(b"www.google.com".to_vec()));
    assert_eq!(try_decode_url("not base64!"), None);
    assert_eq!(try_decode_url("d3d3Lmdvb2dsZS5jb20"), None);
    assert_eq!(try_decode_url("Pz8+Pg=="), None);
}

#[test]
fn digest_is_sha256() {
    let digest = url_digest("abc");
    assert_eq!(
        digest,
        vec![
            0xba, 0x78, 0x16, 0xbf, 0x8f, 0x01, 0xcf, 0xea, 0x41, 0x41, 0x40, 0xde, 0x5d, 0xae,
            0x22, 0x23, 0xb0, 0x03, 0x61, 0xa3, 0x96, 0x17, 0x7a, 0x9c, 0xb4, 0x10, 0xff, 0x61,
            0xf2, 0x00, 0x15, 0xad
        ]
    );
    assert_eq!(url_digest("").len(), 32);
    assert_eq!(url_digest("")[0], 0xe3);
    assert_ne!(url_digest("a"), url_digest("b"));
}
