use dhttp::urlencode::{decode, encode, encode_base, encode_uri, is_safe, is_uri_encoded};

#[test]
fn urldecode_test() {
    let encoded = "Anno+1404.Gold+Edition.v+2.1.5010.0.(%D0%9D%D0%BE%D0%B2%D1%8B%D0%B9+%D0%94%D0%B8%D1%81%D0%BA).(2010).Repack";
    let decoded = String::from_utf8(decode(encoded)).unwrap();
    let correct = "Anno 1404.Gold Edition.v 2.1.5010.0.(Новый Диск).(2010).Repack";
    assert_eq!(&decoded, correct);
}

#[test]
fn urlencode_test() {
    let orig = "Microsoft Windows 10, version 22H2, build 19045.2846 (updated April 2023) - Оригинальные образы от Microsoft MSDN [Ru]";
    let encoded = encode(orig.as_bytes());
    let correct = "Microsoft+Windows+10%2C+version+22H2%2C+build+19045.2846+(updated+April+2023)+-+%D0%9E%D1%80%D0%B8%D0%B3%D0%B8%D0%BD%D0%B0%D0%BB%D1%8C%D0%BD%D1%8B%D0%B5+%D0%BE%D0%B1%D1%80%D0%B0%D0%B7%D1%8B+%D0%BE%D1%82+Microsoft+MSDN+%5BRu%5D";
    assert_eq!(&encoded, correct);
}

#[test]
fn round_trip_all_byte_kinds() {
    let original: Vec<u8> = vec![0, 1, 31, b' ', b'+', b'%', b'/', b'A', b'z', b'0', 127, 128, 200, 255];
    let encoded = encode(&original);
    assert_eq!(decode(&encoded), original);
}

#[test]
fn round_trip_every_single_byte() {
    for b in 0..=255u8 {
        let original = vec![b];
        assert_eq!(decode(&encode(&original)), original);
        let path_encoded = encode_base(&original, true);
        assert_eq!(decode(&path_encoded), original);
    }
}

#[test]
fn slash_differs_by_profile() {
    assert_eq!(encode_base(b"/", true), "/");
    assert_eq!(encode(b"/"), "%2F");
    assert_eq!(encode_base(b"a/b c", true), "a/b+c");
    assert_eq!(encode_base(b"a/b c", false), "a%2Fb+c");
}

#[test]
fn decode_is_lenient_on_malformed_escapes() {
    assert_eq!(decode("%"), b"%");
    assert_eq!(decode("%2"), b"%2");
    assert_eq!(decode("%zz"), b"%zz");
    assert_eq!(decode("100%+done"), b"100% done");
    assert_eq!(decode("%41"), b"A");
    assert_eq!(decode("%4a%4A"), b"JJ");
}

#[test]
fn safe_set_matches_unreserved_characters() {
    for b in b"AZaz09-_.~!'()*" {
        assert!(is_safe(*b));
    }
    for b in b" +%/\\\"<>:?#@&=$,;" {
        assert!(!is_safe(*b));
    }
}

#[test]
fn uri_encoding_check_and_reencode() {
    assert!(is_uri_encoded("https://example.com/a%20b?x=1&y=2#frag"));
    assert!(!is_uri_encoded("has space"));
    assert!(!is_uri_encoded("has\"quote"));
    let re = encode_uri(b"https://example.com/a b\"c");
    assert_eq!(re, "https://example.com/a+b%22c");
    assert!(is_uri_encoded(&re));
}
