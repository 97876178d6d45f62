use snr9816::error::DriverError;
use snr9816::transcoder::GbkEncodedString;

#[test]
fn ascii_stands_for_itself() {
    assert_eq!(GbkEncodedString::new("hello").as_bytes(), b"hello");
    assert_eq!(GbkEncodedString::new("[v7]").as_bytes(), b"[v7]");
    assert_eq!(GbkEncodedString::new("hello").len(), 5);
}

#[test]
fn empty_text_gives_empty_encoding() {
    let encoded = GbkEncodedString::new("");
    assert_eq!(encoded.as_bytes(), b"");
    assert_eq!(encoded.len(), 0);
    assert_eq!(encoded.to_snr9816().unwrap(), vec![0xFD, 0x00, 0x02, 0x01, 0x01]);
}

#[test]
fn chinese_text_becomes_double_bytes() {
    let encoded = GbkEncodedString::new("你好");
    assert_eq!(encoded.as_bytes(), &[0xC4, 0xE3, 0xBA, 0xC3]);
    assert_ne!(encoded.as_bytes(), "你好".as_bytes());
}

#[test]
fn mixed_text_keeps_ascii_and_encodes_the_rest() {
    let encoded = GbkEncodedString::new("a你b");
    assert_eq!(encoded.as_bytes(), &[b'a', 0xC4, 0xE3, b'b']);
}

#[test]
fn transcoding_agrees_with_the_encoder() {
    for text in ["", "hello", "你好，世界", "温度25度", "[message_5]", "naïve", "😀"] {
        let (expected, _, _) = encoding_rs::GBK.encode(text);
        assert_eq!(GbkEncodedString::new(text).as_bytes(), &expected[..]);
    }
}

#[test]
fn unmappable_character_is_substituted_not_refused() {
    let encoded = GbkEncodedString::new("a😀b");
    assert_eq!(encoded.as_bytes(), b"a&#128512;b");
    assert!(encoded.to_snr9816().is_ok());
}

#[test]
fn speech_frame_of_encoded_text() {
    let frame = GbkEncodedString::new("你好").to_snr9816().unwrap();
    assert_eq!(frame, vec![0xFD, 0x00, 0x06, 0x01, 0x01, 0xC4, 0xE3, 0xBA, 0xC3]);
}

#[test]
fn encoded_text_past_the_length_field_is_refused() {
    let text = "a".repeat(65534);
    assert_eq!(GbkEncodedString::new(&text).to_snr9816(), Err(DriverError::EncodingTooLarge));
    let text = "a".repeat(65533);
    let frame = GbkEncodedString::new(&text).to_snr9816().unwrap();
    assert_eq!(&frame[..5], &[0xFD, 0xFF, 0xFF, 0x01, 0x01]);
}

#[test]
fn encoded_strings_compare_by_bytes() {
    assert_eq!(GbkEncodedString::new("你好"), GbkEncodedString::new("你好"));
    assert_ne!(GbkEncodedString::new("你好"), GbkEncodedString::new("你"));
    let copy = GbkEncodedString::new("abc").clone();
    assert_eq!(copy.as_bytes(), b"abc");
}

#[test]
fn text_of_any_real_length_is_taken() {
    let letters = "a".repeat(300_000);
    assert!(GbkEncodedString::fits_encoder(&letters));
    let encoded = GbkEncodedString::try_new(&letters).unwrap();
    assert_eq!(encoded.as_bytes(), letters.as_bytes());
    assert_eq!(encoded.len(), 300_000);

    let signs = "好".repeat(100_000);
    assert!(GbkEncodedString::fits_encoder(&signs));
    let encoded = GbkEncodedString::try_new(&signs).unwrap();
    assert_eq!(encoded.len(), 200_000);
    assert_eq!(&encoded.as_bytes()[..4], &[0xBA, 0xC3, 0xBA, 0xC3]);
    assert_eq!(GbkEncodedString::new(&signs), encoded);
}
