use encrypty::TransformError;
use encrypty::encrypty;
use encrypty::fold_key;
use encrypty::try_transform;

#[test]
fn is_not_empty() {
    let key = String::from("my_key");
    let message = String::from("Hello, World!");
    let encrypted = encrypty(key, message);
    assert!(!encrypted.is_empty());
}

#[test]
fn encrypting() {
    let key = String::from("my_key");
    let message = String::from("Hello, World!");
    let encrypted = encrypty(key, message);
    assert_eq!(encrypted, String::from("tYPPS\u{10}\u{1c}kSNPX\u{1d}"))
}

#[test]
fn decreypting() {
    let key = String::from("my_key");
    let cipher = String::from("tYPPS\u{10}\u{1c}kSNPX\u{1d}");
    let message = encrypty(key, cipher);
    assert_eq!(message, String::from("Hello, World!"))
}

#[test]
fn output_length_matches_message_length() {
    let encrypted = encrypty(String::from("my_key"), String::from("Hello, World!"));
    assert_eq!(encrypted.chars().count(), 13);
}

#[test]
fn repeated_calls_agree() {
    let first = encrypty(String::from("my_key"), String::from("Hello, World!"));
    let second = encrypty(String::from("my_key"), String::from("Hello, World!"));
    assert_eq!(first, second);
}

#[test]
fn fold_of_my_key_is_exact() {
    // 'm' ^ 'y' ^ '_' ^ 'k' ^ 'e' ^ 'y' = 0x6D ^ 0x79 ^ 0x5F ^ 0x6B ^ 0x65 ^ 0x79
    assert_eq!(fold_key("my_key"), 0x3C);
    assert_eq!(fold_key(""), 0);
    assert_eq!(fold_key("m"), 0x6D);
}

#[test]
fn every_output_char_is_message_xor_fold() {
    let fold = fold_key("my_key");
    assert_eq!(fold, 0x3C);
    let message = "Hello, World!";
    let encrypted = encrypty(String::from("my_key"), String::from(message));
    assert_eq!('H' as u32 ^ fold, encrypted.chars().next().unwrap() as u32);
    for (m, e) in message.chars().zip(encrypted.chars()) {
        assert_eq!(m as u32 ^ fold, e as u32);
    }
}

#[test]
fn round_trip_recovers_message() {
    let once = encrypty(String::from("my_key"), String::from("Hello, World!"));
    let twice = encrypty(String::from("my_key"), once);
    assert_eq!(twice, String::from("Hello, World!"));
}

#[test]
fn empty_key_is_identity() {
    let message = String::from("Hello, World!");
    assert_eq!(encrypty(String::new(), message.clone()), message);
}

#[test]
fn empty_message_stays_empty() {
    assert_eq!(encrypty(String::from("my_key"), String::new()), String::new());
    assert_eq!(encrypty(String::new(), String::new()), String::new());
}

#[test]
fn surrogate_result_fails_with_no_output() {
    // fold("\u{D000}") = 0xD000; 0x800 ^ 0xD000 = 0xD800, a surrogate.
    let r = try_transform("\u{D000}", "\u{800}");
    assert_eq!(r, Err(TransformError::InvalidScalarValue));
}

#[test]
fn out_of_range_result_fails_with_no_output() {
    // fold("\u{100000}") = 0x100000; 0xFFFFF ^ 0x100000 = 0x1FFFFF > 0x10FFFF.
    let r = try_transform("\u{100000}", "\u{FFFFF}");
    assert_eq!(r, Err(TransformError::InvalidScalarValue));
}

#[test]
fn failure_aborts_on_first_offending_character() {
    // The first character maps to a surrogate even though the rest are fine.
    let r = try_transform("\u{D000}", "\u{800}ab");
    assert_eq!(r, Err(TransformError::InvalidScalarValue));
}

#[test]
fn try_transform_succeeds_on_valid_input() {
    let r = try_transform("my_key", "Hello, World!");
    assert_eq!(r, Ok(String::from("tYPPS\u{10}\u{1c}kSNPX\u{1d}")));
}
