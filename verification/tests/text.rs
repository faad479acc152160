use rusty_racer::bigint::hex_to_words;
use rusty_racer::bigint::words_to_hex;
use rusty_racer::hex::parse_hex;
use rusty_racer::number::is_finite;
use rusty_racer::number::transfer_token;
use rusty_racer::path::split_path;
use rusty_racer::stack_text::parse_js_stack;
use rusty_racer::text::utf8_text;

#[test]
fn hex_words_go_there_and_back() {
    for words in [vec![], vec![0], vec![1], vec![u64::MAX], vec![0, 1], vec![5, 0, 9]] {
        let hex = words_to_hex(&words);
        let back = hex_to_words(&hex);
        let mut expected = words.clone();
        while expected.last() == Some(&0) {
            expected.pop();
        }
        let mut got = back.clone();
        while got.last() == Some(&0) {
            got.pop();
        }
        assert_eq!(got, expected, "{hex}");
    }
}

#[test]
fn hex_of_some_words() {
    assert_eq!(words_to_hex(&vec![0xff]), "ff");
    assert_eq!(words_to_hex(&vec![0, 1]), "10000000000000000");
    assert_eq!(hex_to_words("10000000000000001"), vec![1, 1]);
}

#[test]
fn hex_digits_of_a_word() {
    assert_eq!(parse_hex(b"ff", 0, 2), Some(255));
    assert_eq!(parse_hex(b"xFFx", 1, 3), Some(255));
    assert_eq!(parse_hex(b"", 0, 0), None);
    assert_eq!(parse_hex(b"1g", 0, 2), None);
    assert_eq!(parse_hex(b"10000000000000000", 0, 17), None);
}

#[test]
fn finite_numbers() {
    assert!(is_finite(0f64.to_bits()));
    assert!(is_finite(f64::MAX.to_bits()));
    assert!(!is_finite(f64::INFINITY.to_bits()));
    assert!(!is_finite(f64::NAN.to_bits()));
}

#[test]
fn tokens_are_whole_positive_numbers() {
    assert_eq!(transfer_token(Some(1f64.to_bits())), Some(1));
    assert_eq!(transfer_token(Some(7f64.to_bits())), Some(7));
    assert_eq!(transfer_token(Some(9007199254740991f64.to_bits())), Some(9007199254740991));
    assert_eq!(transfer_token(Some(9007199254740992f64.to_bits())), Some(9007199254740992));
    assert_eq!(transfer_token(Some(1.5f64.to_bits())), None);
    assert_eq!(transfer_token(Some(0f64.to_bits())), None);
    assert_eq!(transfer_token(Some(9007199254740994f64.to_bits())), None);
    assert_eq!(transfer_token(Some((-1f64).to_bits())), None);
    assert_eq!(transfer_token(Some(f64::NAN.to_bits())), None);
    assert_eq!(transfer_token(None), None);
}

#[test]
fn paths_are_split_at_dots() {
    assert_eq!(split_path("f"), vec!["f"]);
    assert_eq!(split_path("a.b.f"), vec!["a", "b", "f"]);
    assert_eq!(split_path(""), vec![""]);
    assert_eq!(split_path(".x."), vec!["", "x", ""]);
    assert_eq!(split_path("a.b.f").join("."), "a.b.f");
}

#[test]
fn stack_frames_read_like_a_ruby_backtrace() {
    let stack = "Error: boom\n    at app.js:1:7";
    assert_eq!(parse_js_stack(stack), vec!["app.js:1:7"]);
    let named = "Error: boom\n    at fn (app.js:1:25)\n    at new Thing (b.js:2:3)\n    at <anonymous>";
    assert_eq!(
        parse_js_stack(named),
        vec!["app.js:1:25:in 'fn'", "b.js:2:3:in 'new Thing'", "<anonymous>"]
    );
    assert!(parse_js_stack("Error: no frames").is_empty());
}

#[test]
fn bytes_are_text_if_they_are_utf8() {
    assert_eq!(utf8_text(b"h\xc3\xa9".to_vec()), Some("h\u{e9}".to_string()));
    assert_eq!(utf8_text(vec![0xff]), None);
}
