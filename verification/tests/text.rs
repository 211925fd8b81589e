use mcp_guards::json::{Json, JsonNumber};
use mcp_guards::luhn::luhn_check;
use mcp_guards::native::names::{find_name, find_near_miss, is_near_miss};
use mcp_guards::pii::{recognize, recognizer, scan_all, scan_text, PiiType};
use mcp_guards::text::{
    decimal_text, hash_text, join_dotted, score_text, slice_text, text_eq, text_less,
};

fn digits(s: &str) -> Vec<u8> {
    s.bytes().map(|b| b - b'0').collect()
}

#[test]
fn luhn_accepts_valid_numbers_only() {
    assert!(luhn_check(&digits("4111111111111111")));
    assert!(luhn_check(&digits("371449635398431")));
    assert!(luhn_check(&digits("046454286")));
    assert!(luhn_check(&digits("0")));
    assert!(luhn_check(&digits("18")));
    assert!(!luhn_check(&digits("4111111111111112")));
    assert!(!luhn_check(&digits("1234567890123456")));
    assert!(!luhn_check(&digits("1")));
    assert!(!luhn_check(&vec![]));
    // What is not a digit fails the check.
    assert!(!luhn_check(&vec![10]));
    assert!(!luhn_check(&vec![0, 255]));
}

#[test]
fn credit_card_is_reported_iff_luhn_passes() {
    let cc = PiiType::CreditCard.recognizer();
    let text = "ok 4111111111111111, bad 4111111111111112, other 1234567812345670";
    let found = cc.recognize(text);
    let spans: Vec<(&str, u32)> = found.iter().map(|r| (&text[r.start..r.end], r.score)).collect();
    // The first passes and begins with the digit of an issuer; the second
    // fails the check; the third passes, but no issuer begins with 1.
    assert_eq!(spans, vec![("4111111111111111", 1000), ("1234567812345670", 300)]);
    assert_eq!(recognize(&cc, text), found);
    assert_eq!(recognizer(&cc, text), found);
    assert_eq!(cc.entity(), PiiType::CreditCard);
}

#[test]
fn entity_names() {
    let names: Vec<&str> = PiiType::all().iter().map(|t| t.entity_type()).collect();
    assert_eq!(names, vec!["EMAIL_ADDRESS", "PHONE_NUMBER", "SSN", "CREDIT_CARD", "CA_SIN", "URL"]);
}

#[test]
fn scan_text_goes_kind_by_kind() {
    let text = "see https://a.io then mail me@a.io";
    let found = scan_text(text, &[PiiType::Url, PiiType::Email]);
    let spans: Vec<(PiiType, &str)> =
        found.iter().map(|r| (r.entity_type, &text[r.start..r.end])).collect();
    assert_eq!(spans, vec![(PiiType::Url, "https://a.io"), (PiiType::Email, "me@a.io")]);
    let found = scan_text(text, &[PiiType::Email, PiiType::Url]);
    assert_eq!(found[0].entity_type, PiiType::Email);
    assert!(scan_text(text, &[]).is_empty());
    assert!(scan_text("nothing", &PiiType::all()).is_empty());
    assert_eq!(scan_all(text).len(), 2);
    assert_eq!(scan_all(text)[0].entity_type, PiiType::Email);
}

#[test]
fn offsets_are_byte_offsets() {
    let text = "\u{e9}\u{e9} a@b.org";
    let found = scan_text(text, &[PiiType::Email]);
    assert_eq!(found.len(), 1);
    assert_eq!((found[0].start, found[0].end), (5, 12));
    assert_eq!(&text[found[0].start..found[0].end], "a@b.org");
}

#[test]
fn decimal_and_score_texts() {
    assert_eq!(decimal_text(0), "0");
    assert_eq!(decimal_text(7), "7");
    assert_eq!(decimal_text(10), "10");
    assert_eq!(decimal_text(9075), "9075");
    assert_eq!(decimal_text(u64::MAX), "18446744073709551615");
    assert_eq!(score_text(0), "0.000");
    assert_eq!(score_text(50), "0.050");
    assert_eq!(score_text(300), "0.300");
    assert_eq!(score_text(1000), "1.000");
    assert_eq!(score_text(12345), "12.345");
}

#[test]
fn text_helpers() {
    assert!(text_eq("abc", "abc"));
    assert!(text_eq("", ""));
    assert!(!text_eq("abc", "abd"));
    assert!(!text_eq("abc", "ab"));
    assert!(!text_eq("\u{e9}", "e"));
    assert_eq!(join_dotted(&vec![]), "");
    assert_eq!(join_dotted(&vec!["a".to_string()]), "a");
    assert_eq!(join_dotted(&vec!["a".to_string(), "0".to_string(), "b".to_string()]), "a.0.b");
    assert_eq!(slice_text("h\u{e9}llo", 1, 3), Some("\u{e9}"));
    assert_eq!(slice_text("hello", 2, 2), Some(""));
    assert_eq!(slice_text("hello", 0, 5), Some("hello"));
    assert_eq!(slice_text("h\u{e9}llo", 1, 2), None);
    assert_eq!(slice_text("hello", 3, 2), None);
    assert_eq!(slice_text("hello", 0, 6), None);
    assert!(text_less("2024-11-05", "2025-03-26"));
    assert!(!text_less("2025-03-26", "2024-11-05"));
    assert!(!text_less("same", "same"));
    assert!(text_less("", "a"));
    assert!(!text_less("a", ""));
    assert!(text_less("ab", "abc"));
    assert!(!text_less("abc", "ab"));
}

#[test]
fn hash_is_stable_and_tells_texts_apart() {
    assert_eq!(hash_text("Description"), hash_text("Description"));
    assert_ne!(hash_text("Description 1"), hash_text("Description 2"));
    assert_ne!(hash_text(""), hash_text(" "));
}

#[test]
fn near_misses() {
    assert!(is_near_miss("github", "githab"));
    assert!(is_near_miss("github", "githu"));
    assert!(is_near_miss("github", "githubb"));
    assert!(is_near_miss("github", "ggithub"));
    assert!(is_near_miss("a", ""));
    assert!(is_near_miss("", "a"));
    assert!(!is_near_miss("github", "github"));
    assert!(!is_near_miss("", ""));
    assert!(!is_near_miss("github", "gitlab"));
    assert!(!is_near_miss("github", "githubxy"));
    assert!(!is_near_miss("abc", "acb"));
    let names = vec!["slack".to_string(), "github".to_string()];
    assert_eq!(find_name(&names, "github"), 1);
    assert_eq!(find_name(&names, "gitlab"), 2);
    assert_eq!(find_near_miss(&names, "githab"), 1);
    assert_eq!(find_near_miss(&names, "slack"), 2);
}

#[test]
fn json_accessors() {
    let doc = Json::Object(vec![
        ("a".to_string(), Json::unsigned(4)),
        ("b".to_string(), Json::Array(vec![Json::text("x"), Json::Null])),
        ("a".to_string(), Json::Bool(false)),
    ]);
    assert_eq!(doc.get("a"), Some(&Json::Number(JsonNumber::Unsigned(4))));
    assert_eq!(doc.get("a").unwrap().as_u64(), Some(4));
    assert_eq!(doc.get("missing"), None);
    assert_eq!(doc.get("b").unwrap().at(0).unwrap().as_str(), Some("x"));
    assert_eq!(doc.get("b").unwrap().at(2), None);
    assert_eq!(doc.get("b").unwrap().as_array().unwrap().len(), 2);
    assert_eq!(doc.at(0), None);
    assert_eq!(doc.as_str(), None);
    assert_eq!(Json::Null.get("a"), None);
    assert_eq!(Json::text("t").as_u64(), None);
    assert_eq!(doc.clone(), doc);
}
