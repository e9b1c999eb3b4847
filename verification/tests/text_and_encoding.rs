use bandcomic_helper::base64::{base64_encode, chunk_text, CHUNK_SIZE};
use bandcomic_helper::network::{config_status_ok, config_url, first_source_name};
use bandcomic_helper::text::{chars_of, decimal_string, is_blank, parse_u64, parse_usize, trim_str};
use bandcomic_helper::ui::message::{detect_mime, get_status_text, progress_percent};
use bandcomic_helper::ui::state::{Progress, StatusState};

#[test]
fn base64_known_values() {
    assert_eq!(base64_encode(b"Man"), "TWFu");
    assert_eq!(base64_encode(b"Ma"), "TWE=");
    assert_eq!(base64_encode(b"M"), "TQ==");
    assert_eq!(base64_encode(b""), "");
    assert_eq!(base64_encode(&[0xff, 0xfe, 0xfd, 0x00]), "//79AA==");
}

#[test]
fn chunks_rejoin_to_text() {
    let text = String::from("abcdefg");
    let parts = chunk_text(&text, 3);
    assert_eq!(parts, vec!["abc".to_string(), "def".to_string(), "g".to_string()]);
    assert_eq!(parts.concat(), text);
    assert!(chunk_text(&String::new(), 3).is_empty());
    assert_eq!(CHUNK_SIZE, 5500);
}

#[test]
fn parse_numbers_like_str_parse() {
    assert_eq!(parse_usize(&chars_of("42")), Some(42));
    assert_eq!(parse_usize(&chars_of("+7")), Some(7));
    assert_eq!(parse_usize(&chars_of("")), None);
    assert_eq!(parse_usize(&chars_of("-1")), None);
    assert_eq!(parse_usize(&chars_of("1a")), None);
    assert_eq!(parse_u64(&chars_of("18446744073709551615")), Some(u64::MAX));
    assert_eq!(parse_u64(&chars_of("18446744073709551616")), None);
}

#[test]
fn trims_and_blanks() {
    assert_eq!(trim_str("  a b \t"), "a b");
    assert!(is_blank(" \u{3000}\n"));
    assert!(!is_blank(" x "));
    assert_eq!(decimal_string(0), "0");
    assert_eq!(decimal_string(1205), "1205");
}

#[test]
fn config_url_drops_trailing_slashes() {
    assert_eq!(config_url("https://a.example//"), "https://a.example/config");
    assert_eq!(config_url("a.example"), "a.example/config");
    assert!(config_status_ok(200));
    assert!(!config_status_ok(404));
}

#[test]
fn first_key_is_source_name() {
    let keys = vec!["alpha".to_string(), "beta".to_string()];
    assert_eq!(first_source_name(&keys), Some("alpha".to_string()));
    assert_eq!(first_source_name(&Vec::new()), None);
}

#[test]
fn status_texts_and_colours() {
    let (t, c) = get_status_text(&StatusState::Error("坏了".to_string()));
    assert_eq!(t, "错误：坏了");
    assert_eq!(c, "#ff4d4f");
    let (t, c) = get_status_text(&StatusState::Default);
    assert_eq!(t, "请输入漫画源域名和 Cookie。");
    assert_eq!(c, "#666666");
    let (t, c) = get_status_text(&StatusState::Success("好".to_string()));
    assert_eq!(t, "好");
    assert_eq!(c, "#52c41a");
    let (_, c) = get_status_text(&StatusState::Processing("…".to_string()));
    assert_eq!(c, "#1890ff");
}

#[test]
fn mime_from_extension() {
    assert_eq!(detect_mime("page.PNG"), "image/png");
    assert_eq!(detect_mime("a.tar.gif"), "image/gif");
    assert_eq!(detect_mime("x.webp"), "image/webp");
    assert_eq!(detect_mime("x.Bmp"), "image/bmp");
    assert_eq!(detect_mime("photo.jpeg"), "image/jpeg");
    assert_eq!(detect_mime("noext"), "image/jpeg");
}

#[test]
fn progress_in_percent() {
    assert_eq!(progress_percent(&Progress { done: 1, total: 3 }), 33);
    assert_eq!(progress_percent(&Progress { done: 1, total: 1 }), 100);
    assert_eq!(progress_percent(&Progress { done: 0, total: 0 }), 0);
}
