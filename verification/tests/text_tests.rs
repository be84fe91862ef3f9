use framework_service::text::{
    chars_of, decimal_millis, decimal_string, lines, parse_i32, parse_u32, parse_u8, tokens, trim,
};

fn s(v: &str) -> Vec<char> {
    v.chars().collect()
}

#[test]
fn lines_follow_str_lines() {
    let text = "a\r\nb\n\nc\r";
    let got: Vec<String> = lines(&chars_of(text)).iter().map(|l| l.iter().collect()).collect();
    let want: Vec<String> = text.lines().map(|l| l.to_string()).collect();
    assert_eq!(got, want);
    assert!(lines(&chars_of("")).is_empty());
}

#[test]
fn trim_and_tokens_follow_str() {
    let text = "\u{3000} a\tbb \u{85}ccc  ";
    let t: String = trim(&s(text)).iter().collect();
    assert_eq!(t, text.trim());
    let toks: Vec<String> = tokens(&s(text)).iter().map(|t| t.iter().collect()).collect();
    let want: Vec<String> = text.split_whitespace().map(|t| t.to_string()).collect();
    assert_eq!(toks, want);
}

#[test]
fn integer_parsing_follows_str_parse() {
    for t in ["0", "+12", "-3", "255", "256", "4294967295", "4294967296", "", "+", "-", "1a", "-2147483648", "2147483648"] {
        assert_eq!(parse_u8(&s(t)), t.parse::<u8>().ok(), "u8 {t}");
        assert_eq!(parse_u32(&s(t)), t.parse::<u32>().ok(), "u32 {t}");
        assert_eq!(parse_i32(&s(t)), t.parse::<i32>().ok(), "i32 {t}");
    }
}

#[test]
fn decimal_text() {
    assert_eq!(decimal_string(0), "0");
    assert_eq!(decimal_string(7), "7");
    assert_eq!(decimal_string(1234567890123), "1234567890123");
    assert_eq!(decimal_string(u64::MAX), u64::MAX.to_string());
}

#[test]
fn decimal_thousandths() {
    assert_eq!(decimal_millis(&s("16.591")), Some(16591));
    assert_eq!(decimal_millis(&s("1.")), Some(1000));
    assert_eq!(decimal_millis(&s(".5")), Some(500));
    assert_eq!(decimal_millis(&s("0.0009")), Some(0));
    assert_eq!(decimal_millis(&s(".")), None);
    assert_eq!(decimal_millis(&s("1.2.3")), None);
    assert_eq!(decimal_millis(&s("99999999999")), Some(u32::MAX));
}
