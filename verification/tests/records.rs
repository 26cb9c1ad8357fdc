use minimime::Info;

#[test]
fn test_info_creation() {
    let info = Info::new("pdf application/pdf base64").unwrap();
    assert_eq!(info.extension, "pdf");
    assert_eq!(info.content_type, "application/pdf");
    assert_eq!(info.encoding, "base64");
    assert!(info.is_binary());
}

#[test]
fn test_parse_extra_tokens_ignored() {
    let info = Info::new("pdf   application/pdf\tbase64 junk extra").unwrap();
    assert_eq!(info.extension, "pdf");
    assert_eq!(info.content_type, "application/pdf");
    assert_eq!(info.encoding, "base64");
}

#[test]
fn test_parse_short_line_absent() {
    assert!(Info::new("pdf application/pdf").is_none());
    assert!(Info::new("pdf").is_none());
    assert!(Info::new("").is_none());
    assert!(Info::new("   \t  ").is_none());
}

#[test]
fn test_binary_encodings() {
    let base64 = Info::new("a b base64").unwrap();
    assert!(base64.is_binary());
    let eight_bit = Info::new("a b 8bit").unwrap();
    assert!(eight_bit.is_binary());
    let seven_bit = Info::new("a b 7bit").unwrap();
    assert!(!seven_bit.is_binary());
    let quoted = Info::new("a b quoted-printable").unwrap();
    assert!(!quoted.is_binary());
}
