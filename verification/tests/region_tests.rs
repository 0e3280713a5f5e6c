use hangar::subscription::{extract_region, is_ai_supported_region};

#[test]
fn test_extract_region_chinese_pattern() {
    assert_eq!(extract_region("香港 IPLC 01"), Some("HK".to_string()));
    assert_eq!(extract_region("狮城 01"), None);
    assert_eq!(extract_region("美国 高速"), Some("US".to_string()));
}

#[test]
fn test_extract_region_code_is_case_insensitive() {
    // the code pattern is matched against the uppercased name
    assert_eq!(extract_region("us premium"), Some("US".to_string()));
    assert_eq!(extract_region("Jp-Tokyo-01"), Some("JP".to_string()));
}

#[test]
fn test_extract_region_first_pair_wins() {
    // both the HK and US pairs match; HK stands earlier in the table
    assert_eq!(extract_region("香港 via US"), Some("HK".to_string()));
    // both US and UK codes occur; US stands earlier in the table
    assert_eq!(extract_region("US-UK-relay"), Some("US".to_string()));
}

#[test]
fn test_extract_region_same_name_same_code() {
    let name = "Random Node 42 JP";
    assert_eq!(extract_region(name), extract_region(name));
}

#[test]
fn test_extract_region_no_match() {
    assert_eq!(extract_region("proxy-007"), None);
    // "node" holds the letters of the DE code, so substring matching finds it
    assert_eq!(extract_region("plain node"), Some("DE".to_string()));
}

#[test]
fn test_is_ai_supported_region() {
    assert!(is_ai_supported_region("US"));
    assert!(is_ai_supported_region("JP"));
    assert!(!is_ai_supported_region("HK"));
    assert!(!is_ai_supported_region("RU"));
    assert!(!is_ai_supported_region("us"));
}

#[test]
fn test_text_digits() {
    assert_eq!(hangar::text::parse_u64_digits("907"), Some(907));
    assert_eq!(hangar::text::parse_u64_digits(""), None);
    assert_eq!(hangar::text::parse_u64_digits("12a"), None);
    assert_eq!(hangar::text::parse_u64_digits("99999999999999999999999"), None);
    assert_eq!(hangar::text::u64_to_dec(0), "0");
    assert_eq!(hangar::text::u64_to_dec(907), "907");
    assert_eq!(hangar::text::u64_to_dec(18446744073709551615), "18446744073709551615");
}

#[test]
fn test_text_contains_and_split() {
    assert!(hangar::text::str_contains("hello world", "lo wo"));
    assert!(!hangar::text::str_contains("hello", "world"));
    assert!(hangar::text::str_contains("hello", ""));
    let parts = hangar::text::split_char("a_b__c", '_');
    assert_eq!(parts, vec!["a", "b", "", "c"]);
    assert_eq!(hangar::text::split_char("", '_'), vec![""]);
}
