use gameproc::title::parse_u32_token;
use gameproc::title::split_tokens;
use gameproc::title::title_from_output;
use gameproc::title::window_title_from_listing;

#[test]
fn structured_title_is_trimmed_output() {
    assert_eq!(title_from_output("  My Game  \r\n"), Some("My Game".to_string()));
    assert_eq!(title_from_output("Plain"), Some("Plain".to_string()));
}

#[test]
fn structured_title_absent_when_blank() {
    assert_eq!(title_from_output(""), None);
    assert_eq!(title_from_output("   \r\n"), None);
}

#[test]
fn listing_title_joins_the_tail_tokens() {
    let raw = "0x01 0 7 host Other App\n0x02 0 42 host My Game Title\n";
    assert_eq!(
        window_title_from_listing(42, raw),
        Some("My Game Title".to_string())
    );
}

#[test]
fn listing_title_single_spaces_between_tokens() {
    let raw = "0x02  0   42  host   Widely   Spaced\n";
    assert_eq!(window_title_from_listing(42, raw), Some("Widely Spaced".to_string()));
}

#[test]
fn listing_title_absent_for_unknown_pid() {
    let raw = "0x01 0 7 host Other App\n";
    assert_eq!(window_title_from_listing(42, raw), None);
}

#[test]
fn listing_skips_short_lines() {
    let raw = "junk\n0x01 0 42 host\n0x02 0 42 host Found It\n";
    assert_eq!(window_title_from_listing(42, raw), Some("Found It".to_string()));
}

#[test]
fn listing_skips_unparseable_pid_tokens() {
    let raw = "0x01 0 pid host Nope\n0x02 0 42 host Yes\n";
    assert_eq!(window_title_from_listing(42, raw), Some("Yes".to_string()));
}

#[test]
fn pid_token_parses_like_the_standard_library() {
    assert_eq!(parse_u32_token("42"), Some(42));
    assert_eq!(parse_u32_token("+42"), Some(42));
    assert_eq!(parse_u32_token("007"), Some(7));
    assert_eq!(parse_u32_token("4294967295"), Some(u32::MAX));
    assert_eq!(parse_u32_token("4294967296"), None);
    assert_eq!(parse_u32_token(""), None);
    assert_eq!(parse_u32_token("+"), None);
    assert_eq!(parse_u32_token("++1"), None);
    assert_eq!(parse_u32_token("4 2"), None);
    assert_eq!(parse_u32_token("-42"), None);
    assert_eq!(parse_u32_token("42x"), None);
    // The spec mirrors what the standard parse accepts.
    assert_eq!(parse_u32_token("+42"), "+42".parse::<u32>().ok());
    assert_eq!(parse_u32_token("-42"), "-42".parse::<u32>().ok());
}

#[test]
fn tokens_split_on_any_blank_run() {
    let parts = split_tokens("  a\tbb   c ");
    assert_eq!(parts, vec!["a".to_string(), "bb".to_string(), "c".to_string()]);
    let none = split_tokens("   ");
    assert!(none.is_empty());
}
