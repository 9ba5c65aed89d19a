use whois::WhoIs;

// 2025-01-02T00:00:00Z
const JAN_2_2025: i64 = 1735776000;
// 2026-03-15T00:00:00Z
const MAR_15_2026: i64 = 1773532800;

#[test]
fn registered_with_status_scenario() {
    let text = "Domain Status: clientTransferProhibited https://icann.org/epp#clientTransferProhibited\nRegistry Expiry Date: 2026-03-15T00:00:00Z\n";
    let r = WhoIs::parse("example.com", text);
    assert!(r.is_registered);
    assert_eq!(r.expiration_date, Some(MAR_15_2026));
    assert!(!r.is_under_grace_period);
    assert_eq!(r.domain, "example.com");
}

#[test]
fn no_match_scenario() {
    let r = WhoIs::parse("example.com", "No match for \"EXAMPLE.COM\"\n");
    assert!(!r.is_registered);
    assert_eq!(r.expiration_date, None);
    assert!(!r.is_under_grace_period);
    assert_eq!(r.domain, "example.com");
}

#[test]
fn format_a_rfc3339() {
    let r = WhoIs::parse("a.com", "Registry Expiry Date: 2025-01-02T00:00:00Z\n");
    assert!(r.is_registered);
    assert_eq!(r.expiration_date, Some(JAN_2_2025));
}

#[test]
fn format_b_day_month_name_year() {
    let r = WhoIs::parse("a.com", "Expiry date: 02-January-2025\n");
    assert!(r.is_registered);
    assert_eq!(r.expiration_date, Some(JAN_2_2025));
}

#[test]
fn format_c_month_name_day_year() {
    let r = WhoIs::parse("a.com", "expires: January 2 2025\n");
    assert!(r.is_registered);
    assert_eq!(r.expiration_date, Some(JAN_2_2025));
}

#[test]
fn format_d_dotted_wall_clock() {
    let r = WhoIs::parse("a.com", "Expiration date: 02.01.2025 00:00:00\n");
    assert!(r.is_registered);
    assert_eq!(r.expiration_date, Some(JAN_2_2025));
}

#[test]
fn malformed_date_is_absorbed() {
    let r = WhoIs::parse("a.com", "Registry Expiry Date: not-a-date\n");
    assert!(!r.is_registered);
    assert_eq!(r.expiration_date, None);
}

#[test]
fn malformed_date_keeps_earlier_value() {
    let text = "Registry Expiry Date: 2025-01-02T00:00:00Z\nRegistry Expiry Date: not-a-date\n";
    let r = WhoIs::parse("a.com", text);
    assert!(r.is_registered);
    assert_eq!(r.expiration_date, Some(JAN_2_2025));
}

#[test]
fn last_successful_match_wins() {
    let text = "Registry Expiry Date: 2025-01-02T00:00:00Z\nRegistry Expiry Date: 2026-03-15T00:00:00Z\n";
    let r = WhoIs::parse("a.com", text);
    assert_eq!(r.expiration_date, Some(MAR_15_2026));
}

#[test]
fn grace_period_exact_status() {
    let r = WhoIs::parse(
        "a.com",
        "Domain Status: redemptionPeriod https://icann.org/epp#redemptionPeriod\n",
    );
    assert!(r.is_under_grace_period);
    assert!(!r.is_registered);
}

#[test]
fn other_status_leaves_grace_unset() {
    let r = WhoIs::parse("a.com", "Domain Status: ok\n");
    assert!(!r.is_under_grace_period);
}

#[test]
fn grace_flag_is_never_reset() {
    let text = "Domain Status: redemptionPeriod https://icann.org/epp#redemptionPeriod\nDomain Status: ok\n";
    let r = WhoIs::parse("a.com", text);
    assert!(r.is_under_grace_period);
}

#[test]
fn terminator_domain_not_found() {
    let text = "Domain not found.\nRegistry Expiry Date: 2025-01-02T00:00:00Z\n";
    let r = WhoIs::parse("a.com", text);
    assert!(!r.is_registered);
    assert_eq!(r.expiration_date, None);
    assert!(!r.is_under_grace_period);
}

#[test]
fn terminator_domain_not_registered() {
    let r = WhoIs::parse("a.com", "Domain not registered.\n");
    assert!(!r.is_registered);
}

#[test]
fn terminator_no_entries_found() {
    let text = "% No entries found for query \"a.com\"\n";
    let r = WhoIs::parse("a.com", text);
    assert!(!r.is_registered);
    assert_eq!(r.expiration_date, None);
}

#[test]
fn lines_before_terminator_still_count() {
    let text = "Registry Expiry Date: 2025-01-02T00:00:00Z\nDomain not found.\n";
    let r = WhoIs::parse("a.com", text);
    assert!(r.is_registered);
    assert_eq!(r.expiration_date, Some(JAN_2_2025));
}

#[test]
fn parse_is_deterministic() {
    let text = "Domain Status: redemptionPeriod https://icann.org/epp#redemptionPeriod\nRegistry Expiry Date: 2025-01-02T00:00:00Z\n";
    let a = WhoIs::parse("example.com", text);
    let b = WhoIs::parse("example.com", text);
    assert_eq!(a, b);
}

#[test]
fn empty_text_yields_default() {
    let r = WhoIs::parse("a.com", "");
    assert!(!r.is_registered);
    assert_eq!(r.expiration_date, None);
    assert!(!r.is_under_grace_period);
    assert_eq!(r.domain, "a.com");
}

#[test]
fn unrecognized_lines_are_ignored() {
    let text = "Registrar: Example Registrar\nName Server: ns1.example.net\n";
    let r = WhoIs::parse("a.com", text);
    assert!(!r.is_registered);
    assert_eq!(r.expiration_date, None);
    assert!(!r.is_under_grace_period);
}

#[test]
fn several_spaces_before_value() {
    let r = WhoIs::parse("a.com", "Registry Expiry Date:    2025-01-02T00:00:00Z\n");
    assert_eq!(r.expiration_date, Some(JAN_2_2025));
}

#[test]
fn no_space_after_prefix_is_not_a_match() {
    let r = WhoIs::parse("a.com", "Registry Expiry Date:2025-01-02T00:00:00Z\n");
    assert!(!r.is_registered);
    assert_eq!(r.expiration_date, None);
}

#[test]
fn prefix_matching_is_case_sensitive() {
    let r = WhoIs::parse("a.com", "registry expiry date: 2025-01-02T00:00:00Z\n");
    assert!(!r.is_registered);
}

#[test]
fn leading_whitespace_is_trimmed() {
    let r = WhoIs::parse("a.com", "   Registry Expiry Date: 2025-01-02T00:00:00Z   \r\n");
    assert_eq!(r.expiration_date, Some(JAN_2_2025));
}

#[test]
fn month_names_ignore_ascii_case() {
    let r = WhoIs::parse("a.com", "Expiry date: 02-JANUARY-2025\n");
    assert_eq!(r.expiration_date, Some(JAN_2_2025));
}

#[test]
fn three_letter_month_names() {
    let r = WhoIs::parse("a.com", "expires: jan 2 2025\n");
    assert_eq!(r.expiration_date, Some(JAN_2_2025));
}

#[test]
fn leap_day_with_time_of_day() {
    let r = WhoIs::parse("a.com", "Expiration date: 29.02.2024 12:30:45\n");
    // 2024-02-29T12:30:45 UTC
    assert_eq!(r.expiration_date, Some(1709209845));
}

#[test]
fn leap_day_of_common_year_is_rejected() {
    let r = WhoIs::parse("a.com", "Expiration date: 29.02.2025 00:00:00\n");
    assert!(!r.is_registered);
    assert_eq!(r.expiration_date, None);
}

#[test]
fn day_out_of_month_is_rejected() {
    let r = WhoIs::parse("a.com", "Expiry date: 31-April-2025\n");
    assert!(!r.is_registered);
}

#[test]
fn positive_utc_offset_is_applied() {
    let r = WhoIs::parse("a.com", "Registry Expiry Date: 2025-01-02T05:30:00+05:30\n");
    assert_eq!(r.expiration_date, Some(JAN_2_2025));
}

#[test]
fn negative_utc_offset_is_applied() {
    let r = WhoIs::parse("a.com", "Registry Expiry Date: 2025-01-01T19:00:00-05:00\n");
    assert_eq!(r.expiration_date, Some(JAN_2_2025));
}

#[test]
fn fractional_seconds_are_truncated() {
    let r = WhoIs::parse("a.com", "Registry Expiry Date: 2025-01-02T00:00:00.123Z\n");
    assert_eq!(r.expiration_date, Some(JAN_2_2025));
}

#[test]
fn text_without_final_newline() {
    let r = WhoIs::parse("a.com", "Registry Expiry Date: 2025-01-02T00:00:00Z");
    assert_eq!(r.expiration_date, Some(JAN_2_2025));
}
