use oryxis_terminal::detect::detect_highlights;
use oryxis_terminal::highlight::{
    highlight_color_at, hovered_url_range, is_privacy_cell, HighlightColor, HighlightKind, PrivacyClasses, ScanRow,
};
use oryxis_terminal::ipv6::ipv6_is_local;
use oryxis_terminal::osc8::{osc8_scheme, osc8_scheme_allowed};
use oryxis_terminal::privacy::{privacy_extents, privacy_span_at, privacy_spans_with_text};
use oryxis_terminal::scan::{ipv4_is_private_or_loopback, looks_like_ipv6, scan_quad_dot_candidates};

fn rows_from(s: &str) -> Vec<ScanRow> {
    vec![scan_row(0, s, None)]
}

fn scan_row(row: u16, s: &str, wraps_at: Option<u16>) -> ScanRow {
    ScanRow {
        row,
        cols: s.chars().enumerate().filter(|(_, c)| *c != ' ').map(|(i, c)| (i as u16, c)).collect(),
        wraps_at,
    }
}

/// Characters `a..=b` of `s` (columns are characters in the row model).
fn cols_text(s: &str, a: usize, b: usize) -> String {
    s.chars().skip(a).take(b + 1 - a).collect()
}

fn user_dir_spans(s: &str, privacy: bool) -> Vec<(usize, usize)> {
    let rows = rows_from(s);
    detect_highlights(&rows, privacy, &[], PrivacyClasses::default())
        .into_iter()
        .filter(|h| h.kind == HighlightKind::UserDir)
        .map(|h| (h.start_col as usize, h.end_col as usize))
        .collect()
}

fn masked_text(s: &str, spans: &[(usize, usize)]) -> Vec<String> {
    spans.iter().map(|&(a, b)| cols_text(s, a, b)).collect()
}

fn ip_spans(s: &str) -> Vec<(usize, usize)> {
    let rows = rows_from(s);
    detect_highlights(&rows, false, &[], PrivacyClasses::default())
        .into_iter()
        .filter(|h| h.kind == HighlightKind::Ip)
        .map(|h| (h.start_col as usize, h.end_col as usize))
        .collect()
}

fn ip_texts(s: &str) -> Vec<String> {
    ip_spans(s).into_iter().map(|(a, b)| cols_text(s, a, b)).collect()
}

fn term_spans(s: &str, terms: &[&str]) -> Vec<String> {
    let rows = rows_from(s);
    let terms: Vec<String> = terms.iter().map(|t| t.to_string()).collect();
    detect_highlights(&rows, true, &terms, PrivacyClasses::default())
        .into_iter()
        .filter(|h| h.kind == HighlightKind::KnownHost)
        .map(|h| cols_text(s, h.start_col as usize, h.end_col as usize))
        .collect()
}

fn version_quad_texts(s: &str, terms: &[&str]) -> Vec<String> {
    let rows = rows_from(s);
    let terms: Vec<String> = terms.iter().map(|t| t.to_string()).collect();
    detect_highlights(&rows, true, &terms, PrivacyClasses::default())
        .into_iter()
        .filter(|h| h.kind == HighlightKind::VersionQuad)
        .map(|h| cols_text(s, h.start_col as usize, h.end_col as usize))
        .collect()
}

fn masked_ip_texts(s: &str, terms: &[&str]) -> Vec<String> {
    let rows = rows_from(s);
    let terms: Vec<String> = terms.iter().map(|t| t.to_string()).collect();
    detect_highlights(&rows, true, &terms, PrivacyClasses::default())
        .into_iter()
        .filter(|h| h.kind == HighlightKind::Ip)
        .map(|h| cols_text(s, h.start_col as usize, h.end_col as usize))
        .collect()
}

fn url_spans(rows: &[ScanRow]) -> Vec<(u16, u16, u16)> {
    detect_highlights(rows, false, &[], PrivacyClasses::default())
        .into_iter()
        .filter(|h| h.kind == HighlightKind::Url)
        .map(|h| (h.row, h.start_col, h.end_col))
        .collect()
}

#[test]
fn ipv6_local_classification_uses_real_ranges() {
    assert!(ipv6_is_local("::1"));
    assert!(ipv6_is_local("0:0:0:0:0:0:0:1"));
    assert!(ipv6_is_local("fe80::1"));
    assert!(ipv6_is_local("febf::abcd"));
    assert!(ipv6_is_local("fc00::1"));
    assert!(ipv6_is_local("fd12:3456::1"));
    assert!(ipv6_is_local("[fe80::1]"));
    assert!(ipv6_is_local("fe80::1%eth0"));
    assert!(!ipv6_is_local("fe8::1"));
    assert!(!ipv6_is_local("fc::1"));
    assert!(!ipv6_is_local("fec0::1"));
    assert!(!ipv6_is_local("2001:db8::1"));
    assert!(!ipv6_is_local("::ffff:8.8.8.8"));
    assert!(!ipv6_is_local("not-an-address"));
}

#[test]
fn windows_prompt_masks_username_only() {
    let s = r"PS C:\Users\koobs> winget upgrade";
    let spans = user_dir_spans(s, true);
    assert_eq!(masked_text(s, &spans), vec!["koobs"]);
}

#[test]
fn windows_deep_path_masks_username_only() {
    let s = r"C:\Users\koobs\AppData\Local\Oryxis";
    let spans = user_dir_spans(s, true);
    assert_eq!(masked_text(s, &spans), vec!["koobs"]);
}

#[test]
fn windows_marker_is_case_insensitive() {
    let s = r"c:\users\bob>";
    let spans = user_dir_spans(s, true);
    assert_eq!(masked_text(s, &spans), vec!["bob"]);
}

#[test]
fn linux_home_masks_username_only() {
    let s = "drwxr-xr-x /home/wilson/dev";
    let spans = user_dir_spans(s, true);
    assert_eq!(masked_text(s, &spans), vec!["wilson"]);
}

#[test]
fn macos_users_masks_username_only() {
    let s = "/Users/wilson/Library/Logs";
    let spans = user_dir_spans(s, true);
    assert_eq!(masked_text(s, &spans), vec!["wilson"]);
}

#[test]
fn user_dir_requires_privacy_mode() {
    let s = r"PS C:\Users\koobs>";
    assert!(user_dir_spans(s, false).is_empty());
}

#[test]
fn url_paths_are_not_user_dirs() {
    let s = "GET https://cdn.example.com/users/42/avatar.png";
    assert!(user_dir_spans(s, true).is_empty());
}

#[test]
fn user_dir_cells_are_privacy_cells() {
    let s = r"PS C:\Users\koobs> ";
    let rows = rows_from(s);
    let hs = detect_highlights(&rows, true, &[], PrivacyClasses::default());
    let name_start = s.find("koobs").unwrap() as u16;
    for col in name_start..name_start + 5 {
        assert!(is_privacy_cell(&hs, 0, col), "col {col} should be masked");
    }
    assert!(!is_privacy_cell(&hs, 0, name_start - 1));
    assert!(!is_privacy_cell(&hs, 0, name_start + 5));
    assert_eq!(privacy_span_at(&hs, 0, name_start), Some((0, name_start, name_start + 4)));
}

#[test]
fn user_dir_is_never_a_syntax_color() {
    let s = r"cd C:\Users\koobs";
    let rows = rows_from(s);
    let hs = detect_highlights(&rows, true, &[], PrivacyClasses::default());
    let name_start = s.find("koobs").unwrap() as u16;
    assert_eq!(highlight_color_at(&hs, 0, name_start), None);
}

#[test]
fn an_ip_inside_a_url_is_masked_under_privacy() {
    let s = "see https://8.8.8.8/admin now";
    let rows = rows_from(s);
    let hs = detect_highlights(&rows, true, &[], PrivacyClasses::default());
    let ip_at = s.find("8.8.8.8").unwrap() as u16;
    let ip_len = "8.8.8.8".len() as u16;
    for col in ip_at..ip_at + ip_len {
        assert!(is_privacy_cell(&hs, 0, col), "col {col} in the URL host should mask");
    }
    assert!(!is_privacy_cell(&hs, 0, ip_at - 1));
    assert!(!is_privacy_cell(&hs, 0, ip_at + ip_len));
    assert!(ip_spans(s).is_empty());
}

#[test]
fn multibyte_prefix_keeps_ip_mask_on_its_cells() {
    let s = "网速 8.8.8.8 ok";
    let rows = rows_from(s);
    let hs = detect_highlights(&rows, true, &[], PrivacyClasses::default());
    let ip_cols: Vec<(u16, u16, u16)> = privacy_extents(&hs);
    assert_eq!(ip_cols, vec![(0, 3, 9)]);
    assert!(is_privacy_cell(&hs, 0, 3));
    assert!(is_privacy_cell(&hs, 0, 9));
    assert!(!is_privacy_cell(&hs, 0, 2));
    assert!(!is_privacy_cell(&hs, 0, 10));
    let texts = privacy_spans_with_text(&hs, &rows);
    assert_eq!(texts[0].1, "8.8.8.8");
}

#[test]
fn multibyte_prefix_keeps_url_span_on_its_cells() {
    let s = "ü http://ex.com x";
    let rows = rows_from(s);
    let hs = detect_highlights(&rows, false, &[], PrivacyClasses::default());
    let url: Vec<(u16, u16)> =
        hs.iter().filter(|h| h.kind == HighlightKind::Url).map(|h| (h.start_col, h.end_col)).collect();
    assert_eq!(url, vec![(2, 14)]);
}

#[test]
fn ipv6_full_form_detected() {
    assert_eq!(
        ip_texts("addr 2001:0db8:85a3:0000:0000:8a2e:0370:7334 up"),
        vec!["2001:0db8:85a3:0000:0000:8a2e:0370:7334"]
    );
}

#[test]
fn ipv6_compressed_forms_detected() {
    assert_eq!(ip_texts("ping ::1 ok"), vec!["::1"]);
    assert_eq!(ip_texts("via 2001:db8::1 dev"), vec!["2001:db8::1"]);
    assert_eq!(ip_texts("prefix 2001:db8:: len"), vec!["2001:db8::"]);
    assert_eq!(ip_texts("inet6 fe80::215:5dff:fe10:a3b1 scope"), vec!["fe80::215:5dff:fe10:a3b1"]);
}

#[test]
fn ipv6_bracketed_leaves_port_visible() {
    assert_eq!(ip_texts("connect [2001:db8::1]:8080"), vec!["2001:db8::1"]);
}

#[test]
fn ipv6_trailing_prose_colon_is_trimmed() {
    assert_eq!(ip_texts("gateway 2001:db8::1: unreachable"), vec!["2001:db8::1"]);
}

#[test]
fn timestamps_and_macs_are_not_ipv6() {
    assert!(ip_texts("12:34:56 log line").is_empty());
    assert!(ip_texts("mac aa:bb:cc:dd:ee:ff up").is_empty());
}

#[test]
fn rust_paths_are_not_ipv6() {
    assert!(ip_texts("use std::io and Vec::new()").is_empty());
    assert!(ip_texts("err at core::fmt::Debug").is_empty());
}

#[test]
fn ipv6_with_embedded_ipv4_is_fully_covered() {
    let s = "nat ::ffff:192.0.2.1 ok";
    let spans = ip_spans(s);
    let addr_start = s.find("::ffff").unwrap();
    let addr_end = s.find(" ok").unwrap() - 1;
    for col in addr_start..=addr_end {
        assert!(spans.iter().any(|&(a, b)| col >= a && col <= b), "col {col} ({}) uncovered", &s[col..=col]);
    }
}

#[test]
fn looks_like_ipv6_validator_edges() {
    assert!(looks_like_ipv6("::1"));
    assert!(looks_like_ipv6("2001:db8::"));
    assert!(looks_like_ipv6("1:2:3:4:5:6:7:8"));
    assert!(!looks_like_ipv6("12:34:56"));
    assert!(!looks_like_ipv6("1:2:3:4:5:6:7:8:9"));
    assert!(!looks_like_ipv6("12345::1"));
    assert!(!looks_like_ipv6("1::2::3"));
    assert!(!looks_like_ipv6(":::"));
    assert!(!looks_like_ipv6(":1:2:3"));
    assert!(!looks_like_ipv6("1:2:3:"));
    assert!(!looks_like_ipv6("::"));
    assert!(!looks_like_ipv6("g::1"));
}

#[test]
fn known_host_terms_masked_case_insensitively() {
    assert_eq!(term_spans("ping WEB01.prod.internal ok", &["web01.prod.internal"]), vec!["WEB01.prod.internal"]);
}

#[test]
fn known_host_terms_are_token_bounded() {
    assert_eq!(term_spans("host web01 and web01-backup", &["web01"]), vec!["web01"]);
}

#[test]
fn known_host_terms_require_privacy_mode() {
    let rows = rows_from("ping web01 ok");
    let terms = vec!["web01".to_string()];
    let hs = detect_highlights(&rows, false, &terms, PrivacyClasses::default());
    assert!(hs.iter().all(|h| h.kind != HighlightKind::KnownHost));
}

#[test]
fn overlapping_privacy_spans_merge_into_one_extent() {
    let s = "[wilson@web01 ~]$ ";
    let rows = rows_from(s);
    let terms = vec!["web01".to_string()];
    let hs = detect_highlights(&rows, true, &terms, PrivacyClasses::default());
    assert!(hs.iter().any(|h| h.kind == HighlightKind::HostUser));
    assert!(hs.iter().any(|h| h.kind == HighlightKind::KnownHost));
    let start = s.find("wilson@web01").unwrap() as u16;
    let end = start + "wilson@web01".len() as u16 - 1;
    assert_eq!(privacy_extents(&hs), vec![(0, start, end)]);
    for col in start..=end {
        assert_eq!(privacy_span_at(&hs, 0, col), Some((0, start, end)));
    }
    let texts = privacy_spans_with_text(&hs, &rows);
    assert_eq!(texts, vec![((0, start, end), "wilson@web01".to_string())]);
}

#[test]
fn separate_privacy_spans_stay_separate() {
    let s = "8.8.8.8 9.9.9.9";
    let rows = rows_from(s);
    let hs = detect_highlights(&rows, true, &[], PrivacyClasses::default());
    assert_eq!(privacy_extents(&hs), vec![(0, 0, 6), (0, 8, 14)]);
}

#[test]
fn unmarked_quad_table_masks_in_privacy() {
    let s = "Python 3  Python.3  3.9.0.2  3.13.0  winget";
    assert_eq!(masked_ip_texts(s, &[]), vec!["3.9.0.2"]);
    assert!(version_quad_texts(s, &[]).is_empty());
    let s2 = "Visual Studio Code  1.96.0.0  1.96.0.1";
    assert_eq!(masked_ip_texts(s2, &[]), vec!["1.96.0.0", "1.96.0.1"]);
}

#[test]
fn version_marked_quads_mask_like_any_address() {
    assert_eq!(masked_ip_texts("pandoc version 3.9.0.2 installed", &[]), vec!["3.9.0.2"]);
    assert_eq!(masked_ip_texts("agent curl/8.4.0.1 sent", &[]), vec!["8.4.0.1"]);
    assert_eq!(masked_ip_texts("ver 1.2.3.4", &[]), vec!["1.2.3.4"]);
    assert_eq!(masked_ip_texts("version 203.0.113.7", &[]), vec!["203.0.113.7"]);
    assert!(version_quad_texts("ver 1.2.3.4", &[]).is_empty());
    assert_eq!(masked_ip_texts("rustc 1.96.0.0 available", &[]), vec!["1.96.0.0"]);
}

#[test]
fn sibling_ip_not_unmasked_by_a_row_version() {
    assert_eq!(masked_ip_texts("app 5.6.7 listening on 8.8.8.8", &[]), vec!["8.8.8.8"]);
    assert_eq!(
        masked_ip_texts("default via 203.0.113.1 dev eth0 src 203.0.113.55", &[]),
        vec!["203.0.113.1", "203.0.113.55"]
    );
}

#[test]
fn oversized_octet_never_matched() {
    let s = "Microsoft Edge 122.0.2365.106 here";
    assert!(masked_ip_texts(s, &[]).is_empty());
    assert!(version_quad_texts(s, &[]).is_empty());
}

#[test]
fn real_ips_still_masked() {
    assert_eq!(masked_ip_texts("ping 8.8.8.8", &[]), vec!["8.8.8.8"]);
    assert_eq!(masked_ip_texts("ssh 203.0.113.7", &[]), vec!["203.0.113.7"]);
    assert_eq!(masked_ip_texts("update available at 192.168.1.10", &[]), vec!["192.168.1.10"]);
    assert_eq!(masked_ip_texts("upgrade via 10.0.0.1 now", &[]), vec!["10.0.0.1"]);
}

#[test]
fn repeated_address_is_not_a_version_table() {
    assert_eq!(
        masked_ip_texts("PING 8.8.8.8 (8.8.8.8) 56(84) bytes of data.", &[]),
        vec!["8.8.8.8", "8.8.8.8"]
    );
}

#[test]
fn vault_hostname_quad_dot_always_masked() {
    assert_eq!(masked_ip_texts("installed 3.9.0.2 available", &["3.9.0.2"]), vec!["3.9.0.2"]);
    assert!(version_quad_texts("installed 3.9.0.2 available", &["3.9.0.2"]).is_empty());
}

#[test]
fn class_off_quads_keep_the_keyword_color_and_skip_privacy() {
    let s = "ping 203.0.113.7 ok";
    let rows = rows_from(s);
    let classes = PrivacyClasses { public_ips: false, ..PrivacyClasses::default() };
    let hs = detect_highlights(&rows, true, &[], classes);
    let start = s.find("203.0.113.7").unwrap() as u16;
    assert_eq!(highlight_color_at(&hs, 0, start), Some(HighlightColor::Ansi(5)));
    for col in start..start + 11 {
        assert!(!is_privacy_cell(&hs, 0, col), "col {col} must not mask");
    }
    assert_eq!(privacy_span_at(&hs, 0, start), None);
}

#[test]
fn version_classification_is_privacy_flag_independent() {
    let s = "version 3.9.0.2 ok";
    let rows = rows_from(s);
    let start = s.find("3.9.0.2").unwrap() as u16;
    let on = detect_highlights(&rows, true, &[], PrivacyClasses::default());
    let off = detect_highlights(&rows, false, &[], PrivacyClasses::default());
    assert_eq!(highlight_color_at(&on, 0, start), highlight_color_at(&off, 0, start));
}

#[test]
fn private_or_loopback_validator_edges() {
    assert!(ipv4_is_private_or_loopback("10.1.2.3"));
    assert!(ipv4_is_private_or_loopback("127.0.0.1"));
    assert!(ipv4_is_private_or_loopback("169.254.0.5"));
    assert!(ipv4_is_private_or_loopback("172.16.0.1"));
    assert!(ipv4_is_private_or_loopback("172.31.255.1"));
    assert!(ipv4_is_private_or_loopback("192.168.0.4"));
    assert!(!ipv4_is_private_or_loopback("172.32.0.1"));
    assert!(!ipv4_is_private_or_loopback("8.8.8.8"));
    assert!(!ipv4_is_private_or_loopback("169.253.0.1"));
    assert!(!ipv4_is_private_or_loopback("not.an.ip.at.all"));
}

#[test]
fn osc8_scheme_parses_only_well_formed_schemes() {
    assert_eq!(osc8_scheme("https://a.com").as_deref(), Some("https"));
    assert_eq!(osc8_scheme("HTTPS://a.com").as_deref(), Some("https"));
    assert_eq!(osc8_scheme("mailto:x@y").as_deref(), Some("mailto"));
    assert_eq!(osc8_scheme("view-source:http://a").as_deref(), Some("view-source"));
    assert_eq!(osc8_scheme(" javascript:alert(1)"), None);
    assert_eq!(osc8_scheme("java\nscript:alert(1)"), None);
    assert_eq!(osc8_scheme("1http://a"), None);
    assert_eq!(osc8_scheme("example.com/path"), None);
}

#[test]
fn osc8_scheme_allowlist_blocks_dangerous_handlers() {
    for ok in ["http://a", "https://a", "mailto:a@b", "ftp://a/f"] {
        assert!(osc8_scheme_allowed(ok), "{ok} should be allowed");
    }
    for bad in [
        "javascript:alert(1)",
        "file:///etc/passwd",
        "vscode://x",
        "ssh://host",
        " https://spoof",
        "data:text/html,<x>",
    ] {
        assert!(!osc8_scheme_allowed(bad), "{bad} should be blocked");
    }
}

#[test]
fn osc8_scheme_edge_cases() {
    assert_eq!(osc8_scheme(":nothing"), None);
    assert_eq!(osc8_scheme("a:"), Some("a".to_string()));
    assert_eq!(osc8_scheme("Mailto:someone"), Some("mailto".to_string()));
    assert_eq!(osc8_scheme("ht_tp://x"), None);
    assert!(osc8_scheme_allowed("FTP://host/file"));
    assert!(!osc8_scheme_allowed("httpx://a"));
}

#[test]
fn a_wrapped_url_is_coloured_on_every_row_it_covers() {
    let rows = vec![scan_row(0, "http://a.co", Some(10)), scan_row(1, "/deep/path x", None)];
    assert_eq!(url_spans(&rows), vec![(0, 0, 10), (1, 0, 9)]);
}

#[test]
fn a_wrapped_url_carries_across_three_rows() {
    let rows = vec![
        scan_row(0, "http://a.co", Some(10)),
        scan_row(1, "0123456789", Some(9)),
        scan_row(2, "tail", None),
    ];
    assert_eq!(url_spans(&rows), vec![(0, 0, 10), (1, 0, 9), (2, 0, 3)]);
}

#[test]
fn a_hard_line_break_carries_nothing() {
    let rows = vec![scan_row(0, "http://a.co", None), scan_row(1, "/not-part-of-it", None)];
    assert_eq!(url_spans(&rows), vec![(0, 0, 10)]);
}

#[test]
fn a_url_that_stops_before_the_margin_carries_nothing() {
    let rows = vec![scan_row(0, "http://a.co", Some(20)), scan_row(1, "still-not-part", None)];
    assert_eq!(url_spans(&rows), vec![(0, 0, 10)]);
}

#[test]
fn a_carry_reaches_only_the_next_row() {
    let rows = vec![scan_row(0, "http://a.co", Some(10)), scan_row(2, "unrelated", None)];
    assert_eq!(url_spans(&rows), vec![(0, 0, 10)]);
}

#[test]
fn punctuation_is_trimmed_at_the_end_but_not_at_a_wrap() {
    let rows = vec![scan_row(0, "http://a.co.", Some(11)), scan_row(1, "au/x.", None)];
    assert_eq!(url_spans(&rows), vec![(0, 0, 11), (1, 0, 3)]);
}

#[test]
fn a_second_url_after_a_carried_tail_is_still_found() {
    let rows = vec![scan_row(0, "http://a.co", Some(10)), scan_row(1, "/x http://b.co", None)];
    assert_eq!(url_spans(&rows), vec![(0, 0, 10), (1, 0, 1), (1, 3, 13)]);
}

#[test]
fn privacy_off_marks_no_privacy_only_spans() {
    let rows = rows_from(r"root@web01:/home/wilson$ cd C:\Users\koobs");
    let hs = detect_highlights(&rows, false, &[], PrivacyClasses::default());
    assert!(hs.iter().all(|h| !h.kind.privacy_only()));
}

#[test]
fn each_span_kind_gets_its_colour() {
    let s = "see https://a.co/x and /usr/bin/env 42 8.8.4.4";
    let rows = rows_from(s);
    let hs = detect_highlights(&rows, false, &[], PrivacyClasses::default());
    let url_at = s.find("https").unwrap() as u16;
    assert_eq!(highlight_color_at(&hs, 0, url_at), Some(HighlightColor::Ansi(4)));
    assert_eq!(hovered_url_range(&hs, 0, url_at + 3), Some((0, url_at, url_at + 13)));
    let ip_at = s.find("8.8.4.4").unwrap() as u16;
    assert_eq!(highlight_color_at(&hs, 0, ip_at), Some(HighlightColor::Ansi(5)));
    assert_eq!(highlight_color_at(&hs, 0, 0), None);
}

#[test]
fn quad_candidates_are_reported_as_byte_spans() {
    assert_eq!(scan_quad_dot_candidates("a 1.2.3.4 b 10.0.0.1"), vec![(2, 9), (12, 20)]);
    assert!(scan_quad_dot_candidates("1.2.3 and 1.2.3.4.5").is_empty());
}

fn colours_of(rows: &[ScanRow], privacy: bool, row: u16, width: u16) -> Vec<Option<HighlightColor>> {
    let hs = detect_highlights(rows, privacy, &[], PrivacyClasses::default());
    (0..width).map(|c| highlight_color_at(&hs, row, c)).collect()
}

#[test]
fn a_privacy_marker_never_hides_a_colour() {
    // `a@1.5` is a `user@host` marker under Privacy Mode; the number inside
    // it is coloured the same with Privacy Mode on or off.
    let rows = rows_from("a@1.5 x");
    assert_eq!(colours_of(&rows, true, 0, 7), colours_of(&rows, false, 0, 7));
    assert_eq!(colours_of(&rows, false, 0, 7)[2], Some(HighlightColor::Ansi(5)));
}

#[test]
fn a_carried_tail_that_trims_to_nothing_adds_no_span() {
    let rows = vec![scan_row(0, "http://a.co", Some(10)), scan_row(1, ". x", None)];
    let hs = detect_highlights(&rows, false, &[], PrivacyClasses::default());
    let urls: Vec<(u16, u16, u16)> =
        hs.iter().filter(|h| h.kind == HighlightKind::Url).map(|h| (h.row, h.start_col, h.end_col)).collect();
    assert_eq!(urls, vec![(0, 0, 10)]);
    assert!(hs.iter().all(|h| h.start_col <= h.end_col && (h.row != 1 || h.end_col <= 2)));
}

#[test]
fn privacy_mode_changes_no_colour_on_generated_rows() {
    // Rows built from fragments that exercise every pass (URLs, addresses,
    // paths, numbers, user@host, home directories): each cell is coloured
    // the same with Privacy Mode on or off.
    let alphabet: Vec<&str> = vec!["http://", "a", "1", ".", ":", "::", "/", "@", " ", "fe80", "10.0.0.1", "-", "~", "x@h", "/home/", "192.168.1.2", "3.9.0.2", "_", ",", "f", "0"];
    let mut seed: u64 = 12345;
    let mut bad = 0;
    for _ in 0..30000 {
        let mut s = String::new();
        seed ^= seed << 13; seed ^= seed >> 7; seed ^= seed << 17;
        let n = (seed % 7) as usize + 1;
        for _ in 0..n {
            seed ^= seed << 13; seed ^= seed >> 7; seed ^= seed << 17;
            s.push_str(alphabet[(seed % alphabet.len() as u64) as usize]);
        }
        let w = s.chars().count() as u16;
        let rows = rows_from(&s);
        for classes in [PrivacyClasses::default(), PrivacyClasses { private_ips: true, public_ips: true, usernames: true }, PrivacyClasses { private_ips: false, public_ips: false, usernames: true }] {
            let on = detect_highlights(&rows, true, &[], classes);
            let off = detect_highlights(&rows, false, &[], classes);
            let a: Vec<_> = (0..w).map(|c| highlight_color_at(&on, 0, c)).collect();
            let b: Vec<_> = (0..w).map(|c| highlight_color_at(&off, 0, c)).collect();
            if a != b {
                bad += 1;
                println!("colours differ on {:?}", s);
            }
        }
    }
    assert_eq!(bad, 0);
}


#[test]
fn privacy_colours_can_differ_when_a_row_number_repeats() {
    // The colour law holds for one scan entry per row number; two entries
    // for row 0 let the first entry's user@host marker (Privacy Mode only)
    // cover the start of the second entry's quad, which then is not
    // coloured as a quad with Privacy Mode on.
    let rows = vec![scan_row(0, "a@bbbbbbbbb", None), scan_row(0, "1.2.3.4", None)];
    let classes = PrivacyClasses { private_ips: false, public_ips: false, usernames: true };
    let on = detect_highlights(&rows, true, &[], classes);
    let off = detect_highlights(&rows, false, &[], classes);
    assert_eq!(highlight_color_at(&on, 0, 3), None);
    assert_eq!(highlight_color_at(&off, 0, 3), Some(HighlightColor::Ansi(5)));
}
