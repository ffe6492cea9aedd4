use dnsgen::config::{
    attempts_setting, inferred_output, ndots_setting, parse_u64, parse_usize, scaled_millis,
};
use dnsgen::vars::{parse_const_spec, parse_host_spec, parse_list_spec, ReverseMode};

#[test]
fn host_spec_alias_only() {
    let h = parse_host_spec("www.example.com");
    assert_eq!(h.alias, "www.example.com");
    assert_eq!(h.hostname, "www.example.com");
    assert_eq!(h.reverse, ReverseMode::Off);
}

#[test]
fn host_spec_alias_and_host() {
    let h = parse_host_spec("web:www.example.com");
    assert_eq!(h.alias, "web");
    assert_eq!(h.hostname, "www.example.com");
    assert_eq!(h.reverse, ReverseMode::Off);
}

#[test]
fn host_spec_with_hostname_mode() {
    let h = parse_host_spec("web:www.example.com:hn");
    assert_eq!(h.alias, "web");
    assert_eq!(h.hostname, "www.example.com");
    assert_eq!(h.reverse, ReverseMode::Hostname);
}

#[test]
fn host_spec_with_fqdn_mode() {
    let h = parse_host_spec("web:www.example.com:fqdn");
    assert_eq!(h.reverse, ReverseMode::Fqdn);
}

#[test]
fn host_spec_mode_is_case_insensitive() {
    assert_eq!(parse_host_spec("a:b:HN").reverse, ReverseMode::Hostname);
    assert_eq!(parse_host_spec("a:b:Fqdn").reverse, ReverseMode::Fqdn);
}

#[test]
fn host_spec_unknown_mode_means_off() {
    assert_eq!(parse_host_spec("a:b:xyz").reverse, ReverseMode::Off);
}

#[test]
fn host_spec_empty_host_piece() {
    let h = parse_host_spec("a:");
    assert_eq!(h.alias, "a");
    assert_eq!(h.hostname, "");
    assert_eq!(h.reverse, ReverseMode::Off);
}

#[test]
fn const_spec_splits_at_first_equals() {
    let (name, value) = parse_const_spec("NAME=VALUE").unwrap();
    assert_eq!(name, "NAME");
    assert_eq!(value, "VALUE");
    let (name, value) = parse_const_spec("N=a=b").unwrap();
    assert_eq!(name, "N");
    assert_eq!(value, "a=b");
}

#[test]
fn const_spec_without_equals_is_rejected() {
    assert!(parse_const_spec("NAME").is_none());
}

#[test]
fn list_spec_splits_every_equals() {
    let (name, values) = parse_list_spec("N=a=b=c").unwrap();
    assert_eq!(name, "N");
    assert_eq!(values, vec!["a".to_string(), "b".to_string(), "c".to_string()]);
}

#[test]
fn list_spec_empty_values_are_kept() {
    let (name, values) = parse_list_spec("N=a==c").unwrap();
    assert_eq!(name, "N");
    assert_eq!(values, vec!["a".to_string(), "".to_string(), "c".to_string()]);
    let (_, values) = parse_list_spec("N=").unwrap();
    assert_eq!(values, vec!["".to_string()]);
}

#[test]
fn list_spec_without_equals_is_rejected() {
    assert!(parse_list_spec("N").is_none());
}

#[test]
fn parse_u64_plain_and_signed() {
    assert_eq!(parse_u64("42"), Some(42));
    assert_eq!(parse_u64("+42"), Some(42));
    assert_eq!(parse_u64("0"), Some(0));
}

#[test]
fn parse_u64_rejects_garbage() {
    assert_eq!(parse_u64(""), None);
    assert_eq!(parse_u64("+"), None);
    assert_eq!(parse_u64("abc"), None);
    assert_eq!(parse_u64("4 2"), None);
    assert_eq!(parse_u64("-1"), None);
}

#[test]
fn parse_u64_bounds() {
    assert_eq!(parse_u64("18446744073709551615"), Some(u64::MAX));
    assert_eq!(parse_u64("18446744073709551616"), None);
    assert_eq!(parse_u64("99999999999999999999999"), None);
}

#[test]
fn parse_usize_matches_parse_u64_in_range() {
    assert_eq!(parse_usize("7"), Some(7));
    assert_eq!(parse_usize("x"), None);
}

#[test]
fn scaled_millis_scales_seconds() {
    assert_eq!(scaled_millis(2, false), Some(2000));
    assert_eq!(scaled_millis(2, true), Some(2));
    assert_eq!(scaled_millis(u64::MAX, false), None);
    assert_eq!(scaled_millis(u64::MAX, true), Some(u64::MAX));
}

#[test]
fn attempts_defaults() {
    assert_eq!(attempts_setting(None), 1);
    let three = "3".to_string();
    assert_eq!(attempts_setting(Some(&three)), 3);
    let bad = "x".to_string();
    assert_eq!(attempts_setting(Some(&bad)), 0);
}

#[test]
fn ndots_defaults() {
    assert_eq!(ndots_setting(None), 0);
    let two = "2".to_string();
    assert_eq!(ndots_setting(Some(&two)), 2);
    let bad = "?".to_string();
    assert_eq!(ndots_setting(Some(&bad)), 0);
}

#[test]
fn output_name_strips_template_suffix() {
    assert_eq!(inferred_output("site.conf.hbs"), "site.conf");
    assert_eq!(inferred_output("x.hbs"), "x");
}

#[test]
fn output_name_appends_when_no_suffix() {
    assert_eq!(inferred_output("site.conf"), "site.conf.out");
    assert_eq!(inferred_output("hbs"), "hbs.out");
}
