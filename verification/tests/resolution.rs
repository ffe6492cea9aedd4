use dnsgen::context::equal;
use dnsgen::resolve::{
    empty_pass, host_value, resolve_pass, select_reverse, sort_strings, AddrLookup, HostLookup,
};
use dnsgen::value::{value_eq, ResolvedValue};
use dnsgen::vars::{HostVar, ReverseMode, VariableSpec};

fn addr(a: &str, reverse: Option<&str>) -> AddrLookup {
    AddrLookup { addr: a.to_string(), reverse: reverse.map(|s| s.to_string()) }
}

fn host(alias: &str, hostname: &str, reverse: ReverseMode) -> VariableSpec {
    VariableSpec::Host(HostVar {
        alias: alias.to_string(),
        hostname: hostname.to_string(),
        reverse,
    })
}

fn expect_list(v: &ResolvedValue) -> Vec<String> {
    match v {
        ResolvedValue::List(items) => items.clone(),
        _ => panic!("expected a list"),
    }
}

#[test]
fn lexicographic_sort_not_numeric() {
    let sorted = sort_strings(vec!["2.0.0.2".to_string(), "10.0.0.1".to_string()]);
    assert_eq!(sorted, vec!["10.0.0.1".to_string(), "2.0.0.2".to_string()]);
}

#[test]
fn sort_is_stable_under_duplicates_and_empty() {
    assert_eq!(sort_strings(Vec::new()), Vec::<String>::new());
    let sorted = sort_strings(vec!["b".to_string(), "a".to_string(), "b".to_string()]);
    assert_eq!(sorted, vec!["a".to_string(), "b".to_string(), "b".to_string()]);
}

#[test]
fn reverse_off_keeps_address() {
    let s = select_reverse(ReverseMode::Off, &addr("1.2.3.4", Some("foo.example.com")));
    assert_eq!(s, "1.2.3.4");
}

#[test]
fn reverse_hostname_keeps_part_before_first_dot() {
    let s = select_reverse(ReverseMode::Hostname, &addr("1.2.3.4", Some("foo.example.com")));
    assert_eq!(s, "foo");
}

#[test]
fn reverse_hostname_without_dot_keeps_whole_name() {
    let s = select_reverse(ReverseMode::Hostname, &addr("1.2.3.4", Some("foo")));
    assert_eq!(s, "foo");
}

#[test]
fn reverse_fqdn_keeps_name_verbatim() {
    let s = select_reverse(ReverseMode::Fqdn, &addr("1.2.3.4", Some("foo.example.com")));
    assert_eq!(s, "foo.example.com");
}

#[test]
fn reverse_failure_falls_back_to_address() {
    assert_eq!(select_reverse(ReverseMode::Fqdn, &addr("1.2.3.4", None)), "1.2.3.4");
    assert_eq!(select_reverse(ReverseMode::Hostname, &addr("1.2.3.4", None)), "1.2.3.4");
}

#[test]
fn failed_forward_lookup_is_null() {
    let v = host_value(ReverseMode::Off, &None);
    assert!(value_eq(&v, &ResolvedValue::Null));
}

#[test]
fn fqdn_mixed_success_keeps_both_entries() {
    let outcome: HostLookup = Some(vec![
        addr("5.6.7.8", Some("db.example.org")),
        addr("1.2.3.4", None),
    ]);
    let v = host_value(ReverseMode::Fqdn, &outcome);
    let items = expect_list(&v);
    assert_eq!(items, vec!["1.2.3.4".to_string(), "db.example.org".to_string()]);
}

#[test]
fn host_value_sorts_lexicographically() {
    let outcome: HostLookup = Some(vec![addr("2.0.0.2", None), addr("10.0.0.1", None)]);
    let v = host_value(ReverseMode::Off, &outcome);
    assert_eq!(expect_list(&v), vec!["10.0.0.1".to_string(), "2.0.0.2".to_string()]);
}

#[test]
fn pass_resolves_constants_and_lists() {
    let specs = vec![
        VariableSpec::Constant { name: "NAME".to_string(), value: "VALUE".to_string() },
        VariableSpec::Literal {
            name: "L".to_string(),
            values: vec!["a".to_string(), "b".to_string()],
        },
    ];
    let ctx = resolve_pass(&specs, &Vec::new());
    let name = "NAME".to_string();
    match ctx.get(&name) {
        Some(ResolvedValue::Str(s)) => assert_eq!(s, "VALUE"),
        _ => panic!("constant missing"),
    }
    let l = "L".to_string();
    match ctx.get(&l) {
        Some(v) => assert_eq!(expect_list(v), vec!["a".to_string(), "b".to_string()]),
        None => panic!("list missing"),
    }
}

#[test]
fn failed_lookup_leaves_other_variables_alone() {
    let specs = vec![
        host("a", "a.example.com", ReverseMode::Off),
        VariableSpec::Constant { name: "c".to_string(), value: "v".to_string() },
        host("b", "b.example.com", ReverseMode::Off),
    ];
    let good: Vec<HostLookup> = vec![
        Some(vec![addr("1.2.3.4", None)]),
        Some(vec![addr("5.6.7.8", None)]),
    ];
    let bad: Vec<HostLookup> = vec![None, Some(vec![addr("5.6.7.8", None)])];
    let with_a = resolve_pass(&specs, &good);
    let without_a = resolve_pass(&specs, &bad);

    let a = "a".to_string();
    assert!(matches!(without_a.get(&a), Some(ResolvedValue::Null)));

    let b = "b".to_string();
    let c = "c".to_string();
    for key in [b, c] {
        let v1 = with_a.get(&key).expect("binding missing");
        let v2 = without_a.get(&key).expect("binding missing");
        assert!(value_eq(v1, v2));
    }
}

#[test]
fn empty_pass_nulls_every_host_variable() {
    let specs = vec![
        VariableSpec::Constant { name: "c".to_string(), value: "v".to_string() },
        host("a", "a.example.com", ReverseMode::Fqdn),
    ];
    let ctx = empty_pass(&specs);
    let a = "a".to_string();
    assert!(matches!(ctx.get(&a), Some(ResolvedValue::Null)));
    let c = "c".to_string();
    match ctx.get(&c) {
        Some(ResolvedValue::Str(s)) => assert_eq!(s, "v"),
        _ => panic!("constant missing"),
    }

    let all_failed: Vec<HostLookup> = vec![None];
    let failed = resolve_pass(&specs, &all_failed);
    assert!(equal(&ctx, &failed));
}
