use dnsgen::context::ResolvedContext;
use dnsgen::reconcile::{Action, Reconciler};
use dnsgen::resolve::{empty_pass, resolve_pass, AddrLookup, HostLookup};
use dnsgen::value::ResolvedValue;
use dnsgen::vars::{HostVar, ReverseMode, VariableSpec};

fn host(alias: &str) -> VariableSpec {
    VariableSpec::Host(HostVar {
        alias: alias.to_string(),
        hostname: alias.to_string(),
        reverse: ReverseMode::Off,
    })
}

fn ctx_with(name: &str, value: ResolvedValue) -> ResolvedContext {
    let mut ctx = ResolvedContext::new();
    ctx.insert(name.to_string(), value);
    ctx
}

#[test]
fn poll_renders_on_change() {
    // A watching loop whose context changes between polls leaves the
    // poll phase and renders the fresh context.
    let (mut rec, first) = Reconciler::new(true, false);
    assert_eq!(first, Action::Resolve);
    let a = rec.on_context(ctx_with("a", ResolvedValue::Null));
    assert_eq!(a, Action::Render);
    let a = rec.on_rendered();
    assert_eq!(a, Action::SleepResolve);
    let fresh = ctx_with("a", ResolvedValue::List(vec!["1.2.3.4".to_string()]));
    let a = rec.on_context(fresh);
    assert_eq!(a, Action::Render);
}

#[test]
fn poll_stays_quiet_without_change() {
    // Two consecutive passes with the same result keep the loop
    // polling: no render is triggered.
    let (mut rec, first) = Reconciler::new(true, false);
    assert_eq!(first, Action::Resolve);
    let list = || ResolvedValue::List(vec!["1.2.3.4".to_string()]);
    assert_eq!(rec.on_context(ctx_with("a", list())), Action::Render);
    assert_eq!(rec.on_rendered(), Action::SleepResolve);
    assert_eq!(rec.on_context(ctx_with("a", list())), Action::SleepResolve);
    assert_eq!(rec.on_context(ctx_with("a", list())), Action::SleepResolve);
}

#[test]
fn non_watch_renders_once_and_halts() {
    // A non-watch invocation with one constant resolves, renders once,
    // and halts; the rendered output substitutes the constant's value.
    let specs = vec![VariableSpec::Constant {
        name: "NAME".to_string(),
        value: "VALUE".to_string(),
    }];
    let (mut rec, first) = Reconciler::new(false, false);
    assert_eq!(first, Action::Resolve);
    let lookups: Vec<HostLookup> = Vec::new();
    let ctx = resolve_pass(&specs, &lookups);
    assert_eq!(rec.on_context(ctx), Action::Render);

    let rendered = render_with_handlebars(rec.pending_context(), "{{NAME}}");
    assert_eq!(rendered, "VALUE");

    assert_eq!(rec.on_rendered(), Action::Halt);
}

#[test]
fn fast_start_renders_nulls_before_any_lookup() {
    // A fast-start watch renders the synthesized all-`Null` context
    // first — no lookup outcome is consumed — and only the first poll
    // after that performs real resolution.
    let specs = vec![host("a")];
    let (mut rec, first) = Reconciler::new(true, true);
    assert_eq!(first, Action::Synthesize);
    let ctx = empty_pass(&specs);
    let a = "a".to_string();
    assert!(matches!(ctx.get(&a), Some(ResolvedValue::Null)));
    assert_eq!(rec.on_context(ctx), Action::Render);
    assert_eq!(rec.on_rendered(), Action::SleepResolve);

    // The poll that follows resolves for real; a non-Null outcome now
    // differs from the all-Null render and triggers a render.
    let lookups: Vec<HostLookup> = vec![Some(vec![AddrLookup {
        addr: "1.2.3.4".to_string(),
        reverse: None,
    }])];
    let fresh = resolve_pass(&specs, &lookups);
    assert_eq!(rec.on_context(fresh), Action::Render);
}

#[test]
fn fast_start_only_applies_to_watch_mode() {
    let (_, first) = Reconciler::new(false, true);
    assert_eq!(first, Action::Resolve);
}

fn render_with_handlebars(ctx: &ResolvedContext, template: &str) -> String {
    let mut hb = handlebars::Handlebars::new();
    hb.register_template_string("t", template).unwrap();
    let mut map = serde_json::Map::new();
    for (name, value) in ctx.entries().iter() {
        let json = match value {
            ResolvedValue::Null => serde_json::Value::Null,
            ResolvedValue::Str(s) => serde_json::Value::String(s.clone()),
            ResolvedValue::List(items) => serde_json::Value::Array(
                items.iter().map(|s| serde_json::Value::String(s.clone())).collect(),
            ),
        };
        map.insert(name.clone(), json);
    }
    hb.render("t", &serde_json::Value::Object(map)).unwrap()
}
