use guild_commands::record::CommandRecord;
use guild_commands::registry::{CommandRegistry, RegistryError};

fn s(x: &str) -> String {
    x.to_string()
}

fn scenario_a() -> CommandRegistry {
    let mut reg = CommandRegistry::new();
    reg.register(s("guild1"), s("!hi"), s("Hello!"), s("user42"));
    reg
}

#[test]
fn scenario_a_register_then_list() {
    let reg = scenario_a();
    let list = reg.list(&s("guild1"));
    assert_eq!(list.len(), 1);
    assert_eq!(list[0].0, "!hi");
    assert_eq!(list[0].1.output, "Hello!");
    assert_eq!(list[0].1.author_id, "user42");
    assert_eq!(list[0].1.invocation_count, 0);
}

#[test]
fn scenario_b_invoke_counts() {
    let mut reg = scenario_a();
    let first = reg.invoke(&s("guild1"), &s("!hi")).unwrap().unwrap();
    assert_eq!(first.output, "Hello!");
    assert_eq!(first.invocation_count, 1);
    let second = reg.invoke(&s("guild1"), &s("!hi")).unwrap().unwrap();
    assert_eq!(second.invocation_count, 2);
    assert_eq!(reg.list(&s("guild1"))[0].1.invocation_count, 2);
}

#[test]
fn scenario_c_remove() {
    let mut reg = scenario_a();
    assert!(reg.remove(&s("guild1"), &s("!hi")));
    assert!(reg.invoke(&s("guild1"), &s("!hi")).unwrap().is_none());
    assert!(!reg.remove(&s("guild1"), &s("!hi")));
    assert!(reg.list(&s("guild1")).is_empty());
}

#[test]
fn reregistration_resets_count() {
    let mut reg = scenario_a();
    reg.invoke(&s("guild1"), &s("!hi")).unwrap();
    reg.invoke(&s("guild1"), &s("!hi")).unwrap();
    reg.register(s("guild1"), s("!hi"), s("Bye!"), s("user7"));
    let list = reg.list(&s("guild1"));
    assert_eq!(list.len(), 1);
    assert_eq!(list[0].1.invocation_count, 0);
    let rec = reg.invoke(&s("guild1"), &s("!hi")).unwrap().unwrap();
    assert_eq!(rec.output, "Bye!");
    assert_eq!(rec.author_id, "user7");
    assert_eq!(rec.invocation_count, 1);
}

#[test]
fn counts_run_one_to_n() {
    let mut reg = scenario_a();
    for n in 1..=20usize {
        let rec = reg.invoke(&s("guild1"), &s("!hi")).unwrap().unwrap();
        assert_eq!(rec.invocation_count, n);
    }
}

#[test]
fn absent_trigger_is_not_an_error() {
    let mut reg = scenario_a();
    assert_eq!(reg.invoke(&s("guild1"), &s("nope")).map(|r| r.is_none()), Ok(true));
    assert!(!reg.remove(&s("guild1"), &s("nope")));
    let mut empty = CommandRegistry::new();
    assert!(empty.invoke(&s("guild9"), &s("nope")).unwrap().is_none());
    assert!(empty.list(&s("guild9")).is_empty());
}

#[test]
fn tenants_are_separate() {
    let mut reg = CommandRegistry::new();
    reg.register(s("guild1"), s("!hi"), s("Hello!"), s("user42"));
    assert!(reg.invoke(&s("guild2"), &s("!hi")).unwrap().is_none());
    reg.register(s("guild2"), s("!hi"), s("Howdy"), s("user1"));
    let one = reg.invoke(&s("guild1"), &s("!hi")).unwrap().unwrap();
    let two = reg.invoke(&s("guild2"), &s("!hi")).unwrap().unwrap();
    assert_eq!(one.output, "Hello!");
    assert_eq!(two.output, "Howdy");
    assert_eq!(one.invocation_count, 1);
    assert_eq!(two.invocation_count, 1);
    assert!(reg.remove(&s("guild2"), &s("!hi")));
    assert!(reg.invoke(&s("guild1"), &s("!hi")).unwrap().is_some());
}

#[test]
fn triggers_are_case_sensitive() {
    let mut reg = scenario_a();
    assert!(reg.invoke(&s("guild1"), &s("!HI")).unwrap().is_none());
    assert!(reg.invoke(&s("guild1"), &s("!hi ")).unwrap().is_none());
}

#[test]
fn list_holds_each_trigger_of_the_tenant_once() {
    let mut reg = CommandRegistry::new();
    reg.register(s("g"), s("a"), s("1"), s("u"));
    reg.register(s("g"), s("b"), s("2"), s("u"));
    reg.register(s("h"), s("c"), s("3"), s("u"));
    reg.register(s("g"), s("a"), s("4"), s("v"));
    let mut list: Vec<(String, String)> = reg
        .list(&s("g"))
        .into_iter()
        .map(|(k, r)| (k, r.output))
        .collect();
    list.sort();
    assert_eq!(list, vec![(s("a"), s("4")), (s("b"), s("2"))]);
}

#[test]
fn record_new_and_fire() {
    let mut rec = CommandRecord::new(s("out"), s("me"));
    assert_eq!(rec.invocation_count, 0);
    assert!(rec.can_fire());
    rec.fire();
    assert_eq!(rec.invocation_count, 1);
    let copy = rec.duplicate();
    assert_eq!(copy.output, "out");
    assert_eq!(copy.author_id, "me");
    assert_eq!(copy.invocation_count, 1);
    rec.invocation_count = usize::MAX;
    assert!(!rec.can_fire());
    assert_eq!(RegistryError::CounterExhausted, RegistryError::CounterExhausted);
}
