use allowlist_fw::command::{allow_host, delete_rule, operation_command, set_policy};
use allowlist_fw::plan::{
    after_attempt, infrastructure_rules, plan_restore, plan_run, Config, Operation, Policy,
    ResolvedTarget, Step,
};
use allowlist_fw::rule::{build_rule, remote_filter, FirewallRule};
use allowlist_fw::servers::{active_name_servers, DNS_PORT};

fn strings(v: &[&str]) -> Vec<String> {
    v.iter().map(|s| s.to_string()).collect()
}

fn resolved(name: &str, addresses: &[&str]) -> ResolvedTarget {
    ResolvedTarget { name: name.to_string(), addresses: strings(addresses) }
}

fn rule(name: &str, targets: &[&str]) -> Operation {
    Operation::AddAllowRule(FirewallRule { name: name.to_string(), remote_targets: strings(targets) })
}

fn test_config(domains: &[&str]) -> Config {
    Config {
        name_servers: strings(&["194.242.2.9", "9.9.9.9", "86.54.11.13"]),
        domains: strings(domains),
        local_networks: strings(&["192.168.0.0/16", "10.0.0.0/8", "172.16.0.0/12"]),
        loopback: "127.0.0.1".to_string(),
    }
}

fn fixed_rules() -> Vec<Operation> {
    vec![
        rule("AllowDNS", &["194.242.2.9", "9.9.9.9", "86.54.11.13"]),
        rule("AllowLocalNetwork", &["192.168.0.0/16", "10.0.0.0/8", "172.16.0.0/12"]),
        rule("AllowLoopback", &["127.0.0.1"]),
    ]
}

#[test]
fn remote_filter_joins_with_commas() {
    assert_eq!(remote_filter(&strings(&["93.184.216.34"])), "93.184.216.34");
    assert_eq!(remote_filter(&strings(&["1.2.3.4", "10.0.0.0/8", "::1"])), "1.2.3.4,10.0.0.0/8,::1");
    assert_eq!(remote_filter(&[]), "");
}

#[test]
fn build_rule_keeps_targets_in_order() {
    let r = build_rule("example.com", &strings(&["2.2.2.2", "1.1.1.1"]));
    assert_eq!(r.name, "example.com");
    assert_eq!(r.remote_targets, strings(&["2.2.2.2", "1.1.1.1"]));
}

#[test]
fn allow_host_with_addresses() {
    let args = allow_host("example.com", &strings(&["93.184.216.34", "10.0.0.0/8"]));
    assert_eq!(
        args,
        strings(&[
            "advfirewall",
            "firewall",
            "add",
            "rule",
            "name=example.com",
            "dir=out",
            "action=allow",
            "remoteip=93.184.216.34,10.0.0.0/8",
        ])
    );
}

#[test]
fn allow_host_without_addresses_has_no_filter() {
    let args = allow_host("x", &[]);
    assert_eq!(
        args,
        strings(&["advfirewall", "firewall", "add", "rule", "name=x", "dir=out", "action=allow"])
    );
}

#[test]
fn policy_and_delete_commands() {
    assert_eq!(
        set_policy(Policy::BlockAll),
        strings(&["advfirewall", "set", "allprofiles", "firewallpolicy", "blockinbound,blockoutbound"])
    );
    assert_eq!(
        set_policy(Policy::AllowAll),
        strings(&["advfirewall", "set", "allprofiles", "firewallpolicy", "allowinbound,allowoutbound"])
    );
    assert_eq!(
        delete_rule("AllowDNS"),
        strings(&["advfirewall", "firewall", "delete", "rule", "name=AllowDNS"])
    );
}

#[test]
fn malformed_name_servers_are_skipped() {
    let servers = strings(&["194.242.2.9", "not-an-ip", "9.9.9.9", "999.1.1.1", "::1", "", "1.2.3"]);
    assert_eq!(active_name_servers(&servers), strings(&["194.242.2.9", "9.9.9.9", "::1"]));
    assert_eq!(active_name_servers(&strings(&["bogus"])), Vec::<String>::new());
    assert_eq!(DNS_PORT, 53);
}

#[test]
fn standard_config_servers_all_valid() {
    let c = Config::standard();
    assert_eq!(active_name_servers(&c.name_servers), c.name_servers);
    assert_eq!(c.domains.len(), 4);
    assert_eq!(c.loopback, "127.0.0.1");
}

#[test]
fn infrastructure_rules_are_fixed() {
    let c = test_config(&[]);
    let rules = infrastructure_rules(&c.name_servers, &c.local_networks, &c.loopback);
    let ops: Vec<Operation> = rules.into_iter().map(Operation::AddAllowRule).collect();
    assert_eq!(ops, fixed_rules());
}

#[test]
fn scenario_single_domain_resolves() {
    let c = test_config(&["example.com"]);
    let ops = plan_run(&c, &c.name_servers, &vec![resolved("example.com", &["93.184.216.34"])]);
    let mut expected = vec![rule("example.com", &["93.184.216.34"])];
    expected.extend(fixed_rules());
    expected.push(Operation::SetDefaultPolicy(Policy::BlockAll));
    assert_eq!(ops, expected);
}

#[test]
fn scenario_failed_domain_gets_no_rule() {
    let c = test_config(&["bad.invalid", "good.example"]);
    let ops = plan_run(
        &c,
        &c.name_servers,
        &vec![resolved("bad.invalid", &[]), resolved("good.example", &["1.1.1.1", "2.2.2.2"])],
    );
    let mut expected = vec![rule("good.example", &["1.1.1.1", "2.2.2.2"])];
    expected.extend(fixed_rules());
    expected.push(Operation::SetDefaultPolicy(Policy::BlockAll));
    assert_eq!(ops, expected);
    assert!(!ops.iter().any(|o| matches!(o, Operation::AddAllowRule(r) if r.name == "bad.invalid")));
}

#[test]
fn all_domains_failing_still_applies_fixed_rules_then_policy() {
    let c = test_config(&["a.invalid"]);
    let ops = plan_run(&c, &c.name_servers, &vec![resolved("a.invalid", &[])]);
    let mut expected = fixed_rules();
    expected.push(Operation::SetDefaultPolicy(Policy::BlockAll));
    assert_eq!(ops, expected);
}

#[test]
fn dns_rule_names_the_resolver_servers() {
    let c = test_config(&[]);
    let servers = active_name_servers(&strings(&["8.8.8.8", "oops"]));
    let ops = plan_run(&c, &servers, &vec![]);
    assert_eq!(ops[0], rule("AllowDNS", &["8.8.8.8"]));
}

#[test]
fn policy_switch_is_last_and_only_once() {
    let c = test_config(&["a", "b", "c"]);
    let ops = plan_run(
        &c,
        &c.name_servers,
        &vec![resolved("a", &["1.1.1.1"]), resolved("b", &[]), resolved("c", &["3.3.3.3"])],
    );
    assert_eq!(ops.len(), 6);
    assert_eq!(ops[5], Operation::SetDefaultPolicy(Policy::BlockAll));
    assert!(ops[..5].iter().all(|o| matches!(o, Operation::AddAllowRule(_))));
}

#[test]
fn planning_twice_gives_the_same_operations() {
    let c = test_config(&["example.com"]);
    let r = vec![resolved("example.com", &["93.184.216.34"])];
    assert_eq!(plan_run(&c, &c.name_servers, &r), plan_run(&c, &c.name_servers, &r));
}

#[test]
fn scenario_policy_switch_failure_aborts() {
    let policy = Operation::SetDefaultPolicy(Policy::BlockAll);
    assert_eq!(after_attempt(&policy, false), Step::Abort);
    assert_eq!(after_attempt(&policy, true), Step::Continue);
    let add = rule("example.com", &["93.184.216.34"]);
    assert_eq!(after_attempt(&add, false), Step::Continue);
    let del = Operation::DeleteRule("x".to_string());
    assert_eq!(after_attempt(&del, false), Step::Continue);
}

#[test]
fn restore_deletes_owned_rules_then_allows() {
    let ops = plan_restore(&strings(&["example.com"]));
    assert_eq!(
        ops,
        vec![
            Operation::DeleteRule("example.com".to_string()),
            Operation::DeleteRule("AllowDNS".to_string()),
            Operation::DeleteRule("AllowLocalNetwork".to_string()),
            Operation::DeleteRule("AllowLoopback".to_string()),
            Operation::SetDefaultPolicy(Policy::AllowAll),
        ]
    );
}

#[test]
fn operation_command_per_kind() {
    assert_eq!(
        operation_command(&rule("AllowLoopback", &["127.0.0.1"])),
        allow_host("AllowLoopback", &strings(&["127.0.0.1"]))
    );
    assert_eq!(
        operation_command(&Operation::DeleteRule("n".to_string())),
        delete_rule("n")
    );
    assert_eq!(
        operation_command(&Operation::SetDefaultPolicy(Policy::BlockAll)),
        set_policy(Policy::BlockAll)
    );
}
