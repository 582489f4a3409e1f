use vstd::prelude::*;
use crate::plan::{OpSpec, Operation, Policy};
use crate::rule::{join_commas, remote_filter};

verus! {

/// The `netsh` arguments that create an outbound allow rule.
pub open spec fn add_rule_args(name: Seq<char>, targets: Seq<Seq<char>>) -> Seq<Seq<char>> {
    seq![
        "advfirewall"@,
        "firewall"@,
        "add"@,
        "rule"@,
        "name="@ + name,
        "dir=out"@,
        "action=allow"@,
    ] + if targets.len() > 0 {
        seq!["remoteip="@ + join_commas(targets)]
    } else {
        Seq::empty()
    }
}

/// The `netsh` arguments that delete every rule of a name.
pub open spec fn delete_rule_args(name: Seq<char>) -> Seq<Seq<char>> {
    seq!["advfirewall"@, "firewall"@, "delete"@, "rule"@, "name="@ + name]
}

/// The `netsh` policy keywords for a default policy.
pub open spec fn policy_keywords(p: Policy) -> Seq<char> {
    match p {
        Policy::BlockAll => "blockinbound,blockoutbound"@,
        Policy::AllowAll => "allowinbound,allowoutbound"@,
    }
}

/// The `netsh` arguments that set the default policy of all profiles.
pub open spec fn policy_args(p: Policy) -> Seq<Seq<char>> {
    seq!["advfirewall"@, "set"@, "allprofiles"@, "firewallpolicy"@, policy_keywords(p)]
}

/// The `netsh` arguments of one operation.
pub open spec fn operation_args(op: OpSpec) -> Seq<Seq<char>> {
    match op {
        OpSpec::AddAllowRule(r) => add_rule_args(r.name, r.remote_targets),
        OpSpec::DeleteRule(n) => delete_rule_args(n),
        OpSpec::SetDefaultPolicy(p) => policy_args(p),
    }
}

fn owned(s: &str) -> (r: String)
    ensures
        r@ == s@,
{
    String::from_str(s)
}

fn prefixed(prefix: &str, s: &str) -> (r: String)
    ensures
        r@ == prefix@ + s@,
{
    let mut r = String::from_str(prefix);
    r.append(s);
    r
}

/// The `netsh` arguments that allow outbound traffic to the given
/// addresses under the rule `name`; with no address the rule carries no
/// remote filter.
pub fn allow_host(name: &str, host_ips: &[String]) -> (r: Vec<String>)
    ensures
        r.deep_view() == add_rule_args(name@, host_ips.deep_view()),
{
    let mut r: Vec<String> = vec![
        owned("advfirewall"),
        owned("firewall"),
        owned("add"),
        owned("rule"),
        prefixed("name=", name),
        owned("dir=out"),
        owned("action=allow"),
    ];
    if host_ips.len() > 0 {
        let filter = remote_filter(host_ips);
        r.push(prefixed("remoteip=", filter.as_str()));
    }
    proof {
        assert(r.deep_view() =~= add_rule_args(name@, host_ips.deep_view()));
    }
    r
}

/// The `netsh` arguments that delete every rule named `name`.
pub fn delete_rule(name: &str) -> (r: Vec<String>)
    ensures
        r.deep_view() == delete_rule_args(name@),
{
    let r: Vec<String> = vec![
        owned("advfirewall"),
        owned("firewall"),
        owned("delete"),
        owned("rule"),
        prefixed("name=", name),
    ];
    proof {
        assert(r.deep_view() =~= delete_rule_args(name@));
    }
    r
}

/// The `netsh` arguments that set the default policy of all profiles.
pub fn set_policy(p: Policy) -> (r: Vec<String>)
    ensures
        r.deep_view() == policy_args(p),
{
    let keywords = match p {
        Policy::BlockAll => owned("blockinbound,blockoutbound"),
        Policy::AllowAll => owned("allowinbound,allowoutbound"),
    };
    let r: Vec<String> = vec![
        owned("advfirewall"),
        owned("set"),
        owned("allprofiles"),
        owned("firewallpolicy"),
        keywords,
    ];
    proof {
        assert(r.deep_view() =~= policy_args(p));
    }
    r
}

/// The `netsh` arguments that carry out one operation.
pub fn operation_command(op: &Operation) -> (r: Vec<String>)
    ensures
        r.deep_view() == operation_args(op@),
{
    match op {
        Operation::AddAllowRule(rule) => allow_host(rule.name.as_str(), rule.remote_targets.as_slice()),
        Operation::DeleteRule(name) => delete_rule(name.as_str()),
        Operation::SetDefaultPolicy(p) => set_policy(*p),
    }
}

} // verus!
