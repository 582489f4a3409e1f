use vstd::prelude::*;
use crate::rule::{FirewallRule, RuleSpec, build_rule, copy_strings};

verus! {

/// Name of the rule that keeps the name servers reachable.
pub const DNS_RULE_NAME: &'static str = "AllowDNS";

/// Name of the rule that keeps the local network ranges reachable.
pub const LOCAL_NETWORK_RULE_NAME: &'static str = "AllowLocalNetwork";

/// Name of the rule that keeps the loopback address reachable.
pub const LOOPBACK_RULE_NAME: &'static str = "AllowLoopback";

/// The engine's default policy for traffic that no rule allows.
#[derive(Clone, Copy, PartialEq, Eq, Structural, Debug)]
pub enum Policy {
    /// Block inbound and outbound traffic.
    BlockAll,
    /// Allow inbound and outbound traffic.
    AllowAll,
}

/// One operation on the enforcement engine, as plain values.
pub enum OpSpec {
    AddAllowRule(RuleSpec),
    DeleteRule(Seq<char>),
    SetDefaultPolicy(Policy),
}

/// One operation on the enforcement engine.
#[derive(Clone, Debug, PartialEq, Eq)]
pub enum Operation {
    /// Create an outbound allow rule.
    AddAllowRule(FirewallRule),
    /// Remove every rule of the given name.
    DeleteRule(String),
    /// Switch the default policy for all profiles.
    SetDefaultPolicy(Policy),
}

impl View for Operation {
    type V = OpSpec;

    open spec fn view(&self) -> OpSpec {
        match self {
            Operation::AddAllowRule(r) => OpSpec::AddAllowRule(r@),
            Operation::DeleteRule(n) => OpSpec::DeleteRule(n@),
            Operation::SetDefaultPolicy(p) => OpSpec::SetDefaultPolicy(*p),
        }
    }
}

pub open spec fn ops_view(ops: Seq<Operation>) -> Seq<OpSpec> {
    ops.map_values(|o: Operation| o@)
}

/// The outcome of resolving one allowed domain, as plain values.
pub struct TargetSpec {
    pub name: Seq<char>,
    pub addresses: Seq<Seq<char>>,
}

/// The outcome of resolving one allowed domain: the addresses in resolution
/// order, or none when resolution failed.
#[derive(Clone, Debug, PartialEq, Eq)]
pub struct ResolvedTarget {
    pub name: String,
    pub addresses: Vec<String>,
}

impl View for ResolvedTarget {
    type V = TargetSpec;

    open spec fn view(&self) -> TargetSpec {
        TargetSpec { name: self.name@, addresses: self.addresses.deep_view() }
    }
}

pub open spec fn targets_view(targets: Seq<ResolvedTarget>) -> Seq<TargetSpec> {
    targets.map_values(|t: ResolvedTarget| t@)
}

/// What a run is configured with.
#[derive(Clone, Debug, PartialEq, Eq)]
pub struct Config {
    /// Name servers used for resolution; malformed entries are skipped.
    pub name_servers: Vec<String>,
    /// Domains whose addresses are allowed.
    pub domains: Vec<String>,
    /// Local network ranges that stay reachable.
    pub local_networks: Vec<String>,
    /// The loopback address.
    pub loopback: String,
}

/// The rule for one resolution outcome.
pub open spec fn domain_rule(t: TargetSpec) -> RuleSpec {
    RuleSpec { name: t.name, remote_targets: t.addresses }
}

/// One rule for each domain that resolved to at least one address, in
/// order; none for a domain that failed.
pub open spec fn domain_ops(resolved: Seq<TargetSpec>) -> Seq<OpSpec>
    decreases resolved.len(),
{
    if resolved.len() == 0 {
        Seq::empty()
    } else {
        let rest = domain_ops(resolved.drop_last());
        if resolved.last().addresses.len() > 0 {
            rest.push(OpSpec::AddAllowRule(domain_rule(resolved.last())))
        } else {
            rest
        }
    }
}

/// The three fixed rules: name servers, local networks, loopback.
pub open spec fn infrastructure_specs(
    dns_servers: Seq<Seq<char>>,
    local_networks: Seq<Seq<char>>,
    loopback: Seq<char>,
) -> Seq<RuleSpec> {
    seq![
        RuleSpec { name: DNS_RULE_NAME@, remote_targets: dns_servers },
        RuleSpec { name: LOCAL_NETWORK_RULE_NAME@, remote_targets: local_networks },
        RuleSpec { name: LOOPBACK_RULE_NAME@, remote_targets: seq![loopback] },
    ]
}

pub open spec fn add_ops(rules: Seq<RuleSpec>) -> Seq<OpSpec> {
    rules.map_values(|r: RuleSpec| OpSpec::AddAllowRule(r))
}

/// A run: the domain rules, then the fixed rules, then default-deny.
pub open spec fn run_ops(
    dns_servers: Seq<Seq<char>>,
    local_networks: Seq<Seq<char>>,
    loopback: Seq<char>,
    resolved: Seq<TargetSpec>,
) -> Seq<OpSpec> {
    domain_ops(resolved) + add_ops(infrastructure_specs(dns_servers, local_networks, loopback))
        + seq![OpSpec::SetDefaultPolicy(Policy::BlockAll)]
}

/// The names of the rules a run with these domains may create.
pub open spec fn owned_names(domains: Seq<Seq<char>>) -> Seq<Seq<char>> {
    domains + seq![DNS_RULE_NAME@, LOCAL_NETWORK_RULE_NAME@, LOOPBACK_RULE_NAME@]
}

/// A restore: remove every rule a run may have created, then allow all.
pub open spec fn restore_ops(domains: Seq<Seq<char>>) -> Seq<OpSpec> {
    owned_names(domains).map_values(|n: Seq<char>| OpSpec::DeleteRule(n)) + seq![
        OpSpec::SetDefaultPolicy(Policy::AllowAll),
    ]
}

/// The three fixed rules, which are applied whatever resolution gave.
pub fn infrastructure_rules(
    dns_servers: &Vec<String>,
    local_networks: &Vec<String>,
    loopback: &String,
) -> (r: Vec<FirewallRule>)
    ensures
        r@.map_values(|x: FirewallRule| x@) == infrastructure_specs(
            dns_servers.deep_view(),
            local_networks.deep_view(),
            loopback@,
        ),
{
    let dns = build_rule(DNS_RULE_NAME, dns_servers);
    let local = build_rule(LOCAL_NETWORK_RULE_NAME, local_networks);
    let lo = FirewallRule {
        name: String::from_str(LOOPBACK_RULE_NAME),
        remote_targets: vec![loopback.clone()],
    };
    let r = vec![dns, local, lo];
    proof {
        assert(lo.remote_targets.deep_view() =~= seq![loopback@]);
        assert(r@.map_values(|x: FirewallRule| x@) =~= infrastructure_specs(
            dns_servers.deep_view(),
            local_networks.deep_view(),
            loopback@,
        ));
    }
    r
}

/// The operations of a run, in the order they must be applied. The name
/// servers are those the resolver was given, so they stay reachable after
/// the policy switch.
pub fn plan_run(config: &Config, dns_servers: &Vec<String>, resolved: &Vec<ResolvedTarget>) -> (r:
    Vec<Operation>)
    ensures
        ops_view(r@) == run_ops(
            dns_servers.deep_view(),
            config.local_networks.deep_view(),
            config.loopback@,
            targets_view(resolved@),
        ),
{
    let ghost tv = targets_view(resolved@);
    let mut r: Vec<Operation> = Vec::new();
    let mut i: usize = 0;
    while i < resolved.len()
        invariant
            i <= resolved.len(),
            tv == targets_view(resolved@),
            ops_view(r@) == domain_ops(tv.subrange(0, i as int)),
        decreases resolved.len() - i,
    {
        let ghost next = tv.subrange(0, i + 1);
        proof {
            assert(next.drop_last() =~= tv.subrange(0, i as int));
            assert(next.last() == resolved@[i as int]@);
        }
        let t = &resolved[i];
        if t.addresses.len() > 0 {
            let rule = build_rule(t.name.as_str(), &t.addresses);
            r.push(Operation::AddAllowRule(rule));
            proof {
                assert(ops_view(r@) =~= domain_ops(next));
            }
        }
        i = i + 1;
    }
    proof {
        assert(tv.subrange(0, resolved.len() as int) =~= tv);
    }
    let ghost domains_part = ops_view(r@);
    let infra = infrastructure_rules(dns_servers, &config.local_networks, &config.loopback);
    let ghost infra_view = infra@.map_values(|x: FirewallRule| x@);
    let mut infra = infra;
    proof {
        assert(infra_view.len() == 3);
        assert(infra@.len() == 3);
        assert forall|k: int| 0 <= k < infra@.len() implies #[trigger] infra@[k]@ == infra_view[k] by {
            assert(infra_view[k] == infra@[k]@);
        }
    }
    let mut j: usize = 0;
    while j < 3
        invariant
            j <= 3,
            infra@.len() == 3 - j,
            forall|k: int|
                0 <= k < infra@.len() ==> #[trigger] infra@[k]@ == infra_view[k + j as int],
            infra_view.len() == 3,
            ops_view(r@) == domains_part + add_ops(infra_view.subrange(0, j as int)),
        decreases 3 - j,
    {
        let ghost before = infra@;
        let ghost r_before = r@;
        let rule = infra.remove(0);
        r.push(Operation::AddAllowRule(rule));
        proof {
            assert(ops_view(r@) =~= ops_view(r_before).push(OpSpec::AddAllowRule(rule@)));
            assert(add_ops(infra_view.subrange(0, j + 1)) =~= add_ops(
                infra_view.subrange(0, j as int),
            ).push(OpSpec::AddAllowRule(infra_view[j as int])));
            assert(rule@ == infra_view[j as int]);
            assert forall|k: int| 0 <= k < infra@.len() implies #[trigger] infra@[k]@ == infra_view[k + j + 1] by {
                assert(infra@[k] == before[k + 1]);
            }
            assert(ops_view(r@) =~= domains_part + add_ops(infra_view.subrange(0, j + 1)));
        }
        j = j + 1;
    }
    proof {
        assert(infra_view.subrange(0, 3) =~= infra_view);
    }
    r.push(Operation::SetDefaultPolicy(Policy::BlockAll));
    proof {
        assert(ops_view(r@) =~= run_ops(
            dns_servers.deep_view(),
            config.local_networks.deep_view(),
            config.loopback@,
            targets_view(resolved@),
        ));
    }
    r
}

/// The operations of a restore: delete each rule a run with these
/// domains may have created, then reset the default policy to allow all.
pub fn plan_restore(domains: &Vec<String>) -> (r: Vec<Operation>)
    ensures
        ops_view(r@) == restore_ops(domains.deep_view()),
{
    let mut names = copy_strings(domains);
    names.push(String::from_str(DNS_RULE_NAME));
    names.push(String::from_str(LOCAL_NETWORK_RULE_NAME));
    names.push(String::from_str(LOOPBACK_RULE_NAME));
    proof {
        assert(names.deep_view() =~= owned_names(domains.deep_view()));
    }
    let ghost all = names.deep_view();
    let mut r: Vec<Operation> = Vec::new();
    let mut i: usize = 0;
    while i < names.len()
        invariant
            i <= names.len(),
            all == names.deep_view(),
            ops_view(r@) == all.subrange(0, i as int).map_values(|n: Seq<char>| OpSpec::DeleteRule(n)),
        decreases names.len() - i,
    {
        let ghost r_before = r@;
        r.push(Operation::DeleteRule(names[i].clone()));
        proof {
            assert(ops_view(r@) =~= ops_view(r_before).push(OpSpec::DeleteRule(all[i as int])));
            assert(all.subrange(0, i + 1).map_values(|n: Seq<char>| OpSpec::DeleteRule(n))
                =~= all.subrange(0, i as int).map_values(|n: Seq<char>| OpSpec::DeleteRule(n)).push(
                OpSpec::DeleteRule(all[i as int]),
            ));
        }
        i = i + 1;
    }
    let ghost r_before = r@;
    r.push(Operation::SetDefaultPolicy(Policy::AllowAll));
    proof {
        assert(all.subrange(0, all.len() as int) =~= all);
        assert(ops_view(r@) =~= ops_view(r_before).push(OpSpec::SetDefaultPolicy(Policy::AllowAll)));
        assert(ops_view(r@) =~= restore_ops(domains.deep_view()));
    }
    r
}

/// What to do after an operation was attempted.
#[derive(Clone, Copy, PartialEq, Eq, Structural, Debug)]
pub enum Step {
    /// Go on with the next operation.
    Continue,
    /// Stop and report failure: the policy switch did not take effect.
    Abort,
}

/// Only a failed policy switch ends a sequence early: a failed rule
/// operation is reported and the sequence goes on.
pub open spec fn is_fatal_failure(op: OpSpec, succeeded: bool) -> bool {
    !succeeded && op is SetDefaultPolicy
}

/// Decides whether to go on after an operation, given whether the engine
/// reported success for it.
pub fn after_attempt(op: &Operation, succeeded: bool) -> (r: Step)
    ensures
        (r == Step::Abort) == is_fatal_failure(op@, succeeded),
{
    match op {
        Operation::SetDefaultPolicy(_) => if succeeded {
            Step::Continue
        } else {
            Step::Abort
        },
        _ => Step::Continue,
    }
}

impl Config {
    /// The allow-list this tool ships with.
    pub fn standard() -> (r: Config)
        ensures
            r.name_servers.deep_view() == seq!["194.242.2.9"@, "9.9.9.9"@, "86.54.11.13"@],
            r.domains.deep_view() == seq![
                "www.google.com"@,
                "drive.google.com"@,
                "www.indiapost.gov.in"@,
                "www.amazon.in"@,
            ],
            r.local_networks.deep_view() == seq!["192.168.0.0/16"@, "10.0.0.0/8"@, "172.16.0.0/12"@],
            r.loopback@ == "127.0.0.1"@,
    {
        let r = Config {
            name_servers: vec![
                String::from_str("194.242.2.9"),
                String::from_str("9.9.9.9"),
                String::from_str("86.54.11.13"),
            ],
            domains: vec![
                String::from_str("www.google.com"),
                String::from_str("drive.google.com"),
                String::from_str("www.indiapost.gov.in"),
                String::from_str("www.amazon.in"),
            ],
            local_networks: vec![
                String::from_str("192.168.0.0/16"),
                String::from_str("10.0.0.0/8"),
                String::from_str("172.16.0.0/12"),
            ],
            loopback: String::from_str("127.0.0.1"),
        };
        proof {
            assert(r.name_servers.deep_view() =~= seq!["194.242.2.9"@, "9.9.9.9"@, "86.54.11.13"@]);
            assert(r.domains.deep_view() =~= seq![
                "www.google.com"@,
                "drive.google.com"@,
                "www.indiapost.gov.in"@,
                "www.amazon.in"@,
            ]);
            assert(r.local_networks.deep_view() =~= seq![
                "192.168.0.0/16"@,
                "10.0.0.0/8"@,
                "172.16.0.0/12"@,
            ]);
        }
        r
    }
}

} // verus!
