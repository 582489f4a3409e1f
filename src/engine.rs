use vstd::prelude::*;
use crate::plan::{
    DNS_RULE_NAME, LOCAL_NETWORK_RULE_NAME, LOOPBACK_RULE_NAME, OpSpec, Policy, TargetSpec, add_ops,
    domain_ops, owned_names, restore_ops, domain_rule, infrastructure_specs, run_ops,
};
use crate::rule::RuleSpec;

verus! {

/// The enforcement engine's rule table and default policy.
pub struct EngineState {
    pub rules: Seq<RuleSpec>,
    pub policy: Policy,
}

/// An engine with no rules that lets all traffic through.
pub open spec fn fresh_engine() -> EngineState {
    EngineState { rules: Seq::empty(), policy: Policy::AllowAll }
}

/// The engine after one operation. Adding a rule of a name that exists
/// adds a second entry; deleting removes every rule of that name.
pub open spec fn engine_step(s: EngineState, op: OpSpec) -> EngineState {
    match op {
        OpSpec::AddAllowRule(r) => EngineState { rules: s.rules.push(r), ..s },
        OpSpec::DeleteRule(n) => EngineState { rules: s.rules.filter(|r: RuleSpec| r.name != n), ..s },
        OpSpec::SetDefaultPolicy(p) => EngineState { policy: p, ..s },
    }
}

/// The engine after a sequence of operations, applied in order.
pub open spec fn engine_run(s: EngineState, ops: Seq<OpSpec>) -> EngineState
    decreases ops.len(),
{
    if ops.len() == 0 {
        s
    } else {
        engine_step(engine_run(s, ops.drop_last()), ops.last())
    }
}

/// Whether outbound traffic to `dest` gets through.
pub open spec fn reachable(s: EngineState, dest: Seq<char>) -> bool {
    s.policy == Policy::AllowAll || exists|k: int|
        0 <= k < s.rules.len() && #[trigger] s.rules[k].remote_targets.contains(dest)
}

/// Two engine states that hold the same rules, duplicates aside, under the
/// same policy.
pub open spec fn same_effect(a: EngineState, b: EngineState) -> bool {
    a.policy == b.policy && a.rules.to_set() == b.rules.to_set()
}

/// The rules that the operations add, in order.
pub open spec fn added_rules(ops: Seq<OpSpec>) -> Seq<RuleSpec>
    decreases ops.len(),
{
    if ops.len() == 0 {
        Seq::empty()
    } else {
        let rest = added_rules(ops.drop_last());
        match ops.last() {
            OpSpec::AddAllowRule(r) => rest.push(r),
            _ => rest,
        }
    }
}

/// The rules of the given name that the operations add, in order.
pub open spec fn rules_named(ops: Seq<OpSpec>, name: Seq<char>) -> Seq<RuleSpec>
    decreases ops.len(),
{
    if ops.len() == 0 {
        Seq::empty()
    } else {
        let rest = rules_named(ops.drop_last(), name);
        match ops.last() {
            OpSpec::AddAllowRule(r) => if r.name == name {
                rest.push(r)
            } else {
                rest
            },
            _ => rest,
        }
    }
}

pub open spec fn deletes_nothing(ops: Seq<OpSpec>) -> bool {
    forall|k: int| 0 <= k < ops.len() ==> !(#[trigger] ops[k] is DeleteRule)
}

proof fn lemma_run_without_deletes(s: EngineState, ops: Seq<OpSpec>)
    requires
        deletes_nothing(ops),
    ensures
        engine_run(s, ops).rules == s.rules + added_rules(ops),
    decreases ops.len(),
{
    if ops.len() == 0 {
        assert(s.rules + added_rules(ops) =~= s.rules);
    } else {
        let init = ops.drop_last();
        assert(deletes_nothing(init)) by {
            assert forall|k: int| 0 <= k < init.len() implies !(#[trigger] init[k] is DeleteRule) by {
                assert(init[k] == ops[k]);
            }
        }
        lemma_run_without_deletes(s, init);
        assert(!(ops[ops.len() - 1] is DeleteRule));
        match ops.last() {
            OpSpec::AddAllowRule(r) => {
                assert(engine_run(s, ops).rules =~= s.rules + added_rules(ops));
            },
            _ => {},
        }
    }
}

proof fn lemma_domain_ops_add_only(resolved: Seq<TargetSpec>)
    ensures
        forall|k: int|
            0 <= k < domain_ops(resolved).len() ==> #[trigger] domain_ops(resolved)[k] is AddAllowRule,
    decreases resolved.len(),
{
    if resolved.len() > 0 {
        lemma_domain_ops_add_only(resolved.drop_last());
    }
}

proof fn lemma_rules_named_append(a: Seq<OpSpec>, b: Seq<OpSpec>, name: Seq<char>)
    ensures
        rules_named(a + b, name) == rules_named(a, name) + rules_named(b, name),
    decreases b.len(),
{
    if b.len() == 0 {
        assert(a + b =~= a);
        assert(rules_named(a, name) + rules_named(b, name) =~= rules_named(a, name));
    } else {
        assert((a + b).drop_last() =~= a + b.drop_last());
        lemma_rules_named_append(a, b.drop_last(), name);
        assert(rules_named(a + b, name) =~= rules_named(a, name) + rules_named(b, name));
    }
}

proof fn lemma_domain_ops_unnamed(resolved: Seq<TargetSpec>, name: Seq<char>)
    requires
        forall|j: int| 0 <= j < resolved.len() ==> #[trigger] resolved[j].name != name,
    ensures
        rules_named(domain_ops(resolved), name) == Seq::<RuleSpec>::empty(),
    decreases resolved.len(),
{
    if resolved.len() > 0 {
        let init = resolved.drop_last();
        assert forall|j: int| 0 <= j < init.len() implies #[trigger] init[j].name != name by {
            assert(init[j] == resolved[j]);
        }
        lemma_domain_ops_unnamed(init, name);
        assert(resolved[resolved.len() - 1].name != name);
        if resolved.last().addresses.len() > 0 {
            assert(domain_ops(resolved).drop_last() =~= domain_ops(init));
        }
    }
}

proof fn lemma_domain_ops_named(resolved: Seq<TargetSpec>, i: int)
    requires
        0 <= i < resolved.len(),
        forall|j: int| 0 <= j < resolved.len() && j != i ==> #[trigger] resolved[j].name != resolved[i].name,
    ensures
        rules_named(domain_ops(resolved), resolved[i].name) == if resolved[i].addresses.len() > 0 {
            seq![domain_rule(resolved[i])]
        } else {
            Seq::<RuleSpec>::empty()
        },
    decreases resolved.len(),
{
    let init = resolved.drop_last();
    let name = resolved[i].name;
    if resolved.last().addresses.len() > 0 {
        assert(domain_ops(resolved).drop_last() =~= domain_ops(init));
    }
    if i == resolved.len() - 1 {
        assert forall|j: int| 0 <= j < init.len() implies #[trigger] init[j].name != name by {
            assert(init[j] == resolved[j]);
        }
        lemma_domain_ops_unnamed(init, name);
        if resolved[i].addresses.len() > 0 {
            assert(rules_named(domain_ops(resolved), name) =~= seq![domain_rule(resolved[i])]);
        }
    } else {
        assert forall|j: int| 0 <= j < init.len() && j != i implies #[trigger] init[j].name != init[i].name by {
            assert(init[j] == resolved[j]);
        }
        lemma_domain_ops_named(init, i);
        assert(init[i] == resolved[i]);
        assert(resolved[resolved.len() - 1].name != name);
    }
}

pub open spec fn is_fixed_rule_name(name: Seq<char>) -> bool {
    name == DNS_RULE_NAME@ || name == LOCAL_NETWORK_RULE_NAME@ || name == LOOPBACK_RULE_NAME@
}

/// A run creates exactly one rule for a domain that resolved to at least
/// one address, whose targets are those addresses in resolution order, and
/// none for a domain whose resolution failed. Domain names are unique and
/// differ from the names of the fixed rules.
pub proof fn law_one_rule_per_resolved_domain(
    dns_servers: Seq<Seq<char>>,
    local_networks: Seq<Seq<char>>,
    loopback: Seq<char>,
    resolved: Seq<TargetSpec>,
    i: int,
)
    requires
        0 <= i < resolved.len(),
        forall|j: int| 0 <= j < resolved.len() && j != i ==> #[trigger] resolved[j].name != resolved[i].name,
        !is_fixed_rule_name(resolved[i].name),
    ensures
        rules_named(run_ops(dns_servers, local_networks, loopback, resolved), resolved[i].name) == if resolved[i].addresses.len()
            > 0 {
            seq![RuleSpec { name: resolved[i].name, remote_targets: resolved[i].addresses }]
        } else {
            Seq::<RuleSpec>::empty()
        },
{
    let name = resolved[i].name;
    let d = domain_ops(resolved);
    let f = add_ops(infrastructure_specs(dns_servers, local_networks, loopback));
    let p = seq![OpSpec::SetDefaultPolicy(Policy::BlockAll)];
    lemma_domain_ops_named(resolved, i);
    lemma_rules_named_append(d, f, name);
    lemma_rules_named_append(d + f, p, name);
    let infra = infrastructure_specs(dns_servers, local_networks, loopback);
    let f1 = f.drop_last();
    let f2 = f1.drop_last();
    let f3 = f2.drop_last();
    assert(f.len() == 3);
    assert(rules_named(f3, name) == Seq::<RuleSpec>::empty());
    assert(f2.last() == OpSpec::AddAllowRule(infra[0]));
    assert(rules_named(f2, name) == Seq::<RuleSpec>::empty());
    assert(f1.last() == OpSpec::AddAllowRule(infra[1]));
    assert(rules_named(f1, name) == Seq::<RuleSpec>::empty());
    assert(f.last() == OpSpec::AddAllowRule(infra[2]));
    assert(rules_named(f, name) == Seq::<RuleSpec>::empty());
    assert(p.drop_last() =~= Seq::<OpSpec>::empty());
    assert(rules_named(p.drop_last(), name) == Seq::<RuleSpec>::empty());
    assert(rules_named(p, name) == Seq::<RuleSpec>::empty());
    assert(rules_named(run_ops(dns_servers, local_networks, loopback, resolved), name) =~= rules_named(d, name));
}

/// Every operation of a run before the last adds a rule, the three fixed
/// rules come right before the last whatever resolution gave, and the last
/// switches the default policy to block all.
pub proof fn law_policy_switch_last(
    dns_servers: Seq<Seq<char>>,
    local_networks: Seq<Seq<char>>,
    loopback: Seq<char>,
    resolved: Seq<TargetSpec>,
)
    ensures
        ({
            let ops = run_ops(dns_servers, local_networks, loopback, resolved);
            &&& ops.len() >= 4
            &&& ops.last() == OpSpec::SetDefaultPolicy(Policy::BlockAll)
            &&& forall|k: int| 0 <= k < ops.len() - 1 ==> #[trigger] ops[k] is AddAllowRule
            &&& ops.subrange(ops.len() - 4, ops.len() - 1) == add_ops(
                infrastructure_specs(dns_servers, local_networks, loopback),
            )
        }),
{
    let ops = run_ops(dns_servers, local_networks, loopback, resolved);
    let d = domain_ops(resolved);
    let f = add_ops(infrastructure_specs(dns_servers, local_networks, loopback));
    lemma_domain_ops_add_only(resolved);
    assert(f.len() == 3);
    assert forall|k: int| 0 <= k < ops.len() - 1 implies #[trigger] ops[k] is AddAllowRule by {
        if k < d.len() {
            assert(ops[k] == d[k]);
        } else {
            assert(ops[k] == f[k - d.len()]);
        }
    }
    assert(ops.subrange(ops.len() - 4, ops.len() - 1) =~= f);
}

/// Running twice against a fresh engine leaves the same rules, duplicates
/// aside, the same policy, and so the same reachability as running once.
pub proof fn law_run_twice_same_effect(
    dns_servers: Seq<Seq<char>>,
    local_networks: Seq<Seq<char>>,
    loopback: Seq<char>,
    resolved: Seq<TargetSpec>,
)
    ensures
        ({
            let ops = run_ops(dns_servers, local_networks, loopback, resolved);
            let once = engine_run(fresh_engine(), ops);
            let twice = engine_run(once, ops);
            &&& same_effect(twice, once)
            &&& forall|dest: Seq<char>| reachable(twice, dest) == reachable(once, dest)
        }),
{
    let ops = run_ops(dns_servers, local_networks, loopback, resolved);
    let once = engine_run(fresh_engine(), ops);
    let twice = engine_run(once, ops);
    law_policy_switch_last(dns_servers, local_networks, loopback, resolved);
    assert(deletes_nothing(ops));
    lemma_run_without_deletes(fresh_engine(), ops);
    lemma_run_without_deletes(once, ops);
    let a = added_rules(ops);
    assert(once.rules =~= a);
    assert(twice.rules == a + a);
    assert(twice.rules.to_set() =~= once.rules.to_set()) by {
        assert forall|x: RuleSpec| twice.rules.contains(x) implies once.rules.contains(x) by {
            let k = choose|k: int| 0 <= k < twice.rules.len() && twice.rules[k] == x;
            if k >= a.len() {
                assert(a[k - a.len()] == x);
            } else {
                assert(a[k] == x);
            }
        }
        assert forall|x: RuleSpec| once.rules.contains(x) implies twice.rules.contains(x) by {
            let k = choose|k: int| 0 <= k < once.rules.len() && once.rules[k] == x;
            assert(twice.rules[k] == x);
        }
    }
    assert(twice.policy == once.policy);
    assert forall|dest: Seq<char>| reachable(twice, dest) == reachable(once, dest) by {
        if once.policy != Policy::AllowAll {
            if reachable(twice, dest) {
                let k = choose|k: int|
                    0 <= k < twice.rules.len() && #[trigger] twice.rules[k].remote_targets.contains(dest);
                let kk = if k >= a.len() { k - a.len() } else { k };
                assert(twice.rules[k] == once.rules[kk]);
            }
            if reachable(once, dest) {
                let k = choose|k: int|
                    0 <= k < once.rules.len() && #[trigger] once.rules[k].remote_targets.contains(dest);
                assert(twice.rules[k] == once.rules[k]);
            }
        }
    }
}

pub open spec fn delete_ops(names: Seq<Seq<char>>) -> Seq<OpSpec> {
    names.map_values(|n: Seq<char>| OpSpec::DeleteRule(n))
}

proof fn lemma_run_deletes(s: EngineState, names: Seq<Seq<char>>)
    ensures
        engine_run(s, delete_ops(names)).policy == s.policy,
        forall|r: RuleSpec|
            #[trigger] engine_run(s, delete_ops(names)).rules.contains(r) <==> (s.rules.contains(r)
                && !names.contains(r.name)),
    decreases names.len(),
{
    let ops = delete_ops(names);
    if names.len() == 0 {
        assert(ops.len() == 0);
    } else {
        let init = names.drop_last();
        lemma_run_deletes(s, init);
        assert(ops.drop_last() =~= delete_ops(init));
        let before = engine_run(s, delete_ops(init));
        let n = names.last();
        let pred = |r: RuleSpec| r.name != n;
        let after = engine_run(s, ops);
        assert(after.rules == before.rules.filter(pred));
        broadcast use vstd::seq_lib::group_filter_ensures;

        assert forall|r: RuleSpec| #[trigger] after.rules.contains(r) <==> (s.rules.contains(r)
            && !names.contains(r.name)) by {
            if after.rules.contains(r) {
                let k = choose|k: int| 0 <= k < after.rules.len() && after.rules[k] == r;
                assert(pred(after.rules[k]));
                before.rules.lemma_filter_contains_rev(pred, r);
                assert(before.rules.contains(r));
                if names.contains(r.name) {
                    let j = choose|j: int| 0 <= j < names.len() && names[j] == r.name;
                    if j < names.len() - 1 {
                        assert(init[j] == r.name);
                    }
                }
            }
            if s.rules.contains(r) && !names.contains(r.name) {
                assert forall|j: int| 0 <= j < init.len() implies init[j] != r.name by {
                    assert(names[j] == init[j]);
                }
                assert(!init.contains(r.name));
                assert(before.rules.contains(r));
                let k = choose|k: int| 0 <= k < before.rules.len() && before.rules[k] == r;
                assert(names[names.len() - 1] == n);
                assert(pred(before.rules[k]));
                before.rules.lemma_filter_contains(pred, k);
            }
        }
    }
}

/// A restore, from any engine state, removes exactly the rules a run with
/// these domains may have created, keeps every other rule, and leaves all
/// traffic allowed.
pub proof fn law_restore_removes_owned_rules(s: EngineState, domains: Seq<Seq<char>>)
    ensures
        ({
            let after = engine_run(s, restore_ops(domains));
            &&& after.policy == Policy::AllowAll
            &&& forall|r: RuleSpec|
                #[trigger] after.rules.contains(r) <==> (s.rules.contains(r) && !owned_names(
                    domains,
                ).contains(r.name))
        }),
{
    let names = owned_names(domains);
    let ops = restore_ops(domains);
    lemma_run_deletes(s, names);
    assert(ops.drop_last() =~= delete_ops(names));
}

} // verus!
