use vstd::prelude::*;

verus! {

/// The separator between remote targets in a rule's address filter.
pub open spec fn comma() -> Seq<char> {
    seq![',']
}

/// The targets joined into one comma-separated address filter.
pub open spec fn join_commas(targets: Seq<Seq<char>>) -> Seq<char>
    decreases targets.len(),
{
    if targets.len() == 0 {
        Seq::empty()
    } else if targets.len() == 1 {
        targets[0]
    } else {
        join_commas(targets.drop_last()) + comma() + targets.last()
    }
}

/// What a rule is, as plain values.
pub struct RuleSpec {
    pub name: Seq<char>,
    pub remote_targets: Seq<Seq<char>>,
}

/// An outbound allow rule: traffic to any of `remote_targets` (IP addresses
/// or CIDR ranges) is permitted. The name identifies the rule in the engine.
#[derive(Clone, Debug, PartialEq, Eq)]
pub struct FirewallRule {
    pub name: String,
    pub remote_targets: Vec<String>,
}

impl View for FirewallRule {
    type V = RuleSpec;

    open spec fn view(&self) -> RuleSpec {
        RuleSpec { name: self.name@, remote_targets: self.remote_targets.deep_view() }
    }
}

/// Copies a list of strings, element by element.
pub fn copy_strings(v: &Vec<String>) -> (r: Vec<String>)
    ensures
        r.deep_view() == v.deep_view(),
{
    let r = v.clone();
    proof {
        assert(r.deep_view() =~= v.deep_view());
    }
    r
}

/// Builds the allow rule for one allow-list entry. The targets are kept as
/// given, in order; an empty list still yields a rule, which callers must
/// not apply.
pub fn build_rule(name: &str, remote_targets: &Vec<String>) -> (r: FirewallRule)
    ensures
        r@ == (RuleSpec { name: name@, remote_targets: remote_targets.deep_view() }),
{
    FirewallRule { name: String::from_str(name), remote_targets: copy_strings(remote_targets) }
}

/// The comma-separated address filter of a list of targets.
pub fn remote_filter(targets: &[String]) -> (r: String)
    ensures
        r@ == join_commas(targets.deep_view()),
{
    let mut r = String::new();
    let mut i: usize = 0;
    while i < targets.len()
        invariant
            i <= targets.len(),
            r@ == join_commas(targets.deep_view().subrange(0, i as int)),
        decreases targets.len() - i,
    {
        let ghost before = targets.deep_view().subrange(0, i as int);
        let ghost after = targets.deep_view().subrange(0, i + 1);
        proof {
            assert(after.drop_last() =~= before);
        }
        if i > 0 {
            r.append(",");
            proof {
                reveal_strlit(",");
                assert(","@ =~= comma());
            }
        }
        r.append(targets[i].as_str());
        proof {
            if i == 0 {
                assert(r@ =~= after[0]);
            }
        }
        i = i + 1;
    }
    proof {
        assert(targets.deep_view().subrange(0, targets.len() as int) =~= targets.deep_view());
    }
    r
}

} // verus!
