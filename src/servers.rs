use vstd::prelude::*;

verus! {

/// The port the resolver queries every name server on (plain UDP).
pub const DNS_PORT: u16 = 53;

/// Whether the text is an IPv4 or IPv6 address literal, as core's address
/// parser reads it.
pub uninterp spec fn ip_literal(s: Seq<char>) -> bool;

/// Relies on `str::parse::<core::net::IpAddr>`: whether the text parses as an
/// address depends on the text alone.
#[verifier::external_body]
fn parses_as_ip(s: &str) -> (r: bool)
    ensures
        r == ip_literal(s@),
{
    s.parse::<core::net::IpAddr>().is_ok()
}

/// The configured name servers that are address literals, in configured
/// order; malformed entries are dropped.
pub open spec fn valid_servers(servers: Seq<Seq<char>>) -> Seq<Seq<char>>
    decreases servers.len(),
{
    if servers.len() == 0 {
        Seq::empty()
    } else {
        let rest = valid_servers(servers.drop_last());
        if ip_literal(servers.last()) {
            rest.push(servers.last())
        } else {
            rest
        }
    }
}

/// Every server kept is an address literal taken from the configuration,
/// and every address literal of the configuration is kept.
pub proof fn law_only_address_literals_kept(servers: Seq<Seq<char>>)
    ensures
        forall|i: int|
            0 <= i < valid_servers(servers).len() ==> ip_literal(#[trigger] valid_servers(servers)[i])
                && servers.contains(valid_servers(servers)[i]),
        forall|i: int|
            0 <= i < servers.len() && ip_literal(#[trigger] servers[i]) ==> valid_servers(
                servers,
            ).contains(servers[i]),
    decreases servers.len(),
{
    if servers.len() > 0 {
        let init = servers.drop_last();
        law_only_address_literals_kept(init);
        let rest = valid_servers(init);
        assert forall|i: int|
            0 <= i < valid_servers(servers).len() implies ip_literal(
                #[trigger] valid_servers(servers)[i],
            ) && servers.contains(valid_servers(servers)[i]) by {
            let x = valid_servers(servers)[i];
            if i < rest.len() {
                assert(x == rest[i]);
                let j = choose|j: int| 0 <= j < init.len() && init[j] == x;
                assert(servers[j] == x);
            } else {
                assert(servers[servers.len() - 1] == x);
            }
        }
        assert forall|i: int|
            0 <= i < servers.len() && ip_literal(#[trigger] servers[i]) implies valid_servers(
                servers,
            ).contains(servers[i]) by {
            if i < servers.len() - 1 {
                assert(init[i] == servers[i]);
                let j = choose|j: int| 0 <= j < rest.len() && rest[j] == servers[i];
                assert(valid_servers(servers)[j] == servers[i]);
            } else {
                let v = valid_servers(servers);
                assert(v[v.len() - 1] == servers[i]);
            }
        }
    }
}

/// The name servers the resolver uses: those of the configured strings that
/// are valid address literals, in order.
pub fn active_name_servers(servers: &Vec<String>) -> (r: Vec<String>)
    ensures
        r.deep_view() == valid_servers(servers.deep_view()),
{
    let mut r: Vec<String> = Vec::new();
    let mut i: usize = 0;
    while i < servers.len()
        invariant
            i <= servers.len(),
            r.deep_view() == valid_servers(servers.deep_view().subrange(0, i as int)),
        decreases servers.len() - i,
    {
        let ghost next = servers.deep_view().subrange(0, i + 1);
        proof {
            assert(next.drop_last() =~= servers.deep_view().subrange(0, i as int));
        }
        if parses_as_ip(servers[i].as_str()) {
            r.push(servers[i].clone());
            proof {
                assert(r.deep_view() =~= valid_servers(next));
            }
        }
        i = i + 1;
    }
    proof {
        assert(servers.deep_view().subrange(0, servers.len() as int) =~= servers.deep_view());
    }
    r
}

} // verus!
