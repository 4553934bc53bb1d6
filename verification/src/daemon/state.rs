//! What the daemon knows.

use vstd::arithmetic::power2::pow2;
use vstd::prelude::*;

use crate::error::{ErrorView, MapEError};
use crate::map::calc::{assigned, computable, compute_mape_params, is_computable, lengths_agree};
use crate::map::rule::{CeFormat, MapRule, MapeParams};
use crate::net::Ipv6Net;

verus! {

/// The state of the daemon. `E` is the handle of the packet translation.
pub struct DaemonState<E> {
    /// The mapping rules that were received last, or kept from the last run.
    pub pending_map_rules: Option<Vec<MapRule>>,
    /// The delegated prefix that was received last.
    pub pending_ia_pd: Option<Ipv6Net>,
    /// What was computed from both.
    pub params: Option<MapeParams>,
    /// The index of the tunnel, while there is one.
    pub tunnel_ifindex: Option<u32>,
    /// What IPv4 forwarding was set to before the daemon set it.
    pub original_ip_forward: Option<String>,
    /// What IPv6 forwarding was set to before the daemon set it.
    pub original_ipv6_forward: Option<String>,
    /// The packet translation, while there is one.
    pub ebpf: Option<E>,
}

/// Whether a rule covers the delegated prefix and its lengths agree with it.
pub open spec fn fits(rule: MapRule, ce: Ipv6Net) -> bool {
    rule.ipv6_prefix.spec_contains(ce.addr) && lengths_agree(ce, rule)
}

/// The first rule that fits the delegated prefix.
pub open spec fn first_fit(rules: Seq<MapRule>, ce: Ipv6Net) -> Option<MapRule>
    decreases rules.len(),
{
    if rules.len() == 0 {
        None
    } else if fits(rules[0], ce) {
        Some(rules[0])
    } else {
        first_fit(rules.drop_first(), ce)
    }
}

/// Whether a rule covers the delegated prefix, be its lengths what they may.
pub open spec fn covered(rules: Seq<MapRule>, ce: Ipv6Net) -> bool {
    exists|i: int| 0 <= i < rules.len() && (#[trigger] rules[i]).ipv6_prefix.spec_contains(ce.addr)
}

/// Whether the mapping is defined for every rule that covers the prefix, up to the first that
/// fits.
pub open spec fn supported(rules: Seq<MapRule>, ce: Ipv6Net, format: CeFormat) -> bool
    decreases rules.len(),
{
    if rules.len() == 0 {
        true
    } else {
        &&& rules[0].ipv6_prefix.spec_contains(ce.addr) ==> computable(ce, rules[0], format)
        &&& fits(rules[0], ce) || supported(rules.drop_first(), ce, format)
    }
}

/// Whether the mapping is defined for every rule that covers the prefix, up to the first that
/// fits.
pub fn is_supported(rules: &Vec<MapRule>, ce: Ipv6Net, format: CeFormat) -> (r: bool)
    ensures
        r == supported(rules@, ce, format),
{
    let mut i: usize = 0;
    proof {
        assert(rules@.skip(0) =~= rules@);
    }
    while i < rules.len()
        invariant
            i <= rules.len(),
            supported(rules@.skip(i as int), ce, format) == supported(rules@, ce, format),
        decreases rules.len() - i,
    {
        proof {
            assert(rules@.skip(i as int).drop_first() =~= rules@.skip(i + 1));
        }
        let rule = rules[i];
        if rule.ipv6_prefix.contains(ce.addr) {
            if !is_computable(ce, &rule, format) {
                return false;
            }
            if ce.prefix_len as u32 == rule.ipv6_prefix.prefix_len as u32 + rule.ea_length as u32 {
                return true;
            }
        }
        i = i + 1;
    }
    true
}

/// What is known of rules and prefix, if there are both.
pub open spec fn pending<E>(s: DaemonState<E>) -> Option<(Seq<MapRule>, Ipv6Net)> {
    match (s.pending_map_rules, s.pending_ia_pd) {
        (Some(rules), Some(ce)) => if rules@.len() > 0 {
            Some((rules@, ce))
        } else {
            None
        },
        _ => None,
    }
}

/// Whether two states differ at most in what was computed.
pub open spec fn same_but_params<E>(a: DaemonState<E>, b: DaemonState<E>) -> bool {
    &&& a.pending_map_rules == b.pending_map_rules
    &&& a.pending_ia_pd == b.pending_ia_pd
    &&& a.tunnel_ifindex == b.tunnel_ifindex
    &&& a.original_ip_forward == b.original_ip_forward
    &&& a.original_ipv6_forward == b.original_ipv6_forward
    &&& a.ebpf == b.ebpf
}

/// The error where no rule fits: that of the computation if a rule covers the prefix, else that
/// none does.
pub open spec fn misfit(rules: Seq<MapRule>, ce: Ipv6Net) -> ErrorView {
    if covered(rules, ce) {
        ErrorView::InvalidCePrefix
    } else {
        ErrorView::NoPrefixMatch
    }
}

/// What comes of a computation: nothing while rules or prefix are missing, an error if no rule
/// fits, and else what the first rule that fits assigns.
pub open spec fn computed<E>(
    r: Result<bool, MapEError>,
    before: DaemonState<E>,
    after: DaemonState<E>,
    format: CeFormat,
) -> bool {
    match pending(before) {
        None => r matches Ok(false) && after.params == before.params,
        Some((rules, ce)) => match first_fit(rules, ce) {
            None => (r matches Err(e) && e@ == misfit(rules, ce)) && after.params
                == before.params,
            Some(rule) => r matches Ok(true) && after.params is Some && assigned(
                after.params->Some_0,
                ce,
                rule,
                format,
            ),
        },
    }
}

/// Whether the mapping is defined for what is known.
pub open spec fn ready<E>(s: DaemonState<E>, format: CeFormat) -> bool {
    pending(s) matches Some((rules, ce)) ==> supported(rules, ce, format)
}

impl<E> Default for DaemonState<E> {
    /// Nothing is known and nothing is set up.
    fn default() -> (r: DaemonState<E>)
        ensures
            r.pending_map_rules is None,
            r.pending_ia_pd is None,
            r.params is None,
            r.tunnel_ifindex is None,
            r.original_ip_forward is None,
            r.original_ipv6_forward is None,
            r.ebpf is None,
    {
        DaemonState {
            pending_map_rules: None,
            pending_ia_pd: None,
            params: None,
            tunnel_ifindex: None,
            original_ip_forward: None,
            original_ipv6_forward: None,
            ebpf: None,
        }
    }
}

impl<E> DaemonState<E> {
    /// Nothing is known and nothing is set up.
    pub fn new() -> (r: DaemonState<E>)
        ensures
            r.pending_map_rules is None,
            r.pending_ia_pd is None,
            r.params is None,
            r.tunnel_ifindex is None,
            r.original_ip_forward is None,
            r.original_ipv6_forward is None,
            r.ebpf is None,
    {
        DaemonState::default()
    }

    /// Computes what the first rule that fits assigns to the delegated prefix.
    pub fn try_compute(&mut self, format: CeFormat) -> (r: Result<bool, MapEError>)
        requires
            ready(*old(self), format),
        ensures
            same_but_params(*final(self), *old(self)),
            computed(r, *old(self), *final(self), format),
    {
        let ce = match self.pending_ia_pd {
            Some(p) => p,
            None => {
                return Ok(false);
            },
        };
        let mut found: Option<MapeParams> = None;
        let mut last_error = MapEError::NoPrefixMatch;
        match &self.pending_map_rules {
            None => {
                return Ok(false);
            },
            Some(rules) => {
                if rules.len() == 0 {
                    return Ok(false);
                }
                let ghost all = rules@;
                proof {
                    assert(!covered(all.take(0), ce));
                }
                let mut i: usize = 0;
                proof {
                    assert(all.skip(0) =~= all);
                }
                while i < rules.len() && found.is_none()
                    invariant
                        all == rules@,
                        i <= rules.len(),
                        match found {
                            None => {
                                &&& first_fit(all.skip(i as int), ce) == first_fit(all, ce)
                                &&& supported(all.skip(i as int), ce, format)
                                &&& last_error@ == misfit(all.take(i as int), ce)
                            },
                            Some(p) => {
                                &&& first_fit(all, ce) is Some
                                &&& assigned(p, ce, first_fit(all, ce)->Some_0, format)
                            },
                        },
                    decreases rules.len() - i,
                {
                    let rule = rules[i];
                    proof {
                        assert(all.skip(i as int).drop_first() =~= all.skip(i + 1));
                        assert(all.skip(i as int)[0] == rule);
                        lemma_covered_by_one_more(all, i as int, ce);
                    }
                    if rule.ipv6_prefix.contains(ce.addr) {
                        match compute_mape_params(ce, &rule, format) {
                            Ok(p) => {
                                found = Some(p);
                            },
                            Err(e) => {
                                last_error = e;
                            },
                        }
                    }
                    i = i + 1;
                }
                proof {
                    assert(all.take(all.len() as int) =~= all);
                }
            },
        }
        match found {
            Some(p) => {
                self.params = Some(p);
                Ok(true)
            },
            None => Err(last_error),
        }
    }
}

/// What is covered by one more rule.
proof fn lemma_covered_by_one_more(rules: Seq<MapRule>, i: int, ce: Ipv6Net)
    requires
        0 <= i < rules.len(),
    ensures
        covered(rules.take(i + 1), ce) <==> covered(rules.take(i), ce)
            || rules[i].ipv6_prefix.spec_contains(ce.addr),
{
    let (x, y) = (rules.take(i), rules.take(i + 1));
    assert(y[i] == rules[i]);
    if covered(x, ce) {
        let j = choose|j: int|
            0 <= j < x.len() && (#[trigger] x[j]).ipv6_prefix.spec_contains(ce.addr);
        assert(y[j] == x[j]);
    }
    if covered(y, ce) {
        let j = choose|j: int|
            0 <= j < y.len() && (#[trigger] y[j]).ipv6_prefix.spec_contains(ce.addr);
        if j < i {
            assert(x[j] == y[j]);
        }
    }
}

/// Whether the delegated prefix lies under a rule: the two agree in the first bits, as many as the
/// rule prefix is long.
pub open spec fn lies_under(ce: Ipv6Net, rule: MapRule) -> bool {
    let n = pow2((128 - rule.ipv6_prefix.prefix_len) as nat) as int;
    ce.addr.bits as int / n == rule.ipv6_prefix.addr.bits as int / n
}

/// Whether a rule is for the delegated prefix: the prefix lies under it and is as long as the rule
/// prefix and the EA bits together.
pub open spec fn is_for(rule: MapRule, ce: Ipv6Net) -> bool {
    lies_under(ce, rule) && ce.prefix_len == rule.ipv6_prefix.prefix_len + rule.ea_length
}

proof fn lemma_rule_that_is_for_fits(rule: MapRule, ce: Ipv6Net)
    requires
        rule.ipv6_prefix.prefix_len <= 128,
    ensures
        fits(rule, ce) <==> is_for(rule, ce),
        rule.ipv6_prefix.spec_contains(ce.addr) <==> lies_under(ce, rule),
{
    crate::net::lemma_contains_compares_first_bits(rule.ipv6_prefix, ce.addr);
}

/// The first rule that is for the delegated prefix is the one that counts; where there is none, no
/// rule fits, and it is told apart whether one covers the prefix at all.
pub proof fn lemma_first_rule_that_is_for(rules: Seq<MapRule>, ce: Ipv6Net, i: int)
    requires
        0 <= i <= rules.len(),
        forall|j: int| 0 <= j < rules.len() ==> (#[trigger] rules[j]).ipv6_prefix.prefix_len <= 128,
        forall|j: int| 0 <= j < i ==> !is_for(#[trigger] rules[j], ce),
    ensures
        i < rules.len() && is_for(rules[i], ce) ==> first_fit(rules, ce) == Some(rules[i]),
        i == rules.len() ==> first_fit(rules, ce) is None,
        i == rules.len() ==> misfit(rules, ce) == (if exists|j: int|
            0 <= j < rules.len() && lies_under(ce, #[trigger] rules[j]) {
            ErrorView::InvalidCePrefix
        } else {
            ErrorView::NoPrefixMatch
        }),
        covered(rules, ce) <==> exists|j: int|
            0 <= j < rules.len() && lies_under(ce, #[trigger] rules[j]),
    decreases rules.len(),
{
    assert forall|j: int| 0 <= j < rules.len() implies (rules[j].ipv6_prefix.spec_contains(ce.addr)
        <==> #[trigger] lies_under(ce, rules[j])) by {
        lemma_rule_that_is_for_fits(rules[j], ce);
    }
    if covered(rules, ce) {
        let j = choose|j: int|
            0 <= j < rules.len() && (#[trigger] rules[j]).ipv6_prefix.spec_contains(ce.addr);
        assert(lies_under(ce, rules[j]));
    }
    if exists|j: int| 0 <= j < rules.len() && lies_under(ce, #[trigger] rules[j]) {
        let j = choose|j: int| 0 <= j < rules.len() && lies_under(ce, #[trigger] rules[j]);
        assert(rules[j].ipv6_prefix.spec_contains(ce.addr));
    }
    if rules.len() > 0 {
        lemma_rule_that_is_for_fits(rules[0], ce);
        if i > 0 {
            let rest = rules.drop_first();
            assert(!is_for(rules[0], ce));
            assert forall|j: int| 0 <= j < rest.len() implies (
            #[trigger] rest[j]).ipv6_prefix.prefix_len <= 128 by {
                assert(rest[j] == rules[j + 1]);
            }
            assert forall|j: int| 0 <= j < i - 1 implies !is_for(#[trigger] rest[j], ce) by {
                assert(rest[j] == rules[j + 1]);
            }
            lemma_first_rule_that_is_for(rest, ce, i - 1);
        }
    }
}

/// What a computation comes to, from rules and prefix to the mapping: where the first rule that is
/// for the prefix is found, what that rule assigns to it; without rules or prefix, nothing; else
/// an error, and what was computed before stays.
pub proof fn lemma_computation<E>(
    r: Result<bool, MapEError>,
    before: DaemonState<E>,
    after: DaemonState<E>,
    format: CeFormat,
    i: int,
)
    requires
        computed(r, before, after, format),
        before.pending_map_rules matches Some(rules) ==> {
            &&& 0 <= i <= rules@.len()
            &&& forall|j: int|
                0 <= j < rules@.len() ==> (#[trigger] rules@[j]).ipv6_prefix.prefix_len <= 128
            &&& before.pending_ia_pd matches Some(ce) ==> forall|j: int|
                0 <= j < i ==> !is_for(#[trigger] rules@[j], ce)
        },
    ensures
        before.pending_map_rules is None || before.pending_ia_pd is None
            || before.pending_map_rules->Some_0@.len() == 0 ==> (r matches Ok(false))
            && after.params == before.params,
        before.pending_map_rules matches Some(rules) ==> before.pending_ia_pd matches Some(ce)
            ==> rules@.len() > 0 ==> {
            &&& i < rules@.len() && is_for(rules@[i], ce) ==> (r matches Ok(true)) && after.params
                is Some && assigned(after.params->Some_0, ce, rules@[i], format)
            &&& i == rules@.len() ==> r is Err && after.params == before.params
        },
{
    if let Some(rules) = before.pending_map_rules {
        if let Some(ce) = before.pending_ia_pd {
            lemma_first_rule_that_is_for(rules@, ce, i);
        }
    }
}

} // verus!
