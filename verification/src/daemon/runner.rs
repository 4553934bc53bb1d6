//! What the daemon makes of its events.
//!
//! Each event leads to a decision: nothing to do, or which task of [`crate::daemon::lifecycle`]
//! is to run. How that task ends decides which one follows it.

use vstd::prelude::*;
use vstd::string::*;

use crate::config::Config;
use crate::daemon::lifecycle::{
    apply, apply_of, changed, cleanup, cleanup_of, has_changed, interfaces,
    lemma_computed_again_is_unchanged, set_up, target_of, update, update_from, Interfaces, Next,
    NextView, OpView, Phase, SetUp, Sysctl, Task,
};
use crate::daemon::state::{
    covered, first_fit, is_for, lemma_first_rule_that_is_for, lies_under, pending, ready,
    same_but_params, DaemonState,
};
use crate::error::{ErrorView, MapEError};
use crate::map::calc::assigned;
use crate::map::port_set::proper;
use crate::map::rule::{CeFormat, MapRule, MapeParams};
use crate::net::Ipv6Net;
use crate::nftables::fresh_ranges;

verus! {

/// What is to be done.
#[derive(Clone, Debug)]
pub enum Decision {
    /// Rules or prefix are still missing.
    Wait,
    /// With fixed rules the delegated prefix is not as long as it has to be: it is left aside,
    /// and what is set up stays.
    BadLength,
    /// No rule covers the delegated prefix. It is dropped; what is set up stays.
    NoRule,
    /// A rule covers the delegated prefix, but its lengths do not agree with it. It is dropped;
    /// what is set up stays.
    Misfit,
    /// What is set up is right.
    Keep,
    /// Nothing is set up: the computed mapping is to be.
    Apply,
    /// What is set up for this mapping is to be changed to the computed one.
    Update(MapeParams),
    /// What is set up is to be taken down, and the computed mapping set up: its port parameters
    /// are others than those of this mapping, or for which mapping it was set up is not known
    /// any more.
    Rebuild(Option<MapeParams>),
}

/// The length of a delegated prefix to which fixed rules apply.
pub const STATIC_PREFIX_LEN: u8 = 56;

/// Whether a delegated prefix is taken up: with fixed rules, only one of the right length.
pub open spec fn takes_prefix(config: Config, prefix: Ipv6Net) -> bool {
    config.use_v6plus_static_rules ==> prefix.prefix_len == STATIC_PREFIX_LEN
}

/// Whether the ranges of the mapping can be read.
pub open spec fn sound<E>(s: DaemonState<E>) -> bool {
    s.params matches Some(p) ==> fresh_ranges(p.port_ranges@)
}

/// What is decided once something has been computed, or could not be.
pub open spec fn decided<E>(
    d: Decision,
    before: DaemonState<E>,
    after: DaemonState<E>,
    format: CeFormat,
) -> bool {
    match pending(before) {
        None => d is Wait && after.params == before.params,
        Some((rules, ce)) => match first_fit(rules, ce) {
            None => {
                &&& after.params == before.params
                &&& after.pending_ia_pd is None
                &&& if covered(rules, ce) {
                    d is Misfit
                } else {
                    d is NoRule
                }
            },
            Some(rule) => {
                &&& after.params is Some
                &&& assigned(after.params->Some_0, ce, rule, format)
                &&& match (before.tunnel_ifindex, before.params) {
                    (None, _) => d is Apply,
                    (Some(_), None) => d == Decision::Rebuild(None),
                    (Some(_), Some(p)) => if p.rule.port_params
                        != after.params->Some_0.rule.port_params {
                        d == Decision::Rebuild(Some(p))
                    } else if changed(p, after.params->Some_0) {
                        d == Decision::Update(p)
                    } else {
                        d is Keep
                    },
                }
            },
        },
    }
}

/// The state after a decision: a prefix that no rule fits is dropped, for the next one to come.
pub open spec fn sifted<E>(d: Decision, s: DaemonState<E>) -> DaemonState<E> {
    if d is NoRule || d is Misfit {
        DaemonState { pending_ia_pd: None, ..s }
    } else {
        s
    }
}

/// The state with rules and prefix replaced.
pub open spec fn told<E>(
    s: DaemonState<E>,
    rules: Option<Vec<MapRule>>,
    prefix: Ipv6Net,
) -> DaemonState<E> {
    DaemonState { pending_map_rules: rules, pending_ia_pd: Some(prefix), ..s }
}

/// Computes the mapping from what is known and decides what is to be done about it.
pub fn apply_if_ready<E>(state: &mut DaemonState<E>, format: CeFormat) -> (r: Decision)
    requires
        sound(*old(state)),
        ready(*old(state), format),
    ensures
        decided(r, *old(state), *final(state), format),
        same_but_params(*final(state), sifted(r, *old(state))),
        sound(*final(state)),
{
    let before = state.params.take();
    let outcome = state.try_compute(format);
    match outcome {
        Ok(false) => {
            state.params = before;
            Decision::Wait
        },
        Err(MapEError::NoPrefixMatch) => {
            state.params = before;
            state.pending_ia_pd = None;
            Decision::NoRule
        },
        Err(_) => {
            state.params = before;
            state.pending_ia_pd = None;
            Decision::Misfit
        },
        Ok(true) => {
            proof {
                let p = state.params->Some_0;
                assert forall|i: int| 0 <= i < p.port_ranges@.len() implies !(
                #[trigger] p.port_ranges@[i])@.exhausted by {
                    assert(proper(p.port_ranges@[i]));
                }
            }
            if state.tunnel_ifindex.is_none() {
                return Decision::Apply;
            }
            match before {
                None => Decision::Rebuild(None),
                Some(p) => match &state.params {
                    None => Decision::Wait,
                    Some(q) => if p.rule.port_params != q.rule.port_params {
                        Decision::Rebuild(Some(p))
                    } else if has_changed(&p, q) {
                        Decision::Update(p)
                    } else {
                        Decision::Keep
                    },
                },
            }
        },
    }
}

/// A prefix has been delegated.
pub fn handle_ia_pd<E>(state: &mut DaemonState<E>, prefix: Ipv6Net, config: &Config) -> (r: Decision)
    requires
        sound(*old(state)),
        takes_prefix(*config, prefix) ==> ready(
            told(*old(state), old(state).pending_map_rules, prefix),
            config.spec_ce_format(),
        ),
    ensures
        !takes_prefix(*config, prefix) ==> r is BadLength && *final(state) == *old(state),
        takes_prefix(*config, prefix) ==> decided(
            r,
            told(*old(state), old(state).pending_map_rules, prefix),
            *final(state),
            config.spec_ce_format(),
        ) && same_but_params(
            *final(state),
            sifted(r, told(*old(state), old(state).pending_map_rules, prefix)),
        ),
        sound(*final(state)),
{
    if config.use_v6plus_static_rules && prefix.prefix_len != STATIC_PREFIX_LEN {
        return Decision::BadLength;
    }
    state.pending_ia_pd = Some(prefix);
    apply_if_ready(state, config.ce_format())
}

/// Whether the rules in a reply are taken over and kept for the next start.
pub fn takes_rules(config: &Config) -> (r: bool)
    ensures
        r == !config.use_v6plus_static_rules,
{
    !config.use_v6plus_static_rules
}

/// The rules that hold after a reply.
pub open spec fn rules_after<E>(s: DaemonState<E>, rules: Vec<MapRule>, config: Config) -> Option<
    Vec<MapRule>,
> {
    if config.use_v6plus_static_rules {
        s.pending_map_rules
    } else {
        Some(rules)
    }
}

/// A reply has brought rules and a prefix. With fixed rules, only the prefix counts, and only if
/// it is of the right length.
pub fn handle_both<E>(
    state: &mut DaemonState<E>,
    rules: Vec<MapRule>,
    ia_pd: Ipv6Net,
    config: &Config,
) -> (r: Decision)
    requires
        sound(*old(state)),
        takes_prefix(*config, ia_pd) ==> ready(
            told(*old(state), rules_after(*old(state), rules, *config), ia_pd),
            config.spec_ce_format(),
        ),
    ensures
        !takes_prefix(*config, ia_pd) ==> r is BadLength && *final(state) == *old(state),
        takes_prefix(*config, ia_pd) ==> decided(
            r,
            told(*old(state), rules_after(*old(state), rules, *config), ia_pd),
            *final(state),
            config.spec_ce_format(),
        ) && same_but_params(
            *final(state),
            sifted(r, told(*old(state), rules_after(*old(state), rules, *config), ia_pd)),
        ),
        sound(*final(state)),
{
    if config.use_v6plus_static_rules && ia_pd.prefix_len != STATIC_PREFIX_LEN {
        return Decision::BadLength;
    }
    if takes_rules(config) {
        state.pending_map_rules = Some(rules);
    }
    state.pending_ia_pd = Some(ia_pd);
    apply_if_ready(state, config.ce_format())
}

/// Whether a fixed rule is one to start with: port parameters of sixteen bits at most, room for
/// the PSID in the EA bits, and just as many EA bits as a prefix of the right length leaves.
pub open spec fn usable_fixed(rule: MapRule) -> bool {
    &&& rule.port_params.psid_offset + rule.port_params.psid_length <= 16
    &&& rule.ea_length >= rule.port_params.psid_length
    &&& rule.ipv6_prefix.prefix_len + rule.ea_length == STATIC_PREFIX_LEN
}

/// What is said of fixed rules of which there are none.
pub const NO_FIXED_RULES: &'static str = "use_v6plus_static_rules is set but there are no rules";

/// What is said of a fixed rule that cannot be used.
pub const BAD_FIXED_RULE: &'static str = "a static rule breaks the conditions of v6plus";

/// The error in fixed rules, if they have one.
pub open spec fn fixed_error(fixed: Seq<MapRule>) -> Option<ErrorView> {
    if fixed.len() == 0 {
        Some(ErrorView::InvalidConfig(NO_FIXED_RULES@))
    } else if forall|i: int| 0 <= i < fixed.len() ==> usable_fixed(#[trigger] fixed[i]) {
        None
    } else {
        Some(ErrorView::InvalidConfig(BAD_FIXED_RULE@))
    }
}

/// The rules at the start: the fixed ones if they are to be used, else those kept from the last
/// run. Without usable fixed rules, a start that is to use them fails.
pub fn initial_rules(config: &Config, fixed: Vec<MapRule>, kept: Option<Vec<MapRule>>) -> (r: Result<
    Option<Vec<MapRule>>,
    MapEError,
>)
    ensures
        !config.use_v6plus_static_rules ==> r == Ok::<Option<Vec<MapRule>>, MapEError>(kept),
        config.use_v6plus_static_rules ==> match fixed_error(fixed@) {
            Some(e) => r matches Err(v) && v@ == e,
            None => r == Ok::<Option<Vec<MapRule>>, MapEError>(Some(fixed)),
        },
{
    if !config.use_v6plus_static_rules {
        return Ok(kept);
    }
    if fixed.len() == 0 {
        return Err(MapEError::InvalidConfig(String::from_str(NO_FIXED_RULES)));
    }
    let mut i: usize = 0;
    while i < fixed.len()
        invariant
            config.use_v6plus_static_rules,
            fixed@.len() > 0,
            i <= fixed@.len(),
            forall|j: int| 0 <= j < i ==> usable_fixed(#[trigger] fixed@[j]),
        decreases fixed@.len() - i,
    {
        let rule = fixed[i];
        let a: u32 = rule.port_params.psid_offset as u32;
        let k: u32 = rule.port_params.psid_length as u32;
        let len: u32 = rule.ipv6_prefix.prefix_len as u32;
        let ea: u32 = rule.ea_length as u32;
        if a + k > 16 || ea < k || len + ea != STATIC_PREFIX_LEN as u32 {
            assert(!usable_fixed(fixed@[i as int]));
            return Err(MapEError::InvalidConfig(String::from_str(BAD_FIXED_RULE)));
        }
        i = i + 1;
    }
    Ok(Some(fixed))
}

/// Setting up or changing has failed, and what was set up has been taken down: the mapping is
/// forgotten, so that the next event sets it up from the start.
pub fn reset<E>(state: &mut DaemonState<E>)
    ensures
        final(state).params is None,
        same_but_params(*final(state), *old(state)),
        sound(*final(state)),
{
    state.params = None;
}

/// How far the daemon is with what it has decided.
#[derive(Clone, Debug)]
pub enum Stage {
    /// What is set up is being taken down, to make room for the computed mapping.
    Clearing,
    /// The computed mapping is being set up.
    SettingUp,
    /// What is set up for this mapping is being changed to the computed one.
    Changing(MapeParams),
    /// What is set up is being taken down for good. After that, so is what belongs to this
    /// mapping, if there is one.
    Undoing(Option<MapeParams>),
}

/// A stage and the task that it runs, with the task's texts as character sequences.
pub open spec fn shown_work(work: Option<(Stage, Next)>) -> Option<(Stage, NextView)> {
    match work {
        Some((stage, next)) => Some((stage, next@)),
        None => None,
    }
}

/// What a decision begins with, where this mapping has been computed.
pub open spec fn first_work(d: Decision, params: MapeParams, s: SetUp, names: Interfaces) -> Option<
    (Stage, NextView),
> {
    match d {
        Decision::Apply => Some((Stage::SettingUp, apply_of(target_of(params)))),
        Decision::Update(old) => Some((Stage::Changing(old), update_from(old, params, s, names))),
        Decision::Rebuild(Some(old)) => Some((Stage::Clearing, cleanup_of(target_of(old)))),
        Decision::Rebuild(None) => Some((Stage::Clearing, cleanup_of(target_of(params)))),
        _ => None,
    }
}

/// What follows the task of a stage. A mapping that could not be set up is taken down again. After
/// a change that failed, both the mapping that it led to and the one that it came from are.
pub open spec fn next_work(stage: Stage, params: MapeParams, failed: bool) -> Option<
    (Stage, NextView),
> {
    match stage {
        Stage::Clearing => Some((Stage::SettingUp, apply_of(target_of(params)))),
        Stage::SettingUp => if failed {
            Some((Stage::Undoing(None), cleanup_of(target_of(params))))
        } else {
            None
        },
        Stage::Changing(old) => if failed {
            Some((Stage::Undoing(Some(old)), cleanup_of(target_of(params))))
        } else {
            None
        },
        Stage::Undoing(Some(old)) => Some((Stage::Undoing(None), cleanup_of(target_of(old)))),
        Stage::Undoing(None) => None,
    }
}

/// Begins with what has been decided.
pub fn begin_work<E>(state: &DaemonState<E>, config: &Config, d: Decision) -> (r: Option<
    (Stage, Next),
>)
    requires
        sound(*state),
        d matches Decision::Update(old) ==> fresh_ranges(old.port_ranges@),
    ensures
        shown_work(r) == match state.params {
            Some(p) => first_work(d, p, set_up(*state), interfaces(*config)),
            None => None,
        },
{
    let params = match &state.params {
        Some(p) => p,
        None => {
            return None;
        },
    };
    match d {
        Decision::Apply => Some((Stage::SettingUp, apply(params))),
        Decision::Update(old) => {
            let next = update(state, config, &old, params);
            Some((Stage::Changing(old), next))
        },
        Decision::Rebuild(Some(old)) => Some((Stage::Clearing, cleanup(&old))),
        Decision::Rebuild(None) => Some((Stage::Clearing, cleanup(params))),
        _ => None,
    }
}

/// Goes on after the task of a stage. Once what failed has been taken down, the mapping is
/// forgotten.
pub fn follow_up<E>(
    state: &mut DaemonState<E>,
    stage: Stage,
    result: &Result<(), MapEError>,
) -> (r: Option<(Stage, Next)>)
    requires
        sound(*old(state)),
    ensures
        shown_work(r) == match old(state).params {
            Some(p) => next_work(stage, p, *result is Err),
            None => None,
        },
        final(state).params == if stage == Stage::Undoing(None) {
            None
        } else {
            old(state).params
        },
        same_but_params(*final(state), *old(state)),
        sound(*final(state)),
{
    if let Stage::Undoing(None) = stage {
        reset(state);
        return None;
    }
    let params = match &state.params {
        Some(p) => p,
        None => {
            return None;
        },
    };
    let failed = result.is_err();
    match stage {
        Stage::Clearing => Some((Stage::SettingUp, apply(params))),
        Stage::SettingUp => if failed {
            Some((Stage::Undoing(None), cleanup(params)))
        } else {
            None
        },
        Stage::Changing(old_params) => if failed {
            Some((Stage::Undoing(Some(old_params)), cleanup(params)))
        } else {
            None
        },
        Stage::Undoing(Some(old_params)) => Some((Stage::Undoing(None), cleanup(&old_params))),
        Stage::Undoing(None) => None,
    }
}

/// Begins to take down what is set up, at the end.
pub fn wind_down<E>(state: &DaemonState<E>) -> (r: Option<(Stage, Next)>)
    ensures
        shown_work(r) == match state.params {
            Some(p) => Some((Stage::Undoing(None), cleanup_of(target_of(p)))),
            None => None,
        },
{
    match &state.params {
        Some(p) => Some((Stage::Undoing(None), cleanup(p))),
        None => None,
    }
}

/// The number of tasks that can still follow the one of a stage.
pub open spec fn tasks_ahead(stage: Stage) -> nat {
    match stage {
        Stage::Clearing => 2,
        Stage::SettingUp => 1,
        Stage::Changing(_) => 2,
        Stage::Undoing(Some(_)) => 1,
        Stage::Undoing(None) => 0,
    }
}

/// However its tasks end, what has been decided comes to an end.
pub proof fn lemma_work_ends(stage: Stage, params: MapeParams, failed: bool)
    ensures
        next_work(stage, params, failed) matches Some((next, _)) ==> tasks_ahead(next)
            < tasks_ahead(stage),
        tasks_ahead(stage) == 0 ==> next_work(stage, params, failed) is None,
{
}

/// After a change that failed, the new mapping and the old one are taken down, whatever fails in
/// that.
pub proof fn lemma_a_failed_change_is_undone(
    from: MapeParams,
    to: MapeParams,
    failed: bool,
    failed_again: bool,
)
    ensures
        next_work(Stage::Changing(from), to, true) == Some(
            (Stage::Undoing(Some(from)), cleanup_of(target_of(to))),
        ),
        next_work(Stage::Undoing(Some(from)), to, failed) == Some(
            (Stage::Undoing(None), cleanup_of(target_of(from))),
        ),
        next_work(Stage::Undoing(None), to, failed_again) is None,
{
}

/// What is taken down to make room is followed by the computed mapping, even if taking down fails.
pub proof fn lemma_a_rebuild_sets_up(
    old: Option<MapeParams>,
    params: MapeParams,
    s: SetUp,
    names: Interfaces,
    failed: bool,
)
    ensures
        first_work(Decision::Rebuild(old), params, s, names) == Some(
            (
                Stage::Clearing,
                cleanup_of(
                    target_of(
                        match old {
                            Some(p) => p,
                            None => params,
                        },
                    ),
                ),
            ),
        ),
        next_work(Stage::Clearing, params, failed) == Some(
            (Stage::SettingUp, apply_of(target_of(params))),
        ),
{
}

/// News that repeat what is set up change nothing.
pub proof fn lemma_repeated_news_change_nothing<E>(
    d: Decision,
    before: DaemonState<E>,
    after: DaemonState<E>,
    rule: MapRule,
    format: CeFormat,
)
    requires
        before.tunnel_ifindex is Some,
        pending(before) is Some,
        first_fit(pending(before)->Some_0.0, pending(before)->Some_0.1) == Some(rule),
        before.params is Some,
        assigned(before.params->Some_0, pending(before)->Some_0.1, rule, format),
        decided(d, before, after, format),
    ensures
        d is Keep,
{
    lemma_computed_again_is_unchanged(
        before.params->Some_0,
        after.params->Some_0,
        pending(before)->Some_0.1,
        rule,
        format,
    );
}

/// A change of the port parameters takes down what is set up, and sets it up again.
pub proof fn lemma_new_port_parameters_rebuild<E>(
    d: Decision,
    before: DaemonState<E>,
    after: DaemonState<E>,
    rule: MapRule,
    format: CeFormat,
)
    requires
        before.tunnel_ifindex is Some,
        pending(before) is Some,
        first_fit(pending(before)->Some_0.0, pending(before)->Some_0.1) == Some(rule),
        before.params is Some,
        before.params->Some_0.rule.port_params != rule.port_params,
        decided(d, before, after, format),
    ensures
        d == Decision::Rebuild(before.params),
{
}

/// With nothing set up, a rule that fits is set up whatever was computed before.
pub proof fn lemma_first_fit_is_set_up<E>(
    d: Decision,
    before: DaemonState<E>,
    after: DaemonState<E>,
    format: CeFormat,
)
    requires
        before.tunnel_ifindex is None,
        pending(before) is Some,
        first_fit(pending(before)->Some_0.0, pending(before)->Some_0.1) is Some,
        decided(d, before, after, format),
    ensures
        d is Apply,
{
}

/// What news lead to once the first rule that is for the delegated prefix is found. The mapping is
/// the one that this rule assigns to the prefix. With nothing set up it is set up. Otherwise other
/// port parameters, or a mapping that is not known any more, have everything set up again, any
/// other difference to what is set up is a change, and without a difference nothing is done.
pub proof fn lemma_what_news_lead_to<E>(
    d: Decision,
    before: DaemonState<E>,
    after: DaemonState<E>,
    format: CeFormat,
    rules: Vec<MapRule>,
    ce: Ipv6Net,
    i: int,
)
    requires
        decided(d, before, after, format),
        before.pending_map_rules == Some(rules),
        before.pending_ia_pd == Some(ce),
        forall|j: int|
            0 <= j < rules@.len() ==> (#[trigger] rules@[j]).ipv6_prefix.prefix_len <= 128,
        0 <= i < rules@.len(),
        is_for(rules@[i], ce),
        forall|j: int| 0 <= j < i ==> !is_for(#[trigger] rules@[j], ce),
    ensures
        after.params matches Some(q) && assigned(q, ce, rules@[i], format) && {
            &&& before.tunnel_ifindex is None ==> d is Apply
            &&& before.tunnel_ifindex is Some && before.params is None ==> d == Decision::Rebuild(
                None,
            )
            &&& before.tunnel_ifindex is Some && before.params is Some ==> {
                let p = before.params->Some_0;
                let same = p.ce_ipv6 == q.ce_ipv6 && p.ipv4 == q.ipv4 && p.psid == q.psid
                    && p.br_address == q.br_address && p.port_ranges@.len() == q.port_ranges@.len()
                    && forall|k: int|
                    0 <= k < p.port_ranges@.len() ==> (#[trigger] p.port_ranges@[k])@.start
                        == q.port_ranges@[k]@.start && p.port_ranges@[k]@.end
                        == q.port_ranges@[k]@.end;
                if p.rule.port_params != rules@[i].port_params {
                    d == Decision::Rebuild(Some(p))
                } else if same {
                    d is Keep
                } else {
                    d == Decision::Update(p)
                }
            }
        },
{
    lemma_first_rule_that_is_for(rules@, ce, i);
}

/// News that no rule is for: the prefix is dropped, and what is set up stays. Whether no rule
/// covers the prefix, or one does whose lengths do not agree with it, is told apart.
pub proof fn lemma_news_without_a_rule<E>(
    d: Decision,
    before: DaemonState<E>,
    after: DaemonState<E>,
    format: CeFormat,
    rules: Vec<MapRule>,
    ce: Ipv6Net,
)
    requires
        decided(d, before, after, format),
        before.pending_map_rules == Some(rules),
        before.pending_ia_pd == Some(ce),
        rules@.len() > 0,
        forall|j: int|
            0 <= j < rules@.len() ==> (#[trigger] rules@[j]).ipv6_prefix.prefix_len <= 128,
        forall|j: int| 0 <= j < rules@.len() ==> !is_for(#[trigger] rules@[j], ce),
    ensures
        after.params == before.params,
        after.pending_ia_pd is None,
        (exists|j: int| 0 <= j < rules@.len() && lies_under(ce, #[trigger] rules@[j])) ==> d is Misfit,
        !(exists|j: int| 0 <= j < rules@.len() && lies_under(ce, #[trigger] rules@[j]))
            ==> d is NoRule,
{
    lemma_first_rule_that_is_for(rules@, ce, rules@.len() as int);
}

/// As long as rules or prefix are missing, nothing is done and nothing computed.
pub proof fn lemma_missing_news<E>(
    d: Decision,
    before: DaemonState<E>,
    after: DaemonState<E>,
    format: CeFormat,
)
    requires
        decided(d, before, after, format),
        before.pending_ia_pd is None || before.pending_map_rules is None
            || before.pending_map_rules->Some_0@.len() == 0,
    ensures
        d is Wait,
        after.params == before.params,
{
}

/// What of the news is taken over. Without fixed rules, all of it: any prefix, and with a reply its
/// rules. With fixed rules, a prefix of 56 bits and no rules.
pub proof fn lemma_which_news_are_taken<E>(
    s: DaemonState<E>,
    rules: Vec<MapRule>,
    prefix: Ipv6Net,
    config: Config,
)
    ensures
        !config.use_v6plus_static_rules ==> takes_prefix(config, prefix) && rules_after(
            s,
            rules,
            config,
        ) == Some(rules),
        config.use_v6plus_static_rules ==> takes_prefix(config, prefix) == (prefix.prefix_len == 56)
            && rules_after(s, rules, config) == s.pending_map_rules,
        told(s, Some(rules), prefix).pending_map_rules == Some(rules),
        told(s, Some(rules), prefix).pending_ia_pd == Some(prefix),
        told(s, Some(rules), prefix).params == s.params,
        told(s, Some(rules), prefix).tunnel_ifindex == s.tunnel_ifindex,
{
}

/// Fixed rules are usable just where there are some, and each has port parameters of sixteen bits
/// at most, no fewer EA bits than the PSID has, and a prefix that makes 56 bits with the EA bits.
pub proof fn lemma_usable_fixed_rules(fixed: Seq<MapRule>)
    ensures
        fixed_error(fixed) is None <==> fixed.len() > 0 && forall|i: int|
            0 <= i < fixed.len() ==> {
                &&& (#[trigger] fixed[i]).port_params.psid_offset
                    + fixed[i].port_params.psid_length <= 16
                &&& fixed[i].ea_length >= fixed[i].port_params.psid_length
                &&& fixed[i].ipv6_prefix.prefix_len + fixed[i].ea_length == 56
            },
{
    if fixed.len() > 0 {
        if fixed_error(fixed) is None {
            assert forall|i: int| 0 <= i < fixed.len() implies {
                &&& (#[trigger] fixed[i]).port_params.psid_offset
                    + fixed[i].port_params.psid_length <= 16
                &&& fixed[i].ea_length >= fixed[i].port_params.psid_length
                &&& fixed[i].ipv6_prefix.prefix_len + fixed[i].ea_length == 56
            } by {
                assert(usable_fixed(fixed[i]));
            }
        } else {
            let i = choose|i: int| 0 <= i < fixed.len() && !usable_fixed(#[trigger] fixed[i]);
            assert(!usable_fixed(fixed[i]));
        }
    }
}

/// What a decision begins. A change goes from the mapping that is set up to the new one: with
/// another CE address it is the old one that makes way, and the new one that is the target. What
/// is rebuilt is taken down as it was set up, as far as that is known. Without a mapping to set up
/// nothing is begun.
pub proof fn lemma_what_a_decision_begins(
    old: MapeParams,
    new: MapeParams,
    s: SetUp,
    names: Interfaces,
)
    ensures
        old.ce_ipv6 != new.ce_ipv6 ==> first_work(Decision::Update(old), new, s, names) == Some(
            (
                Stage::Changing(old),
                NextView::Run(
                    Task {
                        phase: Phase::IndexForChange { old: old.ce_ipv6 },
                        target: target_of(new),
                    },
                    OpView::GetLinkIndex(names.upstream),
                ),
            ),
        ),
        old.ce_ipv6 == new.ce_ipv6 && old.br_address == new.br_address && old.ipv4 != new.ipv4
            && s.tunnel_ifindex is Some ==> (first_work(Decision::Update(old), new, s, names)
            matches Some((stage, NextView::Run(task, op))) && stage == Stage::Changing(old)
            && task.target.ipv4 == new.ipv4 && op == (OpView::DelIpv4 {
            ifindex: s.tunnel_ifindex->Some_0,
            addr: old.ipv4,
        })),
        first_work(Decision::Apply, new, s, names) matches Some(
            (Stage::SettingUp, NextView::Run(task, OpView::ReadSysctl(Sysctl::Ipv4Forward))),
        ) && task.target.ce_ipv6 == new.ce_ipv6 && task.target.ipv4 == new.ipv4
            && task.target.br_address == new.br_address && task.target.psid == new.psid
            && task.target.port_params == new.rule.port_params,
        first_work(Decision::Rebuild(Some(old)), new, s, names) matches Some(
            (Stage::Clearing, NextView::Run(task, OpView::RunNft(_))),
        ) && task.target.ce_ipv6 == old.ce_ipv6 && task.target.ipv4 == old.ipv4,
        first_work(Decision::Rebuild(None), new, s, names) matches Some(
            (Stage::Clearing, NextView::Run(task, OpView::RunNft(_))),
        ) && task.target.ce_ipv6 == new.ce_ipv6 && task.target.ipv4 == new.ipv4,
        first_work(Decision::Wait, new, s, names) is None,
        first_work(Decision::BadLength, new, s, names) is None,
        first_work(Decision::Keep, new, s, names) is None,
        first_work(Decision::NoRule, new, s, names) is None,
        first_work(Decision::Misfit, new, s, names) is None,
{
}

/// A prefix that no rule is for is forgotten, whether none covers it or the lengths do not agree.
/// Any other decision forgets nothing, and nothing else is forgotten.
pub proof fn lemma_what_is_forgotten<E>(d: Decision, s: DaemonState<E>)
    ensures
        d is NoRule ==> sifted(d, s).pending_ia_pd is None,
        d is Misfit ==> sifted(d, s).pending_ia_pd is None,
        !(d is NoRule) && !(d is Misfit) ==> sifted(d, s).pending_ia_pd == s.pending_ia_pd,
        sifted(d, s).pending_map_rules == s.pending_map_rules,
        sifted(d, s).params == s.params,
        sifted(d, s).tunnel_ifindex == s.tunnel_ifindex,
        sifted(d, s).original_ip_forward == s.original_ip_forward,
        sifted(d, s).original_ipv6_forward == s.original_ipv6_forward,
        sifted(d, s).ebpf == s.ebpf,
{
}

} // verus!
