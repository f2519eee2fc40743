//! The target resolution and selection engine: the shared target store,
//! the per-rule selection state, and the passes one health-check tick is
//! made of. DNS lookups and probes are network I/O: the caller performs
//! them and feeds the outcomes back into the passes here.

use vstd::prelude::*;
use crate::config::{Config, spec_rule_protocols};
use crate::endpoint::{Endpoint, EndpointView};
use crate::selection::{RuleInfo, RuleInfoView, SwitchEvent, spec_select, update_rule_selection};
use crate::store::{TargetMap, store_contents, store_entries, store_get, store_insert, store_new};
use crate::target::{TargetInfo, TargetView};

verus! {

/// The engine: the configuration, the shared target store, and one
/// selection record per configured rule, in configuration order.
pub struct CommonManager {
    pub config: Config,
    pub target_cache: TargetMap,
    pub rule_infos: Vec<(String, RuleInfo)>,
}

/// The store contents after recording one rule's initial resolutions, in
/// order: each answered target gains a fresh healthy entry.
pub open spec fn spec_insert_resolutions(
    m: Map<Seq<char>, TargetView>,
    targets: Seq<Seq<char>>,
    res: Seq<Option<EndpointView>>,
    now: u64,
) -> Map<Seq<char>, TargetView>
    decreases targets.len(),
{
    if targets.len() == 0 {
        m
    } else {
        let m2 = spec_insert_resolutions(m, targets.drop_last(), res.drop_last(), now);
        match res.last() {
            Some(ep) => m2.insert(
                targets.last(),
                TargetView {
                    original: targets.last(),
                    resolved: ep,
                    healthy: true,
                    last_check: now,
                    fail_count: 0u32,
                },
            ),
            None => m2,
        }
    }
}

/// The candidate list recorded for a rule: one fresh entry per answered
/// target, in configuration order.
pub open spec fn spec_resolved_infos(
    targets: Seq<Seq<char>>,
    res: Seq<Option<EndpointView>>,
    now: u64,
) -> Seq<TargetView>
    decreases targets.len(),
{
    if targets.len() == 0 {
        Seq::empty()
    } else {
        let rest = spec_resolved_infos(targets.drop_last(), res.drop_last(), now);
        match res.last() {
            Some(ep) => rest.push(
                TargetView {
                    original: targets.last(),
                    resolved: ep,
                    healthy: true,
                    last_check: now,
                    fail_count: 0u32,
                },
            ),
            None => rest,
        }
    }
}

/// The target-string views of a rule's target list.
pub open spec fn spec_target_strs(ts: Seq<String>) -> Seq<Seq<char>> {
    Seq::new(ts.len(), |i: int| ts[i]@)
}

/// How one target is probed. Targets of any rule that speaks TCP or HTTP
/// get a TCP connect probe; targets of UDP-only rules have no universal
/// reachability test, so a literal endpoint counts as reachable and a name
/// counts as reachable when it still resolves.
pub enum ProbeKind {
    Tcp,
    UdpLiteral,
    UdpResolve,
}

/// Rule `r` lists `t` among its targets.
pub open spec fn spec_rule_references(r: crate::config::ForwardRule, t: Seq<char>) -> bool {
    exists|w: int| 0 <= w < r.targets.len() && (#[trigger] r.targets.deep_view()[w]) == t
}

/// Rule `r`'s protocol set asks for a TCP-capable target.
pub open spec fn spec_rule_needs_tcp(r: crate::config::ForwardRule) -> bool {
    exists|k: int|
        0 <= k < spec_rule_protocols(r).len() && ((#[trigger] spec_rule_protocols(r)[k]) == "tcp"@
            || spec_rule_protocols(r)[k] == "http"@)
}

/// A target is probed over TCP when some referencing rule speaks TCP or
/// HTTP, or when no rule references it at all.
pub open spec fn spec_target_probe_tcp(c: Config, t: Seq<char>) -> bool {
    (exists|i: int|
        0 <= i < c.rules.len() && spec_rule_references(#[trigger] c.rules@[i], t)
            && spec_rule_needs_tcp(c.rules@[i])) || !(exists|i: int|
        0 <= i < c.rules.len() && spec_rule_references(#[trigger] c.rules@[i], t))
}

/// A target's state after one re-resolution outcome: an answer replaces
/// the endpoint, a failure marks the target unhealthy and counts it.
pub open spec fn spec_dns_applied(t: TargetView, res: Option<EndpointView>, now: u64) -> TargetView {
    match res {
        Some(ep) => TargetView { resolved: ep, last_check: now, ..t },
        None => TargetView {
            healthy: false,
            fail_count: if t.fail_count == u32::MAX {
                u32::MAX
            } else {
                (t.fail_count + 1) as u32
            },
            last_check: now,
            ..t
        },
    }
}

/// A target's state after one probe outcome.
pub open spec fn spec_probe_applied(t: TargetView, ok: bool, now: u64) -> TargetView {
    if ok {
        TargetView { healthy: true, fail_count: 0u32, last_check: now, ..t }
    } else {
        let fc: u32 = if t.fail_count == u32::MAX {
            u32::MAX
        } else {
            (t.fail_count + 1) as u32
        };
        TargetView {
            healthy: t.healthy && fc < crate::target::FAIL_THRESHOLD,
            fail_count: fc,
            last_check: now,
            ..t
        }
    }
}

impl CommonManager {
    /// Rule records stand in configuration order, under their rule's name.
    pub open spec fn wf(self) -> bool {
        &&& self.rule_infos.len() <= self.config.rules.len()
        &&& forall|j: int|
            0 <= j < self.rule_infos.len() ==> (#[trigger] self.rule_infos@[j]).0@
                == self.config.rules@[j].name@
    }

    pub fn new(config: Config) -> (r: CommonManager)
        ensures
            r.config == config,
            forall|k: Seq<char>| !(#[trigger] store_contents(r.target_cache).contains_key(k)),
            r.rule_infos.len() == 0,
            r.wf(),
    {
        CommonManager { config, target_cache: store_new(), rule_infos: Vec::new() }
    }

    /// Records one rule's initial resolutions, in configuration order:
    /// every answered target becomes a fresh healthy store entry and a
    /// candidate of the rule; the rule starts with nothing selected.
    pub fn initialize_rule_targets(
        &mut self,
        rule_index: usize,
        resolutions: &Vec<Option<Endpoint>>,
        now: u64,
    )
        requires
            old(self).wf(),
            rule_index == old(self).rule_infos.len(),
            rule_index < old(self).config.rules.len(),
            resolutions.len() == old(self).config.rules@[rule_index as int].targets.len(),
        ensures
            final(self).wf(),
            final(self).config == old(self).config,
            final(self).rule_infos.len() == old(self).rule_infos.len() + 1,
            forall|j: int| 0 <= j < old(self).rule_infos.len() ==> #[trigger] final(self).rule_infos@[j] == old(self).rule_infos@[j],
            ({
                let targets = spec_target_strs(
                    old(self).config.rules@[rule_index as int].targets@,
                );
                let res = crate::sync::spec_targets_view(resolutions@);
                &&& store_contents(final(self).target_cache) == spec_insert_resolutions(
                    store_contents(old(self).target_cache),
                    targets,
                    res,
                    now,
                )
                &&& final(self).rule_infos@[rule_index as int].0@
                    == old(self).config.rules@[rule_index as int].name@
                &&& final(self).rule_infos@[rule_index as int].1@ == (RuleInfoView {
                    targets: spec_resolved_infos(targets, res, now),
                    selected_target: None,
                    last_update: now,
                })
            }),
    {
        let ghost c = self.config;
        let rule = &self.config.rules[rule_index];
        let ghost tstrs = spec_target_strs(c.rules@[rule_index as int].targets@);
        let ghost res = crate::sync::spec_targets_view(resolutions@);
        let mut targets: Vec<TargetInfo> = Vec::new();
        let mut i: usize = 0;
        proof {
            assert(tstrs.take(0) =~= Seq::<Seq<char>>::empty());
            assert(res.take(0) =~= Seq::<Option<EndpointView>>::empty());
            assert(targets.deep_view() =~= spec_resolved_infos(tstrs.take(0), res.take(0), now));
        }
        while i < rule.targets.len()
            invariant
                0 <= i <= rule.targets.len(),
                *rule == c.rules@[rule_index as int],
                c == self.config,
                rule_index < c.rules.len(),
                resolutions.len() == rule.targets.len(),
                tstrs == spec_target_strs(c.rules@[rule_index as int].targets@),
                res == crate::sync::spec_targets_view(resolutions@),
                self.rule_infos == old(self).rule_infos,
                store_contents(self.target_cache) == spec_insert_resolutions(
                    store_contents(old(self).target_cache),
                    tstrs.take(i as int),
                    res.take(i as int),
                    now,
                ),
                targets.deep_view() == spec_resolved_infos(
                    tstrs.take(i as int),
                    res.take(i as int),
                    now,
                ),
            decreases rule.targets.len() - i,
        {
            proof {
                assert(tstrs.take(i as int + 1).drop_last() =~= tstrs.take(i as int));
                assert(res.take(i as int + 1).drop_last() =~= res.take(i as int));
                assert(tstrs.take(i as int + 1).last() == rule.targets@[i as int]@);
                assert(res.take(i as int + 1).last() == res[i as int]);
            }
            match &resolutions[i] {
                Some(ep) => {
                    proof {
                        assert(res[i as int] == Some(ep@));
                    }
                    let target_str = &rule.targets[i];
                    let info = TargetInfo::new(target_str.clone(), ep.clone_ep(), now);
                    let ghost iv = info@;
                    let ghost pre = targets.deep_view();
                    targets.push(info.clone_ti());
                    store_insert(&mut self.target_cache, target_str.as_str(), info);
                    proof {
                        assert(targets.deep_view() =~= pre.push(iv));
                    }
                },
                None => {
                    proof {
                        assert(res[i as int] is None);
                    }
                },
            }
            i = i + 1;
        }
        proof {
            assert(tstrs.take(rule.targets.len() as int) =~= tstrs);
            assert(res.take(rule.targets.len() as int) =~= res);
        }
        let name = rule.name.clone();
        let info = RuleInfo { targets, selected_target: None, last_update: now };
        let ghost pre_infos = self.rule_infos@;
        self.rule_infos.push((name, info));
        proof {
            assert(self.rule_infos@.len() == pre_infos.len() + 1);
            assert(forall|j: int| 0 <= j < pre_infos.len() ==> #[trigger] self.rule_infos@[j]
                == pre_infos[j]);
        }
    }
}

/// The candidates a rule sees in one pass: the store entries of its
/// target strings, in configuration order, skipping unresolved ones.
pub open spec fn spec_gather(targets: Seq<Seq<char>>, m: Map<Seq<char>, TargetView>) -> Seq<
    TargetView,
>
    decreases targets.len(),
{
    if targets.len() == 0 {
        Seq::empty()
    } else {
        let rest = spec_gather(targets.drop_last(), m);
        if m.contains_key(targets.last()) {
            rest.push(m[targets.last()])
        } else {
            rest
        }
    }
}

/// Rule `j` switches in this pass: it had a selection, and the fresh
/// selection resolves elsewhere.
pub open spec fn spec_rule_switched(
    c: Config,
    cache: Map<Seq<char>, TargetView>,
    infos: Seq<(String, RuleInfo)>,
    j: int,
) -> bool {
    let oldsel = infos[j].1@.selected_target;
    let newsel = spec_select(spec_gather(spec_target_strs(c.rules@[j].targets@), cache), oldsel);
    oldsel is Some && newsel is Some && oldsel.unwrap().resolved != newsel.unwrap().resolved
}

/// The event rule `j` fires when it switches.
pub open spec fn spec_rule_event(
    c: Config,
    cache: Map<Seq<char>, TargetView>,
    infos: Seq<(String, RuleInfo)>,
    j: int,
) -> crate::selection::SwitchEventView {
    let oldsel = infos[j].1@.selected_target;
    let newsel = spec_select(spec_gather(spec_target_strs(c.rules@[j].targets@), cache), oldsel);
    crate::selection::SwitchEventView {
        rule_name: infos[j].0@,
        old_endpoint: oldsel.unwrap().resolved,
        new_endpoint: newsel.unwrap().resolved,
    }
}

/// The events one pass fires, in rule order: one per switched rule.
pub open spec fn spec_pass_events(
    c: Config,
    cache: Map<Seq<char>, TargetView>,
    infos: Seq<(String, RuleInfo)>,
    j: int,
) -> Seq<crate::selection::SwitchEventView>
    decreases j,
{
    if j <= 0 {
        Seq::empty()
    } else {
        spec_pass_events(c, cache, infos, j - 1) + (if spec_rule_switched(c, cache, infos, j - 1) {
            seq![spec_rule_event(c, cache, infos, j - 1)]
        } else {
            Seq::empty()
        })
    }
}

impl CommonManager {
    /// One selection pass over every rule: republishes each rule's
    /// candidate copies from the store, recomputes its selection, and
    /// returns the switch events — one per rule whose selected endpoint
    /// changed, and none otherwise.
    #[verifier::rlimit(100)]
    pub fn update_rule_targets(&mut self, now: u64) -> (events: Vec<SwitchEvent>)
        requires
            old(self).wf(),
            old(self).rule_infos.len() == old(self).config.rules.len(),
        ensures
            final(self).wf(),
            final(self).config == old(self).config,
            store_contents(final(self).target_cache) == store_contents(old(self).target_cache),
            final(self).rule_infos.len() == old(self).rule_infos.len(),
            forall|j: int|
                0 <= j < old(self).rule_infos.len() ==> ({
                    let c = old(self).config;
                    let cache = store_contents(old(self).target_cache);
                    let gathered = spec_gather(spec_target_strs(c.rules@[j].targets@), cache);
                    let oldr = old(self).rule_infos@[j];
                    let newr = #[trigger] final(self).rule_infos@[j];
                    &&& newr.0@ == oldr.0@
                    &&& newr.1@.targets == gathered
                    &&& newr.1@.selected_target == spec_select(
                        gathered,
                        oldr.1@.selected_target,
                    )
                    &&& newr.1@.last_update == now
                }),
            events.deep_view() == spec_pass_events(
                old(self).config,
                store_contents(old(self).target_cache),
                old(self).rule_infos@,
                old(self).rule_infos.len() as int,
            ),
    {
        let ghost c = self.config;
        let ghost cache = store_contents(self.target_cache);
        let ghost base = self.rule_infos@;
        let mut events: Vec<SwitchEvent> = Vec::new();
        let n = self.rule_infos.len();
        let mut j: usize = 0;
        while j < n
            invariant
                0 <= j <= n == self.rule_infos.len(),
                n == c.rules.len(),
                c == self.config,
                cache == store_contents(self.target_cache),
                base.len() == n,
                forall|w: int| j <= w < n ==> #[trigger] self.rule_infos@[w] == base[w],
                forall|w: int|
                    0 <= w < j ==> ({
                        let gathered = spec_gather(
                            spec_target_strs(c.rules@[w].targets@),
                            cache,
                        );
                        let newr = #[trigger] self.rule_infos@[w];
                        &&& newr.0@ == base[w].0@
                        &&& newr.1@.targets == gathered
                        &&& newr.1@.selected_target == spec_select(
                            gathered,
                            base[w].1@.selected_target,
                        )
                        &&& newr.1@.last_update == now
                    }),
                events.deep_view() == spec_pass_events(c, cache, base, j as int),
            decreases n - j,
        {
            let ghost tstrs = spec_target_strs(c.rules@[j as int].targets@);
            let rule = &self.config.rules[j];
            let mut gathered: Vec<TargetInfo> = Vec::new();
            let mut w: usize = 0;
            proof {
                assert(tstrs.take(0) =~= Seq::<Seq<char>>::empty());
                assert(gathered.deep_view() =~= spec_gather(tstrs.take(0), cache));
            }
            while w < rule.targets.len()
                invariant
                    0 <= w <= rule.targets.len(),
                    *rule == c.rules@[j as int],
                    c == self.config,
                    0 <= j < c.rules.len(),
                    cache == store_contents(self.target_cache),
                    tstrs == spec_target_strs(c.rules@[j as int].targets@),
                    gathered.deep_view() == spec_gather(tstrs.take(w as int), cache),
                decreases rule.targets.len() - w,
            {
                proof {
                    assert(tstrs.take(w as int + 1).drop_last() =~= tstrs.take(w as int));
                    assert(tstrs.take(w as int + 1).last() == rule.targets@[w as int]@);
                }
                match store_get(&self.target_cache, rule.targets[w].as_str()) {
                    Some(t) => {
                        let ghost tv2 = t@;
                        let ghost pre = gathered.deep_view();
                        gathered.push(t);
                        proof {
                            assert(gathered.deep_view() =~= pre.push(tv2));
                        }
                    },
                    None => {},
                }
                w = w + 1;
            }
            proof {
                assert(tstrs.take(rule.targets.len() as int) =~= tstrs);
            }
            let mut pair = self.rule_infos.remove(j);
            let ghost pre_infos = self.rule_infos@;
            let ev = update_rule_selection(pair.0.as_str(), &mut pair.1, gathered, now);
            self.rule_infos.insert(j, pair);
            let ghost pre_ev = events.deep_view();
            match ev {
                Some(e) => {
                    proof {
                        assert(spec_rule_switched(c, cache, base, j as int));
                        assert(e@ == spec_rule_event(c, cache, base, j as int));
                    }
                    events.push(e);
                    proof {
                        assert(events.deep_view() =~= pre_ev.push(e@));
                    }
                },
                None => {
                    proof {
                        assert(!spec_rule_switched(c, cache, base, j as int));
                    }
                },
            }
            proof {
                assert(spec_pass_events(c, cache, base, j as int + 1) == spec_pass_events(
                    c,
                    cache,
                    base,
                    j as int,
                ) + (if spec_rule_switched(c, cache, base, j as int) {
                    seq![spec_rule_event(c, cache, base, j as int)]
                } else {
                    Seq::empty()
                }));
                assert(events.deep_view() =~= spec_pass_events(c, cache, base, j as int + 1));
            }
            j = j + 1;
        }
        events
    }

    /// Applies one round of re-resolutions to the store, in order: an
    /// answer replaces the entry's endpoint and leaves health to the probe
    /// that follows; a failure counts against the target. The result says
    /// whether any endpoint actually changed — an unchanged answer is a
    /// no-op apart from the check timestamp, so it can never feed a switch.
    pub fn apply_dns_results(
        &mut self,
        results: &Vec<(String, Option<Endpoint>)>,
        now: u64,
    ) -> (any_changed: bool)
        requires
            forall|a: int, b: int|
                0 <= a < b < results.len() ==> (#[trigger] results@[a]).0@ != (
                #[trigger] results@[b]).0@,
        ensures
            final(self).config == old(self).config,
            final(self).rule_infos == old(self).rule_infos,
            final(self).wf() == old(self).wf(),
            store_contents(final(self).target_cache).dom() == store_contents(
                old(self).target_cache,
            ).dom(),
            forall|i: int|
                0 <= i < results.len() && store_contents(old(self).target_cache).contains_key(
                    (#[trigger] results@[i]).0@,
                ) ==> store_contents(final(self).target_cache)[results@[i].0@]
                    == spec_dns_applied(
                    store_contents(old(self).target_cache)[results@[i].0@],
                    match results@[i].1 {
                        Some(e) => Some(e@),
                        None => None,
                    },
                    now,
                ),
            forall|k: Seq<char>|
                store_contents(old(self).target_cache).contains_key(k) && (forall|i: int|
                    0 <= i < results.len() ==> (#[trigger] results@[i]).0@ != k)
                    ==> store_contents(final(self).target_cache)[k] == store_contents(
                    old(self).target_cache,
                )[k],
            any_changed == exists|i: int|
                0 <= i < results.len() && store_contents(old(self).target_cache).contains_key(
                    (#[trigger] results@[i]).0@,
                ) && results@[i].1 is Some && results@[i].1.unwrap()@ != store_contents(
                    old(self).target_cache,
                )[results@[i].0@].resolved,
    {
        let ghost m0 = store_contents(self.target_cache);
        let mut any_changed = false;
        let mut i: usize = 0;
        while i < results.len()
            invariant
                0 <= i <= results.len(),
                forall|a: int, b: int|
                    0 <= a < b < results.len() ==> (#[trigger] results@[a]).0@ != (
                    #[trigger] results@[b]).0@,
                m0 == store_contents(old(self).target_cache),
                self.config == old(self).config,
                self.rule_infos == old(self).rule_infos,
                store_contents(self.target_cache).dom() == m0.dom(),
                forall|w: int|
                    0 <= w < i && m0.contains_key((#[trigger] results@[w]).0@)
                        ==> store_contents(self.target_cache)[results@[w].0@]
                        == spec_dns_applied(
                        m0[results@[w].0@],
                        match results@[w].1 {
                            Some(e) => Some(e@),
                            None => None,
                        },
                        now,
                    ),
                forall|k: Seq<char>|
                    m0.contains_key(k) && (forall|w: int|
                        0 <= w < i ==> (#[trigger] results@[w]).0@ != k)
                        ==> store_contents(self.target_cache)[k] == m0[k],
                any_changed == exists|w: int|
                    0 <= w < i && m0.contains_key((#[trigger] results@[w]).0@) && results@[w].1
                        is Some && results@[w].1.unwrap()@ != m0[results@[w].0@].resolved,
            decreases results.len() - i,
        {
            let entry = &results[i];
            let key = &entry.0;
            match store_get(&self.target_cache, key.as_str()) {
                Some(mut t) => {
                    proof {
                        assert(store_contents(self.target_cache)[key@] == t@);
                        assert(m0.contains_key(key@));
                        assert((forall|w: int|
                            0 <= w < i ==> (#[trigger] results@[w]).0@ != key@));
                        assert(t@ == m0[key@]);
                    }
                    let changed: bool = match &entry.1 {
                        Some(ep) => t.apply_resolve_success(ep.clone_ep(), now),
                        None => {
                            t.apply_resolve_failure(now);
                            false
                        },
                    };
                    store_insert(&mut self.target_cache, key.as_str(), t);
                    proof {
                        if changed {
                            assert(m0.contains_key((#[trigger] results@[i as int]).0@)
                                && results@[i as int].1 is Some && results@[i as int].1.unwrap()@
                                != m0[results@[i as int].0@].resolved);
                        }
                    }
                    any_changed = any_changed || changed;
                },
                None => {
                    proof {
                        assert(!m0.contains_key(key@));
                    }
                },
            }
            i = i + 1;
        }
        any_changed
    }

    /// Applies one round of probe outcomes to the store, in order: a
    /// success makes the target healthy with a clean failure streak; a
    /// failure grows the streak and unhealthies the target at the
    /// threshold.
    pub fn apply_probe_results(&mut self, results: &Vec<(String, bool)>, now: u64)
        requires
            forall|a: int, b: int|
                0 <= a < b < results.len() ==> (#[trigger] results@[a]).0@ != (
                #[trigger] results@[b]).0@,
        ensures
            final(self).config == old(self).config,
            final(self).rule_infos == old(self).rule_infos,
            final(self).wf() == old(self).wf(),
            store_contents(final(self).target_cache).dom() == store_contents(
                old(self).target_cache,
            ).dom(),
            forall|i: int|
                0 <= i < results.len() && store_contents(old(self).target_cache).contains_key(
                    (#[trigger] results@[i]).0@,
                ) ==> store_contents(final(self).target_cache)[results@[i].0@]
                    == spec_probe_applied(
                    store_contents(old(self).target_cache)[results@[i].0@],
                    results@[i].1,
                    now,
                ),
            forall|k: Seq<char>|
                store_contents(old(self).target_cache).contains_key(k) && (forall|i: int|
                    0 <= i < results.len() ==> (#[trigger] results@[i]).0@ != k)
                    ==> store_contents(final(self).target_cache)[k] == store_contents(
                    old(self).target_cache,
                )[k],
    {
        let ghost m0 = store_contents(self.target_cache);
        let mut i: usize = 0;
        while i < results.len()
            invariant
                0 <= i <= results.len(),
                forall|a: int, b: int|
                    0 <= a < b < results.len() ==> (#[trigger] results@[a]).0@ != (
                    #[trigger] results@[b]).0@,
                m0 == store_contents(old(self).target_cache),
                self.config == old(self).config,
                self.rule_infos == old(self).rule_infos,
                store_contents(self.target_cache).dom() == m0.dom(),
                forall|w: int|
                    0 <= w < i && m0.contains_key((#[trigger] results@[w]).0@)
                        ==> store_contents(self.target_cache)[results@[w].0@]
                        == spec_probe_applied(m0[results@[w].0@], results@[w].1, now),
                forall|k: Seq<char>|
                    m0.contains_key(k) && (forall|w: int|
                        0 <= w < i ==> (#[trigger] results@[w]).0@ != k)
                        ==> store_contents(self.target_cache)[k] == m0[k],
            decreases results.len() - i,
        {
            let entry = &results[i];
            let key = &entry.0;
            match store_get(&self.target_cache, key.as_str()) {
                Some(mut t) => {
                    proof {
                        assert((forall|w: int|
                            0 <= w < i ==> (#[trigger] results@[w]).0@ != key@));
                        assert(t@ == m0[key@]);
                    }
                    if entry.1 {
                        t.record_success(now);
                    } else {
                        t.record_failure(now);
                    }
                    store_insert(&mut self.target_cache, key.as_str(), t);
                },
                None => {},
            }
            i = i + 1;
        }
    }

    /// A snapshot of the store: every tracked target and its state, each
    /// exactly once, in no promised order.
    pub fn snapshot_targets(&self) -> (r: Vec<(String, TargetInfo)>)
        ensures
            forall|i: int|
                0 <= i < r@.len() ==> store_contents(self.target_cache).contains_key(
                    (#[trigger] r@[i]).0@,
                ) && r@[i].1@ == store_contents(self.target_cache)[r@[i].0@],
            forall|i: int, j: int| 0 <= i < j < r@.len() ==> (#[trigger] r@[i]).0@ != (
            #[trigger] r@[j]).0@,
            forall|k: Seq<char>|
                store_contents(self.target_cache).contains_key(k) ==> exists|i: int|
                    0 <= i < r@.len() && (#[trigger] r@[i]).0@ == k,
    {
        store_entries(&self.target_cache)
    }

    /// Decides how a target is probed; see [`ProbeKind`].
    pub fn probe_kind_for_target(&self, target: &str) -> (r: ProbeKind)
        ensures
            r is Tcp <==> spec_target_probe_tcp(self.config, target@),
            r is UdpLiteral ==> !spec_target_probe_tcp(self.config, target@)
                && crate::endpoint::spec_parse_endpoint(target@) is Some,
            r is UdpResolve ==> !spec_target_probe_tcp(self.config, target@)
                && crate::endpoint::spec_parse_endpoint(target@) is None,
    {
        let ghost c = self.config;
        let mut any_ref = false;
        let mut i: usize = 0;
        while i < self.config.rules.len()
            invariant
                0 <= i <= self.config.rules.len(),
                c == self.config,
                forall|w: int|
                    0 <= w < i ==> !(spec_rule_references(#[trigger] c.rules@[w], target@)
                        && spec_rule_needs_tcp(c.rules@[w])),
                any_ref == exists|w: int|
                    0 <= w < i && spec_rule_references(#[trigger] c.rules@[w], target@),
            decreases self.config.rules.len() - i,
        {
            let rule = &self.config.rules[i];
            proof {
                assert(*rule == c.rules@[i as int]);
            }
            let mut referenced = false;
            let mut w: usize = 0;
            while w < rule.targets.len()
                invariant
                    0 <= w <= rule.targets.len(),
                    *rule == c.rules@[i as int],
                    referenced == exists|v: int|
                        0 <= v < w && (#[trigger] rule.targets.deep_view()[v]) == target@,
                decreases rule.targets.len() - w,
            {
                proof {
                    assert(rule.targets.deep_view()[w as int] == rule.targets@[w as int]@);
                }
                if crate::text::str_eq(rule.targets[w].as_str(), target) {
                    referenced = true;
                }
                w = w + 1;
            }
            proof {
                assert(referenced == spec_rule_references(c.rules@[i as int], target@));
            }
            if referenced {
                any_ref = true;
                let protocols = rule.get_protocols();
                let mut tcpish = false;
                let mut k: usize = 0;
                while k < protocols.len()
                    invariant
                        0 <= k <= protocols.len(),
                        protocols.deep_view() == spec_rule_protocols(c.rules@[i as int]),
                        tcpish == exists|v: int|
                            0 <= v < k && ((#[trigger] protocols.deep_view()[v]) == "tcp"@
                                || protocols.deep_view()[v] == "http"@),
                    decreases protocols.len() - k,
                {
                    proof {
                        assert(protocols.deep_view()[k as int] == protocols@[k as int]@);
                    }
                    if crate::text::str_eq(protocols[k].as_str(), "tcp") || crate::text::str_eq(
                        protocols[k].as_str(),
                        "http",
                    ) {
                        tcpish = true;
                    }
                    k = k + 1;
                }
                proof {
                    assert(tcpish == spec_rule_needs_tcp(c.rules@[i as int]));
                }
                if tcpish {
                    proof {
                        assert(spec_rule_references(c.rules@[i as int], target@)
                            && spec_rule_needs_tcp(c.rules@[i as int]));
                    }
                    return ProbeKind::Tcp;
                }
            }
            i = i + 1;
        }
        if !any_ref {
            return ProbeKind::Tcp;
        }
        match crate::endpoint::parse_endpoint(target) {
            Some(_) => ProbeKind::UdpLiteral,
            None => ProbeKind::UdpResolve,
        }
    }

    /// The endpoint a rule currently forwards to: the resolved endpoint of
    /// its selected target.
    pub fn get_best_target(&self, rule_name: &str) -> (r: Option<Endpoint>)
        ensures
            match r {
                Some(ep) => exists|j: int|
                    0 <= j < self.rule_infos.len() && (#[trigger] self.rule_infos@[j]).0@
                        == rule_name@ && self.rule_infos@[j].1@.selected_target is Some
                        && ep@ == self.rule_infos@[j].1@.selected_target.unwrap().resolved,
                None => forall|j: int|
                    0 <= j < self.rule_infos.len() && (#[trigger] self.rule_infos@[j]).0@
                        == rule_name@ ==> self.rule_infos@[j].1@.selected_target is None,
            },
    {
        let mut j: usize = 0;
        while j < self.rule_infos.len()
            invariant
                0 <= j <= self.rule_infos.len(),
                forall|w: int|
                    0 <= w < j ==> (#[trigger] self.rule_infos@[w]).0@ != rule_name@
                        || self.rule_infos@[w].1@.selected_target is None,
            decreases self.rule_infos.len() - j,
        {
            let pair = &self.rule_infos[j];
            if crate::text::str_eq(pair.0.as_str(), rule_name) {
                match &pair.1.selected_target {
                    Some(t) => {
                        proof {
                            assert((#[trigger] self.rule_infos@[j as int]).0@ == rule_name@);
                        }
                        return Some(t.resolved.clone_ep());
                    },
                    None => {},
                }
            }
            j = j + 1;
        }
        None
    }

    /// The selected endpoint of a rule, rendered as `ip:port`.
    pub fn get_best_target_string(&self, rule_name: &str) -> (r: Option<String>)
        ensures
            match r {
                Some(s) => exists|j: int|
                    0 <= j < self.rule_infos.len() && (#[trigger] self.rule_infos@[j]).0@
                        == rule_name@ && self.rule_infos@[j].1@.selected_target is Some
                        && s@ == crate::endpoint::spec_endpoint_str(
                        self.rule_infos@[j].1@.selected_target.unwrap().resolved,
                    ),
                None => forall|j: int|
                    0 <= j < self.rule_infos.len() && (#[trigger] self.rule_infos@[j]).0@
                        == rule_name@ ==> self.rule_infos@[j].1@.selected_target is None,
            },
    {
        match self.get_best_target(rule_name) {
            Some(ep) => Some(ep.to_addr_string()),
            None => None,
        }
    }
}

} // verus!
