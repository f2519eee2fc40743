//! Target selection: priority-preferred failover with failure safety, and
//! the per-rule selection pass that reports switch events.

use vstd::prelude::*;
use crate::endpoint::Endpoint;
use crate::target::{TargetInfo, TargetView};

verus! {

/// Per-rule selection state: the candidate list in configuration order and
/// the currently selected target, if any.
pub struct RuleInfo {
    pub targets: Vec<TargetInfo>,
    pub selected_target: Option<TargetInfo>,
    /// When the rule's selection was last recomputed (caller's clock, ms).
    pub last_update: u64,
}

/// A selected target's resolved endpoint changed: `rule_name` now forwards
/// to `new_endpoint` instead of `old_endpoint`.
pub struct SwitchEvent {
    pub rule_name: String,
    pub old_endpoint: Endpoint,
    pub new_endpoint: Endpoint,
}

/// Mathematical image of a [`RuleInfo`].
pub ghost struct RuleInfoView {
    pub targets: Seq<TargetView>,
    pub selected_target: Option<TargetView>,
    pub last_update: u64,
}

impl View for RuleInfo {
    type V = RuleInfoView;

    open spec fn view(&self) -> RuleInfoView {
        RuleInfoView {
            targets: self.targets.deep_view(),
            selected_target: spec_opt_target_view(self.selected_target),
            last_update: self.last_update,
        }
    }
}

impl DeepView for RuleInfo {
    type V = RuleInfoView;

    open spec fn deep_view(&self) -> RuleInfoView {
        self@
    }
}

/// Mathematical image of a [`SwitchEvent`].
pub ghost struct SwitchEventView {
    pub rule_name: Seq<char>,
    pub old_endpoint: crate::endpoint::EndpointView,
    pub new_endpoint: crate::endpoint::EndpointView,
}

impl View for SwitchEvent {
    type V = SwitchEventView;

    open spec fn view(&self) -> SwitchEventView {
        SwitchEventView {
            rule_name: self.rule_name@,
            old_endpoint: self.old_endpoint@,
            new_endpoint: self.new_endpoint@,
        }
    }
}

impl DeepView for SwitchEvent {
    type V = SwitchEventView;

    open spec fn deep_view(&self) -> SwitchEventView {
        self@
    }
}

/// Some candidate is healthy.
pub open spec fn spec_has_healthy(ts: Seq<TargetView>) -> bool {
    exists|i: int| 0 <= i < ts.len() && ts[i].healthy
}

/// The index of the first healthy candidate; meaningful only when one
/// exists.
pub open spec fn spec_first_healthy_index(ts: Seq<TargetView>) -> int
    decreases ts.len(),
{
    if ts.len() == 0 {
        0
    } else if ts[0].healthy {
        0
    } else {
        1 + spec_first_healthy_index(ts.drop_first())
    }
}

/// The selection rule. In order: the first healthy candidate; else the
/// current selection, kept to avoid churn; else the first candidate as an
/// initialization fallback; else nothing.
pub open spec fn spec_select(ts: Seq<TargetView>, current: Option<TargetView>) -> Option<
    TargetView,
> {
    if spec_has_healthy(ts) {
        Some(ts[spec_first_healthy_index(ts)])
    } else if current is Some {
        current
    } else if ts.len() > 0 {
        Some(ts[0])
    } else {
        None
    }
}

/// When any candidate is healthy, the first healthy index is in range,
/// names a healthy candidate, and no earlier candidate is healthy.
pub proof fn lemma_first_healthy_index(ts: Seq<TargetView>)
    requires
        spec_has_healthy(ts),
    ensures
        0 <= spec_first_healthy_index(ts) < ts.len(),
        ts[spec_first_healthy_index(ts)].healthy,
        forall|j: int| 0 <= j < spec_first_healthy_index(ts) ==> !ts[j].healthy,
    decreases ts.len(),
{
    if ts.len() > 0 && !ts[0].healthy {
        let rest = ts.drop_first();
        assert(spec_has_healthy(rest)) by {
            let w = choose|w: int| 0 <= w < ts.len() && ts[w].healthy;
            assert(rest[w - 1] == ts[w]);
        }
        lemma_first_healthy_index(rest);
        let fi = spec_first_healthy_index(rest);
        assert(ts[fi + 1] == rest[fi]);
        assert(forall|j: int| 0 <= j < fi + 1 ==> j == 0 || rest[j - 1] == #[trigger] ts[j]);
    }
}

/// A healthy candidate with no healthy predecessor is the first healthy
/// candidate.
pub proof fn lemma_first_healthy_index_at(ts: Seq<TargetView>, i: int)
    requires
        0 <= i < ts.len(),
        ts[i].healthy,
        forall|j: int| 0 <= j < i ==> !ts[j].healthy,
    ensures
        spec_first_healthy_index(ts) == i,
    decreases ts.len(),
{
    if i > 0 {
        let rest = ts.drop_first();
        assert(rest[i - 1] == ts[i]);
        assert(forall|j: int| 0 <= j < i - 1 ==> rest[j] == #[trigger] ts[j + 1]);
        lemma_first_healthy_index_at(rest, i - 1);
    }
}

/// The selection law for rules with a healthy candidate: whatever the
/// current selection, the selected target is the first healthy candidate
/// in configuration order.
pub proof fn lemma_select_picks_first_healthy(ts: Seq<TargetView>, current: Option<TargetView>)
    requires
        spec_has_healthy(ts),
    ensures
        spec_select(ts, current) == Some(ts[spec_first_healthy_index(ts)]),
        spec_select(ts, current).unwrap().healthy,
        forall|j: int|
            0 <= j < spec_first_healthy_index(ts) ==> !ts[j].healthy,
{
    lemma_first_healthy_index(ts);
}

/// The no-churn law: when no candidate is healthy and a selection exists,
/// the selection is kept as it is.
pub proof fn lemma_select_keeps_current_when_all_unhealthy(
    ts: Seq<TargetView>,
    current: Option<TargetView>,
)
    requires
        !spec_has_healthy(ts),
        current is Some,
    ensures
        spec_select(ts, current) == current,
{
}

/// The single-candidate law: while a rule's only candidate is healthy, the
/// selection is that candidate, whatever was selected before.
pub proof fn lemma_select_single_healthy(ts: Seq<TargetView>, current: Option<TargetView>)
    requires
        ts.len() == 1,
        ts[0].healthy,
    ensures
        spec_select(ts, current) == Some(ts[0]),
{
    assert(spec_has_healthy(ts));
    lemma_first_healthy_index(ts);
}

/// The stability law: selecting again with the outcome as the current
/// selection changes nothing, so while health is unchanged consecutive
/// passes keep returning the same target.
pub proof fn lemma_select_stable(ts: Seq<TargetView>, current: Option<TargetView>)
    ensures
        spec_select(ts, spec_select(ts, current)) == spec_select(ts, current),
{
    if spec_has_healthy(ts) {
        lemma_first_healthy_index(ts);
    }
}

/// The view of an optional target.
pub open spec fn spec_opt_target_view(o: Option<TargetInfo>) -> Option<TargetView> {
    match o {
        Some(t) => Some(t@),
        None => None,
    }
}

/// Picks the best target for a rule: the highest-priority healthy
/// candidate, else the current selection, else the first candidate.
pub fn select_best_target_with_stickiness(
    targets: &Vec<TargetInfo>,
    current_target: Option<&TargetInfo>,
) -> (r: Option<TargetInfo>)
    ensures
        spec_opt_target_view(r) == spec_select(
            targets.deep_view(),
            match current_target {
                Some(t) => Some(t@),
                None => None,
            },
        ),
{
    let ghost ts = targets.deep_view();
    let n = targets.len();
    let mut i: usize = 0;
    while i < n
        invariant
            0 <= i <= n == targets.len(),
            ts == targets.deep_view(),
            forall|j: int| 0 <= j < i ==> !ts[j].healthy,
        decreases n - i,
    {
        if targets[i].healthy {
            proof {
                assert(targets.deep_view()[i as int] == targets@[i as int]@);
                assert(ts[i as int].healthy);
                assert(spec_has_healthy(ts));
                lemma_first_healthy_index_at(ts, i as int);
            }
            return Some(targets[i].clone_ti());
        }
        i = i + 1;
    }
    proof {
        assert(!spec_has_healthy(ts));
    }
    match current_target {
        Some(c) => Some(c.clone_ti()),
        None => {
            if targets.len() > 0 {
                proof {
                    assert(targets.deep_view()[0] == targets@[0]@);
                }
                Some(targets[0].clone_ti())
            } else {
                None
            }
        },
    }
}

/// One rule's part of a selection pass: republishes the candidate copies,
/// recomputes the selection, and reports a switch event exactly when the
/// selected endpoint changed.
pub fn update_rule_selection(
    rule_name: &str,
    rule_info: &mut RuleInfo,
    updated_targets: Vec<TargetInfo>,
    now: u64,
) -> (ev: Option<SwitchEvent>)
    ensures
        ({
            let old_sel = spec_opt_target_view(old(rule_info).selected_target);
            let new_sel = spec_select(updated_targets.deep_view(), old_sel);
            &&& spec_opt_target_view(final(rule_info).selected_target) == new_sel
            &&& final(rule_info).targets == updated_targets
            &&& final(rule_info).last_update == now
            &&& (ev is Some <==> (old_sel is Some && new_sel is Some
                && old_sel.unwrap().resolved != new_sel.unwrap().resolved))
            &&& match ev {
                Some(e) => old_sel is Some && new_sel is Some && e.rule_name@ == rule_name@
                    && e.old_endpoint@ == old_sel.unwrap().resolved && e.new_endpoint@
                    == new_sel.unwrap().resolved,
                None => true,
            }
        }),
{
    let new_selected = select_best_target_with_stickiness(
        &updated_targets,
        rule_info.selected_target.as_ref(),
    );
    let ev: Option<SwitchEvent> = match (&rule_info.selected_target, &new_selected) {
        (Some(o), Some(n)) => {
            if !o.resolved.same_as(&n.resolved) {
                Some(
                    SwitchEvent {
                        rule_name: String::from_str(rule_name),
                        old_endpoint: o.resolved.clone_ep(),
                        new_endpoint: n.resolved.clone_ep(),
                    },
                )
            } else {
                None
            }
        },
        _ => None,
    };
    rule_info.targets = updated_targets;
    rule_info.selected_target = new_selected;
    rule_info.last_update = now;
    ev
}

} // verus!
