//! The kernel-offload synchronizer's in-memory rule table: the source of
//! truth that reconciliation replays into the kernel. For every enabled
//! (rule, protocol) pair it keeps one DNAT and one SNAT entry, rewrites
//! their targets on switch events, and empties itself at shutdown.

use vstd::prelude::*;
use crate::config::{Config, spec_rule_protocols};
use crate::endpoint::{Endpoint, EndpointView, spec_endpoint_str};
use crate::firewall::{
    DNAT_PRIORITY, FirewallBackend, FirewallRule, FirewallRuleView, ForwardType, SNAT_PRIORITY,
    spec_ids_unique,
};

verus! {

/// The id of the produced rule for one (rule, protocol) pair and kind:
/// `<name>_<protocol>_<dnat|snat>`.
#[verifier::opaque]
pub open spec fn spec_rule_id(name: Seq<char>, proto: Seq<char>, ft: ForwardType) -> Seq<char> {
    name + seq!['_'] + proto + (if ft is DNAT {
        seq!['_', 'd', 'n', 'a', 't']
    } else {
        seq!['_', 's', 'n', 'a', 't']
    })
}

/// Renders a produced rule id.
pub fn make_rule_id(name: &str, proto: &str, ft: ForwardType) -> (r: String)
    ensures
        r@ == spec_rule_id(name@, proto@, ft),
{
    let mut s = String::from_str(name);
    s.append("_");
    s.append(proto);
    match ft {
        ForwardType::DNAT => s.append("_dnat"),
        ForwardType::SNAT => s.append("_snat"),
    }
    proof {
        reveal(spec_rule_id);
        reveal_strlit("_");
        reveal_strlit("_dnat");
        reveal_strlit("_snat");
        assert(s@ =~= spec_rule_id(name@, proto@, ft));
    }
    s
}

/// A DNAT id never equals a SNAT id: they differ four characters from the
/// end.
pub proof fn lemma_dnat_snat_ids_differ(
    n1: Seq<char>,
    p1: Seq<char>,
    n2: Seq<char>,
    p2: Seq<char>,
)
    ensures
        spec_rule_id(n1, p1, ForwardType::DNAT) != spec_rule_id(n2, p2, ForwardType::SNAT),
{
    reveal(spec_rule_id);
    let a = spec_rule_id(n1, p1, ForwardType::DNAT);
    let b = spec_rule_id(n2, p2, ForwardType::SNAT);
    assert(a[a.len() - 4] == 'd');
    assert(b[b.len() - 4] == 's');
    if a == b {
        assert(a[a.len() - 4] == b[b.len() - 4]);
    }
}

/// Rule ids of one kind are equal exactly when name and protocol render
/// the same stem.
pub proof fn lemma_rule_id_eq(
    n1: Seq<char>,
    p1: Seq<char>,
    n2: Seq<char>,
    p2: Seq<char>,
    ft: ForwardType,
)
    ensures
        (spec_rule_id(n1, p1, ft) == spec_rule_id(n2, p2, ft)) <==> (n1 + seq!['_'] + p1 == n2
            + seq!['_'] + p2),
{
    reveal(spec_rule_id);
    let s1 = n1 + seq!['_'] + p1;
    let s2 = n2 + seq!['_'] + p2;
    let suf = if ft is DNAT {
        seq!['_', 'd', 'n', 'a', 't']
    } else {
        seq!['_', 's', 'n', 'a', 't']
    };
    if s1 + suf == s2 + suf {
        assert((s1 + suf).len() == s1.len() + suf.len());
        assert((s2 + suf).len() == s2.len() + suf.len());
        assert(s1.len() == s2.len());
        assert(s1 =~= s2) by {
            assert(forall|w: int| 0 <= w < s1.len() ==> (s1 + suf)[w] == #[trigger] s1[w]);
            assert(forall|w: int| 0 <= w < s2.len() ==> (s2 + suf)[w] == #[trigger] s2[w]);
        }
    }
    if s1 == s2 {
        assert(s1 + suf =~= s2 + suf);
    }
}

/// Equal id stems with recognized protocols force equal names and equal
/// protocols: the three protocol words never line up across a shifted
/// separator.
proof fn lemma_stem_parts(n1: Seq<char>, p1: Seq<char>, n2: Seq<char>, p2: Seq<char>)
    requires
        n1 + seq!['_'] + p1 == n2 + seq!['_'] + p2,
        crate::config::spec_protocol_supported(p1),
        crate::config::spec_protocol_supported(p2),
    ensures
        n1 == n2,
        p1 == p2,
{
    reveal_strlit("tcp");
    reveal_strlit("udp");
    reveal_strlit("http");
    let s = n1 + seq!['_'] + p1;
    assert((n1 + seq!['_'] + p1).len() == n1.len() + 1 + p1.len());
    assert((n2 + seq!['_'] + p2).len() == n2.len() + 1 + p2.len());
    if p1.len() == p2.len() {
        assert(n1.len() == n2.len());
        assert(p1 =~= p2) by {
            assert forall|w: int| 0 <= w < p1.len() implies p1[w] == p2[w] by {
                assert(s[n1.len() + 1 + w] == p1[w]);
                assert(s[n2.len() + 1 + w] == p2[w]);
            }
        }
        assert(n1 =~= n2) by {
            assert forall|w: int| 0 <= w < n1.len() implies n1[w] == n2[w] by {
                assert(s[w] == n1[w]);
                assert(s[w] == n2[w]);
            }
        }
    } else {
        let ll = s.len() as int;
        if p1.len() == 3 {
            assert(p2 == "http"@);
            assert(s[ll - 4] == '_') by {
                assert(ll - 4 == n1.len());
                assert(s[n1.len() as int] == '_');
            }
            assert(s[ll - 4] == 'h') by {
                assert(ll - 4 == n2.len() + 1);
                assert(s[n2.len() as int + 1] == p2[0]);
            }
        } else {
            assert(p1 == "http"@);
            assert(s[ll - 4] == '_') by {
                assert(ll - 4 == n2.len());
                assert(s[n2.len() as int] == '_');
            }
            assert(s[ll - 4] == 'h') by {
                assert(ll - 4 == n1.len() + 1);
                assert(s[n1.len() as int + 1] == p1[0]);
            }
        }
    }
}

/// Validation already guarantees distinct produced ids: with unique rule
/// names and duplicate-free protocol sets, no two (rule, protocol) pairs
/// render the same id.
pub proof fn lemma_valid_config_distinct_ids(c: Config)
    requires
        crate::config::spec_config_valid(c),
    ensures
        spec_distinct_pair_ids(c),
{
    assert forall|i: int, k: int, i2: int, k2: int|
        spec_pair_in_range(c, i, k) && spec_pair_in_range(c, i2, k2) && (i != i2 || k != k2)
            implies #[trigger] spec_pair_dnat_id(c, i, k) != #[trigger] spec_pair_dnat_id(
        c,
        i2,
        k2,
    ) by {
        if spec_pair_dnat_id(c, i, k) == spec_pair_dnat_id(c, i2, k2) {
            let n1 = c.rules@[i].name@;
            let p1 = spec_rule_protocols(c.rules@[i])[k];
            let n2 = c.rules@[i2].name@;
            let p2 = spec_rule_protocols(c.rules@[i2])[k2];
            lemma_rule_id_eq(n1, p1, n2, p2, ForwardType::DNAT);
            assert(crate::config::spec_rule_valid(c.rules@[i]));
            assert(crate::config::spec_rule_valid(c.rules@[i2]));
            assert(crate::config::spec_protocol_supported(p1));
            assert(crate::config::spec_protocol_supported(p2));
            lemma_stem_parts(n1, p1, n2, p2);
            if i < i2 {
                assert(c.rules@[i].name@ != c.rules@[i2].name@);
            } else if i2 < i {
                assert(c.rules@[i2].name@ != c.rules@[i].name@);
            } else {
                if k < k2 {
                    assert(spec_rule_protocols(c.rules@[i])[k] != spec_rule_protocols(
                        c.rules@[i],
                    )[k2]);
                } else {
                    assert(spec_rule_protocols(c.rules@[i])[k2] != spec_rule_protocols(
                        c.rules@[i],
                    )[k]);
                }
            }
        }
    }
}

/// Both produced ids of a pair, as one helper.
pub open spec fn spec_pair_dnat_id(c: Config, i: int, k: int) -> Seq<char> {
    spec_rule_id(c.rules@[i].name@, spec_rule_protocols(c.rules@[i])[k], ForwardType::DNAT)
}

pub open spec fn spec_pair_snat_id(c: Config, i: int, k: int) -> Seq<char> {
    spec_rule_id(c.rules@[i].name@, spec_rule_protocols(c.rules@[i])[k], ForwardType::SNAT)
}

/// The pair (i, k) names rule `i` of the configuration and its `k`-th
/// protocol.
pub open spec fn spec_pair_in_range(c: Config, i: int, k: int) -> bool {
    0 <= i < c.rules.len() && 0 <= k < spec_rule_protocols(c.rules@[i]).len()
}

/// Distinct (rule, protocol) pairs render distinct ids. Unique rule names
/// give this unless names and protocol lists collide through underscores;
/// the synchronizer takes it as a precondition.
pub open spec fn spec_distinct_pair_ids(c: Config) -> bool {
    forall|i: int, k: int, i2: int, k2: int|
        spec_pair_in_range(c, i, k) && spec_pair_in_range(c, i2, k2) && (i != i2 || k != k2)
            ==> #[trigger] spec_pair_dnat_id(c, i, k) != #[trigger] spec_pair_dnat_id(c, i2, k2)
}

/// The entry the synchronizer keeps for pair (i, k) with target `tgt`.
#[verifier::opaque]
pub open spec fn spec_expected_rule(
    c: Config,
    tgt: EndpointView,
    i: int,
    k: int,
    ft: ForwardType,
) -> FirewallRuleView {
    FirewallRuleView {
        rule_id: if ft is DNAT {
            spec_pair_dnat_id(c, i, k)
        } else {
            spec_pair_snat_id(c, i, k)
        },
        listen_port: c.rules@[i].listen_port,
        protocol: spec_rule_protocols(c.rules@[i])[k],
        target_addr: spec_endpoint_str(tgt),
        forward_type: ft,
        enabled: true,
        priority: if ft is DNAT {
            DNAT_PRIORITY
        } else {
            SNAT_PRIORITY
        },
        config_index: i as usize,
    }
}

/// Entry `e` is one of the two produced entries of pair (i2, k2).
pub open spec fn spec_entry_of_pair(
    e: FirewallRuleView,
    c: Config,
    tv: Seq<Option<EndpointView>>,
    i2: int,
    k2: int,
) -> bool {
    &&& spec_pair_in_range(c, i2, k2)
    &&& tv[i2] is Some
    &&& (e == spec_expected_rule(c, tv[i2].unwrap(), i2, k2, ForwardType::DNAT) || e
        == spec_expected_rule(c, tv[i2].unwrap(), i2, k2, ForwardType::SNAT))
}

/// Pair (i2, k2) comes before position (i, k) in the build order.
pub open spec fn spec_pair_before(i2: int, k2: int, i: int, k: int) -> bool {
    i2 < i || (i2 == i && k2 < k)
}

/// Entry `e` belongs to some pair processed before position (i, k).
pub open spec fn spec_entry_covered(
    e: FirewallRuleView,
    c: Config,
    tv: Seq<Option<EndpointView>>,
    i: int,
    k: int,
) -> bool {
    exists|i2: int, k2: int|
        spec_pair_before(i2, k2, i, k) && #[trigger] spec_entry_of_pair(e, c, tv, i2, k2)
}

/// Whatever pair covers an entry also covers it from any later position.
proof fn lemma_entry_covered_weaken(
    e: FirewallRuleView,
    c: Config,
    tv: Seq<Option<EndpointView>>,
    i: int,
    k: int,
    i3: int,
    k3: int,
)
    requires
        spec_entry_covered(e, c, tv, i, k),
        i < i3 || (i == i3 && k <= k3),
    ensures
        spec_entry_covered(e, c, tv, i3, k3),
{
    let (a, b): (int, int) = choose|a: int, b: int|
        spec_pair_before(a, b, i, k) && #[trigger] spec_entry_of_pair(e, c, tv, a, b);
    assert(spec_pair_before(a, b, i3, k3) && spec_entry_of_pair(e, c, tv, a, b));
}

/// Every entry of the table belongs to a pair already processed.
#[verifier::opaque]
pub open spec fn spec_covered_upto(
    rs: Seq<FirewallRuleView>,
    c: Config,
    tv: Seq<Option<EndpointView>>,
    i: int,
    k: int,
) -> bool {
    forall|j: int|
        #![trigger rs[j]]
        0 <= j < rs.len() ==> spec_entry_covered(rs[j], c, tv, i, k)
}

/// Every processed pair with a selected target has both its entries in the
/// table.
#[verifier::opaque]
pub open spec fn spec_present_upto(
    rs: Seq<FirewallRuleView>,
    c: Config,
    tv: Seq<Option<EndpointView>>,
    i: int,
    k: int,
) -> bool {
    forall|i2: int, k2: int|
        spec_pair_in_range(c, i2, k2) && spec_pair_before(i2, k2, i, k) && tv[i2] is Some
            ==> rs.contains(
            #[trigger] spec_expected_rule(c, tv[i2].unwrap(), i2, k2, ForwardType::DNAT),
        ) && rs.contains(spec_expected_rule(c, tv[i2].unwrap(), i2, k2, ForwardType::SNAT))
}

/// Entry `e` is a produced entry of some (rule, protocol) pair.
pub open spec fn spec_entry_produced(
    e: FirewallRuleView,
    c: Config,
    tv: Seq<Option<EndpointView>>,
) -> bool {
    exists|i2: int, k2: int| #[trigger] spec_entry_of_pair(e, c, tv, i2, k2)
}

/// The rule table holds exactly the produced rules: for every pair with a
/// selected target one DNAT and one SNAT entry, and nothing else. This is
/// what a reconciliation replays into the kernel, so it also says what the
/// managed kernel table holds after one.
pub open spec fn spec_table_complete(
    rs: Seq<FirewallRuleView>,
    c: Config,
    tv: Seq<Option<EndpointView>>,
) -> bool {
    &&& forall|i: int, k: int|
        spec_pair_in_range(c, i, k) && tv[i] is Some ==> rs.contains(
            #[trigger] spec_expected_rule(c, tv[i].unwrap(), i, k, ForwardType::DNAT),
        ) && rs.contains(#[trigger] spec_expected_rule(c, tv[i].unwrap(), i, k, ForwardType::SNAT))
    &&& forall|j: int|
        #![trigger rs[j]]
        0 <= j < rs.len() ==> spec_entry_produced(rs[j], c, tv)
}

/// All four produced ids of two distinct pairs differ pairwise.
proof fn lemma_pair_ids_all_differ(c: Config, i1: int, k1: int, i2: int, k2: int)
    requires
        spec_distinct_pair_ids(c),
        spec_pair_in_range(c, i1, k1),
        spec_pair_in_range(c, i2, k2),
        i1 != i2 || k1 != k2,
    ensures
        spec_pair_dnat_id(c, i1, k1) != spec_pair_dnat_id(c, i2, k2),
        spec_pair_snat_id(c, i1, k1) != spec_pair_snat_id(c, i2, k2),
        spec_pair_dnat_id(c, i1, k1) != spec_pair_snat_id(c, i2, k2),
        spec_pair_snat_id(c, i1, k1) != spec_pair_dnat_id(c, i2, k2),
{
    let n1 = c.rules@[i1].name@;
    let p1 = spec_rule_protocols(c.rules@[i1])[k1];
    let n2 = c.rules@[i2].name@;
    let p2 = spec_rule_protocols(c.rules@[i2])[k2];
    assert(spec_pair_dnat_id(c, i1, k1) != spec_pair_dnat_id(c, i2, k2));
    lemma_rule_id_eq(n1, p1, n2, p2, ForwardType::DNAT);
    lemma_rule_id_eq(n1, p1, n2, p2, ForwardType::SNAT);
    lemma_dnat_snat_ids_differ(n1, p1, n2, p2);
    lemma_dnat_snat_ids_differ(n2, p2, n1, p1);
}

/// A sequence keeps its members when another element is pushed.
proof fn lemma_contains_push(rs: Seq<FirewallRuleView>, v: FirewallRuleView, x: FirewallRuleView)
    requires
        rs.contains(v),
    ensures
        rs.push(x).contains(v),
{
    let j = choose|j: int| 0 <= j < rs.len() && rs[j] == v;
    assert(rs.push(x)[j] == v);
}

/// An empty table is covered and complete for any position.
proof fn lemma_upto_empty(c: Config, tv: Seq<Option<EndpointView>>)
    ensures
        spec_covered_upto(Seq::<FirewallRuleView>::empty(), c, tv, 0, 0),
        spec_present_upto(Seq::<FirewallRuleView>::empty(), c, tv, 0, 0),
{
    reveal(spec_covered_upto);
    reveal(spec_present_upto);
    assert forall|i2: int, k2: int|
        spec_pair_in_range(c, i2, k2) && spec_pair_before(i2, k2, 0, 0) && tv[i2] is Some
            implies Seq::<FirewallRuleView>::empty().contains(
        #[trigger] spec_expected_rule(c, tv[i2].unwrap(), i2, k2, ForwardType::DNAT),
    ) && Seq::<FirewallRuleView>::empty().contains(
        spec_expected_rule(c, tv[i2].unwrap(), i2, k2, ForwardType::SNAT),
    ) by {
        assert(!spec_pair_before(i2, k2, 0, 0));
    }
}

/// Pushing the pair's two entries keeps rule-id uniqueness.
#[verifier::spinoff_prover]
proof fn lemma_step_unique(
    rs: Seq<FirewallRuleView>,
    c: Config,
    tv: Seq<Option<EndpointView>>,
    i: int,
    k: int,
)
    requires
        spec_distinct_pair_ids(c),
        spec_pair_in_range(c, i, k),
        tv[i] is Some,
        spec_ids_unique(rs),
        spec_covered_upto(rs, c, tv, i, k),
    ensures
        spec_ids_unique(
            rs.push(spec_expected_rule(c, tv[i].unwrap(), i, k, ForwardType::DNAT)).push(
                spec_expected_rule(c, tv[i].unwrap(), i, k, ForwardType::SNAT),
            ),
        ),
{
    reveal(spec_covered_upto);
    let dn = spec_expected_rule(c, tv[i].unwrap(), i, k, ForwardType::DNAT);
    let sn = spec_expected_rule(c, tv[i].unwrap(), i, k, ForwardType::SNAT);
    let nv = rs.push(dn).push(sn);
    assert(dn.rule_id == spec_pair_dnat_id(c, i, k) && sn.rule_id == spec_pair_snat_id(c, i, k))
        by {
        reveal(spec_expected_rule);
    }
    assert(dn.rule_id != sn.rule_id) by {
        lemma_dnat_snat_ids_differ(
            c.rules@[i].name@,
            spec_rule_protocols(c.rules@[i])[k],
            c.rules@[i].name@,
            spec_rule_protocols(c.rules@[i])[k],
        );
    }
    assert forall|j: int| 0 <= j < rs.len() implies (#[trigger] rs[j]).rule_id != dn.rule_id && rs[
        j
    ].rule_id != sn.rule_id by {
        let e = rs[j];
        assert(spec_entry_covered(e, c, tv, i, k));
        let (i2, k2): (int, int) = choose|i2: int, k2: int|
            spec_pair_before(i2, k2, i, k) && #[trigger] spec_entry_of_pair(rs[j], c, tv, i2, k2);
        assert(rs[j].rule_id == spec_pair_dnat_id(c, i2, k2) || rs[j].rule_id == spec_pair_snat_id(
            c,
            i2,
            k2,
        )) by {
            reveal(spec_expected_rule);
        }
        lemma_pair_ids_all_differ(c, i2, k2, i, k);
    }
    assert forall|a: int, b: int| 0 <= a < b < nv.len() implies (#[trigger] nv[a]).rule_id != (
    #[trigger] nv[b]).rule_id by {
        if b < rs.len() {
            assert(nv[a] == rs[a] && nv[b] == rs[b]);
        } else if b == rs.len() {
            assert(nv[b] == dn && nv[a] == rs[a]);
        } else {
            assert(nv[b] == sn);
            if a < rs.len() {
                assert(nv[a] == rs[a]);
            } else {
                assert(nv[a] == dn);
            }
        }
    }
}

/// Pushing the pair's two entries keeps every entry accounted for.
#[verifier::spinoff_prover]
proof fn lemma_step_covered(
    rs: Seq<FirewallRuleView>,
    c: Config,
    tv: Seq<Option<EndpointView>>,
    i: int,
    k: int,
)
    requires
        spec_pair_in_range(c, i, k),
        tv[i] is Some,
        spec_covered_upto(rs, c, tv, i, k),
    ensures
        spec_covered_upto(
            rs.push(spec_expected_rule(c, tv[i].unwrap(), i, k, ForwardType::DNAT)).push(
                spec_expected_rule(c, tv[i].unwrap(), i, k, ForwardType::SNAT),
            ),
            c,
            tv,
            i,
            k + 1,
        ),
{
    reveal(spec_covered_upto);
    let dn = spec_expected_rule(c, tv[i].unwrap(), i, k, ForwardType::DNAT);
    let sn = spec_expected_rule(c, tv[i].unwrap(), i, k, ForwardType::SNAT);
    let nv = rs.push(dn).push(sn);
    assert forall|j: int| #![trigger nv[j]] 0 <= j < nv.len() implies spec_entry_covered(
        nv[j],
        c,
        tv,
        i,
        k + 1,
    ) by {
        if j < rs.len() {
            assert(nv[j] == rs[j]);
            assert(spec_entry_covered(rs[j], c, tv, i, k));
            lemma_entry_covered_weaken(rs[j], c, tv, i, k, i, k + 1);
        } else {
            assert(nv[j] == dn || nv[j] == sn);
            assert(spec_entry_of_pair(dn, c, tv, i, k) && spec_entry_of_pair(sn, c, tv, i, k));
            assert(spec_pair_before(i, k, i, k + 1) && spec_entry_of_pair(nv[j], c, tv, i, k));
        }
    }
}

/// Pushing the pair's two entries records the pair itself as present.
#[verifier::spinoff_prover]
proof fn lemma_step_present(
    rs: Seq<FirewallRuleView>,
    c: Config,
    tv: Seq<Option<EndpointView>>,
    i: int,
    k: int,
)
    requires
        spec_pair_in_range(c, i, k),
        tv[i] is Some,
        spec_present_upto(rs, c, tv, i, k),
    ensures
        spec_present_upto(
            rs.push(spec_expected_rule(c, tv[i].unwrap(), i, k, ForwardType::DNAT)).push(
                spec_expected_rule(c, tv[i].unwrap(), i, k, ForwardType::SNAT),
            ),
            c,
            tv,
            i,
            k + 1,
        ),
{
    reveal(spec_present_upto);
    let dn = spec_expected_rule(c, tv[i].unwrap(), i, k, ForwardType::DNAT);
    let sn = spec_expected_rule(c, tv[i].unwrap(), i, k, ForwardType::SNAT);
    let nv = rs.push(dn).push(sn);
    assert forall|i2: int, k2: int|
        spec_pair_in_range(c, i2, k2) && spec_pair_before(i2, k2, i, k + 1) && tv[i2] is Some
            implies nv.contains(
        #[trigger] spec_expected_rule(c, tv[i2].unwrap(), i2, k2, ForwardType::DNAT),
    ) && nv.contains(spec_expected_rule(c, tv[i2].unwrap(), i2, k2, ForwardType::SNAT)) by {
        let dn2 = spec_expected_rule(c, tv[i2].unwrap(), i2, k2, ForwardType::DNAT);
        let sn2 = spec_expected_rule(c, tv[i2].unwrap(), i2, k2, ForwardType::SNAT);
        if i2 == i && k2 == k {
            assert(nv[rs.len() as int] == dn);
            assert(nv[rs.len() as int + 1] == sn);
            assert(nv.contains(dn) && nv.contains(sn));
        } else {
            assert(spec_pair_before(i2, k2, i, k));
            assert(rs.contains(dn2) && rs.contains(sn2));
            lemma_contains_push(rs, dn2, dn);
            lemma_contains_push(rs.push(dn), dn2, sn);
            lemma_contains_push(rs, sn2, dn);
            lemma_contains_push(rs.push(dn), sn2, sn);
        }
    }
}

/// Moving past rule `i` re-bases coverage at (i + 1, 0).
#[verifier::spinoff_prover]
proof fn lemma_advance_covered(
    rs: Seq<FirewallRuleView>,
    c: Config,
    tv: Seq<Option<EndpointView>>,
    i: int,
    k: int,
)
    requires
        spec_covered_upto(rs, c, tv, i, k),
    ensures
        spec_covered_upto(rs, c, tv, i + 1, 0),
{
    reveal(spec_covered_upto);
    assert forall|j: int| #![trigger rs[j]] 0 <= j < rs.len() implies spec_entry_covered(
        rs[j],
        c,
        tv,
        i + 1,
        0,
    ) by {
        assert(spec_entry_covered(rs[j], c, tv, i, k));
        lemma_entry_covered_weaken(rs[j], c, tv, i, k, i + 1, 0);
    }
}

/// Moving past rule `i` re-bases presence at (i + 1, 0): every pair of
/// rule `i` was processed, or the rule has no target.
#[verifier::spinoff_prover]
proof fn lemma_advance_present(
    rs: Seq<FirewallRuleView>,
    c: Config,
    tv: Seq<Option<EndpointView>>,
    i: int,
    k: int,
)
    requires
        spec_present_upto(rs, c, tv, i, k),
        tv[i] is Some ==> k >= spec_rule_protocols(c.rules@[i]).len(),
    ensures
        spec_present_upto(rs, c, tv, i + 1, 0),
{
    reveal(spec_present_upto);
    assert forall|i2: int, k2: int|
        spec_pair_in_range(c, i2, k2) && spec_pair_before(i2, k2, i + 1, 0) && tv[i2] is Some
            implies rs.contains(
        #[trigger] spec_expected_rule(c, tv[i2].unwrap(), i2, k2, ForwardType::DNAT),
    ) && rs.contains(spec_expected_rule(c, tv[i2].unwrap(), i2, k2, ForwardType::SNAT)) by {
        assert(spec_pair_before(i2, k2, i, k));
    }
}

/// At the end of the build, coverage and presence over every rule say the
/// table is complete.
#[verifier::spinoff_prover]
proof fn lemma_complete_from_upto(
    rs: Seq<FirewallRuleView>,
    c: Config,
    tv: Seq<Option<EndpointView>>,
)
    requires
        spec_covered_upto(rs, c, tv, c.rules.len() as int, 0),
        spec_present_upto(rs, c, tv, c.rules.len() as int, 0),
    ensures
        spec_table_complete(rs, c, tv),
{
    assert forall|j: int| #![trigger rs[j]] 0 <= j < rs.len() implies spec_entry_produced(
        rs[j],
        c,
        tv,
    ) by {
        reveal(spec_covered_upto);
        let e = rs[j];
        assert(spec_entry_covered(e, c, tv, c.rules.len() as int, 0));
        let (i2, k2): (int, int) = choose|i2: int, k2: int|
            spec_pair_before(i2, k2, c.rules.len() as int, 0) && #[trigger] spec_entry_of_pair(
                e,
                c,
                tv,
                i2,
                k2,
            );
        assert(spec_entry_of_pair(rs[j], c, tv, i2, k2));
    }
    assert forall|i2: int, k2: int|
        spec_pair_in_range(c, i2, k2) && tv[i2] is Some implies rs.contains(
        #[trigger] spec_expected_rule(c, tv[i2].unwrap(), i2, k2, ForwardType::DNAT),
    ) && rs.contains(spec_expected_rule(c, tv[i2].unwrap(), i2, k2, ForwardType::SNAT)) by {
        reveal(spec_present_upto);
        assert(spec_pair_before(i2, k2, c.rules.len() as int, 0));
    }
}

/// The two entries of rule `i`'s first `k` protocol pairs, in build order.
pub open spec fn spec_pair_entries(
    c: Config,
    tv: Seq<Option<EndpointView>>,
    i: int,
    k: int,
) -> Seq<FirewallRuleView>
    decreases k,
{
    if k <= 0 {
        Seq::empty()
    } else {
        spec_pair_entries(c, tv, i, k - 1) + seq![
            spec_expected_rule(c, tv[i].unwrap(), i, k - 1, ForwardType::DNAT),
            spec_expected_rule(c, tv[i].unwrap(), i, k - 1, ForwardType::SNAT),
        ]
    }
}

/// The table built from the first `i` rules.
pub open spec fn spec_rules_table(
    c: Config,
    tv: Seq<Option<EndpointView>>,
    i: int,
) -> Seq<FirewallRuleView>
    decreases i,
{
    if i <= 0 {
        Seq::empty()
    } else {
        spec_rules_table(c, tv, i - 1) + (if tv[i - 1] is Some {
            spec_pair_entries(c, tv, i - 1, spec_rule_protocols(c.rules@[i - 1]).len() as int)
        } else {
            Seq::empty()
        })
    }
}

/// The whole produced table for a configuration and selection: the
/// reconciled state is a function of these two alone.
pub open spec fn spec_full_table(c: Config, tv: Seq<Option<EndpointView>>) -> Seq<
    FirewallRuleView,
> {
    spec_rules_table(c, tv, c.rules.len() as int)
}

/// Reconciliation is idempotent: one selection determines one table, so
/// applying the same selection again recreates the table unchanged, and
/// replaying it issues the same kernel commands.
pub proof fn lemma_reconcile_idempotent(
    c: Config,
    tv: Seq<Option<EndpointView>>,
    first: Seq<FirewallRuleView>,
    second: Seq<FirewallRuleView>,
)
    requires
        first == spec_full_table(c, tv),
        second == spec_full_table(c, tv),
    ensures
        first == second,
{
}

/// The kernel-offload synchronizer's table of produced rules.
pub struct FirewallScheduler {
    pub backend: FirewallBackend,
    pub listen_addr: String,
    pub rules: Vec<FirewallRule>,
}

/// The views of a selected-target list.
pub open spec fn spec_targets_view(ts: Seq<Option<Endpoint>>) -> Seq<Option<EndpointView>> {
    Seq::new(
        ts.len(),
        |i: int|
            match ts[i] {
                Some(e) => Some(e@),
                None => None,
            },
    )
}

impl FirewallScheduler {
    pub open spec fn wf(self) -> bool {
        spec_ids_unique(self.rules.deep_view())
    }

    pub fn new(backend: FirewallBackend, listen_addr: String) -> (r: FirewallScheduler)
        ensures
            r.backend == backend,
            r.listen_addr@ == listen_addr@,
            r.rules.deep_view() == Seq::<FirewallRuleView>::empty(),
            r.wf(),
    {
        let r = FirewallScheduler { backend, listen_addr, rules: Vec::new() };
        proof {
            assert(r.rules.deep_view() =~= Seq::<FirewallRuleView>::empty());
        }
        r
    }

    /// Builds the initial table: one DNAT and one SNAT entry per (rule,
    /// protocol) pair whose rule has a selected target. Afterwards the
    /// table is complete for the given selection and its ids are unique.
    pub fn create_initial_rules(&mut self, config: &Config, targets: &Vec<Option<Endpoint>>)
        requires
            old(self).rules.len() == 0,
            targets.len() == config.rules.len(),
            crate::config::spec_config_valid(*config),
        ensures
            final(self).wf(),
            final(self).backend == old(self).backend,
            final(self).listen_addr@ == old(self).listen_addr@,
            final(self).rules.deep_view() == spec_full_table(*config, spec_targets_view(targets@)),
            spec_table_complete(
                final(self).rules.deep_view(),
                *config,
                spec_targets_view(targets@),
            ),
    {
        self.rules = build_rules(config, targets);
    }

    /// One reconciliation step: recomputes the produced table for the
    /// current selection and says whether anything changed. An unchanged
    /// selection leaves the table exactly as it was.
    pub fn sync_with_targets(&mut self, config: &Config, targets: &Vec<Option<Endpoint>>) -> (changed:
        bool)
        requires
            targets.len() == config.rules.len(),
            crate::config::spec_config_valid(*config),
        ensures
            final(self).wf(),
            final(self).backend == old(self).backend,
            final(self).listen_addr@ == old(self).listen_addr@,
            final(self).rules.deep_view() == spec_full_table(*config, spec_targets_view(targets@)),
            spec_table_complete(
                final(self).rules.deep_view(),
                *config,
                spec_targets_view(targets@),
            ),
            changed == (old(self).rules.deep_view() != spec_full_table(
                *config,
                spec_targets_view(targets@),
            )),
    {
        let fresh = build_rules(config, targets);
        let changed = !crate::firewall::rules_equal(&self.rules, &fresh);
        self.rules = fresh;
        changed
    }

    /// Orderly shutdown: the table empties; the caller removes the managed
    /// kernel namespace with the backend's clear commands.
    pub fn clear_all(&mut self)
        ensures
            final(self).rules.deep_view() == Seq::<FirewallRuleView>::empty(),
            final(self).wf(),
            final(self).backend == old(self).backend,
            final(self).listen_addr@ == old(self).listen_addr@,
    {
        self.rules = Vec::new();
        proof {
            assert(self.rules.deep_view() =~= Seq::<FirewallRuleView>::empty());
        }
    }
}

/// Builds the produced table for a configuration and selection.
#[verifier::rlimit(60)]
pub fn build_rules(config: &Config, targets: &Vec<Option<Endpoint>>) -> (out: Vec<FirewallRule>)
    requires
        targets.len() == config.rules.len(),
        crate::config::spec_config_valid(*config),
    ensures
        out.deep_view() == spec_full_table(*config, spec_targets_view(targets@)),
        spec_ids_unique(out.deep_view()),
        spec_table_complete(out.deep_view(), *config, spec_targets_view(targets@)),
{
    let ghost c = *config;
    let ghost tv = spec_targets_view(targets@);
    let mut out: Vec<FirewallRule> = Vec::new();
    proof {
        lemma_valid_config_distinct_ids(c);
        assert(out.deep_view() =~= Seq::<FirewallRuleView>::empty());
        lemma_upto_empty(c, tv);
    }
    let mut i: usize = 0;
    while i < config.rules.len()
        invariant
            0 <= i <= config.rules.len(),
            c == *config,
            tv == spec_targets_view(targets@),
            targets.len() == config.rules.len(),
            crate::config::spec_config_valid(c),
            spec_distinct_pair_ids(c),
            spec_ids_unique(out.deep_view()),
            out.deep_view() == spec_rules_table(c, tv, i as int),
            spec_covered_upto(out.deep_view(), c, tv, i as int, 0),
            spec_present_upto(out.deep_view(), c, tv, i as int, 0),
        decreases config.rules.len() - i,
    {
        let rule_config = &config.rules[i];
        proof {
            assert(*rule_config == c.rules@[i as int]);
        }
        match &targets[i] {
            Some(ep) => {
                let target_addr = ep.to_addr_string();
                proof {
                    assert(tv[i as int] == Some(ep@));
                    assert(target_addr@ == spec_endpoint_str(tv[i as int].unwrap()));
                }
                let protocols = rule_config.get_protocols();
                let mut k: usize = 0;
                proof {
                    assert(spec_pair_entries(c, tv, i as int, 0) =~= Seq::<
                        FirewallRuleView,
                    >::empty());
                    assert(out.deep_view() =~= spec_rules_table(c, tv, i as int)
                        + spec_pair_entries(c, tv, i as int, 0));
                }
                while k < protocols.len()
                    invariant
                        0 <= k <= protocols.len(),
                        0 <= i < config.rules.len(),
                        c == *config,
                        tv == spec_targets_view(targets@),
                        targets.len() == config.rules.len(),
                        crate::config::spec_config_valid(c),
                        spec_distinct_pair_ids(c),
                        *rule_config == c.rules@[i as int],
                        protocols.deep_view() == spec_rule_protocols(c.rules@[i as int]),
                        tv[i as int] is Some,
                        target_addr@ == spec_endpoint_str(tv[i as int].unwrap()),
                        spec_ids_unique(out.deep_view()),
                        out.deep_view() == spec_rules_table(c, tv, i as int) + spec_pair_entries(
                            c,
                            tv,
                            i as int,
                            k as int,
                        ),
                        spec_covered_upto(out.deep_view(), c, tv, i as int, k as int),
                        spec_present_upto(out.deep_view(), c, tv, i as int, k as int),
                    decreases protocols.len() - k,
                {
                    let proto = &protocols[k];
                    proof {
                        assert(protocols.deep_view()[k as int] == proto@);
                    }
                    let dnat_id = make_rule_id(
                        rule_config.name.as_str(),
                        proto.as_str(),
                        ForwardType::DNAT,
                    );
                    let snat_id = make_rule_id(
                        rule_config.name.as_str(),
                        proto.as_str(),
                        ForwardType::SNAT,
                    );
                    let dnat_rule = FirewallRule::new(
                        dnat_id,
                        rule_config.listen_port,
                        proto.clone(),
                        target_addr.clone(),
                        ForwardType::DNAT,
                        i,
                    );
                    let snat_rule = FirewallRule::new(
                        snat_id,
                        rule_config.listen_port,
                        proto.clone(),
                        target_addr.clone(),
                        ForwardType::SNAT,
                        i,
                    );
                    let ghost dn = spec_expected_rule(
                        c,
                        tv[i as int].unwrap(),
                        i as int,
                        k as int,
                        ForwardType::DNAT,
                    );
                    let ghost sn = spec_expected_rule(
                        c,
                        tv[i as int].unwrap(),
                        i as int,
                        k as int,
                        ForwardType::SNAT,
                    );
                    proof {
                        assert(dnat_rule@ == dn && snat_rule@ == sn) by {
                            reveal(spec_expected_rule);
                        }
                        lemma_step_unique(out.deep_view(), c, tv, i as int, k as int);
                        lemma_step_covered(out.deep_view(), c, tv, i as int, k as int);
                        lemma_step_present(out.deep_view(), c, tv, i as int, k as int);
                    }
                    let ghost pre = out.deep_view();
                    out.push(dnat_rule);
                    out.push(snat_rule);
                    proof {
                        assert(out.deep_view() =~= pre.push(dn).push(sn));
                        assert(spec_pair_entries(c, tv, i as int, k as int + 1)
                            == spec_pair_entries(c, tv, i as int, k as int) + seq![dn, sn]);
                        assert(out.deep_view() =~= spec_rules_table(c, tv, i as int)
                            + spec_pair_entries(c, tv, i as int, k as int + 1));
                    }
                    k = k + 1;
                }
                proof {
                    lemma_advance_covered(
                        out.deep_view(),
                        c,
                        tv,
                        i as int,
                        protocols.len() as int,
                    );
                    lemma_advance_present(
                        out.deep_view(),
                        c,
                        tv,
                        i as int,
                        protocols.len() as int,
                    );
                    assert(spec_rules_table(c, tv, i as int + 1) == spec_rules_table(
                        c,
                        tv,
                        i as int,
                    ) + spec_pair_entries(
                        c,
                        tv,
                        i as int,
                        spec_rule_protocols(c.rules@[i as int]).len() as int,
                    ));
                }
            },
            None => {
                proof {
                    assert(tv[i as int] is None);
                    lemma_advance_covered(out.deep_view(), c, tv, i as int, 0);
                    lemma_advance_present(out.deep_view(), c, tv, i as int, 0);
                    assert(spec_rules_table(c, tv, i as int + 1) =~= spec_rules_table(
                        c,
                        tv,
                        i as int,
                    ));
                }
            },
        }
        i = i + 1;
    }
    proof {
        lemma_complete_from_upto(out.deep_view(), c, tv);
    }
    out
}

} // verus!
