//! Kernel-offload rule model: the NAT rules the tool produces, and the
//! argument lists each firewall backend is driven with. Running the actual
//! `nft`, `iptables` or `pfctl` commands stays with the caller; what is run
//! is decided and rendered here.

use vstd::prelude::*;
use crate::text::{count_char, first_index, spec_dec, str_contains_char, str_count_char,
    str_find_char, u16_to_string};

verus! {

/// Which packet-filter frontend drives the kernel.
#[derive(Debug, Clone, PartialEq, Eq, Structural)]
pub enum FirewallBackend {
    Nftables,
    Iptables,
    Pfctl,
}

/// The two rule kinds produced for every forwarded (rule, protocol) pair.
#[derive(Debug, Clone, Copy, PartialEq, Eq, Structural)]
pub enum ForwardType {
    DNAT,
    SNAT,
}

/// Hook priority of produced DNAT rules; wins against a default of -100.
pub const DNAT_PRIORITY: i32 = -150;

/// Hook priority of produced SNAT rules; sits below a default of 100.
pub const SNAT_PRIORITY: i32 = 50;

/// One produced NAT rule, keyed by `rule_id`.
pub struct FirewallRule {
    pub rule_id: String,
    pub listen_port: u16,
    pub protocol: String,
    pub target_addr: String,
    pub forward_type: ForwardType,
    pub enabled: bool,
    pub priority: i32,
    pub config_index: usize,
}

/// Mathematical image of a [`FirewallRule`].
pub ghost struct FirewallRuleView {
    pub rule_id: Seq<char>,
    pub listen_port: u16,
    pub protocol: Seq<char>,
    pub target_addr: Seq<char>,
    pub forward_type: ForwardType,
    pub enabled: bool,
    pub priority: i32,
    pub config_index: usize,
}

impl View for FirewallRule {
    type V = FirewallRuleView;

    open spec fn view(&self) -> FirewallRuleView {
        FirewallRuleView {
            rule_id: self.rule_id@,
            listen_port: self.listen_port,
            protocol: self.protocol@,
            target_addr: self.target_addr@,
            forward_type: self.forward_type,
            enabled: self.enabled,
            priority: self.priority,
            config_index: self.config_index,
        }
    }
}

impl DeepView for FirewallRule {
    type V = FirewallRuleView;

    open spec fn deep_view(&self) -> FirewallRuleView {
        self@
    }
}

impl FirewallRule {
    /// A fresh enabled rule; the priority follows the rule kind.
    pub fn new(
        rule_id: String,
        listen_port: u16,
        protocol: String,
        target_addr: String,
        forward_type: ForwardType,
        config_index: usize,
    ) -> (r: FirewallRule)
        ensures
            r@ == (FirewallRuleView {
                rule_id: rule_id@,
                listen_port,
                protocol: protocol@,
                target_addr: target_addr@,
                forward_type,
                enabled: true,
                priority: if forward_type is DNAT {
                    DNAT_PRIORITY
                } else {
                    SNAT_PRIORITY
                },
                config_index,
            }),
    {
        let priority: i32 = match forward_type {
            ForwardType::DNAT => DNAT_PRIORITY,
            ForwardType::SNAT => SNAT_PRIORITY,
        };
        FirewallRule {
            rule_id,
            listen_port,
            protocol,
            target_addr,
            forward_type,
            enabled: true,
            priority,
            config_index,
        }
    }

    pub fn clone_fr(&self) -> (r: FirewallRule)
        ensures
            r@ == self@,
    {
        FirewallRule {
            rule_id: self.rule_id.clone(),
            listen_port: self.listen_port,
            protocol: self.protocol.clone(),
            target_addr: self.target_addr.clone(),
            forward_type: self.forward_type,
            enabled: self.enabled,
            priority: self.priority,
            config_index: self.config_index,
        }
    }
}

/// A target endpoint string is treated as IPv6 when its address part —
/// the text before the first colon — is bracketed, or when the string has
/// at least two colons; otherwise as IPv4 (or a plain host).
pub open spec fn spec_is_ip6_addr(t: Seq<char>) -> bool {
    spec_target_ip(t).contains('[') || count_char(t, ':') >= 2
}

/// The address-family word used in produced nftables rules.
pub open spec fn spec_ip_version_word(t: Seq<char>) -> Seq<char> {
    if spec_is_ip6_addr(t) {
        "ip6"@
    } else {
        "ip"@
    }
}

/// The rewrite target a DNAT rule sends traffic to. Bracketed IPv6 input
/// is used verbatim; unbracketed IPv6 is bracketed whole, with the listen
/// port; IPv4 input keeps its port, or gains the listen port if it has
/// none. IPv6 rewrite targets are therefore always bracketed.
pub open spec fn spec_rewrite_target(t: Seq<char>, listen_port: u16) -> Seq<char> {
    if t.contains('[') {
        t
    } else if count_char(t, ':') >= 2 {
        seq!['['] + t + seq![']', ':'] + spec_dec(listen_port as int)
    } else if t.contains(':') {
        t
    } else {
        t + seq![':'] + spec_dec(listen_port as int)
    }
}

/// IPv6 targets given without brackets come out bracketed, and targets
/// given bracketed stay as they are: every IPv6 rewrite target is
/// bracketed.
pub proof fn lemma_rewrite_target_brackets_ipv6(t: Seq<char>, listen_port: u16)
    requires
        spec_is_ip6_addr(t),
    ensures
        t.contains('[') ==> spec_rewrite_target(t, listen_port) == t,
        !t.contains('[') ==> spec_rewrite_target(t, listen_port) == seq!['['] + t + seq![']', ':']
            + spec_dec(listen_port as int) && spec_rewrite_target(t, listen_port)[0] == '[',
        spec_rewrite_target(t, listen_port).contains('['),
{
    if t.contains('[') {
    } else {
        assert(count_char(t, ':') >= 2) by {
            if spec_target_ip(t).contains('[') {
                crate::text::lemma_first_index_bounds(t, ':');
                let head = spec_target_ip(t);
                let w = choose|w: int| 0 <= w < head.len() && head[w] == '[';
                assert(t[w] == '[');
            }
        }
        let r = spec_rewrite_target(t, listen_port);
        assert(r[0] == '[');
        assert(r.contains('[')) by {
            assert(0 <= 0 < r.len() && r[0] == '[');
        }
    }
}

/// Renders the rewrite target for a rule; see [`spec_rewrite_target`].
pub fn rewrite_target(t: &str, listen_port: u16) -> (r: String)
    ensures
        r@ == spec_rewrite_target(t@, listen_port),
{
    if str_contains_char(t, '[') {
        String::from_str(t)
    } else if str_count_char(t, ':') >= 2 {
        let mut s = String::from_str("[");
        s.append(t);
        s.append("]:");
        let p = u16_to_string(listen_port);
        s.append(p.as_str());
        proof {
            reveal_strlit("[");
            reveal_strlit("]:");
            assert(s@ =~= spec_rewrite_target(t@, listen_port));
        }
        s
    } else if str_contains_char(t, ':') {
        String::from_str(t)
    } else {
        let mut s = String::from_str(t);
        s.append(":");
        let p = u16_to_string(listen_port);
        s.append(p.as_str());
        proof {
            reveal_strlit(":");
            assert(s@ =~= spec_rewrite_target(t@, listen_port));
        }
        s
    }
}

/// Pushes an owned copy of `s` onto `v`.
fn push_word(v: &mut Vec<String>, s: &str)
    ensures
        final(v).deep_view() == old(v).deep_view().push(s@),
{
    let ghost pre = v.deep_view();
    v.push(String::from_str(s));
    proof {
        assert(v.deep_view() =~= pre.push(s@));
    }
}

fn push_owned(v: &mut Vec<String>, s: String)
    ensures
        final(v).deep_view() == old(v).deep_view().push(s@),
{
    let ghost pre = v.deep_view();
    let ghost sv = s@;
    v.push(s);
    proof {
        assert(v.deep_view() =~= pre.push(sv));
    }
}

/// Rule ids identify rules: no two entries share one.
pub open spec fn spec_ids_unique(rs: Seq<FirewallRuleView>) -> bool {
    forall|i: int, j: int| 0 <= i < j < rs.len() ==> (#[trigger] rs[i]).rule_id != (
    #[trigger] rs[j]).rule_id
}

/// Whether some entry carries this rule id.
pub open spec fn spec_has_rule(rs: Seq<FirewallRuleView>, id: Seq<char>) -> bool {
    exists|i: int| 0 <= i < rs.len() && (#[trigger] rs[i]).rule_id == id
}

/// The index of the first entry with this rule id; meaningful only when
/// one exists.
pub open spec fn spec_rule_index(rs: Seq<FirewallRuleView>, id: Seq<char>) -> int
    decreases rs.len(),
{
    if rs.len() == 0 {
        0
    } else if rs[0].rule_id == id {
        0
    } else {
        1 + spec_rule_index(rs.drop_first(), id)
    }
}

/// Finds the entry with this rule id, if any.
pub fn find_rule_index(rules: &Vec<FirewallRule>, id: &str) -> (r: Option<usize>)
    ensures
        match r {
            Some(i) => i < rules.len() && spec_has_rule(rules.deep_view(), id@) && rules.deep_view()[i as int].rule_id
                == id@ && i == spec_rule_index(rules.deep_view(), id@),
            None => !spec_has_rule(rules.deep_view(), id@),
        },
{
    let ghost rs = rules.deep_view();
    let mut i: usize = 0;
    while i < rules.len()
        invariant
            0 <= i <= rules.len(),
            rs == rules.deep_view(),
            forall|j: int| 0 <= j < i ==> (#[trigger] rs[j]).rule_id != id@,
        decreases rules.len() - i,
    {
        if crate::text::str_eq(rules[i].rule_id.as_str(), id) {
            proof {
                assert(rs[i as int].rule_id == id@);
                assert(spec_has_rule(rs, id@));
                lemma_rule_index_at(rs, id@, i as int);
            }
            return Some(i);
        }
        proof {
            assert(rs[i as int].rule_id != id@);
        }
        i = i + 1;
    }
    proof {
        if spec_has_rule(rs, id@) {
            let w = choose|w: int| 0 <= w < rs.len() && (#[trigger] rs[w]).rule_id == id@;
        }
    }
    None
}

proof fn lemma_rule_index_at(rs: Seq<FirewallRuleView>, id: Seq<char>, i: int)
    requires
        0 <= i < rs.len(),
        rs[i].rule_id == id,
        forall|j: int| 0 <= j < i ==> (#[trigger] rs[j]).rule_id != id,
    ensures
        spec_rule_index(rs, id) == i,
    decreases rs.len(),
{
    if i > 0 {
        let rest = rs.drop_first();
        assert(rest[i - 1] == rs[i]);
        assert(forall|j: int| 0 <= j < i - 1 ==> #[trigger] rest[j] == rs[j + 1]);
        lemma_rule_index_at(rest, id, i - 1);
    }
}

/// Inserts or replaces the entry with the rule's id.
pub fn upsert_rule(rules: &mut Vec<FirewallRule>, rule: FirewallRule)
    ensures
        ({
            let rs = old(rules).deep_view();
            if spec_has_rule(rs, rule@.rule_id) {
                final(rules).deep_view() == rs.update(spec_rule_index(rs, rule@.rule_id), rule@)
            } else {
                final(rules).deep_view() == rs.push(rule@)
            }
        }),
        spec_ids_unique(old(rules).deep_view()) ==> spec_ids_unique(final(rules).deep_view()),
{
    let ghost rs = rules.deep_view();
    match find_rule_index(rules, rule.rule_id.as_str()) {
        Some(i) => {
            let ghost rv = rule@;
            rules.set(i, rule);
            proof {
                assert(rules.deep_view() =~= rs.update(i as int, rv));
                assert(rv.rule_id == rs[i as int].rule_id);
                if spec_ids_unique(rs) {
                    let nv = rules.deep_view();
                    assert forall|a: int, b: int| 0 <= a < b < nv.len() implies (
                    #[trigger] nv[a]).rule_id != (#[trigger] nv[b]).rule_id by {
                        assert(nv[a] == if a == i as int {
                            rv
                        } else {
                            rs[a]
                        });
                        assert(nv[b] == if b == i as int {
                            rv
                        } else {
                            rs[b]
                        });
                        assert(rs[a].rule_id != rs[b].rule_id);
                    }
                }
            }
        },
        None => {
            let ghost rv = rule@;
            rules.push(rule);
            proof {
                assert(rules.deep_view() =~= rs.push(rv));
                if spec_ids_unique(rs) {
                    let nv = rules.deep_view();
                    assert forall|a: int, b: int| 0 <= a < b < nv.len() implies (
                    #[trigger] nv[a]).rule_id != (#[trigger] nv[b]).rule_id by {
                        if b < rs.len() {
                            assert(nv[a] == rs[a] && nv[b] == rs[b]);
                        } else {
                            assert(nv[b] == rv);
                            assert(nv[a] == rs[a]);
                        }
                    }
                }
            }
        },
    }
}

/// The `nft` arguments that add one DNAT rule. A concrete listen address
/// restricts the match; the wildcard `0.0.0.0` does not.
pub open spec fn spec_nft_dnat_args(
    table: Seq<char>,
    chain: Seq<char>,
    listen_addr: Seq<char>,
    r: FirewallRuleView,
) -> Seq<Seq<char>> {
    (if listen_addr != "0.0.0.0"@ {
        seq!["add"@, "rule"@, "inet"@, table, chain, "ip"@, "daddr"@, listen_addr]
    } else {
        seq!["add"@, "rule"@, "inet"@, table, chain]
    }) + seq![
        r.protocol,
        "dport"@,
        spec_dec(r.listen_port as int),
        "dnat"@,
        spec_ip_version_word(r.target_addr),
        "to"@,
        spec_rewrite_target(r.target_addr, r.listen_port),
    ]
}

/// The `nft` arguments that add the masquerade rule.
pub open spec fn spec_nft_snat_args(table: Seq<char>, chain: Seq<char>) -> Seq<Seq<char>> {
    seq!["add"@, "rule"@, "inet"@, table, chain, "oifname"@, "!="@, "\"lo\""@, "masquerade"@]
}

/// The `iptables` arguments that append one DNAT rule.
pub open spec fn spec_ipt_dnat_args(
    chain: Seq<char>,
    listen_addr: Seq<char>,
    r: FirewallRuleView,
) -> Seq<Seq<char>> {
    (if listen_addr != "0.0.0.0"@ {
        seq!["-t"@, "nat"@, "-A"@, chain, "-d"@, listen_addr]
    } else {
        seq!["-t"@, "nat"@, "-A"@, chain]
    }) + seq![
        "-p"@,
        r.protocol,
        "--dport"@,
        spec_dec(r.listen_port as int),
        "-j"@,
        "DNAT"@,
        "--to-destination"@,
        spec_rewrite_target(r.target_addr, r.listen_port),
    ]
}

/// The `iptables` arguments that append the masquerade rule.
pub open spec fn spec_ipt_snat_args(chain: Seq<char>) -> Seq<Seq<char>> {
    seq!["-t"@, "nat"@, "-A"@, chain, "!"@, "-o"@, "lo"@, "-j"@, "MASQUERADE"@]
}

/// The address half of a target string: the text before its first colon.
pub open spec fn spec_target_ip(t: Seq<char>) -> Seq<char> {
    let i = first_index(t, ':');
    if i >= 0 {
        t.take(i)
    } else {
        t
    }
}

/// The port half of a target string, else the listen port.
pub open spec fn spec_target_port_text(t: Seq<char>, listen_port: u16) -> Seq<char> {
    let i = first_index(t, ':');
    if i >= 0 {
        t.skip(i + 1)
    } else {
        spec_dec(listen_port as int)
    }
}

/// Splits a target string at its first colon; the port falls back to the
/// listen port.
fn split_target(t: &str, listen_port: u16) -> (r: (String, String))
    ensures
        r.0@ == spec_target_ip(t@),
        r.1@ == spec_target_port_text(t@, listen_port),
{
    let n = t.unicode_len();
    match str_find_char(t, ':') {
        Some(i) => {
            proof {
                crate::text::lemma_first_index_of(t@, ':', i as int);
            }
            let head = t.substring_char(0, i);
            let tail = t.substring_char(i + 1, n);
            proof {
                assert(head@ =~= t@.take(i as int));
                assert(tail@ =~= t@.skip(i as int + 1));
            }
            (String::from_str(head), String::from_str(tail))
        },
        None => {
            proof {
                crate::text::lemma_first_index_none(t@, ':');
            }
            (String::from_str(t), u16_to_string(listen_port))
        },
    }
}

/// The nftables backend: a dedicated `smart_forward` table whose chains
/// hook in ahead of a distribution firewall's NAT rules.
pub struct NftablesManager {
    pub table_name: String,
    pub chain_prerouting: String,
    pub chain_postrouting: String,
    pub listen_addr: String,
    pub rules: Vec<FirewallRule>,
}

impl NftablesManager {
    pub open spec fn wf(self) -> bool {
        spec_ids_unique(self.rules.deep_view())
    }

    pub fn new(listen_addr: String) -> (r: NftablesManager)
        ensures
            r.table_name@ == "smart_forward"@,
            r.chain_prerouting@ == "prerouting"@,
            r.chain_postrouting@ == "postrouting"@,
            r.listen_addr@ == listen_addr@,
            r.rules.deep_view() == Seq::<FirewallRuleView>::empty(),
            r.wf(),
    {
        let r = NftablesManager {
            table_name: String::from_str("smart_forward"),
            chain_prerouting: String::from_str("prerouting"),
            chain_postrouting: String::from_str("postrouting"),
            listen_addr,
            rules: Vec::new(),
        };
        proof {
            assert(r.rules.deep_view() =~= Seq::<FirewallRuleView>::empty());
        }
        r
    }

    /// Classifies a target endpoint string for the `dnat` family word.
    pub fn detect_ip_version(target_addr: &str) -> (r: &'static str)
        ensures
            r@ == spec_ip_version_word(target_addr@),
    {
        let n = target_addr.unicode_len();
        let head = match str_find_char(target_addr, ':') {
            Some(j) => {
                proof {
                    crate::text::lemma_first_index_of(target_addr@, ':', j as int);
                }
                target_addr.substring_char(0, j)
            },
            None => {
                proof {
                    crate::text::lemma_first_index_none(target_addr@, ':');
                }
                target_addr.substring_char(0, n)
            },
        };
        proof {
            assert(head@ =~= spec_target_ip(target_addr@));
        }
        if str_contains_char(head, '[') || str_count_char(target_addr, ':') >= 2 {
            "ip6"
        } else {
            "ip"
        }
    }

    /// The `nft` arguments that install this DNAT rule.
    pub fn generate_dnat_rule(&self, rule: &FirewallRule) -> (r: Vec<String>)
        ensures
            r.deep_view() == spec_nft_dnat_args(
                self.table_name@,
                self.chain_prerouting@,
                self.listen_addr@,
                rule@,
            ),
    {
        let mut v: Vec<String> = Vec::new();
        proof {
            assert(v.deep_view() =~= Seq::<Seq<char>>::empty());
        }
        push_word(&mut v, "add");
        push_word(&mut v, "rule");
        push_word(&mut v, "inet");
        push_owned(&mut v, self.table_name.clone());
        push_owned(&mut v, self.chain_prerouting.clone());
        if !crate::text::str_eq(self.listen_addr.as_str(), "0.0.0.0") {
            push_word(&mut v, "ip");
            push_word(&mut v, "daddr");
            push_owned(&mut v, self.listen_addr.clone());
        }
        push_owned(&mut v, rule.protocol.clone());
        push_word(&mut v, "dport");
        push_owned(&mut v, u16_to_string(rule.listen_port));
        push_word(&mut v, "dnat");
        push_word(&mut v, Self::detect_ip_version(rule.target_addr.as_str()));
        push_word(&mut v, "to");
        push_owned(&mut v, rewrite_target(rule.target_addr.as_str(), rule.listen_port));
        proof {
            assert(v.deep_view() =~= spec_nft_dnat_args(
                self.table_name@,
                self.chain_prerouting@,
                self.listen_addr@,
                rule@,
            ));
        }
        v
    }

    /// The `nft` arguments that install the masquerade rule.
    pub fn generate_snat_rule(&self, _rule: &FirewallRule) -> (r: Vec<String>)
        ensures
            r.deep_view() == spec_nft_snat_args(self.table_name@, self.chain_postrouting@),
    {
        let mut v: Vec<String> = Vec::new();
        proof {
            assert(v.deep_view() =~= Seq::<Seq<char>>::empty());
        }
        push_word(&mut v, "add");
        push_word(&mut v, "rule");
        push_word(&mut v, "inet");
        push_owned(&mut v, self.table_name.clone());
        push_owned(&mut v, self.chain_postrouting.clone());
        push_word(&mut v, "oifname");
        push_word(&mut v, "!=");
        push_word(&mut v, "\"lo\"");
        push_word(&mut v, "masquerade");
        proof {
            assert(v.deep_view() =~= spec_nft_snat_args(
                self.table_name@,
                self.chain_postrouting@,
            ));
        }
        v
    }

    /// Records the rule; the caller runs the returned `nft` arguments.
    pub fn add_forward_rule(&mut self, rule: FirewallRule) -> (cmd: Vec<String>)
        ensures
            ({
                let rs = old(self).rules.deep_view();
                if spec_has_rule(rs, rule@.rule_id) {
                    final(self).rules.deep_view() == rs.update(
                        spec_rule_index(rs, rule@.rule_id),
                        rule@,
                    )
                } else {
                    final(self).rules.deep_view() == rs.push(rule@)
                }
            }),
            old(self).wf() ==> final(self).wf(),
            final(self).table_name@ == old(self).table_name@,
            final(self).chain_prerouting@ == old(self).chain_prerouting@,
            final(self).chain_postrouting@ == old(self).chain_postrouting@,
            final(self).listen_addr@ == old(self).listen_addr@,
            cmd.deep_view() == if rule@.forward_type is DNAT {
                spec_nft_dnat_args(
                    old(self).table_name@,
                    old(self).chain_prerouting@,
                    old(self).listen_addr@,
                    rule@,
                )
            } else {
                spec_nft_snat_args(old(self).table_name@, old(self).chain_postrouting@)
            },
    {
        let cmd = match rule.forward_type {
            ForwardType::DNAT => self.generate_dnat_rule(&rule),
            ForwardType::SNAT => self.generate_snat_rule(&rule),
        };
        upsert_rule(&mut self.rules, rule);
        cmd
    }

    /// Forgets the rule with this id; the caller rebuilds the table from
    /// the remaining rules.
    pub fn remove_forward_rule(&mut self, rule_id: &str)
        ensures
            ({
                let rs = old(self).rules.deep_view();
                if spec_has_rule(rs, rule_id@) {
                    final(self).rules.deep_view() == rs.remove(spec_rule_index(rs, rule_id@))
                } else {
                    final(self).rules.deep_view() == rs
                }
            }),
    {
        remove_rule(&mut self.rules, rule_id);
    }

    pub fn is_rule_exists(&self, rule_id: &str) -> (r: bool)
        ensures
            r == spec_has_rule(self.rules.deep_view(), rule_id@),
    {
        match find_rule_index(&self.rules, rule_id) {
            Some(_) => true,
            None => false,
        }
    }


    /// A copy of every recorded rule.
    pub fn list_rules(&self) -> (r: Vec<FirewallRule>)
        ensures
            r.deep_view() == self.rules.deep_view(),
    {
        clone_rules(&self.rules)
    }

    /// Replaces the recorded rule and hands back the plan that rebuilds
    /// the whole table, which keeps the kernel consistent.
    pub fn update_forward_rule(&mut self, rule: FirewallRule) -> (cmds: Vec<Vec<String>>)
        ensures
            ({
                let rs = old(self).rules.deep_view();
                if spec_has_rule(rs, rule@.rule_id) {
                    final(self).rules.deep_view() == rs.update(
                        spec_rule_index(rs, rule@.rule_id),
                        rule@,
                    )
                } else {
                    final(self).rules.deep_view() == rs.push(rule@)
                }
            }),
            old(self).wf() ==> final(self).wf(),
            cmds.deep_view() == spec_nft_rebuild(
                old(self).table_name@,
                old(self).chain_prerouting@,
                old(self).chain_postrouting@,
                old(self).listen_addr@,
                final(self).rules.deep_view(),
            ),
    {
        upsert_rule(&mut self.rules, rule);
        self.rebuild_commands()
    }

    /// Drops every recorded rule; the caller deletes the managed table.
    pub fn clear_all_rules(&mut self)
        ensures
            final(self).rules.deep_view() == Seq::<FirewallRuleView>::empty(),
    {
        self.rules = Vec::new();
        proof {
            assert(self.rules.deep_view() =~= Seq::<FirewallRuleView>::empty());
        }
    }

    /// The command plan that creates the managed table and its two NAT
    /// chains, hooked ahead of a distribution firewall's own rules.
    pub fn create_commands(&self) -> (cmds: Vec<Vec<String>>)
        ensures
            cmds.deep_view() =~~= seq![
                seq!["add"@, "table"@, "inet"@, self.table_name@],
                seq![
                    "add"@,
                    "chain"@,
                    "inet"@,
                    self.table_name@,
                    self.chain_prerouting@,
                    "{"@,
                    "type"@,
                    "nat"@,
                    "hook"@,
                    "prerouting"@,
                    "priority"@,
                    "-150"@,
                    ";"@,
                    "}"@,
                ],
                seq![
                    "add"@,
                    "chain"@,
                    "inet"@,
                    self.table_name@,
                    self.chain_postrouting@,
                    "{"@,
                    "type"@,
                    "nat"@,
                    "hook"@,
                    "postrouting"@,
                    "priority"@,
                    "50"@,
                    ";"@,
                    "}"@,
                ],
            ],
    {
        let mut cmds: Vec<Vec<String>> = Vec::new();
        let mut t: Vec<String> = Vec::new();
        proof {
            assert(t.deep_view() =~= Seq::<Seq<char>>::empty());
        }
        push_word(&mut t, "add");
        push_word(&mut t, "table");
        push_word(&mut t, "inet");
        push_owned(&mut t, self.table_name.clone());
        let mut pre: Vec<String> = Vec::new();
        proof {
            assert(pre.deep_view() =~= Seq::<Seq<char>>::empty());
        }
        push_word(&mut pre, "add");
        push_word(&mut pre, "chain");
        push_word(&mut pre, "inet");
        push_owned(&mut pre, self.table_name.clone());
        push_owned(&mut pre, self.chain_prerouting.clone());
        push_word(&mut pre, "{");
        push_word(&mut pre, "type");
        push_word(&mut pre, "nat");
        push_word(&mut pre, "hook");
        push_word(&mut pre, "prerouting");
        push_word(&mut pre, "priority");
        push_word(&mut pre, "-150");
        push_word(&mut pre, ";");
        push_word(&mut pre, "}");
        let mut post: Vec<String> = Vec::new();
        proof {
            assert(post.deep_view() =~= Seq::<Seq<char>>::empty());
        }
        push_word(&mut post, "add");
        push_word(&mut post, "chain");
        push_word(&mut post, "inet");
        push_owned(&mut post, self.table_name.clone());
        push_owned(&mut post, self.chain_postrouting.clone());
        push_word(&mut post, "{");
        push_word(&mut post, "type");
        push_word(&mut post, "nat");
        push_word(&mut post, "hook");
        push_word(&mut post, "postrouting");
        push_word(&mut post, "priority");
        push_word(&mut post, "50");
        push_word(&mut post, ";");
        push_word(&mut post, "}");
        let ghost tv = t.deep_view();
        let ghost prev = pre.deep_view();
        let ghost postv = post.deep_view();
        cmds.push(t);
        cmds.push(pre);
        cmds.push(post);
        proof {
            assert(cmds.deep_view() =~= seq![tv, prev, postv]);
            assert(cmds.deep_view() =~~= seq![tv, prev, postv]);
        }
        cmds
    }

    /// The command plan that removes the managed table, and with it every
    /// produced rule, at orderly shutdown.
    pub fn clear_commands(&self) -> (cmds: Vec<Vec<String>>)
        ensures
            cmds.deep_view() =~~= seq![seq!["delete"@, "table"@, "inet"@, self.table_name@]],
    {
        let mut cmds: Vec<Vec<String>> = Vec::new();
        let mut t: Vec<String> = Vec::new();
        proof {
            assert(t.deep_view() =~= Seq::<Seq<char>>::empty());
        }
        push_word(&mut t, "delete");
        push_word(&mut t, "table");
        push_word(&mut t, "inet");
        push_owned(&mut t, self.table_name.clone());
        let ghost tv = t.deep_view();
        cmds.push(t);
        proof {
            assert(cmds.deep_view() =~= seq![tv]);
            assert(cmds.deep_view() =~~= seq![tv]);
        }
        cmds
    }

    /// The command plan that rebuilds the managed table from the recorded
    /// rules: flush, then re-add every enabled rule.
    pub fn rebuild_commands(&self) -> (cmds: Vec<Vec<String>>)
        ensures
            cmds.deep_view() == spec_nft_rebuild(
                self.table_name@,
                self.chain_prerouting@,
                self.chain_postrouting@,
                self.listen_addr@,
                self.rules.deep_view(),
            ),
    {
        let mut cmds: Vec<Vec<String>> = Vec::new();
        let mut flush: Vec<String> = Vec::new();
        proof {
            assert(flush.deep_view() =~= Seq::<Seq<char>>::empty());
        }
        push_word(&mut flush, "flush");
        push_word(&mut flush, "table");
        push_word(&mut flush, "inet");
        push_owned(&mut flush, self.table_name.clone());
        proof {
            assert(flush.deep_view() =~= seq!["flush"@, "table"@, "inet"@, self.table_name@]);
        }
        let ghost fl = flush.deep_view();
        let ghost pre0 = cmds.deep_view();
        cmds.push(flush);
        proof {
            assert(cmds.deep_view() =~= pre0.push(fl));
            assert(self.rules.deep_view().take(0) =~= Seq::<FirewallRuleView>::empty());
            assert(cmds.deep_view() =~= seq![
                seq!["flush"@, "table"@, "inet"@, self.table_name@],
            ] + spec_nft_replay(
                self.table_name@,
                self.chain_prerouting@,
                self.chain_postrouting@,
                self.listen_addr@,
                self.rules.deep_view().take(0),
            ));
        }
        let mut i: usize = 0;
        while i < self.rules.len()
            invariant
                0 <= i <= self.rules.len(),
                cmds.deep_view() == seq![
                    seq!["flush"@, "table"@, "inet"@, self.table_name@],
                ] + spec_nft_replay(
                    self.table_name@,
                    self.chain_prerouting@,
                    self.chain_postrouting@,
                    self.listen_addr@,
                    self.rules.deep_view().take(i as int),
                ),
            decreases self.rules.len() - i,
        {
            let ghost pre = cmds.deep_view();
            let ghost rv = self.rules.deep_view()[i as int];
            let rule = &self.rules[i];
            if rule.enabled {
                let cmd = match rule.forward_type {
                    ForwardType::DNAT => self.generate_dnat_rule(rule),
                    ForwardType::SNAT => self.generate_snat_rule(rule),
                };
                let ghost cv = cmd.deep_view();
                cmds.push(cmd);
                proof {
                    assert(cmds.deep_view() =~= pre.push(cv));
                }
            }
            proof {
                assert(self.rules.deep_view().take(i as int + 1).drop_last()
                    =~= self.rules.deep_view().take(i as int));
                assert(self.rules.deep_view().take(i as int + 1).last() == rv);
                lemma_nft_replay_step(
                    self.table_name@,
                    self.chain_prerouting@,
                    self.chain_postrouting@,
                    self.listen_addr@,
                    self.rules.deep_view().take(i as int + 1),
                );
                assert(cmds.deep_view() =~= seq![
                    seq!["flush"@, "table"@, "inet"@, self.table_name@],
                ] + spec_nft_replay(
                    self.table_name@,
                    self.chain_prerouting@,
                    self.chain_postrouting@,
                    self.listen_addr@,
                    self.rules.deep_view().take(i as int + 1),
                ));
            }
            i = i + 1;
        }
        proof {
            assert(self.rules.deep_view().take(self.rules.len() as int)
                =~= self.rules.deep_view());
        }
        cmds
    }
}

/// The add commands that replaying a rule list emits, in order: one per
/// enabled rule.
pub open spec fn spec_nft_replay(
    table: Seq<char>,
    chain_pre: Seq<char>,
    chain_post: Seq<char>,
    listen_addr: Seq<char>,
    rs: Seq<FirewallRuleView>,
) -> Seq<Seq<Seq<char>>>
    decreases rs.len(),
{
    if rs.len() == 0 {
        Seq::empty()
    } else {
        spec_nft_replay(table, chain_pre, chain_post, listen_addr, rs.drop_last()) + (if rs.last().enabled {
            seq![
                if rs.last().forward_type is DNAT {
                    spec_nft_dnat_args(table, chain_pre, listen_addr, rs.last())
                } else {
                    spec_nft_snat_args(table, chain_post)
                },
            ]
        } else {
            Seq::empty()
        })
    }
}

proof fn lemma_nft_replay_step(
    table: Seq<char>,
    chain_pre: Seq<char>,
    chain_post: Seq<char>,
    listen_addr: Seq<char>,
    rs: Seq<FirewallRuleView>,
)
    requires
        rs.len() > 0,
    ensures
        spec_nft_replay(table, chain_pre, chain_post, listen_addr, rs) == spec_nft_replay(
            table,
            chain_pre,
            chain_post,
            listen_addr,
            rs.drop_last(),
        ) + (if rs.last().enabled {
            seq![
                if rs.last().forward_type is DNAT {
                    spec_nft_dnat_args(table, chain_pre, listen_addr, rs.last())
                } else {
                    spec_nft_snat_args(table, chain_post)
                },
            ]
        } else {
            Seq::<Seq<Seq<char>>>::empty()
        }),
{
}

/// The full rebuild plan: flush the managed table, then replay.
pub open spec fn spec_nft_rebuild(
    table: Seq<char>,
    chain_pre: Seq<char>,
    chain_post: Seq<char>,
    listen_addr: Seq<char>,
    rs: Seq<FirewallRuleView>,
) -> Seq<Seq<Seq<char>>> {
    seq![seq!["flush"@, "table"@, "inet"@, table]] + spec_nft_replay(
        table,
        chain_pre,
        chain_post,
        listen_addr,
        rs,
    )
}

/// The iptables backend: two custom chains inserted at the head of the
/// built-in PREROUTING and POSTROUTING chains.
pub struct IptablesManager {
    pub chain_prerouting: String,
    pub chain_postrouting: String,
    pub listen_addr: String,
    pub rules: Vec<FirewallRule>,
}

impl IptablesManager {
    pub open spec fn wf(self) -> bool {
        spec_ids_unique(self.rules.deep_view())
    }

    pub fn new(listen_addr: String) -> (r: IptablesManager)
        ensures
            r.chain_prerouting@ == "SMART_FORWARD_PREROUTING"@,
            r.chain_postrouting@ == "SMART_FORWARD_POSTROUTING"@,
            r.listen_addr@ == listen_addr@,
            r.rules.deep_view() == Seq::<FirewallRuleView>::empty(),
            r.wf(),
    {
        let r = IptablesManager {
            chain_prerouting: String::from_str("SMART_FORWARD_PREROUTING"),
            chain_postrouting: String::from_str("SMART_FORWARD_POSTROUTING"),
            listen_addr,
            rules: Vec::new(),
        };
        proof {
            assert(r.rules.deep_view() =~= Seq::<FirewallRuleView>::empty());
        }
        r
    }

    /// The `iptables` arguments that append this DNAT rule.
    pub fn generate_dnat_args(&self, rule: &FirewallRule) -> (r: Vec<String>)
        ensures
            r.deep_view() == spec_ipt_dnat_args(self.chain_prerouting@, self.listen_addr@, rule@),
    {
        let mut v: Vec<String> = Vec::new();
        proof {
            assert(v.deep_view() =~= Seq::<Seq<char>>::empty());
        }
        push_word(&mut v, "-t");
        push_word(&mut v, "nat");
        push_word(&mut v, "-A");
        push_owned(&mut v, self.chain_prerouting.clone());
        if !crate::text::str_eq(self.listen_addr.as_str(), "0.0.0.0") {
            push_word(&mut v, "-d");
            push_owned(&mut v, self.listen_addr.clone());
        }
        push_word(&mut v, "-p");
        push_owned(&mut v, rule.protocol.clone());
        push_word(&mut v, "--dport");
        push_owned(&mut v, u16_to_string(rule.listen_port));
        push_word(&mut v, "-j");
        push_word(&mut v, "DNAT");
        push_word(&mut v, "--to-destination");
        push_owned(&mut v, rewrite_target(rule.target_addr.as_str(), rule.listen_port));
        proof {
            assert(v.deep_view() =~= spec_ipt_dnat_args(
                self.chain_prerouting@,
                self.listen_addr@,
                rule@,
            ));
        }
        v
    }

    /// The `iptables` arguments that append the masquerade rule.
    pub fn generate_snat_args(&self) -> (r: Vec<String>)
        ensures
            r.deep_view() == spec_ipt_snat_args(self.chain_postrouting@),
    {
        let mut v: Vec<String> = Vec::new();
        proof {
            assert(v.deep_view() =~= Seq::<Seq<char>>::empty());
        }
        push_word(&mut v, "-t");
        push_word(&mut v, "nat");
        push_word(&mut v, "-A");
        push_owned(&mut v, self.chain_postrouting.clone());
        push_word(&mut v, "!");
        push_word(&mut v, "-o");
        push_word(&mut v, "lo");
        push_word(&mut v, "-j");
        push_word(&mut v, "MASQUERADE");
        proof {
            assert(v.deep_view() =~= spec_ipt_snat_args(self.chain_postrouting@));
        }
        v
    }

    /// Records the rule; the caller runs the returned arguments.
    pub fn add_forward_rule(&mut self, rule: FirewallRule) -> (cmd: Vec<String>)
        ensures
            ({
                let rs = old(self).rules.deep_view();
                if spec_has_rule(rs, rule@.rule_id) {
                    final(self).rules.deep_view() == rs.update(
                        spec_rule_index(rs, rule@.rule_id),
                        rule@,
                    )
                } else {
                    final(self).rules.deep_view() == rs.push(rule@)
                }
            }),
            old(self).wf() ==> final(self).wf(),
            cmd.deep_view() == if rule@.forward_type is DNAT {
                spec_ipt_dnat_args(old(self).chain_prerouting@, old(self).listen_addr@, rule@)
            } else {
                spec_ipt_snat_args(old(self).chain_postrouting@)
            },
    {
        let cmd = match rule.forward_type {
            ForwardType::DNAT => self.generate_dnat_args(&rule),
            ForwardType::SNAT => self.generate_snat_args(),
        };
        upsert_rule(&mut self.rules, rule);
        cmd
    }

    pub fn remove_forward_rule(&mut self, rule_id: &str)
        ensures
            ({
                let rs = old(self).rules.deep_view();
                if spec_has_rule(rs, rule_id@) {
                    final(self).rules.deep_view() == rs.remove(spec_rule_index(rs, rule_id@))
                } else {
                    final(self).rules.deep_view() == rs
                }
            }),
    {
        remove_rule(&mut self.rules, rule_id);
    }

    pub fn is_rule_exists(&self, rule_id: &str) -> (r: bool)
        ensures
            r == spec_has_rule(self.rules.deep_view(), rule_id@),
    {
        match find_rule_index(&self.rules, rule_id) {
            Some(_) => true,
            None => false,
        }
    }

    /// A copy of every recorded rule.
    pub fn list_rules(&self) -> (r: Vec<FirewallRule>)
        ensures
            r.deep_view() == self.rules.deep_view(),
    {
        clone_rules(&self.rules)
    }

    /// The command plan that creates the two managed chains and inserts
    /// their jump rules at position 1 of the built-in chains, ahead of the
    /// default NAT rules.
    pub fn create_commands(&self) -> (cmds: Vec<Vec<String>>)
        ensures
            cmds.deep_view() =~~= seq![
                seq!["-t"@, "nat"@, "-N"@, self.chain_prerouting@],
                seq!["-t"@, "nat"@, "-N"@, self.chain_postrouting@],
                seq![
                    "-t"@,
                    "nat"@,
                    "-I"@,
                    "PREROUTING"@,
                    "1"@,
                    "-j"@,
                    self.chain_prerouting@,
                ],
                seq![
                    "-t"@,
                    "nat"@,
                    "-I"@,
                    "POSTROUTING"@,
                    "1"@,
                    "-j"@,
                    self.chain_postrouting@,
                ],
            ],
    {
        let mut cmds: Vec<Vec<String>> = Vec::new();
        let mut c1: Vec<String> = Vec::new();
        proof {
            assert(c1.deep_view() =~= Seq::<Seq<char>>::empty());
        }
        push_word(&mut c1, "-t");
        push_word(&mut c1, "nat");
        push_word(&mut c1, "-N");
        push_owned(&mut c1, self.chain_prerouting.clone());
        let mut c2: Vec<String> = Vec::new();
        proof {
            assert(c2.deep_view() =~= Seq::<Seq<char>>::empty());
        }
        push_word(&mut c2, "-t");
        push_word(&mut c2, "nat");
        push_word(&mut c2, "-N");
        push_owned(&mut c2, self.chain_postrouting.clone());
        let mut c3: Vec<String> = Vec::new();
        proof {
            assert(c3.deep_view() =~= Seq::<Seq<char>>::empty());
        }
        push_word(&mut c3, "-t");
        push_word(&mut c3, "nat");
        push_word(&mut c3, "-I");
        push_word(&mut c3, "PREROUTING");
        push_word(&mut c3, "1");
        push_word(&mut c3, "-j");
        push_owned(&mut c3, self.chain_prerouting.clone());
        let mut c4: Vec<String> = Vec::new();
        proof {
            assert(c4.deep_view() =~= Seq::<Seq<char>>::empty());
        }
        push_word(&mut c4, "-t");
        push_word(&mut c4, "nat");
        push_word(&mut c4, "-I");
        push_word(&mut c4, "POSTROUTING");
        push_word(&mut c4, "1");
        push_word(&mut c4, "-j");
        push_owned(&mut c4, self.chain_postrouting.clone());
        let ghost v1 = c1.deep_view();
        let ghost v2 = c2.deep_view();
        let ghost v3 = c3.deep_view();
        let ghost v4 = c4.deep_view();
        cmds.push(c1);
        cmds.push(c2);
        cmds.push(c3);
        cmds.push(c4);
        proof {
            assert(cmds.deep_view() =~= seq![v1, v2, v3, v4]);
            assert(cmds.deep_view() =~~= seq![v1, v2, v3, v4]);
        }
        cmds
    }

    /// The command plan that tears the managed chains down at orderly
    /// shutdown: flush both, drop the jump rules, delete the chains.
    pub fn clear_commands(&self) -> (cmds: Vec<Vec<String>>)
        ensures
            cmds.deep_view() =~~= seq![
                seq!["-t"@, "nat"@, "-F"@, self.chain_prerouting@],
                seq!["-t"@, "nat"@, "-F"@, self.chain_postrouting@],
                seq!["-t"@, "nat"@, "-D"@, "PREROUTING"@, "-j"@, self.chain_prerouting@],
                seq!["-t"@, "nat"@, "-D"@, "POSTROUTING"@, "-j"@, self.chain_postrouting@],
                seq!["-t"@, "nat"@, "-X"@, self.chain_prerouting@],
                seq!["-t"@, "nat"@, "-X"@, self.chain_postrouting@],
            ],
    {
        let mut cmds: Vec<Vec<String>> = Vec::new();
        let mut c1: Vec<String> = Vec::new();
        proof {
            assert(c1.deep_view() =~= Seq::<Seq<char>>::empty());
        }
        push_word(&mut c1, "-t");
        push_word(&mut c1, "nat");
        push_word(&mut c1, "-F");
        push_owned(&mut c1, self.chain_prerouting.clone());
        let mut c2: Vec<String> = Vec::new();
        proof {
            assert(c2.deep_view() =~= Seq::<Seq<char>>::empty());
        }
        push_word(&mut c2, "-t");
        push_word(&mut c2, "nat");
        push_word(&mut c2, "-F");
        push_owned(&mut c2, self.chain_postrouting.clone());
        let mut c3: Vec<String> = Vec::new();
        proof {
            assert(c3.deep_view() =~= Seq::<Seq<char>>::empty());
        }
        push_word(&mut c3, "-t");
        push_word(&mut c3, "nat");
        push_word(&mut c3, "-D");
        push_word(&mut c3, "PREROUTING");
        push_word(&mut c3, "-j");
        push_owned(&mut c3, self.chain_prerouting.clone());
        let mut c4: Vec<String> = Vec::new();
        proof {
            assert(c4.deep_view() =~= Seq::<Seq<char>>::empty());
        }
        push_word(&mut c4, "-t");
        push_word(&mut c4, "nat");
        push_word(&mut c4, "-D");
        push_word(&mut c4, "POSTROUTING");
        push_word(&mut c4, "-j");
        push_owned(&mut c4, self.chain_postrouting.clone());
        let mut c5: Vec<String> = Vec::new();
        proof {
            assert(c5.deep_view() =~= Seq::<Seq<char>>::empty());
        }
        push_word(&mut c5, "-t");
        push_word(&mut c5, "nat");
        push_word(&mut c5, "-X");
        push_owned(&mut c5, self.chain_prerouting.clone());
        let mut c6: Vec<String> = Vec::new();
        proof {
            assert(c6.deep_view() =~= Seq::<Seq<char>>::empty());
        }
        push_word(&mut c6, "-t");
        push_word(&mut c6, "nat");
        push_word(&mut c6, "-X");
        push_owned(&mut c6, self.chain_postrouting.clone());
        let ghost v1 = c1.deep_view();
        let ghost v2 = c2.deep_view();
        let ghost v3 = c3.deep_view();
        let ghost v4 = c4.deep_view();
        let ghost v5 = c5.deep_view();
        let ghost v6 = c6.deep_view();
        cmds.push(c1);
        cmds.push(c2);
        cmds.push(c3);
        cmds.push(c4);
        cmds.push(c5);
        cmds.push(c6);
        proof {
            assert(cmds.deep_view() =~= seq![v1, v2, v3, v4, v5, v6]);
            assert(cmds.deep_view() =~~= seq![v1, v2, v3, v4, v5, v6]);
        }
        cmds
    }

    /// The command plan that rebuilds both managed chains from the
    /// recorded rules: flush, then re-append every enabled rule.
    pub fn rebuild_commands(&self) -> (cmds: Vec<Vec<String>>)
        ensures
            cmds.deep_view() == spec_ipt_rebuild(
                self.chain_prerouting@,
                self.chain_postrouting@,
                self.listen_addr@,
                self.rules.deep_view(),
            ),
    {
        let mut cmds: Vec<Vec<String>> = Vec::new();
        let mut f1: Vec<String> = Vec::new();
        proof {
            assert(f1.deep_view() =~= Seq::<Seq<char>>::empty());
        }
        push_word(&mut f1, "-t");
        push_word(&mut f1, "nat");
        push_word(&mut f1, "-F");
        push_owned(&mut f1, self.chain_prerouting.clone());
        let mut f2: Vec<String> = Vec::new();
        proof {
            assert(f2.deep_view() =~= Seq::<Seq<char>>::empty());
        }
        push_word(&mut f2, "-t");
        push_word(&mut f2, "nat");
        push_word(&mut f2, "-F");
        push_owned(&mut f2, self.chain_postrouting.clone());
        proof {
            assert(f1.deep_view() =~= seq!["-t"@, "nat"@, "-F"@, self.chain_prerouting@]);
            assert(f2.deep_view() =~= seq!["-t"@, "nat"@, "-F"@, self.chain_postrouting@]);
        }
        let ghost fv1 = f1.deep_view();
        let ghost fv2 = f2.deep_view();
        cmds.push(f1);
        cmds.push(f2);
        proof {
            assert(self.rules.deep_view().take(0) =~= Seq::<FirewallRuleView>::empty());
            assert(cmds.deep_view() =~= seq![
                seq!["-t"@, "nat"@, "-F"@, self.chain_prerouting@],
                seq!["-t"@, "nat"@, "-F"@, self.chain_postrouting@],
            ] + spec_ipt_replay(
                self.chain_prerouting@,
                self.chain_postrouting@,
                self.listen_addr@,
                self.rules.deep_view().take(0),
            ));
        }
        let mut i: usize = 0;
        while i < self.rules.len()
            invariant
                0 <= i <= self.rules.len(),
                cmds.deep_view() == seq![
                    seq!["-t"@, "nat"@, "-F"@, self.chain_prerouting@],
                    seq!["-t"@, "nat"@, "-F"@, self.chain_postrouting@],
                ] + spec_ipt_replay(
                    self.chain_prerouting@,
                    self.chain_postrouting@,
                    self.listen_addr@,
                    self.rules.deep_view().take(i as int),
                ),
            decreases self.rules.len() - i,
        {
            let ghost pre = cmds.deep_view();
            let ghost rv = self.rules.deep_view()[i as int];
            let rule = &self.rules[i];
            if rule.enabled {
                let cmd = match rule.forward_type {
                    ForwardType::DNAT => self.generate_dnat_args(rule),
                    ForwardType::SNAT => self.generate_snat_args(),
                };
                let ghost cv = cmd.deep_view();
                cmds.push(cmd);
                proof {
                    assert(cmds.deep_view() =~= pre.push(cv));
                }
            }
            proof {
                assert(self.rules.deep_view().take(i as int + 1).drop_last()
                    =~= self.rules.deep_view().take(i as int));
                assert(self.rules.deep_view().take(i as int + 1).last() == rv);
                lemma_ipt_replay_step(
                    self.chain_prerouting@,
                    self.chain_postrouting@,
                    self.listen_addr@,
                    self.rules.deep_view().take(i as int + 1),
                );
                assert(cmds.deep_view() =~= seq![
                    seq!["-t"@, "nat"@, "-F"@, self.chain_prerouting@],
                    seq!["-t"@, "nat"@, "-F"@, self.chain_postrouting@],
                ] + spec_ipt_replay(
                    self.chain_prerouting@,
                    self.chain_postrouting@,
                    self.listen_addr@,
                    self.rules.deep_view().take(i as int + 1),
                ));
            }
            i = i + 1;
        }
        proof {
            assert(self.rules.deep_view().take(self.rules.len() as int)
                =~= self.rules.deep_view());
        }
        cmds
    }

    pub fn clear_all_rules(&mut self)
        ensures
            final(self).rules.deep_view() == Seq::<FirewallRuleView>::empty(),
    {
        self.rules = Vec::new();
        proof {
            assert(self.rules.deep_view() =~= Seq::<FirewallRuleView>::empty());
        }
    }
}

/// The append commands that replaying a rule list emits on the iptables
/// backend, in order: one per enabled rule.
pub open spec fn spec_ipt_replay(
    chain_pre: Seq<char>,
    chain_post: Seq<char>,
    listen_addr: Seq<char>,
    rs: Seq<FirewallRuleView>,
) -> Seq<Seq<Seq<char>>>
    decreases rs.len(),
{
    if rs.len() == 0 {
        Seq::empty()
    } else {
        spec_ipt_replay(chain_pre, chain_post, listen_addr, rs.drop_last()) + (if rs.last().enabled {
            seq![
                if rs.last().forward_type is DNAT {
                    spec_ipt_dnat_args(chain_pre, listen_addr, rs.last())
                } else {
                    spec_ipt_snat_args(chain_post)
                },
            ]
        } else {
            Seq::empty()
        })
    }
}

proof fn lemma_ipt_replay_step(
    chain_pre: Seq<char>,
    chain_post: Seq<char>,
    listen_addr: Seq<char>,
    rs: Seq<FirewallRuleView>,
)
    requires
        rs.len() > 0,
    ensures
        spec_ipt_replay(chain_pre, chain_post, listen_addr, rs) == spec_ipt_replay(
            chain_pre,
            chain_post,
            listen_addr,
            rs.drop_last(),
        ) + (if rs.last().enabled {
            seq![
                if rs.last().forward_type is DNAT {
                    spec_ipt_dnat_args(chain_pre, listen_addr, rs.last())
                } else {
                    spec_ipt_snat_args(chain_post)
                },
            ]
        } else {
            Seq::<Seq<Seq<char>>>::empty()
        }),
{
}

/// The full iptables rebuild plan: flush both managed chains, then
/// replay.
pub open spec fn spec_ipt_rebuild(
    chain_pre: Seq<char>,
    chain_post: Seq<char>,
    listen_addr: Seq<char>,
    rs: Seq<FirewallRuleView>,
) -> Seq<Seq<Seq<char>>> {
    seq![
        seq!["-t"@, "nat"@, "-F"@, chain_pre],
        seq!["-t"@, "nat"@, "-F"@, chain_post],
    ] + spec_ipt_replay(chain_pre, chain_post, listen_addr, rs)
}

/// One pfctl redirect line, as the anchor file carries it; the protocol
/// is rendered in lower case.
pub open spec fn spec_pfctl_nat_rule(r: FirewallRuleView) -> Seq<char> {
    "rdr pass on lo0 proto "@ + crate::text::spec_ascii_lower(r.protocol)
        + " from any to any port "@ + spec_dec(r.listen_port as int) + " -> "@ + spec_target_ip(
        r.target_addr,
    ) + " port "@ + spec_target_port_text(r.target_addr, r.listen_port)
}

/// The pfctl backend: one `smart_forward` anchor holding redirect rules.
pub struct PfctlManager {
    pub anchor_name: String,
    pub rules: Vec<FirewallRule>,
}

impl PfctlManager {
    pub open spec fn wf(self) -> bool {
        spec_ids_unique(self.rules.deep_view())
    }

    pub fn new() -> (r: PfctlManager)
        ensures
            r.anchor_name@ == "smart_forward"@,
            r.rules.deep_view() == Seq::<FirewallRuleView>::empty(),
            r.wf(),
    {
        let r = PfctlManager { anchor_name: String::from_str("smart_forward"), rules: Vec::new() };
        proof {
            assert(r.rules.deep_view() =~= Seq::<FirewallRuleView>::empty());
        }
        r
    }

    /// The redirect line that realizes this rule.
    pub fn generate_nat_rule(&self, rule: &FirewallRule) -> (r: String)
        ensures
            r@ == spec_pfctl_nat_rule(rule@),
    {
        let (ip, port) = split_target(rule.target_addr.as_str(), rule.listen_port);
        let mut s = String::from_str("rdr pass on lo0 proto ");
        let proto = crate::text::ascii_lowercase(rule.protocol.as_str());
        s.append(proto.as_str());
        s.append(" from any to any port ");
        let lp = u16_to_string(rule.listen_port);
        s.append(lp.as_str());
        s.append(" -> ");
        s.append(ip.as_str());
        s.append(" port ");
        s.append(port.as_str());
        proof {
            assert(s@ =~= spec_pfctl_nat_rule(rule@));
        }
        s
    }

    pub fn add_forward_rule(&mut self, rule: FirewallRule) -> (line: String)
        ensures
            ({
                let rs = old(self).rules.deep_view();
                if spec_has_rule(rs, rule@.rule_id) {
                    final(self).rules.deep_view() == rs.update(
                        spec_rule_index(rs, rule@.rule_id),
                        rule@,
                    )
                } else {
                    final(self).rules.deep_view() == rs.push(rule@)
                }
            }),
            old(self).wf() ==> final(self).wf(),
            line@ == spec_pfctl_nat_rule(rule@),
    {
        let line = self.generate_nat_rule(&rule);
        upsert_rule(&mut self.rules, rule);
        line
    }

    pub fn remove_forward_rule(&mut self, rule_id: &str)
        ensures
            ({
                let rs = old(self).rules.deep_view();
                if spec_has_rule(rs, rule_id@) {
                    final(self).rules.deep_view() == rs.remove(spec_rule_index(rs, rule_id@))
                } else {
                    final(self).rules.deep_view() == rs
                }
            }),
    {
        remove_rule(&mut self.rules, rule_id);
    }

    pub fn is_rule_exists(&self, rule_id: &str) -> (r: bool)
        ensures
            r == spec_has_rule(self.rules.deep_view(), rule_id@),
    {
        match find_rule_index(&self.rules, rule_id) {
            Some(_) => true,
            None => false,
        }
    }

    /// A copy of every recorded rule.
    pub fn list_rules(&self) -> (r: Vec<FirewallRule>)
        ensures
            r.deep_view() == self.rules.deep_view(),
    {
        clone_rules(&self.rules)
    }

    /// The anchor a rule's redirect line is loaded into:
    /// `<anchor>/<rule_id>`.
    pub fn anchor_path(&self, rule_id: &str) -> (r: String)
        ensures
            r@ == self.anchor_name@ + seq!['/'] + rule_id@,
    {
        let mut s = self.anchor_name.clone();
        s.append("/");
        s.append(rule_id);
        proof {
            reveal_strlit("/");
            assert(s@ =~= self.anchor_name@ + seq!['/'] + rule_id@);
        }
        s
    }

    /// The `pfctl` arguments that load a rule file into the rule's anchor;
    /// the caller writes the redirect line to `file` first.
    pub fn load_anchor_args(&self, rule_id: &str, file: &str) -> (r: Vec<String>)
        ensures
            r.deep_view() =~~= seq![
                "-a"@,
                self.anchor_name@ + seq!['/'] + rule_id@,
                "-f"@,
                file@,
            ],
    {
        let mut v: Vec<String> = Vec::new();
        proof {
            assert(v.deep_view() =~= Seq::<Seq<char>>::empty());
        }
        push_word(&mut v, "-a");
        push_owned(&mut v, self.anchor_path(rule_id));
        push_word(&mut v, "-f");
        push_word(&mut v, file);
        proof {
            assert(v.deep_view() =~= seq![
                "-a"@,
                self.anchor_name@ + seq!['/'] + rule_id@,
                "-f"@,
                file@,
            ]);
        }
        v
    }

    /// The `pfctl` arguments that flush one rule's anchor.
    pub fn remove_commands(&self, rule_id: &str) -> (cmds: Vec<Vec<String>>)
        ensures
            cmds.deep_view() =~~= seq![
                seq!["-a"@, self.anchor_name@ + seq!['/'] + rule_id@, "-F"@, "nat"@],
            ],
    {
        let mut cmds: Vec<Vec<String>> = Vec::new();
        let mut c: Vec<String> = Vec::new();
        proof {
            assert(c.deep_view() =~= Seq::<Seq<char>>::empty());
        }
        push_word(&mut c, "-a");
        push_owned(&mut c, self.anchor_path(rule_id));
        push_word(&mut c, "-F");
        push_word(&mut c, "nat");
        let ghost cv = c.deep_view();
        cmds.push(c);
        proof {
            assert(cmds.deep_view() =~= seq![cv]);
            assert(cmds.deep_view() =~~= seq![cv]);
        }
        cmds
    }

    /// The `pfctl` arguments that flush the whole managed anchor at
    /// orderly shutdown.
    pub fn clear_commands(&self) -> (cmds: Vec<Vec<String>>)
        ensures
            cmds.deep_view() =~~= seq![seq!["-a"@, self.anchor_name@, "-F"@, "all"@]],
    {
        let mut cmds: Vec<Vec<String>> = Vec::new();
        let mut c: Vec<String> = Vec::new();
        proof {
            assert(c.deep_view() =~= Seq::<Seq<char>>::empty());
        }
        push_word(&mut c, "-a");
        push_owned(&mut c, self.anchor_name.clone());
        push_word(&mut c, "-F");
        push_word(&mut c, "all");
        let ghost cv = c.deep_view();
        cmds.push(c);
        proof {
            assert(cmds.deep_view() =~= seq![cv]);
            assert(cmds.deep_view() =~~= seq![cv]);
        }
        cmds
    }

    pub fn clear_all_rules(&mut self)
        ensures
            final(self).rules.deep_view() == Seq::<FirewallRuleView>::empty(),
    {
        self.rules = Vec::new();
        proof {
            assert(self.rules.deep_view() =~= Seq::<FirewallRuleView>::empty());
        }
    }
}

/// Copies a rule list.
pub fn clone_rules(rules: &Vec<FirewallRule>) -> (r: Vec<FirewallRule>)
    ensures
        r.deep_view() == rules.deep_view(),
{
    let mut r: Vec<FirewallRule> = Vec::new();
    let mut i: usize = 0;
    proof {
        assert(r.deep_view() =~= rules.deep_view().take(0));
    }
    while i < rules.len()
        invariant
            0 <= i <= rules.len(),
            r.deep_view() == rules.deep_view().take(i as int),
        decreases rules.len() - i,
    {
        let ghost pre = r.deep_view();
        r.push(rules[i].clone_fr());
        proof {
            assert(r.deep_view() =~= pre.push(rules.deep_view()[i as int]));
            assert(pre.push(rules.deep_view()[i as int]) =~= rules.deep_view().take(i as int + 1));
        }
        i = i + 1;
    }
    proof {
        assert(rules.deep_view().take(rules.len() as int) =~= rules.deep_view());
    }
    r
}

/// Field-for-field rule equality.
pub fn fr_equal(a: &FirewallRule, b: &FirewallRule) -> (r: bool)
    ensures
        r == (a@ == b@),
{
    let same_type: bool = match (a.forward_type, b.forward_type) {
        (ForwardType::DNAT, ForwardType::DNAT) => true,
        (ForwardType::SNAT, ForwardType::SNAT) => true,
        _ => false,
    };
    let r = crate::text::str_eq(a.rule_id.as_str(), b.rule_id.as_str()) && a.listen_port
        == b.listen_port && crate::text::str_eq(a.protocol.as_str(), b.protocol.as_str())
        && crate::text::str_eq(a.target_addr.as_str(), b.target_addr.as_str()) && same_type
        && a.enabled == b.enabled && a.priority == b.priority && a.config_index == b.config_index;
    proof {
        if r {
            assert(a@ == b@);
        }
    }
    r
}

/// Entry-for-entry table equality.
pub fn rules_equal(a: &Vec<FirewallRule>, b: &Vec<FirewallRule>) -> (r: bool)
    ensures
        r == (a.deep_view() == b.deep_view()),
{
    if a.len() != b.len() {
        proof {
            assert(a.deep_view().len() != b.deep_view().len());
        }
        return false;
    }
    let mut i: usize = 0;
    while i < a.len()
        invariant
            0 <= i <= a.len(),
            a.len() == b.len(),
            forall|j: int| 0 <= j < i ==> a.deep_view()[j] == b.deep_view()[j],
        decreases a.len() - i,
    {
        if !fr_equal(&a[i], &b[i]) {
            proof {
                assert(a.deep_view()[i as int] != b.deep_view()[i as int]);
            }
            return false;
        }
        proof {
            assert(a.deep_view()[i as int] == b.deep_view()[i as int]);
        }
        i = i + 1;
    }
    proof {
        assert(a.deep_view() =~= b.deep_view());
    }
    true
}

/// Removes the entry with this id, if present.
pub fn remove_rule(rules: &mut Vec<FirewallRule>, id: &str)
    ensures
        ({
            let rs = old(rules).deep_view();
            if spec_has_rule(rs, id@) {
                final(rules).deep_view() == rs.remove(spec_rule_index(rs, id@))
            } else {
                final(rules).deep_view() == rs
            }
        }),
{
    let ghost rs = rules.deep_view();
    match find_rule_index(rules, id) {
        Some(i) => {
            rules.remove(i);
            proof {
                assert(rules.deep_view() =~= rs.remove(i as int));
            }
        },
        None => {},
    }
}

} // verus!
