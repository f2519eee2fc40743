//! Configuration model: rules, network options, and validation. Reading a
//! configuration file and decoding it from YAML stays with the caller; the
//! defaults and the validation rules live here.

use vstd::prelude::*;
use crate::text::{clone_string_vec, spec_dec, str_eq, u16_to_string};

verus! {

#[derive(Debug, Clone)]
pub struct Config {
    pub logging: LoggingConfig,
    pub network: NetworkConfig,
    pub buffer_size: Option<usize>,
    pub rules: Vec<ForwardRule>,
    pub dynamic_update: Option<DynamicUpdateConfig>,
    pub dns: Option<DnsConfig>,
}

#[derive(Debug, Clone)]
pub struct LoggingConfig {
    pub level: String,
    pub format: String,
}

#[derive(Debug, Clone)]
pub struct NetworkConfig {
    pub listen_addrs: Vec<String>,
}

#[derive(Debug, Clone)]
pub struct ForwardRule {
    pub name: String,
    pub listen_port: u16,
    pub protocol: Option<String>,
    pub protocols: Option<Vec<String>>,
    pub buffer_size: Option<usize>,
    pub targets: Vec<String>,
    pub dynamic_update: Option<DynamicUpdateConfig>,
}

#[derive(Debug, Clone, Copy)]
pub struct DynamicUpdateConfig {
    pub check_interval: Option<u64>,
    pub connection_timeout: Option<u64>,
}

#[derive(Debug, Clone)]
pub struct DnsConfig {
    pub servers: Vec<String>,
    pub timeout: Option<u64>,
    pub attempts: Option<usize>,
}

/// A structural or semantic validation failure; fatal at startup. Each
/// variant carries the index of the offending rule.
#[derive(Debug, Clone, Copy, PartialEq, Eq)]
pub enum ConfigError {
    NoRules,
    EmptyName { index: usize },
    ZeroPort { index: usize },
    NoTargets { index: usize },
    BadProtocol { index: usize },
    DuplicateProtocol { index: usize },
    DuplicateName { index: usize },
}

/// The protocols a rule may name.
pub open spec fn spec_protocol_supported(p: Seq<char>) -> bool {
    p == "tcp"@ || p == "udp"@ || p == "http"@
}

/// The protocol list a rule is effectively configured with: `protocols[]`
/// when given, else the single `protocol`, else TCP and UDP together.
pub open spec fn spec_rule_protocols(r: ForwardRule) -> Seq<Seq<char>> {
    match r.protocols {
        Some(ps) => ps.deep_view(),
        None => match r.protocol {
            Some(p) => seq![p@],
            None => seq!["tcp"@, "udp"@],
        },
    }
}

/// Every protocol the rule names, in either form, is recognized.
pub open spec fn spec_protocols_ok(r: ForwardRule) -> bool {
    &&& r.protocol is Some ==> spec_protocol_supported(r.protocol.unwrap()@)
    &&& forall|w: int|
        0 <= w < spec_rule_protocols(r).len() ==> spec_protocol_supported(
            #[trigger] spec_rule_protocols(r)[w],
        )
}

/// The rule's protocols form a set: no protocol is listed twice.
pub open spec fn spec_protocols_distinct(r: ForwardRule) -> bool {
    forall|a: int, b: int|
        0 <= a < b < spec_rule_protocols(r).len() ==> #[trigger] spec_rule_protocols(r)[a] != (
        #[trigger] spec_rule_protocols(r)[b])
}

/// One rule passes validation: non-empty name, a non-zero listen port, at
/// least one target, and only recognized protocol names.
pub open spec fn spec_rule_valid(r: ForwardRule) -> bool {
    &&& r.name@.len() > 0
    &&& r.listen_port != 0
    &&& r.targets.len() > 0
    &&& spec_protocols_ok(r)
    &&& spec_protocols_distinct(r)
}

/// The whole configuration passes validation: at least one rule, every rule
/// valid, and rule names unique.
pub open spec fn spec_config_valid(c: Config) -> bool {
    &&& c.rules.len() > 0
    &&& forall|i: int| 0 <= i < c.rules.len() ==> spec_rule_valid(#[trigger] c.rules@[i])
    &&& forall|i: int, j: int|
        0 <= i < j < c.rules.len() ==> (#[trigger] c.rules@[i]).name@ != (
        #[trigger] c.rules@[j]).name@
}

impl NetworkConfig {
    /// True when some configured bind address is the wildcard `0.0.0.0`.
    pub fn contains_wildcard(&self) -> (r: bool)
        ensures
            r == exists|i: int|
                0 <= i < self.listen_addrs.len() && #[trigger] self.listen_addrs.deep_view()[i]
                    == "0.0.0.0"@,
    {
        let mut i: usize = 0;
        while i < self.listen_addrs.len()
            invariant
                0 <= i <= self.listen_addrs.len(),
                forall|j: int| 0 <= j < i ==> #[trigger] self.listen_addrs.deep_view()[j]
                    != "0.0.0.0"@,
            decreases self.listen_addrs.len() - i,
        {
            if str_eq(self.listen_addrs[i].as_str(), "0.0.0.0") {
                proof {
                    assert(self.listen_addrs.deep_view()[i as int] == "0.0.0.0"@);
                }
                return true;
            }
            i = i + 1;
        }
        false
    }

    /// The base bind address: the first configured one, else `0.0.0.0`.
    pub fn first(&self) -> (r: String)
        ensures
            self.listen_addrs.len() > 0 ==> r@ == self.listen_addrs.deep_view()[0],
            self.listen_addrs.len() == 0 ==> r@ == "0.0.0.0"@,
    {
        if self.listen_addrs.len() > 0 {
            self.listen_addrs[0].clone()
        } else {
            String::from_str("0.0.0.0")
        }
    }
}

impl Config {
    /// Fills the defaults that loading applies before validation: a 16 KiB
    /// buffer, the wildcard bind address, and a 5 s / 3 s update cadence.
    pub fn apply_defaults(&mut self)
        ensures
            final(self).buffer_size == if old(self).buffer_size is Some {
                old(self).buffer_size
            } else {
                Some(16384usize)
            },
            old(self).network.listen_addrs.len() > 0 ==> final(self).network.listen_addrs
                == old(self).network.listen_addrs,
            old(self).network.listen_addrs.len() == 0 ==> final(self).network.listen_addrs.deep_view() =~= seq!["0.0.0.0"@],
            final(self).dynamic_update == if old(self).dynamic_update is Some {
                old(self).dynamic_update
            } else {
                Some(
                    DynamicUpdateConfig {
                        check_interval: Some(5u64),
                        connection_timeout: Some(3u64),
                    },
                )
            },
            final(self).logging == old(self).logging,
            final(self).rules == old(self).rules,
            final(self).dns == old(self).dns,
    {
        if self.buffer_size.is_none() {
            self.buffer_size = Some(16384);
        }
        if self.network.listen_addrs.len() == 0 {
            let mut addrs: Vec<String> = Vec::new();
            addrs.push(String::from_str("0.0.0.0"));
            proof {
                assert(addrs.deep_view() =~= seq!["0.0.0.0"@]);
            }
            self.network.listen_addrs = addrs;
        }
        if self.dynamic_update.is_none() {
            self.dynamic_update = Some(
                DynamicUpdateConfig { check_interval: Some(5), connection_timeout: Some(3) },
            );
        }
    }

    /// Checks the configuration; `Ok` exactly on valid configurations. An
    /// error names a rule that breaks the rule it reports.
    pub fn validate(&self) -> (r: Result<(), ConfigError>)
        ensures
            r is Ok <==> spec_config_valid(*self),
            match r {
                Ok(()) => true,
                Err(ConfigError::NoRules) => self.rules.len() == 0,
                Err(ConfigError::EmptyName { index }) => index < self.rules.len()
                    && self.rules@[index as int].name@.len() == 0,
                Err(ConfigError::ZeroPort { index }) => index < self.rules.len()
                    && self.rules@[index as int].listen_port == 0,
                Err(ConfigError::NoTargets { index }) => index < self.rules.len()
                    && self.rules@[index as int].targets.len() == 0,
                Err(ConfigError::BadProtocol { index }) => index < self.rules.len()
                    && !spec_rule_valid(self.rules@[index as int]),
                Err(ConfigError::DuplicateProtocol { index }) => index < self.rules.len()
                    && !spec_protocols_distinct(self.rules@[index as int]),
                Err(ConfigError::DuplicateName { index }) => index < self.rules.len() && exists|
                    j: int,
                |
                    0 <= j < index && (#[trigger] self.rules@[j]).name@
                        == self.rules@[index as int].name@,
            },
    {
        if self.rules.len() == 0 {
            return Err(ConfigError::NoRules);
        }
        let mut i: usize = 0;
        while i < self.rules.len()
            invariant
                0 <= i <= self.rules.len(),
                forall|k: int| 0 <= k < i ==> spec_rule_valid(#[trigger] self.rules@[k]),
                forall|k: int, j: int| 0 <= j < k < i ==> (#[trigger] self.rules@[j]).name@ != (
                #[trigger] self.rules@[k]).name@,
            decreases self.rules.len() - i,
        {
            let rule = &self.rules[i];
            proof {
                assert(*rule == self.rules@[i as int]);
            }
            if rule.name.as_str().unicode_len() == 0 {
                return Err(ConfigError::EmptyName { index: i });
            }
            if rule.listen_port == 0 {
                return Err(ConfigError::ZeroPort { index: i });
            }
            if rule.targets.len() == 0 {
                return Err(ConfigError::NoTargets { index: i });
            }
            let ghost rv = self.rules@[i as int];
            match &rule.protocol {
                Some(p) => {
                    if !Self::protocol_supported(p.as_str()) {
                        proof {
                            assert(rv.protocol.unwrap() == *p);
                        }
                        return Err(ConfigError::BadProtocol { index: i });
                    }
                    proof {
                        assert(rv.protocol.unwrap() == *p);
                    }
                },
                None => {},
            }
            let protos = rule.get_protocols();
            let mut k: usize = 0;
            while k < protos.len()
                invariant
                    0 <= k <= protos.len(),
                    0 <= i < self.rules.len(),
                    rv == self.rules@[i as int],
                    protos.deep_view() == spec_rule_protocols(rv),
                    forall|w: int| 0 <= w < k ==> spec_protocol_supported(
                        #[trigger] spec_rule_protocols(rv)[w],
                    ),
                decreases protos.len() - k,
            {
                if !Self::protocol_supported(protos[k].as_str()) {
                    proof {
                        assert(spec_rule_protocols(rv)[k as int] == protos@[k as int]@);
                        assert(!spec_protocol_supported(spec_rule_protocols(rv)[k as int]));
                        assert(!spec_protocols_ok(rv));
                    }
                    return Err(ConfigError::BadProtocol { index: i });
                }
                proof {
                    assert(spec_rule_protocols(rv)[k as int] == protos@[k as int]@);
                }
                k = k + 1;
            }
            let mut a: usize = 0;
            while a < protos.len()
                invariant
                    0 <= a <= protos.len(),
                    0 <= i < self.rules.len(),
                    rv == self.rules@[i as int],
                    protos.deep_view() == spec_rule_protocols(rv),
                    forall|x: int, y: int|
                        0 <= x < y < spec_rule_protocols(rv).len() && x < a
                            ==> #[trigger] spec_rule_protocols(rv)[x] != (
                        #[trigger] spec_rule_protocols(rv)[y]),
                decreases protos.len() - a,
            {
                let mut b: usize = a + 1;
                while b < protos.len()
                    invariant
                        0 <= a < b <= protos.len(),
                        0 <= i < self.rules.len(),
                        rv == self.rules@[i as int],
                        protos.deep_view() == spec_rule_protocols(rv),
                        forall|y: int| a < y < b ==> spec_rule_protocols(rv)[a as int] != (
                        #[trigger] spec_rule_protocols(rv)[y]),
                    decreases protos.len() - b,
                {
                    if str_eq(protos[a].as_str(), protos[b].as_str()) {
                        proof {
                            assert(spec_rule_protocols(rv)[a as int] == protos@[a as int]@);
                            assert(spec_rule_protocols(rv)[b as int] == protos@[b as int]@);
                            assert(!spec_protocols_distinct(rv));
                        }
                        return Err(ConfigError::DuplicateProtocol { index: i });
                    }
                    proof {
                        assert(spec_rule_protocols(rv)[a as int] == protos@[a as int]@);
                        assert(spec_rule_protocols(rv)[b as int] == protos@[b as int]@);
                    }
                    b = b + 1;
                }
                a = a + 1;
            }
            proof {
                assert(spec_protocols_distinct(rv));
                assert(rv.protocol is Some ==> spec_protocol_supported(rv.protocol.unwrap()@));
                assert(spec_protocols_ok(rv));
            }
            let mut j: usize = 0;
            while j < i
                invariant
                    0 <= j <= i < self.rules.len(),
                    *rule == self.rules@[i as int],
                    forall|w: int| 0 <= w < j ==> (#[trigger] self.rules@[w]).name@
                        != self.rules@[i as int].name@,
                decreases i - j,
            {
                if str_eq(self.rules[j].name.as_str(), rule.name.as_str()) {
                    proof {
                        assert(self.rules@[j as int].name@ == self.rules@[i as int].name@);
                    }
                    return Err(ConfigError::DuplicateName { index: i });
                }
                proof {
                    assert(self.rules@[j as int].name@ != self.rules@[i as int].name@);
                }
                j = j + 1;
            }
            i = i + 1;
        }
        Ok(())
    }

    fn protocol_supported(p: &str) -> (r: bool)
        ensures
            r == spec_protocol_supported(p@),
    {
        str_eq(p, "tcp") || str_eq(p, "udp") || str_eq(p, "http")
    }

    /// The global dynamic-update settings, with the built-in 5 s cadence
    /// and 3 s connection timeout when the configuration has none.
    pub fn get_dynamic_update_config(&self) -> (r: DynamicUpdateConfig)
        ensures
            r == match self.dynamic_update {
                Some(d) => d,
                None => DynamicUpdateConfig {
                    check_interval: Some(5u64),
                    connection_timeout: Some(3u64),
                },
            },
    {
        match self.dynamic_update {
            Some(d) => d,
            None => DynamicUpdateConfig { check_interval: Some(5), connection_timeout: Some(3) },
        }
    }

    /// The DNS settings, defaulting to two public resolvers with a 2 s
    /// timeout and 2 attempts.
    pub fn get_dns_config(&self) -> (r: DnsConfig)
        ensures
            match self.dns {
                Some(d) => r.servers.deep_view() == d.servers.deep_view() && r.timeout == d.timeout
                    && r.attempts == d.attempts,
                None => r.servers.deep_view() =~= seq!["223.5.5.5:53"@, "223.6.6.6:53"@]
                    && r.timeout == Some(2u64) && r.attempts == Some(2usize),
            },
    {
        match &self.dns {
            Some(d) => DnsConfig {
                servers: clone_string_vec(&d.servers),
                timeout: d.timeout,
                attempts: d.attempts,
            },
            None => {
                let mut servers: Vec<String> = Vec::new();
                servers.push(String::from_str("223.5.5.5:53"));
                servers.push(String::from_str("223.6.6.6:53"));
                proof {
                    assert(servers.deep_view() =~= seq!["223.5.5.5:53"@, "223.6.6.6:53"@]);
                }
                DnsConfig { servers, timeout: Some(2), attempts: Some(2) }
            },
        }
    }
}

impl DynamicUpdateConfig {
    pub fn get_check_interval(&self) -> (r: u64)
        ensures
            r == self.check_interval.unwrap_or(5u64),
    {
        match self.check_interval {
            Some(v) => v,
            None => 5,
        }
    }

    pub fn get_connection_timeout(&self) -> (r: u64)
        ensures
            r == self.connection_timeout.unwrap_or(3u64),
    {
        match self.connection_timeout {
            Some(v) => v,
            None => 3,
        }
    }
}

impl ForwardRule {
    pub fn get_effective_buffer_size(&self, default_size: usize) -> (r: usize)
        ensures
            r == self.buffer_size.unwrap_or(default_size),
    {
        match self.buffer_size {
            Some(v) => v,
            None => default_size,
        }
    }

    pub fn is_protocol_supported(&self, protocol: &str) -> (r: bool)
        ensures
            r == spec_protocol_supported(protocol@),
    {
        Config::protocol_supported(protocol)
    }

    /// The deprecated single-protocol accessor; defaults to TCP.
    pub fn get_protocol(&self) -> (r: String)
        ensures
            r@ == match self.protocol {
                Some(p) => p@,
                None => "tcp"@,
            },
    {
        match &self.protocol {
            Some(p) => p.clone(),
            None => String::from_str("tcp"),
        }
    }

    /// Every protocol the rule names; see [`spec_rule_protocols`].
    pub fn get_protocols(&self) -> (r: Vec<String>)
        ensures
            r.deep_view() == spec_rule_protocols(*self),
    {
        match &self.protocols {
            Some(ps) => clone_string_vec(ps),
            None => match &self.protocol {
                Some(p) => {
                    let mut r: Vec<String> = Vec::new();
                    r.push(p.clone());
                    proof {
                        assert(r.deep_view() =~= seq![p@]);
                    }
                    r
                },
                None => {
                    let mut r: Vec<String> = Vec::new();
                    r.push(String::from_str("tcp"));
                    r.push(String::from_str("udp"));
                    proof {
                        assert(r.deep_view() =~= seq!["tcp"@, "udp"@]);
                    }
                    r
                },
            },
        }
    }

    /// A field-for-field copy of the rule.
    pub fn clone_rule(&self) -> (r: ForwardRule)
        ensures
            r.name@ == self.name@,
            r.listen_port == self.listen_port,
            r.buffer_size == self.buffer_size,
            r.dynamic_update == self.dynamic_update,
            r.targets.deep_view() == self.targets.deep_view(),
            spec_rule_protocols(r) == spec_rule_protocols(*self),
            r.protocol is Some <==> self.protocol is Some,
            r.protocol is Some ==> r.protocol.unwrap()@ == self.protocol.unwrap()@,
            r.protocols is Some <==> self.protocols is Some,
    {
        let r = ForwardRule {
            name: self.name.clone(),
            listen_port: self.listen_port,
            protocol: match &self.protocol {
                Some(p) => Some(p.clone()),
                None => None,
            },
            protocols: match &self.protocols {
                Some(ps) => Some(clone_string_vec(ps)),
                None => None,
            },
            buffer_size: self.buffer_size,
            targets: clone_string_vec(&self.targets),
            dynamic_update: self.dynamic_update,
        };
        proof {
            if self.protocols is Some {
                assert(spec_rule_protocols(r) == spec_rule_protocols(*self));
            } else if self.protocol is Some {
                assert(spec_rule_protocols(r) =~= spec_rule_protocols(*self));
            } else {
                assert(spec_rule_protocols(r) == spec_rule_protocols(*self));
            }
        }
        r
    }

    /// The rule's bind address: `base:listen_port`.
    pub fn get_listen_addr(&self, base_addr: &str) -> (r: String)
        ensures
            r@ == base_addr@ + seq![':'] + spec_dec(self.listen_port as int),
    {
        let mut s = String::from_str(base_addr);
        s.append(":");
        let port = u16_to_string(self.listen_port);
        s.append(port.as_str());
        proof {
            reveal_strlit(":");
            assert(s@ =~= base_addr@ + seq![':'] + spec_dec(self.listen_port as int));
        }
        s
    }

    /// The rule-level dynamic-update settings, falling back to the global
    /// ones field by field.
    pub fn get_dynamic_update_config(&self, global_config: &DynamicUpdateConfig) -> (r:
        DynamicUpdateConfig)
        ensures
            r == match self.dynamic_update {
                Some(rc) => DynamicUpdateConfig {
                    check_interval: if rc.check_interval is Some {
                        rc.check_interval
                    } else {
                        global_config.check_interval
                    },
                    connection_timeout: if rc.connection_timeout is Some {
                        rc.connection_timeout
                    } else {
                        global_config.connection_timeout
                    },
                },
                None => *global_config,
            },
    {
        match self.dynamic_update {
            Some(rc) => DynamicUpdateConfig {
                check_interval: match rc.check_interval {
                    Some(v) => Some(v),
                    None => global_config.check_interval,
                },
                connection_timeout: match rc.connection_timeout {
                    Some(v) => Some(v),
                    None => global_config.connection_timeout,
                },
            },
            None => *global_config,
        }
    }
}

} // verus!

