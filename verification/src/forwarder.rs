//! Forwarder control state: what each per-rule forwarder knows — listen
//! address, current target, running flag, counters — and how a composite
//! forwarder wires the protocol set of one rule. The listeners, sockets
//! and copy loops run with the caller, which reads and updates this state
//! around them.

use vstd::prelude::*;
use crate::config::{ForwardRule, spec_rule_protocols};
use crate::stats::{ConnectionStats, spec_standard_stats};
use crate::udp::SessionTable;

verus! {

/// A TCP listener's control state.
pub struct TCPForwarder {
    pub listen_addr: String,
    pub name: String,
    pub buffer_size: usize,
    pub target_addr: String,
    pub stats: ConnectionStats,
    pub running: bool,
}

impl TCPForwarder {
    pub fn new(listen_addr: &str, name: &str, buffer_size: usize) -> (r: TCPForwarder)
        ensures
            r.listen_addr@ == listen_addr@,
            r.name@ == name@,
            r.buffer_size == buffer_size,
            r.target_addr@ == Seq::<char>::empty(),
            r.running == false,
    {
        let r = TCPForwarder {
            listen_addr: String::from_str(listen_addr),
            name: String::from_str(name),
            buffer_size,
            target_addr: String::new(),
            stats: ConnectionStats::new(0),
            running: false,
        };
        r
    }

    /// Adopts the target and marks the forwarder running; the caller then
    /// binds the listener and accepts connections against this state.
    pub fn start_with_target(&mut self, target: &str)
        ensures
            final(self).target_addr@ == target@,
            final(self).running == true,
            final(self).listen_addr@ == old(self).listen_addr@,
            final(self).name@ == old(self).name@,
            final(self).buffer_size == old(self).buffer_size,
            final(self).stats == old(self).stats,
    {
        self.target_addr = String::from_str(target);
        self.running = true;
    }

    /// Replaces the target; connections already in flight keep the
    /// endpoint they dialed, only new ones observe the change.
    pub fn update_target(&mut self, new_target: &str)
        ensures
            final(self).target_addr@ == new_target@,
            final(self).running == old(self).running,
            final(self).listen_addr@ == old(self).listen_addr@,
            final(self).name@ == old(self).name@,
            final(self).buffer_size == old(self).buffer_size,
            final(self).stats == old(self).stats,
    {
        self.target_addr = String::from_str(new_target);
    }

    pub fn stop(&mut self)
        ensures
            final(self).running == false,
            final(self).target_addr@ == old(self).target_addr@,
            final(self).stats == old(self).stats,
    {
        self.running = false;
    }

    pub fn is_running(&self) -> (r: bool)
        ensures
            r == self.running,
    {
        self.running
    }

    pub fn get_stats(&self, now: u64) -> (r: Vec<(String, String)>)
        ensures
            r.deep_view() == spec_standard_stats(self.stats, now),
    {
        crate::stats::get_standard_stats(&self.stats, now)
    }
}

/// The HTTP redirect listener's control state.
pub struct HTTPForwarder {
    pub listen_addr: String,
    pub name: String,
    pub stats: ConnectionStats,
    pub running: bool,
}

impl HTTPForwarder {
    pub fn new(listen_addr: &str, name: &str, _buffer_size: usize) -> (r: HTTPForwarder)
        ensures
            r.listen_addr@ == listen_addr@,
            r.name@ == name@,
            r.running == false,
    {
        HTTPForwarder {
            listen_addr: String::from_str(listen_addr),
            name: String::from_str(name),
            stats: ConnectionStats::new(0),
            running: false,
        }
    }

    pub fn start(&mut self)
        ensures
            final(self).running == true,
            final(self).listen_addr@ == old(self).listen_addr@,
            final(self).name@ == old(self).name@,
            final(self).stats == old(self).stats,
    {
        self.running = true;
    }

    pub fn stop(&mut self)
        ensures
            final(self).running == false,
    {
        self.running = false;
    }

    pub fn is_running(&self) -> (r: bool)
        ensures
            r == self.running,
    {
        self.running
    }

    pub fn get_stats(&self, now: u64) -> (r: Vec<(String, String)>)
        ensures
            r.deep_view() == spec_standard_stats(self.stats, now),
    {
        crate::stats::get_standard_stats(&self.stats, now)
    }
}

/// A UDP listener's control state, with its session table.
pub struct UDPForwarder {
    pub listen_addr: String,
    pub name: String,
    pub buffer_size: usize,
    pub target_addr: String,
    pub stats: ConnectionStats,
    pub running: bool,
    pub sessions: SessionTable,
}

impl UDPForwarder {
    pub fn new(listen_addr: &str, name: &str, buffer_size: usize) -> (r: UDPForwarder)
        ensures
            r.listen_addr@ == listen_addr@,
            r.name@ == name@,
            r.buffer_size == buffer_size,
            r.target_addr@ == Seq::<char>::empty(),
            r.running == false,
            r.sessions.sessions.len() == 0,
            r.sessions.wf(),
    {
        UDPForwarder {
            listen_addr: String::from_str(listen_addr),
            name: String::from_str(name),
            buffer_size,
            target_addr: String::new(),
            stats: ConnectionStats::new(0),
            running: false,
            sessions: SessionTable::new(),
        }
    }

    pub fn start_with_target(&mut self, target: &str)
        ensures
            final(self).target_addr@ == target@,
            final(self).running == true,
            final(self).listen_addr@ == old(self).listen_addr@,
            final(self).name@ == old(self).name@,
            final(self).buffer_size == old(self).buffer_size,
            final(self).sessions == old(self).sessions,
    {
        self.target_addr = String::from_str(target);
        self.running = true;
    }

    pub fn update_target(&mut self, new_target: &str)
        ensures
            final(self).target_addr@ == new_target@,
            final(self).running == old(self).running,
            final(self).sessions == old(self).sessions,
    {
        self.target_addr = String::from_str(new_target);
    }

    /// Stops the listener and drops every session, releasing the upstream
    /// sockets.
    pub fn stop(&mut self)
        ensures
            final(self).running == false,
            final(self).sessions.sessions.len() == 0,
            final(self).sessions.wf(),
    {
        self.running = false;
        self.sessions = SessionTable::new();
    }

    pub fn is_running(&self) -> (r: bool)
        ensures
            r == self.running,
    {
        self.running
    }

    pub fn get_stats(&self, now: u64) -> (r: Vec<(String, String)>)
        ensures
            r.deep_view() == spec_standard_stats(self.stats, now).push(
                ("target_addr"@, self.target_addr@),
            ),
    {
        crate::stats::get_stats_with_target(&self.stats, self.target_addr.as_str(), now)
    }
}

/// Whether a protocol list names this protocol.
pub open spec fn spec_has_protocol(ps: Seq<Seq<char>>, p: Seq<char>) -> bool {
    exists|i: int| 0 <= i < ps.len() && ps[i] == p
}

fn protocols_contain(ps: &Vec<String>, p: &str) -> (r: bool)
    ensures
        r == spec_has_protocol(ps.deep_view(), p@),
{
    let mut i: usize = 0;
    while i < ps.len()
        invariant
            0 <= i <= ps.len(),
            forall|j: int| 0 <= j < i ==> ps.deep_view()[j] != p@,
        decreases ps.len() - i,
    {
        if crate::text::str_eq(ps[i].as_str(), p) {
            proof {
                assert(ps.deep_view()[i as int] == p@);
            }
            return true;
        }
        proof {
            assert(ps.deep_view()[i as int] == ps@[i as int]@);
        }
        i = i + 1;
    }
    proof {
        if spec_has_protocol(ps.deep_view(), p@) {
            let w = choose|w: int| 0 <= w < ps.deep_view().len() && ps.deep_view()[w] == p@;
        }
    }
    false
}

/// One rule's composite forwarder: at most one child per protocol.
pub struct UnifiedForwarder {
    pub rule: ForwardRule,
    pub listen_addr: String,
    pub target_addr: String,
    pub tcp_forwarder: Option<TCPForwarder>,
    pub http_forwarder: Option<HTTPForwarder>,
    pub udp_forwarder: Option<UDPForwarder>,
    pub running: bool,
    pub last_target_update: u64,
}

impl UnifiedForwarder {
    pub fn new_with_target(rule: &ForwardRule, listen_addr: &str, target_addr: &str) -> (r:
        UnifiedForwarder)
        ensures
            r.rule.name@ == rule.name@,
            r.rule.listen_port == rule.listen_port,
            r.rule.buffer_size == rule.buffer_size,
            r.rule.targets.deep_view() == rule.targets.deep_view(),
            spec_rule_protocols(r.rule) == spec_rule_protocols(*rule),
            r.listen_addr@ == listen_addr@,
            r.target_addr@ == target_addr@,
            r.tcp_forwarder is None,
            r.http_forwarder is None,
            r.udp_forwarder is None,
            r.running == false,
            r.last_target_update == 0,
    {
        UnifiedForwarder {
            rule: rule.clone_rule(),
            listen_addr: String::from_str(listen_addr),
            target_addr: String::from_str(target_addr),
            tcp_forwarder: None,
            http_forwarder: None,
            udp_forwarder: None,
            running: false,
            last_target_update: 0,
        }
    }

    /// Brings up one child per protocol the rule names, each adopting the
    /// current target; the caller binds the matching sockets.
    pub fn start(&mut self)
        ensures
            final(self).running == true,
            final(self).rule == old(self).rule,
            final(self).target_addr@ == old(self).target_addr@,
            final(self).listen_addr@ == old(self).listen_addr@,
            final(self).tcp_forwarder is Some <==> (old(self).tcp_forwarder is Some
                || spec_has_protocol(spec_rule_protocols(old(self).rule), "tcp"@)),
            final(self).udp_forwarder is Some <==> (old(self).udp_forwarder is Some
                || spec_has_protocol(spec_rule_protocols(old(self).rule), "udp"@)),
            final(self).http_forwarder is Some <==> (old(self).http_forwarder is Some
                || spec_has_protocol(spec_rule_protocols(old(self).rule), "http"@)),
            (old(self).tcp_forwarder is None && final(self).tcp_forwarder is Some) ==> ({
                let f = final(self).tcp_forwarder.unwrap();
                f.running && f.target_addr@ == old(self).target_addr@ && f.listen_addr@ == old(
                    self,
                ).listen_addr@
            }),
            (old(self).udp_forwarder is None && final(self).udp_forwarder is Some) ==> ({
                let f = final(self).udp_forwarder.unwrap();
                f.running && f.target_addr@ == old(self).target_addr@ && f.listen_addr@ == old(
                    self,
                ).listen_addr@
            }),
            (old(self).http_forwarder is None && final(self).http_forwarder is Some) ==> ({
                let f = final(self).http_forwarder.unwrap();
                f.running && f.listen_addr@ == old(self).listen_addr@
            }),
    {
        let protocols = self.rule.get_protocols();
        let buffer_size = self.rule.get_effective_buffer_size(16384);
        if self.tcp_forwarder.is_none() && protocols_contain(&protocols, "tcp") {
            let mut f = TCPForwarder::new(self.listen_addr.as_str(), self.rule.name.as_str(),
                buffer_size);
            f.start_with_target(self.target_addr.as_str());
            self.tcp_forwarder = Some(f);
        }
        if self.udp_forwarder.is_none() && protocols_contain(&protocols, "udp") {
            let mut f = UDPForwarder::new(self.listen_addr.as_str(), self.rule.name.as_str(),
                buffer_size);
            f.start_with_target(self.target_addr.as_str());
            self.udp_forwarder = Some(f);
        }
        if self.http_forwarder.is_none() && protocols_contain(&protocols, "http") {
            let mut f = HTTPForwarder::new(self.listen_addr.as_str(), self.rule.name.as_str(),
                buffer_size);
            f.start();
            self.http_forwarder = Some(f);
        }
        self.running = true;
    }

    /// Propagates a fresh target to every child that forwards payload; a
    /// target equal to the current one changes nothing.
    pub fn update_target(&mut self, new_target: &str, now: u64)
        ensures
            final(self).rule == old(self).rule,
            final(self).running == old(self).running,
            old(self).target_addr@ == new_target@ ==> *final(self) == *old(self),
            old(self).target_addr@ != new_target@ ==> ({
                &&& final(self).target_addr@ == new_target@
                &&& final(self).last_target_update == now
                &&& match final(self).tcp_forwarder {
                    Some(f) => old(self).tcp_forwarder is Some && f.target_addr@ == new_target@,
                    None => old(self).tcp_forwarder is None,
                }
                &&& match final(self).udp_forwarder {
                    Some(f) => old(self).udp_forwarder is Some && f.target_addr@ == new_target@,
                    None => old(self).udp_forwarder is None,
                }
                &&& final(self).http_forwarder == old(self).http_forwarder
            }),
    {
        if !crate::text::str_eq(self.target_addr.as_str(), new_target) {
            self.target_addr = String::from_str(new_target);
            self.last_target_update = now;
            match &mut self.tcp_forwarder {
                Some(f) => f.update_target(new_target),
                None => {},
            }
            match &mut self.udp_forwarder {
                Some(f) => f.update_target(new_target),
                None => {},
            }
        }
    }

    /// Whether enough time has passed since the last target update to
    /// check for a fresh one.
    pub fn should_update_target_with_interval(&self, interval_seconds: u64, now: u64) -> (r: bool)
        ensures
            r == (now >= self.last_target_update && now - self.last_target_update
                >= interval_seconds),
    {
        now >= self.last_target_update && now - self.last_target_update >= interval_seconds
    }

    pub fn get_current_target(&self) -> (r: String)
        ensures
            r@ == self.target_addr@,
    {
        self.target_addr.clone()
    }

    /// Narrows the rule to one protocol.
    pub fn set_protocol(&mut self, protocol: &str)
        ensures
            final(self).rule.protocol == Some(final(self).rule.protocol.unwrap()),
            final(self).rule.protocol.unwrap()@ == protocol@,
            final(self).rule.protocols == old(self).rule.protocols,
            final(self).rule.name@ == old(self).rule.name@,
    {
        self.rule.protocol = Some(String::from_str(protocol));
    }

    /// Widens the rule to a protocol list.
    pub fn set_multi_protocol(&mut self, protocols: &Vec<String>)
        ensures
            final(self).rule.protocols is Some,
            final(self).rule.protocols.unwrap().deep_view() == protocols.deep_view(),
            final(self).rule.protocol is None,
            final(self).rule.name@ == old(self).rule.name@,
    {
        self.rule.protocols = Some(crate::text::clone_string_vec(protocols));
        self.rule.protocol = None;
    }

    pub fn stop(&mut self)
        ensures
            final(self).running == false,
            match final(self).tcp_forwarder {
                Some(f) => !f.running,
                None => true,
            },
            match final(self).udp_forwarder {
                Some(f) => !f.running,
                None => true,
            },
            match final(self).http_forwarder {
                Some(f) => !f.running,
                None => true,
            },
    {
        match &mut self.tcp_forwarder {
            Some(f) => f.stop(),
            None => {},
        }
        match &mut self.udp_forwarder {
            Some(f) => f.stop(),
            None => {},
        }
        match &mut self.http_forwarder {
            Some(f) => f.stop(),
            None => {},
        }
        self.running = false;
    }

    pub fn is_running(&self) -> (r: bool)
        ensures
            r == self.running,
    {
        self.running
    }
}

/// The top-level forwarder: one composite per started rule.
pub struct SmartForwarder {
    pub config: crate::config::Config,
    pub forwarders: Vec<(String, UnifiedForwarder)>,
    pub dynamic_update_started: bool,
}

impl SmartForwarder {
    pub fn new(config: crate::config::Config) -> (r: SmartForwarder)
        ensures
            r.config == config,
            r.forwarders.len() == 0,
            r.dynamic_update_started == false,
    {
        SmartForwarder { config, forwarders: Vec::new(), dynamic_update_started: false }
    }

    /// The automatic HTTP redirect applies when some rule listens on 443
    /// and none on 80.
    pub fn needs_auto_http_redirect(&self) -> (r: bool)
        ensures
            r == ((exists|i: int|
                0 <= i < self.config.rules.len() && (#[trigger] self.config.rules@[i]).listen_port
                    == 443) && !(exists|i: int|
                0 <= i < self.config.rules.len() && (#[trigger] self.config.rules@[i]).listen_port
                    == 80)),
    {
        let mut has_443 = false;
        let mut has_80 = false;
        let mut i: usize = 0;
        while i < self.config.rules.len()
            invariant
                0 <= i <= self.config.rules.len(),
                has_443 == exists|j: int|
                    0 <= j < i && (#[trigger] self.config.rules@[j]).listen_port == 443,
                has_80 == exists|j: int|
                    0 <= j < i && (#[trigger] self.config.rules@[j]).listen_port == 80,
            decreases self.config.rules.len() - i,
        {
            let port = self.config.rules[i].listen_port;
            proof {
                if port == 443 {
                    assert((#[trigger] self.config.rules@[i as int]).listen_port == 443);
                }
                if port == 80 {
                    assert((#[trigger] self.config.rules@[i as int]).listen_port == 80);
                }
            }
            if port == 443 {
                has_443 = true;
            }
            if port == 80 {
                has_80 = true;
            }
            i = i + 1;
        }
        has_443 && !has_80
    }

    /// Records a started composite forwarder under its rule's name.
    pub fn register_forwarder(&mut self, name: &str, f: UnifiedForwarder)
        ensures
            final(self).forwarders@.len() == old(self).forwarders@.len() + 1,
            final(self).forwarders@.last().0@ == name@,
            final(self).forwarders@.last().1 == f,
            forall|j: int| 0 <= j < old(self).forwarders@.len() ==> #[trigger] final(self).forwarders@[j] == old(self).forwarders@[j],
            final(self).config == old(self).config,
    {
        self.forwarders.push((String::from_str(name), f));
    }

    /// Stops every forwarder and forgets them; nothing else changes.
    pub fn stop(&mut self)
        ensures
            final(self).forwarders.len() == 0,
            final(self).config == old(self).config,
            final(self).dynamic_update_started == old(self).dynamic_update_started,
    {
        let mut i: usize = 0;
        let n = self.forwarders.len();
        while i < n
            invariant
                0 <= i <= n == self.forwarders.len(),
                self.config == old(self).config,
                self.dynamic_update_started == old(self).dynamic_update_started,
            decreases n - i,
        {
            let mut pair = self.forwarders.remove(i);
            pair.1.stop();
            self.forwarders.insert(i, pair);
            i = i + 1;
        }
        self.forwarders = Vec::new();
    }
}

} // verus!
