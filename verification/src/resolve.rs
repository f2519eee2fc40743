//! Target-string resolution: the grammar that classifies a target, the
//! choice among DNS answers, the scan of TXT records for an embedded
//! endpoint, and the per-listener resolve cache. The DNS queries
//! themselves are network I/O and stay with the caller.

use vstd::prelude::*;
use crate::endpoint::{
    Endpoint, EndpointView, is_port_text, parse_endpoint, spec_parse_endpoint,
};
use crate::text::{dec_value, spec_trim_spaces, split_char, split_on_char, trim_spaces};
use crate::udp::RESOLVE_CACHE_TTL_SECS;

verus! {

/// Why a target string could not be resolved without DNS help, or at all.
#[derive(Debug, Clone, Copy, PartialEq, Eq)]
pub enum ResolveError {
    /// More than one colon-separated part beyond `host:port`.
    InvalidFormat,
    /// The text after the colon is not a port number.
    InvalidPort,
    /// DNS returned no usable address (reported by the caller's lookup).
    NoAnswer,
    /// No TXT record carried an `IP:port` value.
    NoTxtEndpoint,
}

/// What a target string is, under the grammar: a literal endpoint, a
/// `host:port` pair for an A/AAAA lookup, or a bare name for a TXT lookup.
pub enum TargetClass {
    Literal(Endpoint),
    HostPort(String, u16),
    TxtHost(String),
}

/// Mathematical image of a [`TargetClass`].
pub ghost enum TargetClassView {
    Literal(EndpointView),
    HostPort(Seq<char>, u16),
    TxtHost(Seq<char>),
}

/// The target grammar. A literal endpoint is used verbatim; otherwise one
/// colon splits host from port, no colon means a TXT name, and anything
/// else is malformed.
pub open spec fn spec_classify(s: Seq<char>) -> Result<TargetClassView, ResolveError> {
    match spec_parse_endpoint(s) {
        Some(e) => Ok(TargetClassView::Literal(e)),
        None => {
            let parts = split_char(s, ':');
            if parts.len() == 1 {
                Ok(TargetClassView::TxtHost(parts[0]))
            } else if parts.len() == 2 {
                if is_port_text(parts[1]) {
                    Ok(TargetClassView::HostPort(parts[0], dec_value(parts[1]) as u16))
                } else {
                    Err(ResolveError::InvalidPort)
                }
            } else {
                Err(ResolveError::InvalidFormat)
            }
        },
    }
}

/// Classifies a target string under the grammar.
pub fn classify_target(s: &str) -> (r: Result<TargetClass, ResolveError>)
    ensures
        match r {
            Ok(TargetClass::Literal(e)) => spec_classify(s@) == Ok::<_, ResolveError>(
                TargetClassView::Literal(e@),
            ) && e.wf(),
            Ok(TargetClass::HostPort(h, p)) => spec_classify(s@) == Ok::<_, ResolveError>(
                TargetClassView::HostPort(h@, p),
            ),
            Ok(TargetClass::TxtHost(h)) => spec_classify(s@) == Ok::<_, ResolveError>(
                TargetClassView::TxtHost(h@),
            ),
            Err(e) => spec_classify(s@) == Err::<TargetClassView, _>(e),
        },
{
    match parse_endpoint(s) {
        Some(e) => Ok(TargetClass::Literal(e)),
        None => {
            let parts = split_on_char(s, ':');
            proof {
                assert(parts.len() >= 1) by {
                    assert(split_char(s@, ':').len() >= 1) by {
                        crate::text::lemma_first_index_bounds(s@, ':');
                    }
                }
                assert(parts.deep_view()[0] == parts@[0]@);
            }
            if parts.len() == 1 {
                Ok(TargetClass::TxtHost(parts[0].clone()))
            } else if parts.len() == 2 {
                proof {
                    assert(parts.deep_view()[1] == parts@[1]@);
                }
                match crate::text::parse_u16(parts[1].as_str()) {
                    Some(p) => Ok(TargetClass::HostPort(parts[0].clone(), p)),
                    None => Err(ResolveError::InvalidPort),
                }
            } else {
                Err(ResolveError::InvalidFormat)
            }
        },
    }
}

/// One address a lookup answered with: its literal text and family.
pub struct DnsAnswer {
    pub ip: String,
    pub is_ipv4: bool,
}

/// Mathematical image of a [`DnsAnswer`].
pub ghost struct DnsAnswerView {
    pub ip: Seq<char>,
    pub is_ipv4: bool,
}

impl View for DnsAnswer {
    type V = DnsAnswerView;

    open spec fn view(&self) -> DnsAnswerView {
        DnsAnswerView { ip: self.ip@, is_ipv4: self.is_ipv4 }
    }
}

impl DeepView for DnsAnswer {
    type V = DnsAnswerView;

    open spec fn deep_view(&self) -> DnsAnswerView {
        self@
    }
}

/// The index of the first IPv4 answer; meaningful only when one exists.
pub open spec fn spec_first_v4_index(answers: Seq<DnsAnswerView>) -> int
    decreases answers.len(),
{
    if answers.len() == 0 {
        0
    } else if answers[0].is_ipv4 {
        0
    } else {
        1 + spec_first_v4_index(answers.drop_first())
    }
}

pub open spec fn spec_has_v4(answers: Seq<DnsAnswerView>) -> bool {
    exists|i: int| 0 <= i < answers.len() && (#[trigger] answers[i]).is_ipv4
}

/// The address chosen from a lookup's answers: IPv4 preferred, else the
/// first answer; nothing from an empty answer list.
pub open spec fn spec_pick_answer(answers: Seq<DnsAnswerView>) -> Option<DnsAnswerView> {
    if answers.len() == 0 {
        None
    } else if spec_has_v4(answers) {
        Some(answers[spec_first_v4_index(answers)])
    } else {
        Some(answers[0])
    }
}

proof fn lemma_first_v4_index_at(answers: Seq<DnsAnswerView>, i: int)
    requires
        0 <= i < answers.len(),
        answers[i].is_ipv4,
        forall|j: int| 0 <= j < i ==> !(#[trigger] answers[j]).is_ipv4,
    ensures
        spec_first_v4_index(answers) == i,
    decreases answers.len(),
{
    if i > 0 {
        let rest = answers.drop_first();
        assert(rest[i - 1] == answers[i]);
        assert(forall|j: int| 0 <= j < i - 1 ==> #[trigger] rest[j] == answers[j + 1]);
        lemma_first_v4_index_at(rest, i - 1);
    }
}

/// Picks the address to use from a lookup's answers and pairs it with the
/// port the rule asked for.
pub fn pick_answer_address(answers: &Vec<DnsAnswer>, port: u16) -> (r: Option<Endpoint>)
    ensures
        match r {
            Some(e) => spec_pick_answer(answers.deep_view()) is Some && e@.ip == spec_pick_answer(
                answers.deep_view(),
            ).unwrap().ip && e@.port == port,
            None => answers.len() == 0,
        },
{
    let ghost av = answers.deep_view();
    if answers.len() == 0 {
        return None;
    }
    let mut i: usize = 0;
    while i < answers.len()
        invariant
            0 <= i <= answers.len(),
            av == answers.deep_view(),
            forall|j: int| 0 <= j < i ==> !(#[trigger] av[j]).is_ipv4,
        decreases answers.len() - i,
    {
        if answers[i].is_ipv4 {
            proof {
                assert(av[i as int].is_ipv4);
                assert(spec_has_v4(av));
                lemma_first_v4_index_at(av, i as int);
            }
            return Some(Endpoint { ip: answers[i].ip.clone(), port });
        }
        proof {
            assert(!av[i as int].is_ipv4);
        }
        i = i + 1;
    }
    proof {
        assert(!spec_has_v4(av));
        assert(av[0] == answers.deep_view()[0]);
    }
    Some(Endpoint { ip: answers[0].ip.clone(), port })
}

/// A TXT record's text with surrounding quotes and spaces removed.
pub open spec fn spec_clean_txt(s: Seq<char>) -> Seq<char> {
    spec_trim_spaces(spec_trim_quotes(s))
}

/// Leading and trailing double quotes removed.
pub open spec fn spec_trim_quotes(s: Seq<char>) -> Seq<char>
    decreases s.len(),
{
    if s.len() > 0 && s[0] == '"' {
        spec_trim_quotes(s.drop_first())
    } else if s.len() > 0 && s.last() == '"' {
        spec_trim_quotes(s.drop_last())
    } else {
        s
    }
}

fn trim_quotes(s: &str) -> (r: String)
    ensures
        r@ == spec_trim_quotes(s@),
{
    let n = s.unicode_len();
    let mut a: usize = 0;
    let mut b: usize = n;
    proof {
        assert(s@.subrange(0, n as int) =~= s@);
    }
    while a < b && (s.get_char(a) == '"' || s.get_char(b - 1) == '"')
        invariant
            0 <= a <= b <= n == s@.len(),
            spec_trim_quotes(s@) == spec_trim_quotes(s@.subrange(a as int, b as int)),
        decreases b - a,
    {
        proof {
            let cur = s@.subrange(a as int, b as int);
            assert(cur[0] == s@[a as int]);
            assert(cur.last() == s@[b as int - 1]);
            assert(cur.drop_first() =~= s@.subrange(a as int + 1, b as int));
            assert(cur.drop_last() =~= s@.subrange(a as int, b as int - 1));
        }
        if s.get_char(a) == '"' {
            a = a + 1;
        } else {
            b = b - 1;
        }
    }
    let r = s.substring_char(a, b);
    proof {
        let cur = s@.subrange(a as int, b as int);
        if cur.len() > 0 {
            assert(cur[0] == s@[a as int]);
            assert(cur.last() == s@[b as int - 1]);
        }
        assert(spec_trim_quotes(cur) == cur);
        assert(r@ =~= cur);
    }
    String::from_str(r)
}

/// The endpoint carried by the first TXT record that parses as one.
pub open spec fn spec_first_txt_endpoint(ts: Seq<Seq<char>>) -> Option<EndpointView>
    decreases ts.len(),
{
    if ts.len() == 0 {
        None
    } else if spec_parse_endpoint(spec_clean_txt(ts[0])) is Some {
        spec_parse_endpoint(spec_clean_txt(ts[0]))
    } else {
        spec_first_txt_endpoint(ts.drop_first())
    }
}

proof fn lemma_first_txt_at(ts: Seq<Seq<char>>, i: int)
    requires
        0 <= i < ts.len(),
        spec_parse_endpoint(spec_clean_txt(ts[i])) is Some,
        forall|j: int| 0 <= j < i ==> spec_parse_endpoint(spec_clean_txt(#[trigger] ts[j])) is None,
    ensures
        spec_first_txt_endpoint(ts) == spec_parse_endpoint(spec_clean_txt(ts[i])),
    decreases ts.len(),
{
    if i > 0 {
        let rest = ts.drop_first();
        assert(rest[i - 1] == ts[i]);
        assert(forall|j: int| 0 <= j < i - 1 ==> #[trigger] rest[j] == ts[j + 1]);
        lemma_first_txt_at(rest, i - 1);
    }
}

proof fn lemma_first_txt_none(ts: Seq<Seq<char>>)
    requires
        forall|j: int| 0 <= j < ts.len() ==> spec_parse_endpoint(
            spec_clean_txt(#[trigger] ts[j]),
        ) is None,
    ensures
        spec_first_txt_endpoint(ts) is None,
    decreases ts.len(),
{
    if ts.len() > 0 {
        let rest = ts.drop_first();
        assert(forall|j: int| 0 <= j < rest.len() ==> #[trigger] rest[j] == ts[j + 1]);
        lemma_first_txt_none(rest);
    }
}

/// Scans TXT records for the first embedded `IP:port` value.
pub fn first_txt_endpoint(txts: &Vec<String>) -> (r: Option<Endpoint>)
    ensures
        match r {
            Some(e) => spec_first_txt_endpoint(txts.deep_view()) == Some(e@),
            None => spec_first_txt_endpoint(txts.deep_view()) is None,
        },
{
    let ghost tv = txts.deep_view();
    let mut i: usize = 0;
    while i < txts.len()
        invariant
            0 <= i <= txts.len(),
            tv == txts.deep_view(),
            forall|j: int| 0 <= j < i ==> spec_parse_endpoint(
                spec_clean_txt(#[trigger] tv[j]),
            ) is None,
        decreases txts.len() - i,
    {
        proof {
            assert(tv[i as int] == txts@[i as int]@);
        }
        let unquoted = trim_quotes(txts[i].as_str());
        let clean = trim_spaces(unquoted.as_str());
        proof {
            assert(clean@ == spec_clean_txt(tv[i as int]));
        }
        match parse_endpoint(clean.as_str()) {
            Some(e) => {
                proof {
                    lemma_first_txt_at(tv, i as int);
                }
                return Some(e);
            },
            None => {},
        }
        i = i + 1;
    }
    proof {
        lemma_first_txt_none(tv);
    }
    None
}

/// One cached resolution: target string, endpoint, and when it was stored
/// (caller's clock, seconds).
pub struct ResolveCacheEntry {
    pub key: String,
    pub addr: Endpoint,
    pub stored_at: u64,
}

/// A cached entry is fresh at time `now` while it is younger than the
/// cache TTL.
pub open spec fn spec_cache_fresh(stored_at: u64, now: u64) -> bool {
    now >= stored_at && now - stored_at < RESOLVE_CACHE_TTL_SECS
}

/// No two cache entries share a key.
pub open spec fn spec_cache_keys_unique(es: Seq<ResolveCacheEntry>) -> bool {
    forall|i: int, j: int| 0 <= i < j < es.len() ==> (#[trigger] es[i]).key@ != (
    #[trigger] es[j]).key@
}

/// Whether some cache entry carries this key.
pub open spec fn spec_cache_has(es: Seq<ResolveCacheEntry>, key: Seq<char>) -> bool {
    exists|j: int| 0 <= j < es.len() && (#[trigger] es[j]).key@ == key
}

/// The index of the first cache entry with this key; meaningful only when
/// one exists.
pub open spec fn spec_cache_index(es: Seq<ResolveCacheEntry>, key: Seq<char>) -> int
    decreases es.len(),
{
    if es.len() == 0 {
        0
    } else if es[0].key@ == key {
        0
    } else {
        1 + spec_cache_index(es.drop_first(), key)
    }
}

proof fn lemma_cache_index_at(es: Seq<ResolveCacheEntry>, key: Seq<char>, i: int)
    requires
        0 <= i < es.len(),
        es[i].key@ == key,
        forall|j: int| 0 <= j < i ==> (#[trigger] es[j]).key@ != key,
    ensures
        spec_cache_index(es, key) == i,
    decreases es.len(),
{
    if i > 0 {
        let rest = es.drop_first();
        assert(rest[i - 1] == es[i]);
        assert(forall|j: int| 0 <= j < i - 1 ==> #[trigger] rest[j] == es[j + 1]);
        lemma_cache_index_at(rest, key, i - 1);
    }
}

/// The per-listener resolve cache the UDP loop consults before resolving.
pub struct ResolveCache {
    pub entries: Vec<ResolveCacheEntry>,
}

impl ResolveCache {
    pub open spec fn wf(self) -> bool {
        spec_cache_keys_unique(self.entries@)
    }

    pub fn new() -> (r: ResolveCache)
        ensures
            r.entries.len() == 0,
            r.wf(),
    {
        ResolveCache { entries: Vec::new() }
    }

    /// The cached endpoint for `key`: a hit exactly when an entry for the
    /// key exists and is still fresh.
    pub fn lookup(&self, key: &str, now: u64) -> (r: Option<Endpoint>)
        ensures
            match r {
                Some(e) => exists|j: int|
                    0 <= j < self.entries.len() && (#[trigger] self.entries@[j]).key@ == key@
                        && self.entries@[j].addr@ == e@ && spec_cache_fresh(
                        self.entries@[j].stored_at,
                        now,
                    ),
                None => forall|j: int|
                    0 <= j < self.entries.len() && (#[trigger] self.entries@[j]).key@ == key@
                        ==> !spec_cache_fresh(self.entries@[j].stored_at, now),
            },
    {
        let mut i: usize = 0;
        while i < self.entries.len()
            invariant
                0 <= i <= self.entries.len(),
                forall|j: int|
                    0 <= j < i && (#[trigger] self.entries@[j]).key@ == key@
                        ==> !spec_cache_fresh(self.entries@[j].stored_at, now),
            decreases self.entries.len() - i,
        {
            let e = &self.entries[i];
            if crate::text::str_eq(e.key.as_str(), key) && now >= e.stored_at && now - e.stored_at
                < RESOLVE_CACHE_TTL_SECS {
                let r = e.addr.clone_ep();
                proof {
                    assert((#[trigger] self.entries@[i as int]).key@ == key@);
                }
                return Some(r);
            }
            proof {
                assert((#[trigger] self.entries@[i as int]).key@ == key@ ==> !spec_cache_fresh(
                    self.entries@[i as int].stored_at,
                    now,
                ));
            }
            i = i + 1;
        }
        None
    }

    /// Records a resolution: the entry for the key is replaced in place,
    /// or appended when the key is new; entries for other keys stay as
    /// they are.
    pub fn store(&mut self, key: &str, addr: Endpoint, now: u64)
        ensures
            old(self).wf() ==> final(self).wf(),
            ({
                let es = old(self).entries@;
                let nv = final(self).entries@;
                if spec_cache_has(es, key@) {
                    let idx = spec_cache_index(es, key@);
                    &&& nv.len() == es.len()
                    &&& nv[idx].key@ == key@ && nv[idx].addr@ == addr@ && nv[idx].stored_at == now
                    &&& forall|w: int| 0 <= w < nv.len() && w != idx ==> #[trigger] nv[w] == es[w]
                } else {
                    &&& nv.len() == es.len() + 1
                    &&& nv.last().key@ == key@ && nv.last().addr@ == addr@ && nv.last().stored_at
                        == now
                    &&& forall|w: int| 0 <= w < es.len() ==> #[trigger] nv[w] == es[w]
                }
            }),
    {
        let ghost es = self.entries@;
        let mut i: usize = 0;
        while i < self.entries.len()
            invariant
                0 <= i <= self.entries.len(),
                es == self.entries@,
                es == old(self).entries@,
                forall|j: int| 0 <= j < i ==> (#[trigger] es[j]).key@ != key@,
            decreases self.entries.len() - i,
        {
            if crate::text::str_eq(self.entries[i].key.as_str(), key) {
                proof {
                    assert((#[trigger] es[i as int]).key@ == key@);
                    lemma_cache_index_at(es, key@, i as int);
                }
                let entry = ResolveCacheEntry { key: String::from_str(key), addr, stored_at: now };
                self.entries.set(i, entry);
                proof {
                    assert(self.entries@[i as int].key@ == key@);
                    assert(forall|w: int|
                        0 <= w < self.entries@.len() && w != i ==> #[trigger] self.entries@[w]
                            == es[w]);
                    if spec_cache_keys_unique(es) {
                        assert forall|a: int, b: int|
                            0 <= a < b < self.entries@.len() implies (
                        #[trigger] self.entries@[a]).key@ != (#[trigger] self.entries@[b]).key@ by {
                            if a != i {
                                assert(self.entries@[a] == es[a]);
                            }
                            if b != i {
                                assert(self.entries@[b] == es[b]);
                            }
                            assert(es[a].key@ != es[b].key@);
                        }
                    }
                }
                return ;
            }
            proof {
                assert((#[trigger] es[i as int]).key@ != key@);
            }
            i = i + 1;
        }
        let entry = ResolveCacheEntry { key: String::from_str(key), addr, stored_at: now };
        let ghost n = self.entries@.len() as int;
        self.entries.push(entry);
        proof {
            assert((#[trigger] self.entries@[n]).key@ == key@);
            assert(self.entries@.last().key@ == key@);
            assert(forall|w: int| 0 <= w < es.len() ==> #[trigger] self.entries@[w] == es[w]);
            if spec_cache_has(es, key@) {
                let j = choose|j: int| 0 <= j < es.len() && (#[trigger] es[j]).key@ == key@;
            }
            if spec_cache_keys_unique(es) {
                assert forall|a: int, b: int| 0 <= a < b < self.entries@.len() implies (
                #[trigger] self.entries@[a]).key@ != (#[trigger] self.entries@[b]).key@ by {
                    if b < es.len() {
                        assert(self.entries@[a] == es[a] && self.entries@[b] == es[b]);
                    } else {
                        assert(self.entries@[b].key@ == key@);
                        assert(self.entries@[a] == es[a]);
                    }
                }
            }
        }
    }
}

} // verus!
