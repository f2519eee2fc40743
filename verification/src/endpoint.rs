//! Resolved network endpoints: an IP address kept as literal text plus a
//! port, with the grammar for `IP:PORT` and `[IPv6]:PORT` literals.

use vstd::prelude::*;
use crate::text::{
    all_digits, dec_value, first_index, is_digit, parse_u16, spec_dec, split_char, split_on_char,
    str_find_char, u16_to_string,
};

verus! {

/// A resolved endpoint. `ip` holds the address literal without brackets;
/// `port` the port number.
pub struct Endpoint {
    pub ip: String,
    pub port: u16,
}

/// Mathematical image of an [`Endpoint`].
pub ghost struct EndpointView {
    pub ip: Seq<char>,
    pub port: u16,
}

impl View for Endpoint {
    type V = EndpointView;

    open spec fn view(&self) -> EndpointView {
        EndpointView { ip: self.ip@, port: self.port }
    }
}

impl Endpoint {
    /// An endpoint is well formed when its address text is non-empty and
    /// carries no brackets: brackets are added back only when rendering.
    pub open spec fn wf(self) -> bool {
        self.ip@.len() > 0 && !self.ip@.contains('[') && !self.ip@.contains(']')
    }

    /// An endpoint is rendered in IPv6 form when its address text has a colon.
    pub open spec fn spec_is_ipv6(self) -> bool {
        self.ip@.contains(':')
    }

    pub fn is_ipv6(&self) -> (r: bool)
        ensures
            r == self.spec_is_ipv6(),
    {
        crate::text::str_contains_char(self.ip.as_str(), ':')
    }

    pub fn clone_ep(&self) -> (r: Endpoint)
        ensures
            r@ == self@,
    {
        Endpoint { ip: self.ip.clone(), port: self.port }
    }

    /// Endpoint equality, by address text and port.
    pub fn same_as(&self, other: &Endpoint) -> (r: bool)
        ensures
            r == (self@ == other@),
    {
        let r = self.ip == other.ip && self.port == other.port;
        proof {
            if self.ip@ == other.ip@ && self.port == other.port {
                assert(self@ =~= other@);
            }
        }
        r
    }

    /// Renders the endpoint as `ip:port`, bracketing IPv6 addresses.
    pub fn to_addr_string(&self) -> (r: String)
        ensures
            r@ == spec_endpoint_str(self@),
    {
        let mut s = String::new();
        if self.is_ipv6() {
            s.append("[");
            s.append(self.ip.as_str());
            s.append("]:");
        } else {
            s.append(self.ip.as_str());
            s.append(":");
        }
        let port = u16_to_string(self.port);
        s.append(port.as_str());
        proof {
            reveal_strlit("[");
            reveal_strlit("]:");
            reveal_strlit(":");
            assert(s@ =~= spec_endpoint_str(self@));
        }
        s
    }
}

/// The rendered `ip:port` text of an endpoint, with brackets for IPv6.
pub open spec fn spec_endpoint_str(e: EndpointView) -> Seq<char> {
    if e.ip.contains(':') {
        seq!['['] + e.ip + seq![']', ':'] + spec_dec(e.port as int)
    } else {
        e.ip + seq![':'] + spec_dec(e.port as int)
    }
}

/// A decimal-digit group admissible as one IPv4 octet.
pub open spec fn is_octet(g: Seq<char>) -> bool {
    1 <= g.len() <= 3 && all_digits(g) && dec_value(g) <= 255
}

/// Dotted-quad IPv4 text: four octet groups separated by dots.
pub open spec fn is_ipv4_text(s: Seq<char>) -> bool {
    let gs = split_char(s, '.');
    gs.len() == 4 && forall|i: int| 0 <= i < 4 ==> is_octet(#[trigger] gs[i])
}

pub open spec fn is_hex_digit(c: char) -> bool {
    ('0' <= c && c <= '9') || ('a' <= c && c <= 'f') || ('A' <= c && c <= 'F')
}

/// The text accepted between brackets as an IPv6 address: non-empty, at
/// least one colon, and only hexadecimal digits, colons and dots (the dots
/// allow the embedded-IPv4 form).
pub open spec fn is_ipv6_text(s: Seq<char>) -> bool {
    s.len() > 0 && s.contains(':') && forall|i: int|
        0 <= i < s.len() ==> is_hex_digit(#[trigger] s[i]) || s[i] == ':' || s[i] == '.'
}

/// Port text: non-empty decimal digits whose value fits a `u16`.
pub open spec fn is_port_text(s: Seq<char>) -> bool {
    s.len() > 0 && all_digits(s) && dec_value(s) <= u16::MAX
}

/// The endpoint-literal grammar: `v4:port` with a dotted quad, or
/// `[v6]:port` with bracketed IPv6 text.
pub open spec fn spec_parse_endpoint(s: Seq<char>) -> Option<EndpointView> {
    if s.len() > 0 && s[0] == '[' {
        let j = first_index(s, ']');
        if j >= 1 && is_ipv6_text(s.subrange(1, j)) && j + 2 <= s.len() && s[j + 1] == ':'
            && is_port_text(s.skip(j + 2)) {
            Some(EndpointView { ip: s.subrange(1, j), port: dec_value(s.skip(j + 2)) as u16 })
        } else {
            None
        }
    } else {
        let i = first_index(s, ':');
        if i >= 1 && is_ipv4_text(s.take(i)) && is_port_text(s.skip(i + 1)) {
            Some(EndpointView { ip: s.take(i), port: dec_value(s.skip(i + 1)) as u16 })
        } else {
            None
        }
    }
}

/// Checks a dotted-quad IPv4 literal.
pub fn check_ipv4_text(s: &str) -> (r: bool)
    ensures
        r == is_ipv4_text(s@),
{
    let groups = split_on_char(s, '.');
    if groups.len() != 4 {
        return false;
    }
    let mut i: usize = 0;
    while i < 4
        invariant
            groups.deep_view() == split_char(s@, '.'),
            groups.len() == 4,
            0 <= i <= 4,
            forall|j: int| 0 <= j < i ==> is_octet(#[trigger] groups.deep_view()[j]),
        decreases 4 - i,
    {
        let g = &groups[i];
        proof {
            assert(groups.deep_view()[i as int] == g@);
        }
        let glen = g.unicode_len();
        if glen < 1 || glen > 3 {
            proof {
                assert(!is_octet(split_char(s@, '.')[i as int]));
            }
            return false;
        }
        match crate::text::parse_dec_bounded(g.as_str(), 255) {
            Some(_) => {},
            None => {
                proof {
                    if all_digits(g@) {
                        crate::text::lemma_dec_value_nonneg(g@);
                    }
                    assert(!is_octet(split_char(s@, '.')[i as int]));
                }
                return false;
            },
        }
        i = i + 1;
    }
    true
}

fn check_ipv6_text(s: &str) -> (r: bool)
    ensures
        r == is_ipv6_text(s@),
{
    let n = s.unicode_len();
    if n == 0 {
        return false;
    }
    let mut i: usize = 0;
    let mut has_colon = false;
    while i < n
        invariant
            0 <= i <= n == s@.len(),
            has_colon == s@.take(i as int).contains(':'),
            forall|j: int| 0 <= j < i ==> is_hex_digit(#[trigger] s@[j]) || s@[j] == ':' || s@[j]
                == '.',
        decreases n - i,
    {
        let c = s.get_char(i);
        let ok = ('0' <= c && c <= '9') || ('a' <= c && c <= 'f') || ('A' <= c && c <= 'F') || c
            == ':' || c == '.';
        if !ok {
            proof {
                assert(s@[i as int] == c);
            }
            return false;
        }
        proof {
            assert(s@.take(i as int + 1)[i as int] == s@[i as int]);
            if s@.take(i as int).contains(':') {
                let w = choose|w: int| 0 <= w < i && #[trigger] s@.take(i as int)[w] == ':';
                assert(s@.take(i as int + 1)[w] == ':');
            }
            if s@.take(i as int + 1).contains(':') && c != ':' {
                let w = choose|w: int|
                    0 <= w < i + 1 && #[trigger] s@.take(i as int + 1)[w] == ':';
                assert(w < i);
                assert(s@.take(i as int)[w] == ':');
            }
        }
        if c == ':' {
            has_colon = true;
        }
        i = i + 1;
    }
    proof {
        assert(s@.take(n as int) =~= s@);
    }
    has_colon
}

/// Parses an endpoint literal: `a.b.c.d:port` or `[v6]:port`.
pub fn parse_endpoint(s: &str) -> (r: Option<Endpoint>)
    ensures
        match r {
            Some(e) => spec_parse_endpoint(s@) == Some(e@) && e.wf(),
            None => spec_parse_endpoint(s@) is None,
        },
{
    let n = s.unicode_len();
    if n > 0 && s.get_char(0) == '[' {
        match str_find_char(s, ']') {
            Some(j) => {
                proof {
                    crate::text::lemma_first_index_of(s@, ']', j as int);
                }
                if j < 1 {
                    return None;
                }
                let inner = s.substring_char(1, j);
                proof {
                    assert(inner@ =~= s@.subrange(1, j as int));
                }
                if !check_ipv6_text(inner) {
                    return None;
                }
                if n - j < 2 {
                    return None;
                }
                if s.get_char(j + 1) != ':' {
                    return None;
                }
                let ptxt = s.substring_char(j + 2, n);
                proof {
                    assert(ptxt@ =~= s@.skip(j as int + 2));
                }
                match parse_u16(ptxt) {
                    Some(p) => {
                        let e = Endpoint { ip: String::from_str(inner), port: p };
                        proof {
                            assert(!e.ip@.contains('[')) by {
                                if e.ip@.contains('[') {
                                    let w = choose|w: int|
                                        0 <= w < e.ip@.len() && e.ip@[w] == '[';
                                    assert(is_hex_digit(e.ip@[w]) || e.ip@[w] == ':'
                                        || e.ip@[w] == '.');
                                }
                            }
                            assert(!e.ip@.contains(']')) by {
                                if e.ip@.contains(']') {
                                    let w = choose|w: int|
                                        0 <= w < e.ip@.len() && e.ip@[w] == ']';
                                    assert(is_hex_digit(e.ip@[w]) || e.ip@[w] == ':'
                                        || e.ip@[w] == '.');
                                }
                            }
                        }
                        Some(e)
                    },
                    None => None,
                }
            },
            None => {
                proof {
                    crate::text::lemma_first_index_none(s@, ']');
                }
                None
            },
        }
    } else {
        match str_find_char(s, ':') {
            Some(i) => {
                proof {
                    crate::text::lemma_first_index_of(s@, ':', i as int);
                }
                if i < 1 {
                    return None;
                }
                let head = s.substring_char(0, i);
                proof {
                    assert(head@ =~= s@.take(i as int));
                }
                if !check_ipv4_text(head) {
                    return None;
                }
                let ptxt = s.substring_char(i + 1, n);
                proof {
                    assert(ptxt@ =~= s@.skip(i as int + 1));
                }
                match parse_u16(ptxt) {
                    Some(p) => {
                        let e = Endpoint { ip: String::from_str(head), port: p };
                        proof {
                            lemma_ipv4_text_chars(e.ip@);
                        }
                        Some(e)
                    },
                    None => None,
                }
            },
            None => {
                proof {
                    crate::text::lemma_first_index_none(s@, ':');
                }
                None
            },
        }
    }
}

/// Dotted-quad text is non-empty and bracket-free.
proof fn lemma_ipv4_text_chars(s: Seq<char>)
    requires
        is_ipv4_text(s),
    ensures
        s.len() > 0,
        !s.contains('['),
        !s.contains(']'),
{
    let gs = split_char(s, '.');
    if s.len() == 0 {
        assert(gs =~= seq![s]);
    }
    assert forall|g: int| 0 <= g < gs.len() implies !(#[trigger] gs[g]).contains('[') by {
        if gs[g].contains('[') {
            let w = choose|w: int| 0 <= w < gs[g].len() && gs[g][w] == '[';
            assert(is_digit(gs[g][w]));
        }
    }
    assert forall|g: int| 0 <= g < gs.len() implies !(#[trigger] gs[g]).contains(']') by {
        if gs[g].contains(']') {
            let w = choose|w: int| 0 <= w < gs[g].len() && gs[g][w] == ']';
            assert(is_digit(gs[g][w]));
        }
    }
    crate::text::lemma_split_char_free(s, '.', '[');
    crate::text::lemma_split_char_free(s, '.', ']');
}

} // verus!
