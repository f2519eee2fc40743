//! The HTTP redirect responder: reads the request head, extracts method,
//! path and `Host:` header, and answers with a permanent redirect to the
//! HTTPS origin. The socket I/O stays with the caller.

use vstd::prelude::*;
use crate::text::{first_index, spec_trim_spaces, split_char, split_on_char, str_find_char, trim_spaces};

verus! {

/// A line with its trailing carriage return removed.
pub open spec fn spec_strip_cr(l: Seq<char>) -> Seq<char> {
    if l.len() > 0 && l.last() == '\r' {
        l.drop_last()
    } else {
        l
    }
}

fn strip_cr(l: &str) -> (r: &str)
    ensures
        r@ == spec_strip_cr(l@),
{
    let n = l.unicode_len();
    if n > 0 && l.get_char(n - 1) == '\r' {
        let r = l.substring_char(0, n - 1);
        proof {
            assert(r@ =~= l@.drop_last());
        }
        r
    } else {
        l
    }
}

/// A header line that names the host, case-insensitively.
pub open spec fn spec_is_host_line(l: Seq<char>) -> bool {
    l.len() >= 5 && (l[0] == 'h' || l[0] == 'H') && (l[1] == 'o' || l[1] == 'O') && (l[2] == 's'
        || l[2] == 'S') && (l[3] == 't' || l[3] == 'T') && l[4] == ':'
}

fn is_host_line(l: &str) -> (r: bool)
    ensures
        r == spec_is_host_line(l@),
{
    let n = l.unicode_len();
    if n < 5 {
        return false;
    }
    let c0 = l.get_char(0);
    let c1 = l.get_char(1);
    let c2 = l.get_char(2);
    let c3 = l.get_char(3);
    let c4 = l.get_char(4);
    (c0 == 'h' || c0 == 'H') && (c1 == 'o' || c1 == 'O') && (c2 == 's' || c2 == 'S') && (c3 == 't'
        || c3 == 'T') && c4 == ':'
}

/// The value of a host line: everything after the colon that ends the
/// header name, trimmed of spaces. A port or an IPv6 literal in the value
/// is kept.
pub open spec fn spec_host_value(l: Seq<char>) -> Seq<char> {
    spec_trim_spaces(l.skip(first_index(l, ':') + 1))
}

fn host_value(l: &str) -> (r: String)
    requires
        spec_is_host_line(l@),
    ensures
        r@ == spec_host_value(l@),
{
    let n = l.unicode_len();
    let j1 = match str_find_char(l, ':') {
        Some(j) => j,
        None => 0,
    };
    proof {
        assert(l@.contains(':')) by {
            assert(l@[4] == ':');
        }
        crate::text::lemma_first_index_bounds(l@, ':');
    }
    let rest = l.substring_char(j1 + 1, n);
    proof {
        crate::text::lemma_first_index_of(l@, ':', j1 as int);
        assert(rest@ =~= l@.skip(j1 as int + 1));
    }
    trim_spaces(rest)
}

/// The host named by the first host line at or after index `i`, else
/// `localhost`.
pub open spec fn spec_host_of(lines: Seq<Seq<char>>, i: int) -> Seq<char>
    decreases lines.len() - i,
{
    if i < 0 || i >= lines.len() {
        "localhost"@
    } else if spec_is_host_line(spec_strip_cr(lines[i])) {
        spec_host_value(spec_strip_cr(lines[i]))
    } else {
        spec_host_of(lines, i + 1)
    }
}

/// What the responder reads from a request head: method, path, and host.
pub open spec fn spec_parse_request(s: Seq<char>) -> Option<(Seq<char>, Seq<char>, Seq<char>)> {
    let lines = split_char(s, '\n');
    let words = split_char(spec_strip_cr(lines[0]), ' ');
    if words.len() >= 2 && words[0].len() > 0 && words[1].len() > 0 {
        Some((words[0], words[1], spec_host_of(lines, 1)))
    } else {
        None
    }
}

/// Parses a request head into method, path and host. The request line is
/// the first line; the host comes from the first `Host:` header, or is
/// `localhost`.
pub fn parse_http_request(s: &str) -> (r: Option<(String, String, String)>)
    ensures
        match r {
            Some(p) => spec_parse_request(s@) == Some((p.0@, p.1@, p.2@)),
            None => spec_parse_request(s@) is None,
        },
{
    let lines = split_on_char(s, '\n');
    proof {
        assert(lines.len() > 0) by {
            assert(split_char(s@, '\n').len() > 0) by {
                crate::text::lemma_first_index_bounds(s@, '\n');
            }
        }
        assert(lines.deep_view()[0] == lines@[0]@);
    }
    let l0 = strip_cr(lines[0].as_str());
    let words = split_on_char(l0, ' ');
    proof {
        assert(words.len() > 0) by {
            assert(split_char(l0@, ' ').len() > 0) by {
                crate::text::lemma_first_index_bounds(l0@, ' ');
            }
        }
    }
    if words.len() < 2 {
        return None;
    }
    proof {
        assert(words.deep_view()[0] == words@[0]@);
        assert(words.deep_view()[1] == words@[1]@);
    }
    let method = &words[0];
    let path = &words[1];
    if method.as_str().unicode_len() == 0 || path.as_str().unicode_len() == 0 {
        return None;
    }
    let ghost lv = lines.deep_view();
    let mut i: usize = 1;
    let mut host: Option<String> = None;
    while i < lines.len() && host.is_none()
        invariant
            1 <= i <= lines.len(),
            lv == lines.deep_view(),
            match host {
                None => spec_host_of(lv, 1) == spec_host_of(lv, i as int),
                Some(h) => h@ == spec_host_of(lv, 1),
            },
        decreases lines.len() - i + (if host is None {
            1int
        } else {
            0int
        }),
    {
        proof {
            assert(lines.deep_view()[i as int] == lines@[i as int]@);
        }
        let li = strip_cr(lines[i].as_str());
        if is_host_line(li) {
            let h = host_value(li);
            proof {
                assert(spec_host_of(lv, i as int) == spec_host_value(spec_strip_cr(lv[i as int])));
            }
            host = Some(h);
        } else {
            proof {
                assert(spec_host_of(lv, i as int) == spec_host_of(lv, i as int + 1));
            }
            i = i + 1;
        }
    }
    let host_s: String = match host {
        Some(h) => h,
        None => {
            proof {
                assert(spec_host_of(lv, lines.len() as int) == "localhost"@);
            }
            String::from_str("localhost")
        },
    };
    Some((method.clone(), path.clone(), host_s))
}

/// The redirect location: the HTTPS origin plus the path, with the bare
/// root path dropped.
pub open spec fn spec_redirect_url(host: Seq<char>, path: Seq<char>) -> Seq<char> {
    if path == "/"@ {
        "https://"@ + host
    } else {
        "https://"@ + host + path
    }
}

/// The full response: a permanent redirect with no body.
pub open spec fn spec_redirect_response(host: Seq<char>, path: Seq<char>) -> Seq<char> {
    "HTTP/1.1 301 Moved Permanently\r\nLocation: "@ + spec_redirect_url(host, path)
        + "\r\nConnection: close\r\nContent-Length: 0\r\n\r\n"@
}

/// Renders the redirect location for a request.
pub fn build_redirect_url(host: &str, path: &str) -> (r: String)
    ensures
        r@ == spec_redirect_url(host@, path@),
{
    let mut s = String::from_str("https://");
    s.append(host);
    if !crate::text::str_eq(path, "/") {
        s.append(path);
    }
    proof {
        assert(s@ =~= spec_redirect_url(host@, path@));
    }
    s
}

/// Renders the full redirect response for a request.
pub fn build_redirect_response(host: &str, path: &str) -> (r: String)
    ensures
        r@ == spec_redirect_response(host@, path@),
{
    let mut s = String::from_str("HTTP/1.1 301 Moved Permanently\r\nLocation: ");
    let url = build_redirect_url(host, path);
    s.append(url.as_str());
    s.append("\r\nConnection: close\r\nContent-Length: 0\r\n\r\n");
    proof {
        assert(s@ =~= spec_redirect_response(host@, path@));
    }
    s
}

} // verus!
