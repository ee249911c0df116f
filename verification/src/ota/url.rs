//! Addresses of firmware images, such as
//! `https://example.com/firmware/1.0.0/firmware-signed.bin`.
//!
//! Only HTTPS is supported.

use crate::text::{find_char, rfind_char, starts_with};
use vstd::prelude::*;
use vstd::string::*;

verus! {

/// The parts of an address.
#[derive(Debug, Clone, Copy, PartialEq, Eq)]
pub struct ParsedUrl<'a> {
    /// Host name, such as `example.com`.
    pub host: &'a str,
    /// Port, 443 unless the address names one.
    pub port: u16,
    /// Path with its leading slash.
    pub path: &'a str,
}

/// What `https` addresses begin with.
pub open spec fn scheme() -> Seq<char> {
    "https://"@
}

/// The character is a decimal digit.
pub open spec fn is_digit(c: char) -> bool {
    '0' <= c <= '9'
}

/// The number that decimal digits stand for.
pub open spec fn decimal_value(digits: Seq<char>) -> int
    decreases digits.len(),
{
    if digits.len() == 0 {
        0
    } else {
        decimal_value(digits.drop_last()) * 10 + (digits.last() as int - '0' as int)
    }
}

/// The port that a text names: one to five digits, 65535 at most.
pub open spec fn port_number(text: Seq<char>) -> Option<int> {
    if 1 <= text.len() <= 5 && (forall|i: int| 0 <= i < text.len() ==> is_digit(#[trigger] text[i]))
        && decimal_value(text) <= 65535 {
        Some(decimal_value(text))
    } else {
        None
    }
}

/// The parts of an address, as text.
pub struct UrlParts {
    pub host: Seq<char>,
    pub port: int,
    pub path: Seq<char>,
}

/// Host and port of an address: what follows the last colon names the port.
pub open spec fn host_and_port(text: Seq<char>) -> Result<(Seq<char>, int), Seq<char>> {
    match text.index_of_last(':') {
        Some(i) => match port_number(text.skip(i + 1)) {
            Some(port) => Ok((text.take(i), port)),
            None => Err("Invalid port number"@),
        },
        None => Ok((text, 443)),
    }
}

/// The parts of an address, or what is wrong with it. The path begins at the
/// first slash after the scheme.
pub open spec fn url_parts(url: Seq<char>) -> Result<UrlParts, Seq<char>> {
    let rest = url.skip(scheme().len() as int);
    let cut = match rest.index_of_first('/') {
        Some(i) => i,
        None => rest.len() as int,
    };
    if !scheme().is_prefix_of(url) {
        Err("URL must start with https://"@)
    } else if rest.len() == 0 {
        Err("URL has no host"@)
    } else {
        match host_and_port(rest.take(cut)) {
            Err(fault) => Err(fault),
            Ok((host, port)) => if host.len() == 0 {
                Err("URL has empty host"@)
            } else {
                Ok(
                    UrlParts {
                        host,
                        port,
                        path: if cut == rest.len() {
                            "/"@
                        } else {
                            rest.skip(cut)
                        },
                    },
                )
            },
        }
    }
}

/// Splits an HTTPS address into its parts.
pub fn parse_https_url(url: &str) -> (r: Result<ParsedUrl<'_>, &'static str>)
    ensures
        match url_parts(url@) {
            Ok(parts) => r matches Ok(u) && u.host@ == parts.host && u.port == parts.port
                && u.path@ == parts.path,
            Err(fault) => r matches Err(e) && e@ == fault,
        },
{
    if !starts_with(url, "https://") {
        return Err("URL must start with https://");
    }
    proof {
        reveal_strlit("https://");
    }
    let rest: &str = url.substring_char(8, url.unicode_len());
    proof {
        assert(rest@ =~= url@.skip(scheme().len() as int));
    }
    if rest.is_empty() {
        return Err("URL has no host");
    }
    let len: usize = rest.unicode_len();
    let (host_port, path): (&str, &str) = match find_char(rest, '/') {
        Some(i) => (rest.substring_char(0, i), rest.substring_char(i, len)),
        None => (rest, "/"),
    };
    proof {
        rest@.index_of_first_ensures('/');
        let cut = match rest@.index_of_first('/') {
            Some(i) => i,
            None => rest@.len() as int,
        };
        assert(host_port@ =~= rest@.take(cut));
        if cut < rest@.len() {
            assert(path@ =~= rest@.skip(cut));
        }
    }
    let host_len: usize = host_port.unicode_len();
    let (host, port): (&str, u16) = match rfind_char(host_port, ':') {
        Some(i) => {
            let port_str: &str = host_port.substring_char(i + 1, host_len);
            proof {
                assert(port_str@ =~= host_port@.skip(i + 1));
            }
            match parse_port(port_str) {
                Some(port) => (host_port.substring_char(0, i), port),
                None => {
                    return Err("Invalid port number");
                },
            }
        },
        None => (host_port, 443),
    };
    proof {
        if let Some(i) = host_port@.index_of_last(':') {
            assert(host@ =~= host_port@.take(i));
        }
    }
    if host.is_empty() {
        return Err("URL has empty host");
    }
    Ok(ParsedUrl { host, port, path })
}

/// Reads a port number.
pub fn parse_port(s: &str) -> (r: Option<u16>)
    ensures
        match port_number(s@) {
            Some(port) => r matches Some(p) && p == port,
            None => r is None,
        },
{
    let len: usize = s.unicode_len();
    if len == 0 || len > 5 {
        return None;
    }
    let mut result: u32 = 0;
    let mut i: usize = 0;
    let mut limit: u32 = 1;
    while i < len
        invariant
            len == s@.len(),
            1 <= len <= 5,
            i <= len,
            result == decimal_value(s@.take(i as int)),
            forall|j: int| 0 <= j < i ==> is_digit(#[trigger] s@[j]),
            result < limit,
            limit == (if i == 0 {
                1
            } else if i == 1 {
                10
            } else if i == 2 {
                100
            } else if i == 3 {
                1000
            } else if i == 4 {
                10000
            } else {
                100000int
            }),
        decreases len - i,
    {
        let c: char = s.get_char(i);
        let code: u32 = c as u32;
        if code < 48 || code > 57 {
            return None;
        }
        proof {
            assert(s@.take(i + 1).drop_last() =~= s@.take(i as int));
        }
        result = result * 10 + (code - 48);
        limit = limit * 10;
        i += 1;
    }
    proof {
        assert(s@.take(len as int) =~= s@);
    }
    if result > 65535 {
        return None;
    }
    Some(result as u16)
}

/// An address that is put together from a host, a port and a path has these
/// parts; without a path it has the path `/`.
pub proof fn law_parts_of_full_url(host: Seq<char>, port: Seq<char>, path: Seq<char>)
    requires
        host.len() > 0,
        !host.contains('/'),
        port_number(port) is Some,
        path.len() > 0 ==> path[0] == '/',
    ensures
        url_parts(scheme() + (host + seq![':'] + port) + path) == Ok::<UrlParts, Seq<char>>(
            UrlParts {
                host,
                port: decimal_value(port),
                path: if path.len() == 0 {
                    "/"@
                } else {
                    path
                },
            },
        ),
{
    let authority = host + seq![':'] + port;
    assert(!authority.contains('/')) by {
        assert forall|i: int| 0 <= i < authority.len() implies authority[i] != '/' by {
            if i < host.len() {
                assert(host.contains(host[i]));
            } else if i > host.len() {
                assert(is_digit(port[i - host.len() - 1]));
            }
        }
    }
    lemma_host_and_port(host, port);
    lemma_cut(authority, path);
}

/// What follows the last colon is the port.
proof fn lemma_host_and_port(host: Seq<char>, port: Seq<char>)
    requires
        port_number(port) is Some,
    ensures
        host_and_port(host + seq![':'] + port) == Ok::<(Seq<char>, int), Seq<char>>(
            (host, decimal_value(port)),
        ),
{
    let authority = host + seq![':'] + port;
    assert forall|i: int| host.len() < i < authority.len() implies authority[i] != ':' by {
        assert(is_digit(port[i - host.len() - 1]));
    }
    lemma_last_at(authority, ':', host.len() as int);
    assert(authority.skip(host.len() as int + 1) =~= port);
    assert(authority.take(host.len() as int) =~= host);
}

/// The path begins at the first slash.
proof fn lemma_cut(authority: Seq<char>, path: Seq<char>)
    requires
        authority.len() > 0,
        !authority.contains('/'),
        path.len() > 0 ==> path[0] == '/',
    ensures
        ({
            let url = scheme() + authority + path;
            let rest = url.skip(scheme().len() as int);
            &&& scheme().is_prefix_of(url)
            &&& rest.len() > 0
            &&& rest.index_of_first('/') == (if path.len() == 0 {
                None
            } else {
                Some(authority.len() as int)
            })
            &&& rest.len() == authority.len() + path.len()
            &&& rest.take(authority.len() as int) == authority
            &&& rest.skip(authority.len() as int) == path
        }),
{
    let url = scheme() + authority + path;
    let rest = url.skip(scheme().len() as int);
    assert(rest =~= authority + path);
    assert(url.subrange(0, scheme().len() as int) =~= scheme());
    assert forall|i: int| 0 <= i < authority.len() implies rest[i] != '/' by {
        assert(authority.contains(authority[i]));
    }
    if path.len() > 0 {
        lemma_first_at(rest, '/', authority.len() as int);
    } else {
        rest.index_of_first_ensures('/');
    }
    assert(rest.take(authority.len() as int) =~= authority);
    assert(rest.skip(authority.len() as int) =~= path);
}

/// An address without a port has port 443, and one without a path has the
/// path `/`.
pub proof fn law_parts_of_short_url(host: Seq<char>, path: Seq<char>)
    requires
        host.len() > 0,
        !host.contains('/'),
        !host.contains(':'),
        path.len() > 0 ==> path[0] == '/',
    ensures
        url_parts(scheme() + host + path) == Ok::<UrlParts, Seq<char>>(
            UrlParts {
                host,
                port: 443,
                path: if path.len() == 0 {
                    "/"@
                } else {
                    path
                },
            },
        ),
{
    lemma_cut(host, path);
    host.index_of_last_ensures(':');
}

/// Where the first occurrence is.
proof fn lemma_first_at(s: Seq<char>, c: char, at: int)
    requires
        0 <= at < s.len(),
        s[at] == c,
        forall|i: int| 0 <= i < at ==> #[trigger] s[i] != c,
    ensures
        s.index_of_first(c) == Some(at),
{
    assert(s.contains(c));
    s.index_of_first_ensures(c);
}

/// Where the last occurrence is.
proof fn lemma_last_at(s: Seq<char>, c: char, at: int)
    requires
        0 <= at < s.len(),
        s[at] == c,
        forall|i: int| at < i < s.len() ==> #[trigger] s[i] != c,
    ensures
        s.index_of_last(c) == Some(at),
{
    assert(s.contains(c));
    s.index_of_last_ensures(c);
}

/// An address is taken apart so that its parts make it up again: the scheme, the
/// host, a colon and the port where one is named, and the path where there is
/// one. Where no port is named it is 443, and where no path is named it is `/`.
pub proof fn law_parts_make_up_address(url: &str, r: Result<ParsedUrl<'_>, &'static str>)
    requires
        call_ensures(parse_https_url, (url,), r),
    ensures
        r matches Ok(u) ==> {
            &&& u.host@.len() > 0
            &&& u.path@.len() > 0 && u.path@[0] == '/'
            &&& !u.host@.contains('/')
            &&& exists|port: Seq<char>, path: Seq<char>|
                #![trigger port.len(), path.len()]
                {
                    &&& url@ == "https://"@ + u.host@ + port + path
                    &&& path == u.path@ || path.len() == 0 && u.path@ == "/"@
                    &&& port.len() == 0 && u.port == 443 || port.len() > 0 && port[0] == ':'
                        && port_number(port.skip(1)) == Some(u.port as int)
                }
        },
        r is Ok ==> "https://"@.is_prefix_of(url@),
        !"https://"@.is_prefix_of(url@) ==> r is Err,
        url@ == "https://"@ ==> r is Err,
{
    reveal_strlit("https://");
    reveal_strlit("/");
    if let Ok(u) = r {
        let rest = url@.skip(8);
        rest.index_of_first_ensures('/');
        let cut = match rest.index_of_first('/') {
            Some(i) => i,
            None => rest.len() as int,
        };
        let authority = rest.take(cut);
        authority.index_of_last_ensures(':');
        let path = rest.skip(cut);
        let port: Seq<char> = match authority.index_of_last(':') {
            Some(i) => authority.skip(i),
            None => Seq::empty(),
        };
        assert(url@.subrange(0, 8) =~= "https://"@);
        assert(u.host@ + port =~= authority);
        assert(url@ =~= "https://"@ + u.host@ + port + path);
        assert(!u.host@.contains('/')) by {
            if u.host@.contains('/') {
                let i = choose|i: int| 0 <= i < u.host@.len() && u.host@[i] == '/';
                assert(authority[i] == '/');
                assert(rest[i] == '/');
            }
        }
        if port.len() > 0 {
            assert(port.skip(1) =~= authority.skip(authority.index_of_last(':').unwrap() + 1));
        }
        assert(port.len() >= 0 && path.len() >= 0);
    }
}

/// A port is one to five decimal digits, and stands for their value, if that is
/// at most 65535: appending a digit to a shorter port gives ten times its value
/// and the digit.
pub proof fn law_port(s: &str, r: Option<u16>, t: &str, longer: Option<u16>)
    requires
        call_ensures(parse_port, (s,), r),
        call_ensures(parse_port, (t,), longer),
    ensures
        s@.len() == 0 || s@.len() > 5 ==> r is None,
        r is Some ==> forall|i: int| 0 <= i < s@.len() ==> '0' <= #[trigger] s@[i] <= '9',
        s@.len() == 1 && '0' <= s@[0] <= '9' ==> r == Some((s@[0] as u32 - 48) as u16),
        t@.len() == s@.len() + 1 && t@.drop_last() == s@ && r is Some && longer is Some ==> longer
            == Some((r.unwrap() * 10 + (t@.last() as u32 - 48)) as u16),
        t@.len() == s@.len() + 1 && t@.len() <= 5 && t@.drop_last() == s@ && '0' <= t@.last() <= '9'
            && r is Some ==> (longer is Some <==> r.unwrap() * 10 + (t@.last() as u32 - 48)
            <= 65535),
{
    if s@.len() == 1 {
        assert(s@.drop_last() =~= Seq::empty());
        reveal_with_fuel(decimal_value, 2);
    }
    if t@.len() == s@.len() + 1 && t@.drop_last() == s@ {
        assert forall|i: int| 0 <= i < s@.len() implies t@[i] == s@[i] by {
            assert(t@.drop_last()[i] == t@[i]);
        }
        if r is Some && '0' <= t@.last() <= '9' {
            assert forall|i: int| 0 <= i < t@.len() implies is_digit(#[trigger] t@[i]) by {
                if i < s@.len() {
                    assert(is_digit(s@[i]));
                }
            }
        }
        if longer is Some {
            assert(is_digit(t@[t@.len() - 1]));
        }
    }
}

} // verus!
