//! The command line's shape and the text it shows for results.
use vstd::prelude::*;
use crate::text::{decimal, push_decimal};

verus! {

/// Local host discovery and TCP probing tool.
pub struct Cli {
    /// The subcommand; none runs local discovery and fingerprinting.
    pub command: Option<Commands>,
}

/// The subcommands.
pub enum Commands {
    /// Run a TCP scan for a target host over a range of ports.
    Probe {
        /// Target host IP or CIDR (e.g. 192.168.66.0/22).
        target: String,
        /// Starting port (default: 1).
        start: Option<u16>,
        /// Ending port (default: 1024).
        end: Option<u16>,
    },
    /// List the networks this device is part of.
    Networks,
}

/// Default first port of a probe.
pub const DEFAULT_START_PORT: u16 = 1;

/// Default last port of a probe.
pub const DEFAULT_END_PORT: u16 = 1024;

/// The port range of a probe: the given bounds, 1 and 1024 by default.
/// `None` when the start lies after the end.
pub fn resolve_port_range(start: Option<u16>, end: Option<u16>) -> (r: Option<(u16, u16)>)
    ensures
        ({
            let s = match start {
                Some(v) => v,
                None => 1u16,
            };
            let e = match end {
                Some(v) => v,
                None => 1024u16,
            };
            if s <= e {
                r == Some((s, e))
            } else {
                r is None
            }
        }),
{
    let s = match start {
        Some(v) => v,
        None => DEFAULT_START_PORT,
    };
    let e = match end {
        Some(v) => v,
        None => DEFAULT_END_PORT,
    };
    if s <= e {
        Some((s, e))
    } else {
        None
    }
}

/// The well-known service on a port, for display.
pub open spec fn service_name_spec(port: u16) -> Option<Seq<char>> {
    if port == 22 {
        Some("ssh"@)
    } else if port == 23 {
        Some("telnet"@)
    } else if port == 53 {
        Some("dns"@)
    } else if port == 80 {
        Some("http"@)
    } else if port == 139 {
        Some("netbios"@)
    } else if port == 443 {
        Some("https"@)
    } else if port == 445 {
        Some("smb"@)
    } else if port == 631 {
        Some("ipp"@)
    } else if port == 8000 || port == 8080 {
        Some("http-alt"@)
    } else if port == 8443 {
        Some("https-alt"@)
    } else {
        None
    }
}

/// The name of the well-known service on `port`, if it has one.
pub fn discovery_service_name(port: u16) -> (r: Option<&'static str>)
    ensures
        match r {
            Some(s) => service_name_spec(port) == Some(s@),
            None => service_name_spec(port) is None,
        },
{
    match port {
        22 => Some("ssh"),
        23 => Some("telnet"),
        53 => Some("dns"),
        80 => Some("http"),
        139 => Some("netbios"),
        443 => Some("https"),
        445 => Some("smb"),
        631 => Some("ipp"),
        8000 | 8080 => Some("http-alt"),
        8443 => Some("https-alt"),
        _ => None,
    }
}

/// One port for display: `22(ssh)`, or the bare number.
pub open spec fn port_entry(port: u16) -> Seq<char> {
    match service_name_spec(port) {
        Some(name) => decimal(port as nat) + "("@ + name + ")"@,
        None => decimal(port as nat),
    }
}

/// Ports for display, separated by `, `.
pub open spec fn ports_text(ports: Seq<u16>) -> Seq<char>
    decreases ports.len(),
{
    if ports.len() == 0 {
        seq![]
    } else if ports.len() == 1 {
        port_entry(ports[0])
    } else {
        ports_text(ports.drop_last()) + ", "@ + port_entry(ports.last())
    }
}

/// The open ports of a host for display, each with its service name.
pub fn format_open_ports(ports: &[u16]) -> (r: String)
    ensures
        r@ == ports_text(ports@),
{
    let mut s = String::new();
    let mut i: usize = 0;
    while i < ports.len()
        invariant
            0 <= i <= ports@.len(),
            s@ == ports_text(ports@.take(i as int)),
        decreases ports@.len() - i,
    {
        let port = ports[i];
        let ghost before = s@;
        if i > 0 {
            s.append(", ");
        }
        push_decimal(&mut s, port as u32);
        match discovery_service_name(port) {
            Some(name) => {
                s.append("(");
                s.append(name);
                s.append(")");
            },
            None => {},
        }
        proof {
            let t = ports@.take(i + 1);
            assert(t.drop_last() =~= ports@.take(i as int));
            if i > 0 {
                assert(s@ =~= before + ", "@ + port_entry(port));
            } else {
                assert(s@ =~= port_entry(port));
            }
        }
        i = i + 1;
    }
    assert(ports@.take(i as int) =~= ports@);
    s
}

/// A banner from an HTTP-like probe.
pub open spec fn is_http_banner(b: Seq<char>) -> bool {
    b.len() >= 5 && b.take(5) == "HTTP:"@
}

fn starts_with_http(b: &str) -> (r: bool)
    ensures
        r == is_http_banner(b@),
{
    proof {
        reveal_strlit("HTTP:");
    }
    if b.unicode_len() < 5 {
        return false;
    }
    let r = b.get_char(0) == 'H' && b.get_char(1) == 'T' && b.get_char(2) == 'T' && b.get_char(3)
        == 'P' && b.get_char(4) == ':';
    if r {
        assert(b@.take(5) =~= "HTTP:"@);
    } else {
        assert(b@.take(5)[0] == b@[0] && b@.take(5)[1] == b@[1] && b@.take(5)[2] == b@[2]
            && b@.take(5)[3] == b@[3] && b@.take(5)[4] == b@[4]);
    }
    r
}

/// The banners joined by line feeds.
pub open spec fn joined_lines(lines: Seq<Seq<char>>) -> Seq<char>
    decreases lines.len(),
{
    if lines.len() == 0 {
        seq![]
    } else if lines.len() == 1 {
        lines[0]
    } else {
        joined_lines(lines.drop_last()) + "\n"@ + lines.last()
    }
}

/// The views of some texts.
pub open spec fn texts_view(v: Seq<String>) -> Seq<Seq<char>> {
    v.map_values(|s: String| s@)
}

/// The banners of a host in display order: the HTTP ones first, then the
/// others, each group in its order.
pub open spec fn info_lines(services: Seq<String>) -> Seq<String> {
    services.filter(|s: String| is_http_banner(s@)) + services.filter(
        |s: String| !is_http_banner(s@),
    )
}

/// The info cell of a host: its banners in display order, one per line;
/// `-` when there are none.
pub open spec fn info_text(services: Seq<String>) -> Seq<char> {
    if services.len() == 0 {
        "-"@
    } else {
        joined_lines(texts_view(info_lines(services)))
    }
}

/// The texts joined by line feeds.
pub fn join_lines(lines: &Vec<String>) -> (r: String)
    ensures
        r@ == joined_lines(texts_view(lines@)),
{
    let mut s = String::new();
    let mut i: usize = 0;
    while i < lines.len()
        invariant
            0 <= i <= lines@.len(),
            s@ == joined_lines(texts_view(lines@.take(i as int))),
        decreases lines@.len() - i,
    {
        let ghost before = s@;
        if i > 0 {
            s.append("\n");
        }
        s.append(lines[i].as_str());
        proof {
            let t = texts_view(lines@.take(i + 1));
            assert(t.drop_last() =~= texts_view(lines@.take(i as int)));
            assert(t.last() == lines@[i as int]@);
            if i > 0 {
                assert(s@ =~= before + "\n"@ + t.last());
            } else {
                assert(s@ =~= t.last());
            }
        }
        i = i + 1;
    }
    assert(lines@.take(i as int) =~= lines@);
    s
}

/// The info cell of a host's fingerprint.
pub fn info_cell(services: &Vec<String>) -> (r: String)
    ensures
        r@ == info_text(services@),
{
    if services.len() == 0 {
        proof {
            reveal_strlit("-");
        }
        return String::from_str("-");
    }
    let ghost all = services@;
    let mut http: Vec<String> = Vec::new();
    let mut rest: Vec<String> = Vec::new();
    let mut i: usize = 0;
    while i < services.len()
        invariant
            0 <= i <= all.len(),
            all == services@,
            http@ == all.take(i as int).filter(|s: String| is_http_banner(s@)),
            rest@ == all.take(i as int).filter(|s: String| !is_http_banner(s@)),
        decreases all.len() - i,
    {
        proof {
            assert(all.take(i + 1).drop_last() =~= all.take(i as int));
            reveal_with_fuel(Seq::filter, 1);
        }
        let b = services[i].clone();
        if starts_with_http(b.as_str()) {
            http.push(b);
        } else {
            rest.push(b);
        }
        i = i + 1;
    }
    assert(all.take(i as int) =~= all);
    let ghost first = http@;
    let mut j: usize = 0;
    while j < rest.len()
        invariant
            0 <= j <= rest@.len(),
            http@ == first + rest@.take(j as int),
        decreases rest@.len() - j,
    {
        http.push(rest[j].clone());
        j = j + 1;
        assert(http@ =~= first + rest@.take(j as int));
    }
    assert(rest@.take(j as int) =~= rest@);
    join_lines(&http)
}

/// The TTL cell of a host: the hint, or `-` without one.
pub fn ttl_cell(ttl_guess: &Option<String>) -> (r: String)
    ensures
        ttl_guess matches Some(t) ==> r@ == t@,
        ttl_guess is None ==> r@ == "-"@,
{
    match ttl_guess {
        Some(t) => t.clone(),
        None => String::from_str("-"),
    }
}

} // verus!
