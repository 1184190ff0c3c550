//! Host fingerprinting: the TTL hint from one ping reply, and banners from
//! the services behind a host's open ports.
use vstd::prelude::*;
use crate::text::{decimal, dotted, push_decimal, push_dotted};

verus! {

/// ASCII whitespace: space, tab, line feed, vertical tab, form feed,
/// carriage return.
pub open spec fn is_space(b: u8) -> bool {
    b == 32 || (9 <= b && b <= 13)
}

/// An ASCII decimal digit.
pub open spec fn is_digit(b: u8) -> bool {
    48 <= b && b <= 57
}

/// The value of a sequence of decimal digits.
pub open spec fn digits_value(d: Seq<u8>) -> nat
    decreases d.len(),
{
    if d.len() == 0 {
        0
    } else {
        digits_value(d.drop_last()) * 10 + (d.last() - 48) as nat
    }
}

/// Digits of a decimal `u8` after an optional leading `+`.
pub open spec fn unsigned_part(t: Seq<u8>) -> Seq<u8> {
    if t.len() > 0 && t[0] == 43 {
        t.skip(1)
    } else {
        t
    }
}

/// One or more digits whose value is at most 255.
pub open spec fn parse_digits(d: Seq<u8>) -> Option<u8> {
    if d.len() > 0 && (forall|k: int| 0 <= k < d.len() ==> is_digit(#[trigger] d[k]))
        && digits_value(d) <= 255 {
        Some(digits_value(d) as u8)
    } else {
        None
    }
}

/// A decimal `u8`: an optional `+`, then one or more digits whose value
/// is at most 255.
pub open spec fn parse_u8_spec(t: Seq<u8>) -> Option<u8> {
    parse_digits(unsigned_part(t))
}

proof fn lemma_digits_value_grows(d: Seq<u8>, k: int)
    requires
        0 <= k <= d.len(),
        forall|i: int| 0 <= i < d.len() ==> is_digit(#[trigger] d[i]),
    ensures
        digits_value(d.take(k)) <= digits_value(d),
    decreases d.len(),
{
    if k < d.len() {
        assert(d.drop_last().take(k) =~= d.take(k));
        lemma_digits_value_grows(d.drop_last(), k);
    } else {
        assert(d.take(k) =~= d);
    }
}

/// Parses a decimal `u8`.
pub fn parse_u8(t: &[u8]) -> (r: Option<u8>)
    ensures
        r == parse_u8_spec(t@),
{
    let start: usize = if t.len() > 0 && t[0] == 43 {
        1
    } else {
        0
    };
    let ghost d = unsigned_part(t@);
    assert(parse_u8_spec(t@) == parse_digits(d));
    if start >= t.len() {
        return None;
    }
    assert(d =~= t@.skip(start as int));
    let mut value: u32 = 0;
    let mut i: usize = start;
    assert(d.take(0) =~= seq![]);
    while i < t.len()
        invariant
            start <= i <= t@.len(),
            d == t@.skip(start as int),
            d == unsigned_part(t@),
            value == digits_value(d.take(i - start)),
            value <= 255,
            forall|k: int| 0 <= k < i - start ==> is_digit(#[trigger] d[k]),
        decreases t@.len() - i,
    {
        let b = t[i];
        assert(d[i - start] == b);
        if b < 48 || b > 57 {
            assert(!is_digit(d[i - start]));
            assert(parse_digits(d) is None);
            return None;
        }
        let ghost k = (i - start) as int;
        assert(d.take(k + 1).drop_last() =~= d.take(k));
        value = value * 10 + (b - 48) as u32;
        i = i + 1;
        if value > 255 {
            proof {
                if forall|j: int| 0 <= j < d.len() ==> is_digit(#[trigger] d[j]) {
                    lemma_digits_value_grows(d, k + 1);
                }
                assert(parse_digits(d) is None);
            }
            return None;
        }
    }
    assert(d.take(i - start) =~= d);
    Some(value as u8)
}

/// The TTL carried by one token: `ttl=` followed by a decimal `u8`.
pub open spec fn ttl_of_token(t: Seq<u8>) -> Option<u8> {
    if t.len() >= 4 && t.take(4) == seq![116u8, 116u8, 108u8, 61u8] {
        parse_u8_spec(t.skip(4))
    } else {
        None
    }
}

/// Scans `s` from `i`, where the current token began at `start`, for the
/// first whitespace-separated token that carries a TTL.
pub open spec fn scan_ttl(s: Seq<u8>, i: int, start: int) -> Option<u8>
    decreases s.len() - i,
{
    if i >= s.len() {
        ttl_of_token(s.subrange(start, s.len() as int))
    } else if is_space(s[i]) {
        match ttl_of_token(s.subrange(start, i)) {
            Some(v) => Some(v),
            None => scan_ttl(s, i + 1, i + 1),
        }
    } else {
        scan_ttl(s, i + 1, start)
    }
}

/// The TTL of a ping reply: that of its first whitespace-separated token
/// `ttl=<n>` with `n` a decimal `u8`.
pub open spec fn reply_ttl(s: Seq<u8>) -> Option<u8> {
    scan_ttl(s, 0, 0)
}

fn token_ttl(t: &[u8]) -> (r: Option<u8>)
    ensures
        r == ttl_of_token(t@),
{
    if t.len() >= 4 && t[0] == 116 && t[1] == 116 && t[2] == 108 && t[3] == 61 {
        assert(t@.take(4) =~= seq![116u8, 116u8, 108u8, 61u8]);
        parse_u8(&t[4..t.len()])
    } else {
        proof {
            if t@.len() >= 4 {
                assert(t@.take(4)[0] == t@[0] && t@.take(4)[1] == t@[1] && t@.take(4)[2] == t@[2]
                    && t@.take(4)[3] == t@[3]);
            }
        }
        None
    }
}

/// The TTL that a ping reply reports, from the program's raw output.
pub fn parse_reply_ttl(out: &[u8]) -> (r: Option<u8>)
    ensures
        r == reply_ttl(out@),
{
    let mut i: usize = 0;
    let mut start: usize = 0;
    while i < out.len()
        invariant
            start <= i <= out@.len(),
            scan_ttl(out@, i as int, start as int) == reply_ttl(out@),
        decreases out@.len() - i,
    {
        if out[i] == 32 || (out[i] >= 9 && out[i] <= 13) {
            let found = token_ttl(&out[start..i]);
            if found.is_some() {
                return found;
            }
            i = i + 1;
            start = i;
        } else {
            i = i + 1;
        }
    }
    token_ttl(&out[start..out.len()])
}

/// The operating-system family that a default TTL suggests.
#[derive(Debug, Clone, Copy, PartialEq, Eq, Structural)]
pub enum OsFamily {
    /// Initial TTL 64.
    UnixLike,
    /// Initial TTL 128.
    WindowsLike,
    /// Initial TTL 255.
    Other,
}

/// The family whose default TTL bucket holds `ttl`.
pub open spec fn os_family(ttl: u8) -> OsFamily {
    if 1 <= ttl && ttl <= 64 {
        OsFamily::UnixLike
    } else if 65 <= ttl && ttl <= 128 {
        OsFamily::WindowsLike
    } else {
        OsFamily::Other
    }
}

/// The default initial TTL of a family.
pub open spec fn family_base(f: OsFamily) -> nat {
    match f {
        OsFamily::UnixLike => 64,
        OsFamily::WindowsLike => 128,
        OsFamily::Other => 255,
    }
}

/// Hops between the host and us: `max(0, base - ttl)`.
pub open spec fn hop_count(ttl: u8) -> nat {
    let base = family_base(os_family(ttl));
    if base >= ttl {
        (base - ttl) as nat
    } else {
        0
    }
}

/// The name of a family.
pub open spec fn os_label(f: OsFamily) -> Seq<char> {
    match f {
        OsFamily::UnixLike => "Linux/macOS/iOS-like"@,
        OsFamily::WindowsLike => "Windows-like"@,
        OsFamily::Other => "network gear/other"@,
    }
}

impl OsFamily {
    /// The name of the family.
    pub fn label(&self) -> (r: &'static str)
        ensures
            r@ == os_label(*self),
    {
        match self {
            OsFamily::UnixLike => "Linux/macOS/iOS-like",
            OsFamily::WindowsLike => "Windows-like",
            OsFamily::Other => "network gear/other",
        }
    }
}

/// What a TTL suggests of its host.
#[derive(Debug, Clone, Copy, PartialEq, Eq, Structural)]
pub struct TtlGuess {
    pub ttl: u8,
    pub base: u8,
    pub hops: u8,
    pub os: OsFamily,
}

/// The bucket, base and hop count of a TTL.
pub fn classify_ttl(ttl: u8) -> (r: TtlGuess)
    ensures
        r.ttl == ttl,
        r.os == os_family(ttl),
        r.base == family_base(os_family(ttl)),
        r.hops == hop_count(ttl),
{
    let (base, os): (u8, OsFamily) = if ttl >= 1 && ttl <= 64 {
        (64, OsFamily::UnixLike)
    } else if ttl >= 65 && ttl <= 128 {
        (128, OsFamily::WindowsLike)
    } else {
        (255, OsFamily::Other)
    };
    let hops: u8 = if base >= ttl {
        base - ttl
    } else {
        0
    };
    TtlGuess { ttl, base, hops, os }
}

/// The hint text: `<ttl> (<family>)`, or `<ttl> (<family>, <hops> hop(s)
/// away)` when the host is not adjacent.
pub open spec fn ttl_hint_spec(ttl: u8) -> Seq<char> {
    let hops = hop_count(ttl);
    decimal(ttl as nat) + " ("@ + os_label(os_family(ttl)) + if hops == 0 {
        ")"@
    } else {
        ", "@ + decimal(hops) + " hop(s) away)"@
    }
}

/// The hint text for a TTL.
pub fn ttl_hint_text(ttl: u8) -> (r: String)
    ensures
        r@ == ttl_hint_spec(ttl),
{
    let guess = classify_ttl(ttl);
    let mut s = String::new();
    push_decimal(&mut s, ttl as u32);
    s.append(" (");
    s.append(guess.os.label());
    if guess.hops == 0 {
        s.append(")");
    } else {
        s.append(", ");
        push_decimal(&mut s, guess.hops as u32);
        s.append(" hop(s) away)");
    }
    assert(s@ =~= ttl_hint_spec(ttl));
    s
}

/// A text option over views.
pub open spec fn text_view(r: Option<String>) -> Option<Seq<char>> {
    match r {
        Some(s) => Some(s@),
        None => None,
    }
}

/// The hint a ping run gives: none when the program failed, or when its
/// output reports no TTL.
pub open spec fn ping_hint(succeeded: bool, out: Seq<u8>) -> Option<Seq<char>> {
    if !succeeded {
        None
    } else {
        match reply_ttl(out) {
            Some(t) => Some(ttl_hint_spec(t)),
            None => None,
        }
    }
}

/// The TTL hint from one ping run: whether the program exited with
/// success, and its raw output.
pub fn ttl_hint(succeeded: bool, out: &[u8]) -> (r: Option<String>)
    ensures
        text_view(r) == ping_hint(succeeded, out@),
{
    if !succeeded {
        return None;
    }
    match parse_reply_ttl(out) {
        Some(t) => Some(ttl_hint_text(t)),
        None => None,
    }
}

/// One banner probe against an open port.
#[derive(Debug, Clone, Copy, PartialEq, Eq, Structural)]
pub enum ServiceProbe {
    /// Send a minimal `HEAD /` request and read the reply.
    Http(u16),
    /// Read the greeting that the server sends unasked.
    Ssh(u16),
}

/// Ports that speak HTTP or HTTPS by convention.
pub open spec fn is_http_port(p: u16) -> bool {
    p == 80 || p == 443 || p == 8000 || p == 8080 || p == 8443
}

/// The SSH port.
pub open spec fn is_ssh_port(p: u16) -> bool {
    p == 22
}

/// The probes for a host's open ports, in the order they are issued: the
/// HTTP probes in open-port order, then the SSH probe. Other ports are not
/// probed.
pub open spec fn probe_plan_spec(open_ports: Seq<u16>) -> Seq<ServiceProbe> {
    open_ports.filter(|p: u16| is_http_port(p)).map_values(|p: u16| ServiceProbe::Http(p))
        + open_ports.filter(|p: u16| is_ssh_port(p)).map_values(|p: u16| ServiceProbe::Ssh(p))
}

/// The probes to run against a host, in issue order.
pub fn probe_plan(open_ports: &[u16]) -> (r: Vec<ServiceProbe>)
    ensures
        r@ == probe_plan_spec(open_ports@),
{
    let ghost ports = open_ports@;
    let mut plan: Vec<ServiceProbe> = Vec::new();
    let mut j: usize = 0;
    while j < open_ports.len()
        invariant
            0 <= j <= ports.len(),
            ports == open_ports@,
            plan@ == ports.take(j as int).filter(|p: u16| is_http_port(p)).map_values(
                |p: u16| ServiceProbe::Http(p),
            ),
        decreases ports.len() - j,
    {
        let p = open_ports[j];
        proof {
            assert(ports.take(j + 1).drop_last() =~= ports.take(j as int));
            reveal_with_fuel(Seq::filter, 1);
        }
        if p == 80 || p == 443 || p == 8000 || p == 8080 || p == 8443 {
            plan.push(ServiceProbe::Http(p));
            assert(plan@ =~= ports.take(j + 1).filter(|p: u16| is_http_port(p)).map_values(
                |p: u16| ServiceProbe::Http(p),
            ));
        } else {
            assert(plan@ =~= ports.take(j + 1).filter(|p: u16| is_http_port(p)).map_values(
                |p: u16| ServiceProbe::Http(p),
            ));
        }
        j = j + 1;
    }
    assert(ports.take(j as int) =~= ports);
    let ghost http = plan@;
    let mut k: usize = 0;
    while k < open_ports.len()
        invariant
            0 <= k <= ports.len(),
            ports == open_ports@,
            plan@ == http + ports.take(k as int).filter(|p: u16| is_ssh_port(p)).map_values(
                |p: u16| ServiceProbe::Ssh(p),
            ),
        decreases ports.len() - k,
    {
        let p = open_ports[k];
        proof {
            assert(ports.take(k + 1).drop_last() =~= ports.take(k as int));
            reveal_with_fuel(Seq::filter, 1);
        }
        if p == 22 {
            plan.push(ServiceProbe::Ssh(p));
            assert(plan@ =~= http + ports.take(k + 1).filter(|p: u16| is_ssh_port(p)).map_values(
                |p: u16| ServiceProbe::Ssh(p),
            ));
        } else {
            assert(plan@ =~= http + ports.take(k + 1).filter(|p: u16| is_ssh_port(p)).map_values(
                |p: u16| ServiceProbe::Ssh(p),
            ));
        }
        k = k + 1;
    }
    assert(ports.take(k as int) =~= ports);
    plan
}

/// The request sent to an HTTP-like port of `ip`.
pub open spec fn http_request_spec(ip: u32) -> Seq<char> {
    "HEAD / HTTP/1.0\r\nHost: "@ + dotted(ip) + "\r\nUser-Agent: scout\r\nConnection: close\r\n\r\n"@
}

/// The minimal `HEAD /` request for the host `ip`.
pub fn http_request(ip: u32) -> (r: String)
    ensures
        r@ == http_request_spec(ip),
{
    let mut s = String::new();
    s.append("HEAD / HTTP/1.0\r\nHost: ");
    push_dotted(&mut s, ip);
    s.append("\r\nUser-Agent: scout\r\nConnection: close\r\n\r\n");
    assert(s@ =~= http_request_spec(ip));
    s
}

/// The index of the first line feed at or after `i`, or the length.
pub open spec fn line_end(s: Seq<u8>, i: int) -> int
    decreases s.len() - i,
{
    if i >= s.len() || s[i] == 10 {
        i
    } else {
        line_end(s, i + 1)
    }
}

/// A line ended by a line feed loses a carriage return before it.
pub open spec fn strip_cr(l: Seq<u8>) -> Seq<u8> {
    if l.len() > 0 && l.last() == 13 {
        l.drop_last()
    } else {
        l
    }
}

/// The first line of `s`, without its line ending.
pub open spec fn status_line(s: Seq<u8>) -> Seq<u8> {
    let e = line_end(s, 0);
    if e < s.len() {
        strip_cr(s.subrange(0, e))
    } else {
        s.subrange(0, e)
    }
}

/// ASCII lower case of one byte.
pub open spec fn ascii_lower(b: u8) -> u8 {
    if 65 <= b && b <= 90 {
        (b + 32) as u8
    } else {
        b
    }
}

/// `server:` in bytes.
pub open spec fn server_prefix() -> Seq<u8> {
    seq![115u8, 101u8, 114u8, 118u8, 101u8, 114u8, 58u8]
}

/// A line that starts with `server:` in any case.
pub open spec fn is_server_line(l: Seq<u8>) -> bool {
    l.len() >= 7 && forall|k: int| 0 <= k < 7 ==> ascii_lower(#[trigger] l[k]) == server_prefix()[k]
}

/// Scans `s` from `i`, where the current line began at `start`, for the
/// first `Server:` header line.
pub open spec fn scan_server(s: Seq<u8>, i: int, start: int) -> Option<Seq<u8>>
    decreases s.len() - i,
{
    if i >= s.len() {
        if is_server_line(s.subrange(start, s.len() as int)) {
            Some(s.subrange(start, s.len() as int))
        } else {
            None
        }
    } else if s[i] == 10 {
        if is_server_line(strip_cr(s.subrange(start, i))) {
            Some(strip_cr(s.subrange(start, i)))
        } else {
            scan_server(s, i + 1, i + 1)
        }
    } else {
        scan_server(s, i + 1, start)
    }
}

/// The first line of `s` that is a `Server:` header, without its ending.
pub open spec fn server_line(s: Seq<u8>) -> Option<Seq<u8>> {
    scan_server(s, 0, 0)
}

fn check_server_line(l: &[u8]) -> (r: bool)
    ensures
        r == is_server_line(l@),
{
    if l.len() < 7 {
        return false;
    }
    let prefix: [u8; 7] = [115, 101, 114, 118, 101, 114, 58];
    assert(prefix@ =~= server_prefix());
    let mut k: usize = 0;
    while k < 7
        invariant
            0 <= k <= 7,
            l@.len() >= 7,
            prefix@ == server_prefix(),
            forall|t: int| 0 <= t < k ==> ascii_lower(#[trigger] l@[t]) == server_prefix()[t],
        decreases 7 - k,
    {
        let b = l[k];
        let lower: u8 = if b >= 65 && b <= 90 {
            b + 32
        } else {
            b
        };
        if lower != prefix[k] {
            return false;
        }
        k = k + 1;
    }
    true
}

fn without_cr(l: &[u8]) -> (r: &[u8])
    ensures
        r@ == strip_cr(l@),
{
    if l.len() > 0 && l[l.len() - 1] == 13 {
        &l[0..l.len() - 1]
    } else {
        l
    }
}

/// The first line of an HTTP reply, without its line ending.
pub fn first_line(s: &[u8]) -> (r: &[u8])
    ensures
        r@ == status_line(s@),
{
    let mut i: usize = 0;
    while i < s.len() && s[i] != 10
        invariant
            0 <= i <= s@.len(),
            line_end(s@, 0) == line_end(s@, i as int),
        decreases s@.len() - i,
    {
        i = i + 1;
    }
    if i < s.len() {
        without_cr(&s[0..i])
    } else {
        &s[0..i]
    }
}

/// The first `Server:` header line of an HTTP reply, if any.
pub fn find_server_line(s: &[u8]) -> (r: Option<&[u8]>)
    ensures
        match r {
            Some(l) => server_line(s@) == Some(l@),
            None => server_line(s@) is None,
        },
{
    let mut i: usize = 0;
    let mut start: usize = 0;
    while i < s.len()
        invariant
            start <= i <= s@.len(),
            scan_server(s@, i as int, start as int) == server_line(s@),
        decreases s@.len() - i,
    {
        if s[i] == 10 {
            let l = without_cr(&s[start..i]);
            if check_server_line(l) {
                return Some(l);
            }
            i = i + 1;
            start = i;
        } else {
            i = i + 1;
        }
    }
    let last = &s[start..s.len()];
    if check_server_line(last) {
        Some(last)
    } else {
        None
    }
}

/// What `String::from_utf8_lossy` makes of some bytes.
pub uninterp spec fn utf8_lossy(b: Seq<u8>) -> Seq<char>;

/// Relies on `String::from_utf8_lossy`: the bytes decoded as UTF-8, each
/// invalid sequence replaced by U+FFFD; the result depends on the bytes
/// alone, and ASCII bytes, being valid UTF-8, decode to the same
/// characters.
#[verifier::external_body]
fn lossy_text(b: &[u8]) -> (r: String)
    ensures
        r@ == utf8_lossy(b@),
        (forall|i: int| 0 <= i < b@.len() ==> b@[i] < 128) ==> r@ == b@.map_values(
            |x: u8| x as char,
        ),
{
    String::from_utf8_lossy(b).into_owned()
}

/// A character of the Unicode `White_Space` property.
pub open spec fn is_white_space(c: char) -> bool {
    let u = c as u32;
    (0x9 <= u && u <= 0xd) || u == 0x20 || u == 0x85 || u == 0xa0 || u == 0x1680 || (0x2000 <= u
        && u <= 0x200a) || u == 0x2028 || u == 0x2029 || u == 0x202f || u == 0x205f || u == 0x3000
}

/// The text without its leading white space.
pub open spec fn trim_start_spec(s: Seq<char>) -> Seq<char>
    decreases s.len(),
{
    if s.len() > 0 && is_white_space(s[0]) {
        trim_start_spec(s.drop_first())
    } else {
        s
    }
}

/// The text without its trailing white space.
pub open spec fn trim_end_spec(s: Seq<char>) -> Seq<char>
    decreases s.len(),
{
    if s.len() > 0 && is_white_space(s.last()) {
        trim_end_spec(s.drop_last())
    } else {
        s
    }
}

/// The text without leading and trailing white space.
pub open spec fn trimmed(s: Seq<char>) -> Seq<char> {
    trim_end_spec(trim_start_spec(s))
}

/// Relies on `str::trim`: the text without leading and trailing characters
/// of the Unicode `White_Space` property.
#[verifier::external_body]
fn trim_text(s: &str) -> (r: String)
    ensures
        r@ == trimmed(s@),
{
    s.trim().to_string()
}

/// The banner of an HTTP-like port from the bytes of its reply: the
/// status line, and the `Server:` header when there is one. An empty reply
/// gives none.
pub open spec fn http_banner_spec(port: u16, reply: Seq<u8>) -> Option<Seq<char>> {
    if reply.len() == 0 {
        None
    } else {
        let head = "HTTP:"@ + decimal(port as nat) + " "@ + utf8_lossy(status_line(reply));
        match server_line(reply) {
            Some(l) => Some(head + " | "@ + utf8_lossy(l)),
            None => Some(head),
        }
    }
}

/// The banner of an HTTP-like port from the bytes its reply began with.
pub fn http_banner_from_reply(port: u16, reply: &[u8]) -> (r: Option<String>)
    ensures
        text_view(r) == http_banner_spec(port, reply@),
{
    if reply.len() == 0 {
        return None;
    }
    let mut s = String::new();
    s.append("HTTP:");
    push_decimal(&mut s, port as u32);
    s.append(" ");
    let status = lossy_text(first_line(reply));
    s.append(status.as_str());
    match find_server_line(reply) {
        Some(l) => {
            let server = lossy_text(l);
            s.append(" | ");
            s.append(server.as_str());
        },
        None => {},
    }
    proof {
        let head = "HTTP:"@ + decimal(port as nat) + " "@ + utf8_lossy(status_line(reply@));
        match server_line(reply@) {
            Some(l) => {
                assert(s@ =~= head + " | "@ + utf8_lossy(l));
            },
            None => {
                assert(s@ =~= head);
            },
        }
    }
    Some(s)
}

/// The banner of the SSH port from the greeting it sent: the greeting
/// without surrounding whitespace. An empty or blank greeting gives none.
pub open spec fn ssh_banner_spec(port: u16, greeting: Seq<u8>) -> Option<Seq<char>> {
    let b = trimmed(utf8_lossy(greeting));
    if greeting.len() == 0 || b.len() == 0 {
        None
    } else {
        Some("SSH:"@ + decimal(port as nat) + " "@ + b)
    }
}

/// The banner of the SSH port from the bytes its greeting began with.
pub fn ssh_banner_from_greeting(port: u16, greeting: &[u8]) -> (r: Option<String>)
    ensures
        text_view(r) == ssh_banner_spec(port, greeting@),
{
    if greeting.len() == 0 {
        return None;
    }
    let text = lossy_text(greeting);
    let banner = trim_text(text.as_str());
    if banner.as_str().unicode_len() == 0 {
        return None;
    }
    let mut s = String::new();
    s.append("SSH:");
    push_decimal(&mut s, port as u32);
    s.append(" ");
    s.append(banner.as_str());
    assert(s@ =~= "SSH:"@ + decimal(port as nat) + " "@ + trimmed(utf8_lossy(greeting@)));
    Some(s)
}

/// The banners that probes captured, in probe order; a probe that failed
/// contributes nothing.
pub open spec fn captured(banners: Seq<Option<String>>) -> Seq<String>
    decreases banners.len(),
{
    if banners.len() == 0 {
        seq![]
    } else {
        captured(banners.drop_last()) + match banners.last() {
            Some(b) => seq![b],
            None => seq![],
        }
    }
}

/// What fingerprinting learned of one live host.
pub struct HostFingerprint {
    /// Raw TTL with the family and hop distance it suggests.
    pub ttl_guess: Option<String>,
    /// One banner per probe that captured something, in probe order.
    pub services: Vec<String>,
}

impl HostFingerprint {
    /// The fingerprint from the TTL hint and each probe's outcome, in the
    /// order the probes were issued.
    pub fn new(ttl_guess: Option<String>, probe_banners: &Vec<Option<String>>) -> (r:
        HostFingerprint)
        ensures
            r.ttl_guess == ttl_guess,
            r.services@ == captured(probe_banners@),
    {
        let mut services: Vec<String> = Vec::new();
        let mut i: usize = 0;
        while i < probe_banners.len()
            invariant
                0 <= i <= probe_banners@.len(),
                services@ == captured(probe_banners@.take(i as int)),
            decreases probe_banners@.len() - i,
        {
            assert(probe_banners@.take(i + 1).drop_last() =~= probe_banners@.take(i as int));
            match &probe_banners[i] {
                Some(b) => {
                    services.push(b.clone());
                    assert(services@ =~= captured(probe_banners@.take(i + 1)));
                },
                None => {
                    assert(services@ =~= captured(probe_banners@.take(i + 1)));
                },
            }
            i = i + 1;
        }
        assert(probe_banners@.take(i as int) =~= probe_banners@);
        HostFingerprint { ttl_guess, services }
    }
}

} // verus!
