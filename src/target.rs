//! Target expansion: from a target and ports to the ordered work sequence.
use vstd::prelude::*;
use vstd::arithmetic::power2::{pow2, lemma2_to64, lemma_pow2_adds, lemma_pow2_pos, lemma_pow2_unfold, lemma_pow2_strictly_increases};
use vstd::arithmetic::div_mod::{lemma_fundamental_div_mod, lemma_mod_pos_bound};

verus! {

/// One unit of scan work: an IPv4 host (as its 32-bit number) and a TCP port.
pub type ScanItem = (u32, u16);

/// The two failures that stop a scan before any network work.
#[derive(Debug, Clone, Copy, PartialEq, Eq, Structural)]
pub enum ScanError {
    /// The target is neither an IPv4 address nor an IPv4 CIDR block.
    UnsupportedTarget,
    /// The work sequence is empty.
    EmptyTargetSet,
}

impl ScanError {
    /// The message reported to the user.
    pub fn message(&self) -> (r: String)
        ensures
            *self == ScanError::UnsupportedTarget ==> r@
                == "Target not supported; supply IP address or CIDR"@,
            *self == ScanError::EmptyTargetSet ==> r@ == "No items to scan"@,
    {
        match self {
            ScanError::UnsupportedTarget => String::from_str(
                "Target not supported; supply IP address or CIDR",
            ),
            ScanError::EmptyTargetSet => String::from_str("No items to scan"),
        }
    }
}

/// The 32-bit number of the address `a.b.c.d`.
pub open spec fn ipv4_spec(a: u8, b: u8, c: u8, d: u8) -> int {
    a as int * 0x1000000 + b as int * 0x10000 + c as int * 0x100 + d as int
}

/// The 32-bit number of the address `a.b.c.d`.
pub fn ipv4(a: u8, b: u8, c: u8, d: u8) -> (r: u32)
    ensures
        r == ipv4_spec(a, b, c, d),
{
    (a as u32) * 0x1000000 + (b as u32) * 0x10000 + (c as u32) * 0x100 + (d as u32)
}

/// Every host of `hosts` with every port of `ports`: host-major, ports in
/// the order given.
pub open spec fn cartesian(hosts: Seq<u32>, ports: Seq<u16>) -> Seq<ScanItem>
    decreases hosts.len(),
{
    if hosts.len() == 0 {
        seq![]
    } else {
        cartesian(hosts.drop_last(), ports) + ports.map_values(|p: u16| (hosts.last(), p))
    }
}

/// The expansion of hosts and ports holds `|hosts| * |ports|` items, and the
/// item at `i * |ports| + j` is host `i` with port `j`: the full cartesian
/// product, host-major, ports in their given order.
pub proof fn cartesian_product_law(hosts: Seq<u32>, ports: Seq<u16>)
    ensures
        cartesian(hosts, ports).len() == hosts.len() * ports.len(),
        forall|i: int, j: int|
            0 <= i < hosts.len() && 0 <= j < ports.len() ==> #[trigger] cartesian(hosts, ports)[i
                * ports.len() + j] == (hosts[i], ports[j]),
    decreases hosts.len(),
{
    let n = hosts.len() as int;
    let m = ports.len() as int;
    if n > 0 {
        let front = hosts.drop_last();
        cartesian_product_law(front, ports);
        assert(n * m == (n - 1) * m + m) by (nonlinear_arith);
        assert forall|i: int, j: int| 0 <= i < n && 0 <= j < m implies #[trigger] cartesian(
            hosts,
            ports,
        )[i * m + j] == (hosts[i], ports[j]) by {
            if i < n - 1 {
                assert(i * m + m <= (n - 1) * m) by (nonlinear_arith)
                    requires
                        i + 1 <= n - 1,
                        0 <= m,
                ;
                assert(0 <= i * m) by (nonlinear_arith)
                    requires
                        0 <= i,
                        0 <= m,
                ;
                assert(front[i] == hosts[i]);
            } else {
                assert(i * m + j == (n - 1) * m + j);
            }
        }
    }
}

/// Expanding equal inputs gives equal sequences: the expansion depends on
/// the hosts and ports alone.
pub proof fn expansion_is_deterministic(
    hosts1: Seq<u32>,
    ports1: Seq<u16>,
    hosts2: Seq<u32>,
    ports2: Seq<u16>,
)
    requires
        hosts1 == hosts2,
        ports1 == ports2,
    ensures
        cartesian(hosts1, ports1) == cartesian(hosts2, ports2),
{
}

/// The work sequence for `hosts` crossed with `ports`, host-major.
pub fn build_scan_items(hosts: &[u32], ports: &[u16]) -> (r: Vec<ScanItem>)
    ensures
        r@ == cartesian(hosts@, ports@),
{
    let mut items: Vec<ScanItem> = Vec::new();
    let mut i: usize = 0;
    while i < hosts.len()
        invariant
            0 <= i <= hosts@.len(),
            items@ == cartesian(hosts@.take(i as int), ports@),
        decreases hosts@.len() - i,
    {
        let host = hosts[i];
        let ghost before = items@;
        let mut j: usize = 0;
        while j < ports.len()
            invariant
                0 <= j <= ports@.len(),
                host == hosts@[i as int],
                items@ == before + ports@.take(j as int).map_values(|p: u16| (host, p)),
            decreases ports@.len() - j,
        {
            items.push((host, ports[j]));
            j = j + 1;
            assert(ports@.take(j as int).map_values(|p: u16| (host, p)) =~= ports@.take(
                (j - 1) as int,
            ).map_values(|p: u16| (host, p)).push((host, ports@[j - 1])));
        }
        assert(ports@.take(j as int) =~= ports@);
        assert(hosts@.take(i + 1).drop_last() =~= hosts@.take(i as int));
        i = i + 1;
    }
    assert(hosts@.take(i as int) =~= hosts@);
    items
}

/// The expansion of a host list with a port list: the full product,
/// host-major, or an empty target set when the product is empty.
pub open spec fn list_expansion(hosts: Seq<u32>, ports: Seq<u16>) -> Result<
    Seq<ScanItem>,
    ScanError,
> {
    if cartesian(hosts, ports).len() == 0 {
        Err(ScanError::EmptyTargetSet)
    } else {
        Ok(cartesian(hosts, ports))
    }
}

/// The work for a pre-enumerated host list crossed with a port list;
/// fails with an empty target set when there is nothing to scan.
pub fn build_host_scan_items(hosts: &[u32], ports: &[u16]) -> (r: Result<
    Vec<ScanItem>,
    ScanError,
>)
    ensures
        items_view(r) == list_expansion(hosts@, ports@),
{
    let items = build_scan_items(hosts, ports);
    if items.len() == 0 {
        Err(ScanError::EmptyTargetSet)
    } else {
        Ok(items)
    }
}

/// Ports `start..=end` in ascending order; empty when `start > end`.
pub open spec fn port_range(start: u16, end: u16) -> Seq<u16> {
    if start <= end {
        Seq::new((end - start + 1) as nat, |k: int| (start + k) as u16)
    } else {
        seq![]
    }
}

/// Ports `start..=end` in ascending order.
pub fn ports_between(start: u16, end: u16) -> (r: Vec<u16>)
    ensures
        r@ == port_range(start, end),
{
    let mut ports: Vec<u16> = Vec::new();
    if start <= end {
        let mut p: u32 = start as u32;
        while p <= end as u32
            invariant
                start <= p <= end as u32 + 1,
                start <= end,
                ports@ =~= Seq::new((p - start) as nat, |k: int| (start + k) as u16),
            decreases end as u32 + 1 - p,
        {
            ports.push(p as u16);
            p = p + 1;
        }
    }
    proof {
        if start <= end {
            assert(ports@ =~= port_range(start, end));
        }
    }
    ports
}

/// Addresses in a network of prefix length `len`.
pub open spec fn block_size(len: nat) -> nat {
    pow2((32 - len) as nat)
}

/// The network address of `addr` under prefix length `len`.
pub open spec fn network_of(addr: u32, len: nat) -> int {
    (addr as int / block_size(len) as int) * block_size(len)
}

/// The first usable host: the network address itself for /31 and /32,
/// the one after it otherwise.
pub open spec fn first_host(addr: u32, len: nat) -> int {
    if len < 31 {
        network_of(addr, len) + 1
    } else {
        network_of(addr, len)
    }
}

/// The last usable host: the broadcast address for /31 and /32, the one
/// before it otherwise.
pub open spec fn last_host(addr: u32, len: nat) -> int {
    if len < 31 {
        network_of(addr, len) + block_size(len) - 2
    } else {
        network_of(addr, len) + block_size(len) - 1
    }
}

/// The usable hosts of the network that holds `addr`, in address order.
pub open spec fn usable_hosts(addr: u32, len: nat) -> Seq<u32> {
    Seq::new(
        (last_host(addr, len) - first_host(addr, len) + 1) as nat,
        |k: int| (first_host(addr, len) + k) as u32,
    )
}

/// The usable hosts, in address order, of the network that holds `addr`
/// with prefix length `prefix_len`. A network shorter than /31 loses its
/// network and broadcast addresses; /31 keeps both and /32 is the address.
pub fn hosts_of_network(addr: u32, prefix_len: u8) -> (r: Vec<u32>)
    requires
        prefix_len <= 32,
    ensures
        r@ == usable_hosts(addr, prefix_len as nat),
        r@.len() >= 1,
{
    let bits: u8 = 32 - prefix_len;
    let mut size: u64 = 1;
    let mut k: u8 = 0;
    proof {
        lemma2_to64();
    }
    while k < bits
        invariant
            k <= bits,
            bits == 32 - prefix_len,
            size == pow2(k as nat),
            pow2(32) == 0x1_0000_0000,
        decreases bits - k,
    {
        proof {
            lemma_pow2_unfold((k + 1) as nat);
            lemma_pow2_strictly_increases(k as nat, 32);
        }
        size = size * 2;
        k = k + 1;
    }
    let ghost len = prefix_len as nat;
    let ghost m = pow2(len);
    proof {
        lemma_pow2_adds(bits as nat, len);
        lemma_pow2_pos(bits as nat);
        lemma_pow2_pos(len);
        let q = addr as int / size as int;
        lemma_fundamental_div_mod(addr as int, size as int);
        lemma_mod_pos_bound(addr as int, size as int);
        assert(size * q <= addr);
        assert(addr < size * m);
        assert(q < m) by (nonlinear_arith)
            requires
                size * q <= addr,
                addr < size * m,
                size > 0,
        ;
        assert(q * size + size <= m * size) by (nonlinear_arith)
            requires
                q < m,
                size > 0,
        ;
        assert(0 <= q * size) by (nonlinear_arith)
            requires
                0 <= q,
                size > 0,
        ;
        if prefix_len < 31 {
            lemma_pow2_strictly_increases(1, bits as nat);
        }
    }
    let network: u64 = (addr as u64 / size) * size;
    let first: u64;
    let last: u64;
    if prefix_len < 31 {
        first = network + 1;
        last = network + size - 2;
    } else {
        first = network;
        last = network + size - 1;
    }
    assert(first == first_host(addr, len) && last == last_host(addr, len));
    let mut hosts: Vec<u32> = Vec::new();
    let mut h: u64 = first;
    while h <= last
        invariant
            first <= h <= last + 1,
            first <= last,
            last < 0x1_0000_0000,
            hosts@ =~= Seq::new((h - first) as nat, |j: int| (first + j) as u32),
        decreases last + 1 - h,
    {
        hosts.push(h as u32);
        h = h + 1;
    }
    hosts
}

/// What `Ipv4Cidr` parses from a text: the network address and prefix
/// length, or `None` where the text is not an IPv4 address or CIDR block.
pub uninterp spec fn cidr_parse(s: Seq<char>) -> Option<(u32, u8)>;

/// Relies on `FromStr` of `cidr::Ipv4Cidr`: a bare dotted-quad address
/// parses as the host network of length 32; `a.b.c.d/n` parses when `n` is
/// at most 32 and the address has no host bits set. The pair is the first
/// address and the network length.
#[verifier::external_body]
fn parse_ipv4_cidr(s: &str) -> (r: Option<(u32, u8)>)
    ensures
        r == cidr_parse(s@),
        r matches Some(p) ==> p.1 <= 32,
{
    s.parse::<cidr::Ipv4Cidr>().ok().map(|c| (u32::from(c.first_address()), c.network_length()))
}

/// The outcome of an expansion, over views.
pub open spec fn items_view(r: Result<Vec<ScanItem>, ScanError>) -> Result<Seq<ScanItem>, ScanError> {
    match r {
        Ok(v) => Ok(v@),
        Err(e) => Err(e),
    }
}

/// The expansion of a parsed target (`None`: it did not parse) with the
/// ports `start..=end`.
pub open spec fn expansion(parsed: Option<(u32, u8)>, start: u16, end: u16) -> Result<
    Seq<ScanItem>,
    ScanError,
> {
    match parsed {
        None => Err(ScanError::UnsupportedTarget),
        Some(p) => {
            let items = cartesian(usable_hosts(p.0, p.1 as nat), port_range(start, end));
            if items.len() == 0 {
                Err(ScanError::EmptyTargetSet)
            } else {
                Ok(items)
            }
        },
    }
}

/// Expands a parsed target: every usable host of the network with every
/// port of `start..=end`, host-major. A target that did not parse is
/// unsupported; an empty product is an empty target set.
pub fn expand_target(parsed: Option<(u32, u8)>, start: u16, end: u16) -> (r: Result<
    Vec<ScanItem>,
    ScanError,
>)
    requires
        parsed matches Some(p) ==> p.1 <= 32,
    ensures
        items_view(r) == expansion(parsed, start, end),
{
    match parsed {
        None => Err(ScanError::UnsupportedTarget),
        Some((addr, prefix_len)) => {
            let hosts = hosts_of_network(addr, prefix_len);
            let ports = ports_between(start, end);
            let items = build_scan_items(hosts.as_slice(), ports.as_slice());
            if items.len() == 0 {
                Err(ScanError::EmptyTargetSet)
            } else {
                Ok(items)
            }
        },
    }
}

/// The work for an IP or CIDR target over the ports `start..=end`; domain
/// names and other texts are unsupported targets.
pub fn build_target_scan_items(target: &str, start: u16, end: u16) -> (r: Result<
    Vec<ScanItem>,
    ScanError,
>)
    ensures
        items_view(r) == expansion(cidr_parse(target@), start, end),
        cidr_parse(target@) matches Some(p) ==> p.1 <= 32,
{
    let parsed = parse_ipv4_cidr(target);
    expand_target(parsed, start, end)
}

/// Expanding the same target text over the same ports always gives the
/// same outcome, the same items in the same order.
pub proof fn target_expansion_is_deterministic(
    target1: Seq<char>,
    start1: u16,
    end1: u16,
    target2: Seq<char>,
    start2: u16,
    end2: u16,
)
    requires
        target1 == target2,
        start1 == start2,
        end1 == end2,
    ensures
        expansion(cidr_parse(target1), start1, end1) == expansion(
            cidr_parse(target2),
            start2,
            end2,
        ),
{
}

/// A local interface address with the prefix length of its subnet.
#[derive(Debug, Clone, Copy, PartialEq, Eq, Structural)]
pub struct LocalNet {
    pub addr: u32,
    pub prefix_len: u8,
}

/// The hosts to probe in the local subnets: the usable hosts of each,
/// without the interface's own address, subnet by subnet.
pub open spec fn discovery_hosts(nets: Seq<LocalNet>) -> Seq<u32>
    decreases nets.len(),
{
    if nets.len() == 0 {
        seq![]
    } else {
        let net = nets.last();
        discovery_hosts(nets.drop_last()) + usable_hosts(net.addr, net.prefix_len as nat).filter(
            |h: u32| h != net.addr,
        )
    }
}

/// The hosts to probe in the local subnets, each subnet's usable hosts in
/// address order without the local address itself.
pub fn local_discovery_hosts(nets: &[LocalNet]) -> (r: Vec<u32>)
    requires
        forall|i: int| 0 <= i < nets@.len() ==> #[trigger] nets@[i].prefix_len <= 32,
    ensures
        r@ == discovery_hosts(nets@),
{
    let mut out: Vec<u32> = Vec::new();
    let mut i: usize = 0;
    while i < nets.len()
        invariant
            0 <= i <= nets@.len(),
            forall|t: int| 0 <= t < nets@.len() ==> #[trigger] nets@[t].prefix_len <= 32,
            out@ == discovery_hosts(nets@.take(i as int)),
        decreases nets@.len() - i,
    {
        let net = nets[i];
        let hosts = hosts_of_network(net.addr, net.prefix_len);
        let ghost before = out@;
        let mut j: usize = 0;
        while j < hosts.len()
            invariant
                0 <= j <= hosts@.len(),
                hosts@ == usable_hosts(net.addr, net.prefix_len as nat),
                out@ == before + hosts@.take(j as int).filter(|h: u32| h != net.addr),
            decreases hosts@.len() - j,
        {
            let h = hosts[j];
            proof {
                assert(hosts@.take(j + 1).drop_last() =~= hosts@.take(j as int));
                reveal_with_fuel(Seq::filter, 1);
            }
            if h != net.addr {
                out.push(h);
            }
            j = j + 1;
        }
        assert(hosts@.take(j as int) =~= hosts@);
        assert(nets@.take(i + 1).drop_last() =~= nets@.take(i as int));
        i = i + 1;
    }
    assert(nets@.take(i as int) =~= nets@);
    out
}

/// The ports that local discovery probes: services that consumer devices
/// commonly expose.
pub open spec fn discovery_ports_spec() -> Seq<u16> {
    seq![22u16, 23, 53, 80, 139, 443, 445, 631, 8000, 8080, 8443]
}

/// The ports that local discovery probes.
pub fn discovery_ports() -> (r: Vec<u16>)
    ensures
        r@ == discovery_ports_spec(),
{
    let mut ports: Vec<u16> = Vec::new();
    ports.push(22);
    ports.push(23);
    ports.push(53);
    ports.push(80);
    ports.push(139);
    ports.push(443);
    ports.push(445);
    ports.push(631);
    ports.push(8000);
    ports.push(8080);
    ports.push(8443);
    assert(ports@ =~= discovery_ports_spec());
    ports
}

} // verus!
