//! Open ports grouped per host, as the caller collects them from the
//! result stream.
use vstd::prelude::*;
use crate::engine::ScanResult;

verus! {

/// A host and its open ports.
pub type HostPorts = (u32, Vec<u16>);

/// Strictly ascending, hence free of duplicates.
pub open spec fn ascending(s: Seq<u16>) -> bool {
    forall|i: int, j: int| 0 <= i < j < s.len() ==> s[i] < s[j]
}

/// Hosts strictly ascending, each with a non-empty, strictly ascending
/// list of ports.
pub open spec fn groups_wf(g: Seq<HostPorts>) -> bool {
    &&& forall|i: int, j: int| 0 <= i < j < g.len() ==> g[i].0 < g[j].0
    &&& forall|i: int| 0 <= i < g.len() ==> ascending(#[trigger] g[i].1@) && g[i].1@.len() > 0
}

/// The groups list port `p` under host `h`.
pub open spec fn has_pair(g: Seq<HostPorts>, h: u32, p: u16) -> bool {
    exists|i: int| 0 <= i < g.len() && g[i].0 == h && #[trigger] g[i].1@.contains(p)
}

/// Some result reports port `p` of host `h` open.
pub open spec fn reported_open(results: Seq<ScanResult>, h: u32, p: u16) -> bool {
    exists|j: int| 0 <= j < results.len() && #[trigger] results[j] == (h, p, true)
}

/// Adds `p` to an ascending list of ports, unless it is there.
pub fn insert_port(ports: &mut Vec<u16>, p: u16)
    requires
        ascending(old(ports)@),
    ensures
        ascending(final(ports)@),
        final(ports)@.contains(p),
        forall|q: u16| #[trigger] final(ports)@.contains(q) <==> (old(ports)@.contains(q) || q == p),
{
    let ghost s = ports@;
    let mut i: usize = 0;
    while i < ports.len() && ports[i] < p
        invariant
            0 <= i <= s.len(),
            ports@ == s,
            forall|k: int| 0 <= k < i ==> s[k] < p,
        decreases s.len() - i,
    {
        i = i + 1;
    }
    if i < ports.len() && ports[i] == p {
        return;
    }
    ports.insert(i, p);
    let ghost t = ports@;
    assert(t =~= s.insert(i as int, p));
    assert(t[i as int] == p);
    assert forall|a: int, b: int| 0 <= a < b < t.len() implies t[a] < t[b] by {
        if b < i {
        } else if b == i {
        } else if a < i {
            assert(s[a] < p && p <= s[i as int]);
            assert(s[i as int] <= s[b - 1] || i == b - 1);
        } else if a == i {
            assert(p <= s[i as int]);
            assert(s[i as int] <= s[b - 1] || i == b - 1);
        } else {
        }
    }
    assert forall|q: u16| #[trigger] t.contains(q) <==> (s.contains(q) || q == p) by {
        if t.contains(q) {
            let k = choose|k: int| 0 <= k < t.len() && t[k] == q;
            if k < i {
                assert(s[k] == q);
            } else if k > i {
                assert(s[k - 1] == q);
            }
        }
        if s.contains(q) {
            let k = choose|k: int| 0 <= k < s.len() && s[k] == q;
            if k < i {
                assert(t[k] == q);
            } else {
                assert(t[k + 1] == q);
            }
        }
    }
}

/// Records that port `p` of host `h` is open.
pub fn insert_open(groups: &mut Vec<HostPorts>, h: u32, p: u16)
    requires
        groups_wf(old(groups)@),
    ensures
        groups_wf(final(groups)@),
        forall|a: u32, q: u16| #[trigger]
            has_pair(final(groups)@, a, q) <==> (has_pair(old(groups)@, a, q) || (a == h
                && q == p)),
{
    let ghost g = groups@;
    let mut i: usize = 0;
    while i < groups.len() && groups[i].0 < h
        invariant
            0 <= i <= g.len(),
            groups@ == g,
            forall|k: int| 0 <= k < i ==> g[k].0 < h,
        decreases g.len() - i,
    {
        i = i + 1;
    }
    if i < groups.len() && groups[i].0 == h {
        let (host, mut ports) = groups.remove(i);
        assert(ascending(g[i as int].1@));
        insert_port(&mut ports, p);
        groups.insert(i, (host, ports));
        let ghost n = groups@;
        assert(n =~= g.update(i as int, (host, ports)));
        assert forall|a: u32, q: u16| #[trigger]
            has_pair(n, a, q) <==> (has_pair(g, a, q) || (a == h && q == p)) by {
            if has_pair(n, a, q) {
                let k = choose|k: int| 0 <= k < n.len() && n[k].0 == a && #[trigger] n[k].1@.contains(q);
                if k != i {
                    assert(g[k].1@.contains(q));
                } else if q != p {
                    assert(g[k].1@.contains(q));
                }
            }
            if has_pair(g, a, q) {
                let k = choose|k: int| 0 <= k < g.len() && g[k].0 == a && #[trigger] g[k].1@.contains(q);
                assert(n[k].1@.contains(q));
            }
            if a == h && q == p {
                assert(n[i as int].1@.contains(q));
            }
        }
    } else {
        let mut ports: Vec<u16> = Vec::new();
        ports.push(p);
        groups.insert(i, (h, ports));
        let ghost n = groups@;
        assert(n =~= g.insert(i as int, (h, ports)));
        assert(ports@ =~= seq![p]);
        assert(ports@[0] == p);
        assert forall|a: int, b: int| 0 <= a < b < n.len() implies n[a].0 < n[b].0 by {
            if b < i {
            } else if b == i {
            } else if a < i {
                assert(g[a].0 < h);
                assert(i == b - 1 || g[i as int].0 < g[b - 1].0);
            } else if a == i {
                assert(i == b - 1 || g[i as int].0 < g[b - 1].0);
            } else {
            }
        }
        assert forall|k: int| 0 <= k < n.len() implies ascending(#[trigger] n[k].1@) && n[k].1@.len()
            > 0 by {
            if k < i {
                assert(n[k] == g[k]);
            } else if k > i {
                assert(n[k] == g[k - 1]);
            }
        }
        assert forall|a: u32, q: u16| #[trigger]
            has_pair(n, a, q) <==> (has_pair(g, a, q) || (a == h && q == p)) by {
            if has_pair(n, a, q) {
                let k = choose|k: int| 0 <= k < n.len() && n[k].0 == a && #[trigger] n[k].1@.contains(q);
                if k < i {
                    assert(g[k].1@.contains(q));
                } else if k > i {
                    assert(g[k - 1].1@.contains(q));
                } else {
                    let t = choose|t: int| 0 <= t < n[k].1@.len() && n[k].1@[t] == q;
                    assert(t == 0);
                }
            }
            if has_pair(g, a, q) {
                let k = choose|k: int| 0 <= k < g.len() && g[k].0 == a && #[trigger] g[k].1@.contains(q);
                if k < i {
                    assert(n[k].1@.contains(q));
                } else {
                    assert(n[k + 1].1@.contains(q));
                }
            }
            if a == h && q == p {
                assert(n[i as int].1@[0] == p);
                assert(n[i as int].1@.contains(q));
            }
        }
    }
}

/// The open ports of a scan grouped per host: hosts ascending, each with
/// its open ports ascending and without duplicates. A host appears exactly
/// when some result reports one of its ports open.
pub fn group_open_ports(results: &[ScanResult]) -> (r: Vec<HostPorts>)
    ensures
        groups_wf(r@),
        forall|h: u32, p: u16| #[trigger]
            has_pair(r@, h, p) <==> reported_open(results@, h, p),
{
    let mut groups: Vec<HostPorts> = Vec::new();
    let mut i: usize = 0;
    while i < results.len()
        invariant
            0 <= i <= results@.len(),
            groups_wf(groups@),
            forall|h: u32, p: u16| #[trigger]
                has_pair(groups@, h, p) <==> reported_open(results@.take(i as int), h, p),
        decreases results@.len() - i,
    {
        let (h, p, open) = results[i];
        let ghost before = groups@;
        if open {
            insert_open(&mut groups, h, p);
        }
        let ghost upto = results@.take(i + 1);
        assert forall|a: u32, q: u16| #[trigger]
            has_pair(groups@, a, q) <==> reported_open(upto, a, q) by {
            if reported_open(upto, a, q) {
                let j = choose|j: int| 0 <= j < upto.len() && #[trigger] upto[j] == (a, q, true);
                if j < i {
                    assert(results@.take(i as int)[j] == (a, q, true));
                }
            }
            if reported_open(results@.take(i as int), a, q) {
                let j = choose|j: int| 0 <= j < i && #[trigger] results@.take(i as int)[j] == (a, q, true);
                assert(upto[j] == (a, q, true));
            }
            if open && a == h && q == p {
                assert(upto[i as int] == (a, q, true));
            }
        }
        i = i + 1;
    }
    assert(results@.take(i as int) =~= results@);
    groups
}

} // verus!
