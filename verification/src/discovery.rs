//! The discovery collaborator's interface: devices seen on the local
//! network, the selection among their addresses, and the staleness rules.
//!
//! The multicast-DNS daemon itself, the socket probes and the timers live
//! in the surrounding application; what stands here is every decision the
//! discovery subsystem takes — which address to prefer, how address hints
//! merge, which order a reachability probe tries, and when an entry
//! expires.

use crate::text::str_eq;
use vstd::prelude::*;

verus! {

/// Seconds without an announcement before a device entry is stale.
pub const DEVICE_TIMEOUT_SECS: i64 = 300;

/// A peer seen on the local network.
#[derive(Clone, Debug)]
#[verifier::ext_equal]
pub struct Device {
    pub id: String,
    pub name: String,
    /// The preferred address.
    pub ip: String,
    /// Every address discovered for this device, for multi-interface
    /// scenarios.
    pub all_ips: Vec<String>,
    pub port: u16,
    /// Seconds since the epoch at the last announcement.
    pub last_seen: i64,
}

/// One local interface, for diagnostics and announcement.
#[derive(Clone, Debug)]
pub struct NetworkInterface {
    pub name: String,
    pub ip: String,
    pub is_loopback: bool,
}

/// A snapshot of the local network for troubleshooting.
#[derive(Clone, Debug)]
pub struct NetworkDiagnostics {
    pub interfaces: Vec<NetworkInterface>,
    pub local_ips: Vec<String>,
    pub mdns_port: u16,
    pub app_port: u16,
    pub subnet_info: String,
}

/// What address selection needs to know of an address: the version, the
/// leading octets of a version-4 address, the leading segment of a
/// version-6 one.
#[derive(Clone, Copy, Debug, PartialEq, Eq, Structural)]
pub enum IpKind {
    V4 { a: u8, b: u8 },
    V6 { first_segment: u16 },
}

/// Selection priority, best first: private version-4 ranges, then any
/// version 4, then link-local version 6, then any version 6.
pub open spec fn spec_ip_priority(ip: IpKind) -> int {
    match ip {
        IpKind::V4 { a, b } => {
            if a == 10 || (a == 172 && 16 <= b <= 31) || (a == 192 && b == 168) {
                0
            } else {
                1
            }
        },
        IpKind::V6 { first_segment } => {
            if first_segment & 0xffc0 == 0xfe80 {
                2
            } else {
                3
            }
        },
    }
}

/// The selection priority of one address.
pub fn ip_priority(ip: &IpKind) -> (r: u8)
    ensures
        r == spec_ip_priority(*ip),
{
    match ip {
        IpKind::V4 { a, b } => {
            if *a == 10 || (*a == 172 && 16 <= *b && *b <= 31) || (*a == 192 && *b == 168) {
                0
            } else {
                1
            }
        },
        IpKind::V6 { first_segment } => {
            if *first_segment & 0xffc0 == 0xfe80 {
                2
            } else {
                3
            }
        },
    }
}

/// Picks the best address of a discovered device: the first one of the
/// best priority class present.
pub fn select_best_ip(addrs: &Vec<IpKind>) -> (r: Option<usize>)
    ensures
        r is None <==> addrs@.len() == 0,
        r matches Some(i) ==> {
            &&& i < addrs@.len()
            &&& forall|j: int|
                0 <= j < addrs@.len() ==> spec_ip_priority(#[trigger] addrs@[j])
                    >= spec_ip_priority(addrs@[i as int])
            &&& forall|j: int|
                0 <= j < i ==> spec_ip_priority(#[trigger] addrs@[j]) > spec_ip_priority(
                    addrs@[i as int],
                )
        },
{
    if addrs.len() == 0 {
        return None;
    }
    let mut best: usize = 0;
    let mut best_priority = ip_priority(&addrs[0]);
    let n = addrs.len();
    let mut i: usize = 1;
    while i < n
        invariant
            n == addrs@.len(),
            0 < n,
            1 <= i <= n,
            best < i,
            best_priority == spec_ip_priority(addrs@[best as int]),
            forall|j: int|
                0 <= j < i ==> spec_ip_priority(#[trigger] addrs@[j]) >= best_priority,
            forall|j: int| 0 <= j < best ==> spec_ip_priority(#[trigger] addrs@[j]) > best_priority,
        decreases n - i,
    {
        let p = ip_priority(&addrs[i]);
        if p < best_priority {
            best = i;
            best_priority = p;
        }
        i += 1;
    }
    Some(best)
}

/// The addresses of the interfaces that are not loopback, in interface
/// order — what the node announces about itself.
pub open spec fn local_ips_of(s: Seq<NetworkInterface>) -> Seq<Seq<char>>
    decreases s.len(),
{
    if s.len() == 0 {
        Seq::empty()
    } else {
        local_ips_of(s.drop_last()) + (if s.last().is_loopback {
            Seq::<Seq<char>>::empty()
        } else {
            seq![s.last().ip@]
        })
    }
}

/// The non-loopback addresses of the given interfaces, in order.
pub fn get_local_ips(interfaces: &Vec<NetworkInterface>) -> (r: Vec<String>)
    ensures
        r@.len() == local_ips_of(interfaces@).len(),
        forall|k: int| 0 <= k < r@.len() ==> r@[k]@ == local_ips_of(interfaces@)[k],
{
    let mut r: Vec<String> = Vec::new();
    let n = interfaces.len();
    let mut i: usize = 0;
    while i < n
        invariant
            n == interfaces@.len(),
            0 <= i <= n,
            r@.len() == local_ips_of(interfaces@.take(i as int)).len(),
            forall|k: int|
                0 <= k < r@.len() ==> r@[k]@ == local_ips_of(interfaces@.take(i as int))[k],
        decreases n - i,
    {
        proof {
            assert(interfaces@.take(i + 1).drop_last() =~= interfaces@.take(i as int));
        }
        if !interfaces[i].is_loopback {
            r.push(interfaces[i].ip.clone());
        }
        i += 1;
    }
    proof {
        assert(interfaces@.take(n as int) =~= interfaces@);
    }
    r
}

/// Whether some string of `s` reads `k`.
pub open spec fn has_str(s: Seq<String>, k: Seq<char>) -> bool {
    exists|i: int| 0 <= i < s.len() && #[trigger] s[i]@ == k
}

/// The address list after folding in the hints, one by one: a hint
/// already present is dropped, a new one is appended.
pub open spec fn spec_merge(acc: Seq<String>, extra: Seq<String>) -> Seq<String>
    decreases extra.len(),
{
    if extra.len() == 0 {
        acc
    } else {
        spec_merge(
            if has_str(acc, extra[0]@) {
                acc
            } else {
                acc.push(extra[0])
            },
            extra.drop_first(),
        )
    }
}

/// Merges address hints into a device's address list: every hint that is
/// not already present is appended, in hint order, without duplicates.
pub fn merge_ips(primary: Vec<String>, extra: &Vec<String>) -> (r: Vec<String>)
    ensures
        r@ == spec_merge(primary@, extra@),
{
    let mut r = primary;
    let ghost base = r@;
    proof {
        assert(extra@.skip(0) =~= extra@);
    }
    let n = extra.len();
    let mut i: usize = 0;
    while i < n
        invariant
            n == extra@.len(),
            0 <= i <= n,
            spec_merge(r@, extra@.skip(i as int)) == spec_merge(base, extra@),
        decreases n - i,
    {
        proof {
            assert(extra@.skip(i as int)[0] == extra@[i as int]);
            assert(extra@.skip(i as int).drop_first() =~= extra@.skip(i + 1));
        }
        if !contains_str(&r, &extra[i]) {
            r.push(extra[i].clone());
        }
        i += 1;
    }
    proof {
        assert(extra@.skip(n as int) =~= Seq::<String>::empty());
    }
    r
}

/// Whether the list holds the given string.
fn contains_str(list: &Vec<String>, s: &String) -> (r: bool)
    ensures
        r == has_str(list@, s@),
{
    let n = list.len();
    let mut i: usize = 0;
    while i < n
        invariant
            n == list@.len(),
            0 <= i <= n,
            forall|j: int| 0 <= j < i ==> #[trigger] list@[j]@ != s@,
        decreases n - i,
    {
        if str_eq(list[i].as_str(), s.as_str()) {
            return true;
        }
        i += 1;
    }
    false
}

/// The known addresses other than the preferred one, in their list
/// order.
pub open spec fn others_of(all: Seq<String>, preferred: Seq<char>) -> Seq<String>
    decreases all.len(),
{
    if all.len() == 0 {
        Seq::empty()
    } else {
        others_of(all.drop_last(), preferred) + (if all.last()@ == preferred {
            Seq::<String>::empty()
        } else {
            seq![all.last()]
        })
    }
}

/// The order a reachability probe tries a device's addresses: the
/// preferred address first, then every other known address in list order.
pub fn probe_order(device: &Device) -> (r: Vec<String>)
    ensures
        r@ == seq![device.ip] + others_of(device.all_ips@, device.ip@),
{
    let mut r: Vec<String> = Vec::new();
    r.push(device.ip.clone());
    let n = device.all_ips.len();
    let mut i: usize = 0;
    while i < n
        invariant
            n == device.all_ips@.len(),
            0 <= i <= n,
            r@ == seq![device.ip] + others_of(device.all_ips@.take(i as int), device.ip@),
        decreases n - i,
    {
        proof {
            assert(device.all_ips@.take(i + 1).drop_last() =~= device.all_ips@.take(i as int));
        }
        if !str_eq(device.all_ips[i].as_str(), device.ip.as_str()) {
            r.push(device.all_ips[i].clone());
            proof {
                assert(r@ =~= seq![device.ip] + others_of(
                    device.all_ips@.take(i + 1),
                    device.ip@,
                ));
            }
        } else {
            proof {
                assert(r@ =~= seq![device.ip] + others_of(
                    device.all_ips@.take(i + 1),
                    device.ip@,
                ));
            }
        }
        i += 1;
    }
    proof {
        assert(device.all_ips@.take(n as int) =~= device.all_ips@);
    }
    r
}

/// Records a discovered device: the entry carrying the same id is
/// replaced, a new id is appended.
pub fn upsert_device(devices: &mut Vec<Device>, d: Device)
    ensures
        !has_device(old(devices)@, d.id@) ==> final(devices)@ == old(devices)@.push(d),
        has_device(old(devices)@, d.id@) ==> exists|j: int|
            0 <= j < old(devices)@.len() && old(devices)@[j].id@ == d.id@ && (forall|k: int|
                0 <= k < j ==> old(devices)@[k].id@ != d.id@) && final(devices)@ == old(
                devices,
            )@.update(j, d),
{
    let found = find_device(devices, &d.id);
    match found {
        Some(j) => {
            devices[j] = d;
        },
        None => {
            devices.push(d);
        },
    }
}

/// Whether some entry of `s` carries the device id `k`.
pub open spec fn has_device(s: Seq<Device>, k: Seq<char>) -> bool {
    exists|i: int| 0 <= i < s.len() && #[trigger] s[i].id@ == k
}

/// The position of the first entry carrying `id`, if any.
pub fn find_device(devices: &Vec<Device>, id: &String) -> (r: Option<usize>)
    ensures
        match r {
            Some(j) => j < devices@.len() && devices@[j as int].id@ == id@ && forall|k: int|
                0 <= k < j ==> devices@[k].id@ != id@,
            None => !has_device(devices@, id@),
        },
{
    let n = devices.len();
    let mut i: usize = 0;
    while i < n
        invariant
            n == devices@.len(),
            0 <= i <= n,
            forall|k: int| 0 <= k < i ==> #[trigger] devices@[k].id@ != id@,
        decreases n - i,
    {
        if str_eq(devices[i].id.as_str(), id.as_str()) {
            return Some(i);
        }
        i += 1;
    }
    None
}

/// Whether a device entry is still live at time `now`.
pub open spec fn spec_is_fresh(d: Device, now: i64) -> bool {
    now - d.last_seen < DEVICE_TIMEOUT_SECS
}

/// The entries of `s` still live at time `now`, in order.
pub open spec fn fresh_of(s: Seq<Device>, now: i64) -> Seq<Device>
    decreases s.len(),
{
    if s.len() == 0 {
        Seq::empty()
    } else {
        fresh_of(s.drop_last(), now) + (if spec_is_fresh(s.last(), now) {
            seq![s.last()]
        } else {
            Seq::<Device>::empty()
        })
    }
}

/// Drops every stale entry: a device not announced for
/// `DEVICE_TIMEOUT_SECS` leaves the list; the rest keep their order.
pub fn remove_stale(devices: &mut Vec<Device>, now: i64)
    requires
        now >= 0,
        forall|j: int| 0 <= j < old(devices)@.len() ==> #[trigger] old(devices)@[j].last_seen >= 0,
    ensures
        final(devices)@ == fresh_of(old(devices)@, now),
{
    let ghost old_list = devices@;
    let ghost total = old_list.len();
    let mut stack: Vec<Device> = Vec::new();
    while devices.len() > 0
        invariant
            total == old_list.len(),
            devices@ == old_list.take(devices@.len() as int),
            stack@.len() + devices@.len() == total,
            forall|k: int|
                0 <= k < stack@.len() ==> #[trigger] stack@[k] == old_list[total - 1 - k],
        decreases devices@.len(),
    {
        proof {
            assert(devices@.last() == old_list[devices@.len() - 1]);
            assert(devices@.drop_last() =~= old_list.take(devices@.len() - 1));
        }
        let d = devices.pop().unwrap();
        stack.push(d);
    }
    while stack.len() > 0
        invariant
            now >= 0,
            forall|j: int| 0 <= j < old_list.len() ==> #[trigger] old_list[j].last_seen >= 0,
            total == old_list.len(),
            stack@.len() <= total,
            forall|k: int|
                0 <= k < stack@.len() ==> #[trigger] stack@[k] == old_list[total - 1 - k],
            devices@ == fresh_of(old_list.take(total - stack@.len()), now),
        decreases stack@.len(),
    {
        let ghost i = total - stack@.len();
        proof {
            assert(stack@.last() == old_list[i as int]);
            assert(old_list.take(i + 1).drop_last() =~= old_list.take(i as int));
        }
        let d = stack.pop().unwrap();
        if now - d.last_seen < DEVICE_TIMEOUT_SECS {
            devices.push(d);
        }
    }
    proof {
        assert(old_list.take(total as int) =~= old_list);
    }
}

} // verus!
