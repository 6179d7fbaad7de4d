//! LAN device discovery: the beacon and probe datagrams, and the list of
//! CastScreen devices seen recently.
//!
//! Receivers broadcast a beacon (`CASTSCREEN_BEACON_V1:` followed by a JSON
//! description) and answer probes (`CASTSCREEN_PROBE_V1`) from senders. A
//! sender keeps one entry per `ip:port`, refreshed by every beacon, and drops
//! entries not heard from for 4.5 seconds.
use vstd::prelude::*;

verus! {

pub const DISCOVERY_PORT: u16 = 9001;

/// How long a device stays listed without a fresh beacon.
pub const DEVICE_TIMEOUT_MS: u64 = 4500;

/// `CASTSCREEN_PROBE_V1`
pub open spec fn probe_header() -> Seq<u8> {
    seq![
        0x43u8, 0x41u8, 0x53u8, 0x54u8, 0x53u8, 0x43u8, 0x52u8, 0x45u8, 0x45u8, 0x4Eu8,
        0x5Fu8, 0x50u8, 0x52u8, 0x4Fu8, 0x42u8, 0x45u8, 0x5Fu8, 0x56u8, 0x31u8,
    ]
}

/// `CASTSCREEN_BEACON_V1:`
pub open spec fn beacon_header() -> Seq<u8> {
    seq![
        0x43u8, 0x41u8, 0x53u8, 0x54u8, 0x53u8, 0x43u8, 0x52u8, 0x45u8, 0x45u8, 0x4Eu8,
        0x5Fu8, 0x42u8, 0x45u8, 0x41u8, 0x43u8, 0x4Fu8, 0x4Eu8, 0x5Fu8, 0x56u8, 0x31u8, 0x3Au8,
    ]
}

fn probe_header_bytes() -> (v: Vec<u8>)
    ensures
        v@ == probe_header(),
{
    let mut v: Vec<u8> = Vec::new();
    v.push(0x43u8); v.push(0x41u8); v.push(0x53u8); v.push(0x54u8); v.push(0x53u8);
    v.push(0x43u8); v.push(0x52u8); v.push(0x45u8); v.push(0x45u8); v.push(0x4Eu8);
    v.push(0x5Fu8); v.push(0x50u8); v.push(0x52u8); v.push(0x4Fu8); v.push(0x42u8);
    v.push(0x45u8); v.push(0x5Fu8); v.push(0x56u8); v.push(0x31u8);
    proof {
        assert(v@ =~= probe_header());
    }
    v
}

fn beacon_header_bytes() -> (v: Vec<u8>)
    ensures
        v@ == beacon_header(),
{
    let mut v: Vec<u8> = Vec::new();
    v.push(0x43u8); v.push(0x41u8); v.push(0x53u8); v.push(0x54u8); v.push(0x53u8);
    v.push(0x43u8); v.push(0x52u8); v.push(0x45u8); v.push(0x45u8); v.push(0x4Eu8);
    v.push(0x5Fu8); v.push(0x42u8); v.push(0x45u8); v.push(0x41u8); v.push(0x43u8);
    v.push(0x4Fu8); v.push(0x4Eu8); v.push(0x5Fu8); v.push(0x56u8); v.push(0x31u8);
    v.push(0x3Au8);
    proof {
        assert(v@ =~= beacon_header());
    }
    v
}

/// Whether `bytes` is valid UTF-8, by `std::str::from_utf8`.
///
/// `from_utf8` returns `Ok` exactly for valid UTF-8, which is what vstd's
/// `valid_utf8` states.
#[verifier::external_body]
fn utf8_ok(bytes: &[u8]) -> (ok: bool)
    ensures
        ok == vstd::utf8::valid_utf8(bytes@),
{
    std::str::from_utf8(bytes).is_ok()
}

fn starts_with(data: &[u8], prefix: &Vec<u8>) -> (b: bool)
    ensures
        b == (prefix@.len() <= data@.len() && data@.take(prefix@.len() as int) == prefix@),
{
    if prefix.len() > data.len() {
        return false;
    }
    let mut i: usize = 0;
    while i < prefix.len()
        invariant
            prefix@.len() <= data@.len(),
            i <= prefix@.len(),
            data@.take(i as int) == prefix@.take(i as int),
        decreases prefix@.len() - i,
    {
        if data[i] != prefix[i] {
            proof {
                assert(data@.take(prefix@.len() as int)[i as int] != prefix@[i as int]);
            }
            return false;
        }
        proof {
            assert(data@.take(i + 1) =~= data@.take(i as int).push(data@[i as int]));
            assert(prefix@.take(i + 1) =~= prefix@.take(i as int).push(prefix@[i as int]));
        }
        i += 1;
    }
    proof {
        assert(prefix@.take(prefix@.len() as int) =~= prefix@);
    }
    true
}

/// What a received discovery datagram is.
#[derive(Debug)]
pub enum Datagram {
    /// A sender asking receivers to announce themselves.
    Probe,
    /// A receiver's announcement; the JSON description that follows the
    /// header.
    Beacon(Vec<u8>),
    /// Anything else, including text that is not UTF-8.
    Other,
}

pub open spec fn has_prefix(data: Seq<u8>, prefix: Seq<u8>) -> bool {
    prefix.len() <= data.len() && data.take(prefix.len() as int) == prefix
}

/// Classifies a datagram: only UTF-8 text counts, a probe starts with the
/// probe header, a beacon with the beacon header.
pub fn classify_datagram(datagram: &[u8]) -> (kind: Datagram)
    ensures
        !vstd::utf8::valid_utf8(datagram@) ==> kind is Other,
        vstd::utf8::valid_utf8(datagram@) ==> match kind {
            Datagram::Probe => has_prefix(datagram@, probe_header()),
            Datagram::Beacon(json) => !has_prefix(datagram@, probe_header()) && has_prefix(
                datagram@,
                beacon_header(),
            ) && json@ == datagram@.skip(beacon_header().len() as int),
            Datagram::Other => !has_prefix(datagram@, probe_header()) && !has_prefix(
                datagram@,
                beacon_header(),
            ),
        },
{
    if !utf8_ok(datagram) {
        return Datagram::Other;
    }
    let probe = probe_header_bytes();
    if starts_with(datagram, &probe) {
        return Datagram::Probe;
    }
    let beacon = beacon_header_bytes();
    if starts_with(datagram, &beacon) {
        let mut json: Vec<u8> = Vec::new();
        let mut i = beacon.len();
        while i < datagram.len()
            invariant
                beacon@.len() <= i <= datagram@.len(),
                json@ == datagram@.subrange(beacon@.len() as int, i as int),
            decreases datagram@.len() - i,
        {
            json.push(datagram[i]);
            proof {
                assert(datagram@.subrange(beacon@.len() as int, i + 1) =~= datagram@.subrange(
                    beacon@.len() as int,
                    i as int,
                ).push(datagram@[i as int]));
            }
            i += 1;
        }
        proof {
            assert(json@ =~= datagram@.skip(beacon_header().len() as int));
        }
        return Datagram::Beacon(json);
    }
    Datagram::Other
}

/// The probe a sender broadcasts.
pub fn probe_message() -> (m: Vec<u8>)
    ensures
        m@ == probe_header(),
{
    probe_header_bytes()
}

/// The beacon announcing a receiver: the header followed by its JSON
/// description.
pub fn beacon_message(json: &[u8]) -> (m: Vec<u8>)
    ensures
        m@ == beacon_header() + json@,
{
    let mut m = beacon_header_bytes();
    let mut i: usize = 0;
    while i < json.len()
        invariant
            i <= json@.len(),
            m@ == beacon_header() + json@.take(i as int),
        decreases json@.len() - i,
    {
        m.push(json[i]);
        proof {
            assert(json@.take(i + 1) =~= json@.take(i as int).push(json@[i as int]));
            assert(beacon_header() + json@.take(i + 1) =~= (beacon_header() + json@.take(i as int)).push(
                json@[i as int],
            ));
        }
        i += 1;
    }
    proof {
        assert(json@.take(json@.len() as int) =~= json@);
    }
    m
}

/// An active CastScreen instance found on the local network.
#[derive(Debug, PartialEq)]
pub struct DiscoveredDevice {
    pub device_name: String,
    pub ip: String,
    pub port: u16,
    /// "receiver" or "sender".
    pub role: String,
    pub version: String,
}

impl Clone for DiscoveredDevice {
    fn clone(&self) -> (c: Self)
        ensures
            c == *self,
    {
        DiscoveredDevice {
            device_name: self.device_name.clone(),
            ip: self.ip.clone(),
            port: self.port,
            role: self.role.clone(),
            version: self.version.clone(),
        }
    }
}

impl DiscoveredDevice {
    pub fn name(&self) -> (n: &str)
        ensures
            n@ == self.device_name@,
    {
        self.device_name.as_str()
    }
}

/// Two announcements come from the same instance when they share `ip:port`.
pub open spec fn same_endpoint(a: DiscoveredDevice, b: DiscoveredDevice) -> bool {
    a.ip@ == b.ip@ && a.port == b.port
}

/// A listed device and when it was last heard from, in milliseconds of the
/// caller's monotonic clock.
pub struct DeviceEntry {
    pub device: DiscoveredDevice,
    pub last_seen_ms: u64,
}

/// The listed devices, oldest first.
pub open spec fn endpoints_distinct(es: Seq<DeviceEntry>) -> bool {
    forall|i: int, j: int|
        0 <= i < j < es.len() ==> !same_endpoint(#[trigger] es[i].device, #[trigger] es[j].device)
}

/// The index of the entry for `dev`'s endpoint at or after `i`, or -1.
pub open spec fn endpoint_index(es: Seq<DeviceEntry>, dev: DiscoveredDevice, i: int) -> int
    decreases es.len() - i,
{
    if i < 0 || i >= es.len() {
        -1
    } else if same_endpoint(es[i].device, dev) {
        i
    } else {
        endpoint_index(es, dev, i + 1)
    }
}

/// The list after a beacon from `dev` at `now_ms`: the device's entry is
/// refreshed in place, or a new one is appended.
pub open spec fn observed(es: Seq<DeviceEntry>, dev: DiscoveredDevice, now_ms: u64) -> Seq<DeviceEntry> {
    let k = endpoint_index(es, dev, 0);
    let entry = DeviceEntry { device: dev, last_seen_ms: now_ms };
    if k >= 0 {
        es.update(k, entry)
    } else {
        es.push(entry)
    }
}

/// An entry is still listed when it was heard from less than 4.5 s ago
/// (time running backwards counts as no time at all).
pub open spec fn still_fresh(e: DeviceEntry, now_ms: u64) -> bool {
    (if now_ms >= e.last_seen_ms { now_ms - e.last_seen_ms } else { 0 }) < DEVICE_TIMEOUT_MS
}

/// The entries still fresh at `now_ms`, in order.
pub open spec fn fresh_entries(es: Seq<DeviceEntry>, now_ms: u64) -> Seq<DeviceEntry>
    decreases es.len(),
{
    if es.len() == 0 {
        Seq::empty()
    } else {
        fresh_entries(es.drop_last(), now_ms) + (if still_fresh(es.last(), now_ms) {
            seq![es.last()]
        } else {
            Seq::empty()
        })
    }
}

/// The devices a sender currently knows about.
pub struct DeviceRegistry {
    entries: Vec<DeviceEntry>,
}

impl View for DeviceRegistry {
    type V = Seq<DeviceEntry>;

    closed spec fn view(&self) -> Seq<DeviceEntry> {
        self.entries@
    }
}

fn copy_entry(e: &DeviceEntry) -> (c: DeviceEntry)
    ensures
        c == *e,
{
    DeviceEntry { device: e.device.clone(), last_seen_ms: e.last_seen_ms }
}

proof fn lemma_endpoint_index_range(es: Seq<DeviceEntry>, dev: DiscoveredDevice, i: int)
    requires
        0 <= i,
    ensures
        endpoint_index(es, dev, i) == -1 || (i <= endpoint_index(es, dev, i) < es.len() && same_endpoint(
            es[endpoint_index(es, dev, i)].device,
            dev,
        )),
        endpoint_index(es, dev, i) == -1 ==> forall|k: int| i <= k < es.len() ==> !same_endpoint(#[trigger] es[k].device, dev),
        endpoint_index(es, dev, i) >= 0 ==> forall|k: int| i <= k < endpoint_index(es, dev, i) ==> !same_endpoint(#[trigger] es[k].device, dev),
    decreases es.len() - i,
{
    if i < es.len() && !same_endpoint(es[i].device, dev) {
        lemma_endpoint_index_range(es, dev, i + 1);
    }
}

impl DeviceRegistry {
    #[verifier::type_invariant]
    spec fn no_duplicate_endpoints(self) -> bool {
        endpoints_distinct(self.entries@)
    }

    pub fn new() -> (r: Self)
        ensures
            r@.len() == 0,
            endpoints_distinct(r@),
    {
        DeviceRegistry { entries: Vec::new() }
    }

    /// Records a beacon from `device` heard at `now_ms`.
    pub fn observe(&mut self, device: DiscoveredDevice, now_ms: u64)
        ensures
            final(self)@ == observed(old(self)@, device, now_ms),
            endpoints_distinct(final(self)@),
    {
        proof {
            use_type_invariant(&*self);
        }
        let ghost es = self.entries@;
        let mut i: usize = 0;
        while i < self.entries.len() && !(self.entries[i].device.ip == device.ip
            && self.entries[i].device.port == device.port)
            invariant
                es == self.entries@,
                i <= es.len(),
                endpoint_index(es, device, 0) == endpoint_index(es, device, i as int),
            decreases es.len() - i,
        {
            i += 1;
        }
        let found = i;
        proof {
            lemma_endpoint_index_range(es, device, 0);
            assert(found < es.len() ==> endpoint_index(es, device, found as int) == found as int);
            assert(found == es.len() ==> endpoint_index(es, device, found as int) == -1);
        }
        let mut next: Vec<DeviceEntry> = Vec::new();
        let mut j: usize = 0;
        while j < self.entries.len()
            invariant
                es == self.entries@,
                j <= es.len(),
                found == es.len() || (found < es.len() && found as int == endpoint_index(es, device, 0)),
                next@ == es.take(j as int),
            decreases es.len() - j,
        {
            let e = copy_entry(&self.entries[j]);
            next.push(e);
            proof {
                assert(es.take(j + 1) =~= es.take(j as int).push(es[j as int]));
            }
            j += 1;
        }
        proof {
            assert(es.take(es.len() as int) =~= es);
        }
        let entry = DeviceEntry { device, last_seen_ms: now_ms };
        if found < next.len() {
            next.set(found, entry);
        } else {
            next.push(entry);
        }
        proof {
            assert(next@ == observed(es, entry.device, now_ms));
            law_observe_keeps_endpoints_distinct(es, entry.device, now_ms);
        }
        self.entries = next;
    }

    /// Drops the devices not heard from for 4.5 seconds.
    pub fn prune(&mut self, now_ms: u64)
        ensures
            final(self)@ == fresh_entries(old(self)@, now_ms),
            endpoints_distinct(final(self)@),
    {
        proof {
            use_type_invariant(&*self);
        }
        let ghost es = self.entries@;
        let mut kept: Vec<DeviceEntry> = Vec::new();
        let mut i: usize = 0;
        while i < self.entries.len()
            invariant
                es == self.entries@,
                i <= es.len(),
                kept@ == fresh_entries(es.take(i as int), now_ms),
            decreases es.len() - i,
        {
            let e = &self.entries[i];
            let elapsed: u64 = if now_ms >= e.last_seen_ms { now_ms - e.last_seen_ms } else { 0 };
            proof {
                assert(es.take(i + 1).drop_last() =~= es.take(i as int));
            }
            if elapsed < DEVICE_TIMEOUT_MS {
                let c = copy_entry(e);
                kept.push(c);
            } else {
                proof {
                    assert(kept@ =~= fresh_entries(es.take(i + 1), now_ms));
                }
            }
            i += 1;
        }
        proof {
            assert(es.take(es.len() as int) =~= es);
            lemma_fresh_entries_distinct(es, now_ms);
        }
        self.entries = kept;
    }

    /// The devices currently listed, oldest first.
    pub fn get_devices(&self) -> (ds: Vec<DiscoveredDevice>)
        ensures
            ds@.len() == self@.len(),
            forall|i: int| 0 <= i < ds@.len() ==> #[trigger] ds@[i] == self@[i].device,
    {
        let mut ds: Vec<DiscoveredDevice> = Vec::new();
        let mut i: usize = 0;
        while i < self.entries.len()
            invariant
                i <= self.entries@.len(),
                ds@.len() == i,
                forall|k: int| 0 <= k < i ==> #[trigger] ds@[k] == self.entries@[k].device,
            decreases self.entries@.len() - i,
        {
            ds.push(self.entries[i].device.clone());
            i += 1;
        }
        ds
    }

}

/// A beacon never makes a device appear twice: if no two entries shared an
/// `ip:port` before, none do after.
pub proof fn law_observe_keeps_endpoints_distinct(es: Seq<DeviceEntry>, dev: DiscoveredDevice, now_ms: u64)
    requires
        endpoints_distinct(es),
    ensures
        endpoints_distinct(observed(es, dev, now_ms)),
{
    lemma_endpoint_index_range(es, dev, 0);
    let k = endpoint_index(es, dev, 0);
    let next = observed(es, dev, now_ms);
    assert forall|a: int, b: int| 0 <= a < b < next.len() implies !same_endpoint(
        #[trigger] next[a].device,
        #[trigger] next[b].device,
    ) by {
        if k >= 0 {
            if a == k {
                assert(!same_endpoint(es[b].device, es[k].device));
            } else if b == k {
                assert(!same_endpoint(es[a].device, es[k].device));
            }
        } else if b == es.len() {
            assert(!same_endpoint(es[a].device, dev));
        }
    }
}

proof fn lemma_fresh_entries_from(es: Seq<DeviceEntry>, now_ms: u64)
    ensures
        forall|a: int| 0 <= a < fresh_entries(es, now_ms).len() ==> exists|b: int|
            0 <= b < es.len() && #[trigger] fresh_entries(es, now_ms)[a] == es[b],
    decreases es.len(),
{
    if es.len() > 0 {
        let p = es.drop_last();
        lemma_fresh_entries_from(p, now_ms);
        let f = fresh_entries(es, now_ms);
        assert forall|a: int| 0 <= a < f.len() implies exists|b: int| 0 <= b < es.len() && #[trigger] f[a] == es[b] by {
            if a < fresh_entries(p, now_ms).len() {
                let b = choose|b: int| 0 <= b < p.len() && #[trigger] fresh_entries(p, now_ms)[a] == p[b];
                assert(f[a] == es[b]);
            } else {
                assert(f[a] == es[es.len() - 1]);
            }
        }
    }
}

/// Pruning only removes entries, so it never makes a device appear twice.
pub proof fn lemma_fresh_entries_distinct(es: Seq<DeviceEntry>, now_ms: u64)
    requires
        endpoints_distinct(es),
    ensures
        endpoints_distinct(fresh_entries(es, now_ms)),
    decreases es.len(),
{
    if es.len() > 0 {
        let p = es.drop_last();
        assert(endpoints_distinct(p));
        lemma_fresh_entries_distinct(p, now_ms);
        lemma_fresh_entries_from(p, now_ms);
        let fp = fresh_entries(p, now_ms);
        let f = fresh_entries(es, now_ms);
        assert forall|a: int, b: int| 0 <= a < b < f.len() implies !same_endpoint(
            #[trigger] f[a].device,
            #[trigger] f[b].device,
        ) by {
            if b >= fp.len() {
                let x = choose|x: int| 0 <= x < p.len() && #[trigger] fp[a] == p[x];
                assert(f[a] == es[x]);
                assert(f[b] == es[es.len() - 1]);
            } else {
                assert(f[a] == fp[a] && f[b] == fp[b]);
            }
        }
    }
}

/// An entry still fresh at `now_ms` survives pruning at `now_ms`.
proof fn lemma_fresh_entry_kept(es: Seq<DeviceEntry>, now_ms: u64, i: int)
    requires
        0 <= i < es.len(),
        still_fresh(es[i], now_ms),
    ensures
        exists|k: int| 0 <= k < fresh_entries(es, now_ms).len() && #[trigger] fresh_entries(es, now_ms)[k] == es[i],
    decreases es.len(),
{
    let p = es.drop_last();
    let f = fresh_entries(es, now_ms);
    if i == es.len() - 1 {
        assert(f[f.len() - 1] == es[i]);
    } else {
        lemma_fresh_entry_kept(p, now_ms, i);
        let k = choose|k: int| 0 <= k < fresh_entries(p, now_ms).len() && #[trigger] fresh_entries(p, now_ms)[k] == p[i];
        assert(f[k] == fresh_entries(p, now_ms)[k]);
    }
}

/// A beacon from `dev` heard at `now_ms` lists `dev`, stamped `now_ms`, as
/// the one entry for its `ip:port` (a known endpoint is refreshed, device
/// and time, not left with its old time), leaves every other entry as it
/// was, and keeps `dev` listed through every prune before `now_ms + 4500`.
pub proof fn law_beacon_refreshes_its_device(es: Seq<DeviceEntry>, dev: DiscoveredDevice, now_ms: u64, later_ms: u64)
    requires
        endpoints_distinct(es),
    ensures
        exists|k: int|
            0 <= k < observed(es, dev, now_ms).len() && #[trigger] observed(es, dev, now_ms)[k] == (DeviceEntry {
                device: dev,
                last_seen_ms: now_ms,
            }),
        forall|i: int|
            0 <= i < observed(es, dev, now_ms).len() && same_endpoint(
                #[trigger] observed(es, dev, now_ms)[i].device,
                dev,
            ) ==> observed(es, dev, now_ms)[i].last_seen_ms == now_ms && observed(es, dev, now_ms)[i].device == dev,
        forall|i: int| 0 <= i < es.len() && !same_endpoint(#[trigger] es[i].device, dev) ==> observed(es, dev, now_ms)[i] == es[i],
        later_ms < now_ms + 4500 ==> exists|k: int|
            0 <= k < fresh_entries(observed(es, dev, now_ms), later_ms).len() && (#[trigger] fresh_entries(
                observed(es, dev, now_ms),
                later_ms,
            )[k]).device == dev,
{
    lemma_endpoint_index_range(es, dev, 0);
    let k = endpoint_index(es, dev, 0);
    let next = observed(es, dev, now_ms);
    let entry = DeviceEntry { device: dev, last_seen_ms: now_ms };
    let at = if k >= 0 { k } else { es.len() as int };
    assert(next[at] == entry);
    assert forall|i: int| 0 <= i < next.len() && same_endpoint(#[trigger] next[i].device, dev) implies next[i].last_seen_ms
        == now_ms && next[i].device == dev by {
        if i != at {
            assert(next[i] == es[i]);
            if k >= 0 {
                assert(same_endpoint(es[i].device, es[k].device));
            }
        }
    }
    if later_ms < now_ms + 4500 {
        assert(still_fresh(entry, later_ms));
        lemma_fresh_entry_kept(next, later_ms, at);
    }
}

} // verus!