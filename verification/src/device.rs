//! Discovering devices on the local network, and pairing with them.

use vstd::prelude::*;

use crate::credential_store;
use crate::credential_store::device_url;
use crate::text;
use crate::text::between;

verus! {

/// A device discovered via mDNS.
#[derive(Debug)]
pub struct DiscoveredDevice {
    pub serial: String,
    pub device_name: String,
}

/// The serial number in a host name of the form `boppo-<serial>.local.`; any other
/// host name stands for itself.
pub open spec fn serial_in(hostname: Seq<char>) -> Seq<char> {
    match text::after_prefix(hostname, "boppo-"@) {
        Some(rest) => match text::before_suffix(rest, ".local."@) {
            Some(serial) => serial,
            None => hostname,
        },
        None => hostname,
    }
}

/// The serial number of the device that announces a host name.
pub fn serial_of_hostname(hostname: &str) -> (r: String)
    ensures
        r@ == serial_in(hostname@),
{
    match between(hostname, "boppo-", ".local.") {
        Some(serial) => serial,
        None => hostname.to_owned(),
    }
}

/// The host name that a device announces gives its serial number back.
pub proof fn law_hostname_gives_serial(serial: Seq<char>)
    ensures
        serial_in("boppo-"@ + serial + ".local."@) == serial,
{
    let prefix = "boppo-"@;
    let suffix = ".local."@;
    let hostname = prefix + serial + suffix;
    let rest = serial + suffix;
    assert(hostname.subrange(0, prefix.len() as int) =~= prefix);
    assert(hostname.skip(prefix.len() as int) =~= rest);
    assert(rest.subrange(rest.len() - suffix.len(), rest.len() as int) =~= suffix);
    assert(rest.take(rest.len() - suffix.len()) =~= serial);
}

/// What happened while browsing.
#[derive(Debug)]
pub enum BrowseEvent {
    /// A service was resolved, with its `device_name` property if it has one.
    Resolved { hostname: String, device_name: Option<String> },
    /// Any other announcement.
    Other,
    /// The time for browsing is over.
    Expired,
    /// No more announcements can come.
    Closed,
}

/// The devices that were found so far.
#[derive(Debug)]
pub struct Browse {
    pub devices: Vec<DiscoveredDevice>,
}

/// The name of a device that announces the given one, or none.
pub open spec fn announced_name(device_name: Option<String>) -> Seq<char> {
    match device_name {
        Some(name) => name@,
        None => "unknown"@,
    }
}

/// What is known of a discovered device: its serial number and its name.
pub struct DeviceView {
    pub serial: Seq<char>,
    pub device_name: Seq<char>,
}

impl View for DiscoveredDevice {
    type V = DeviceView;

    open spec fn view(&self) -> DeviceView {
        DeviceView { serial: self.serial@, device_name: self.device_name@ }
    }
}

/// What is known of each device.
pub open spec fn device_views(devices: Seq<DiscoveredDevice>) -> Seq<DeviceView> {
    devices.map_values(|d: DiscoveredDevice| d@)
}

/// The device that an event announces, if it is a resolved service.
pub open spec fn announced(event: BrowseEvent) -> Option<DeviceView> {
    match event {
        BrowseEvent::Resolved { hostname, device_name } => Some(
            DeviceView {
                serial: serial_in(hostname@),
                device_name: announced_name(device_name),
            },
        ),
        _ => None,
    }
}

/// Whether browsing goes on after an event.
pub open spec fn goes_on(event: BrowseEvent) -> bool {
    event is Resolved || event is Other
}

/// The devices after an event.
pub open spec fn with_event(devices: Seq<DeviceView>, event: BrowseEvent) -> Seq<DeviceView> {
    match announced(event) {
        Some(d) => devices.push(d),
        None => devices,
    }
}

/// The devices after events that follow one another as long as browsing goes on.
pub open spec fn browsed(devices: Seq<DeviceView>, events: Seq<BrowseEvent>) -> Seq<DeviceView>
    decreases events.len(),
{
    if events.len() == 0 {
        devices
    } else {
        let now = with_event(devices, events.first());
        if goes_on(events.first()) {
            browsed(now, events.drop_first())
        } else {
            now
        }
    }
}

/// What the entries of two sequences map to, one after the other.
proof fn lemma_filter_map_add<A, B>(a: Seq<A>, b: Seq<A>, f: spec_fn(A) -> Option<B>)
    ensures
        (a + b).filter_map(f) == a.filter_map(f) + b.filter_map(f),
    decreases b.len(),
{
    if b.len() == 0 {
        assert(a + b =~= a);
        assert((a + b).filter_map(f) =~= a.filter_map(f) + b.filter_map(f));
    } else {
        lemma_filter_map_add(a, b.drop_last(), f);
        assert((a + b).drop_last() =~= a + b.drop_last());
        assert((a + b).filter_map(f) =~= a.filter_map(f) + b.filter_map(f));
    }
}

/// Browsing finds, in order, one device for each resolved service up to the event that
/// ends it, and nothing after that.
pub proof fn law_each_resolved_service_is_a_device(
    devices: Seq<DeviceView>,
    events: Seq<BrowseEvent>,
    last: BrowseEvent,
    later: Seq<BrowseEvent>,
)
    requires
        forall|i: int| 0 <= i < events.len() ==> goes_on(#[trigger] events[i]),
        !goes_on(last),
    ensures
        browsed(devices, events + seq![last] + later) == devices + events.filter_map(
            |e: BrowseEvent| announced(e),
        ),
    decreases events.len(),
{
    let f = |e: BrowseEvent| announced(e);
    let all = events + seq![last] + later;
    if events.len() == 0 {
        assert(all.first() == last);
        assert(devices + events.filter_map(f) =~= devices);
    } else {
        let rest = events.drop_first();
        let now = with_event(devices, events.first());
        assert(goes_on(events[0]));
        assert forall|i: int| 0 <= i < rest.len() implies goes_on(#[trigger] rest[i]) by {
            assert(rest[i] == events[i + 1]);
        }
        law_each_resolved_service_is_a_device(now, rest, last, later);
        assert(all.first() == events[0]);
        assert(all.drop_first() =~= rest + seq![last] + later);
        let one = seq![events.first()];
        assert(events =~= one + rest);
        lemma_filter_map_add(one, rest, f);
        Seq::lemma_filter_map_singleton(events.first(), f);
        assert(now + rest.filter_map(f) =~= devices + events.filter_map(f));
    }
}

impl Browse {
    /// Browsing that found nothing yet.
    pub fn new() -> (r: Browse)
        ensures
            r.devices@ == Seq::<DiscoveredDevice>::empty(),
    {
        Browse { devices: Vec::new() }
    }

    /// Takes in what happened. Returns whether browsing goes on.
    pub fn take(&mut self, event: BrowseEvent) -> (r: bool)
        ensures
            r == goes_on(event),
            device_views(final(self).devices@) == with_event(device_views(old(self).devices@), event),
    {
        match event {
            BrowseEvent::Resolved { hostname, device_name } => {
                let serial = serial_of_hostname(hostname.as_str());
                let device_name = match device_name {
                    Some(name) => name,
                    None => "unknown".to_owned(),
                };
                self.devices.push(DiscoveredDevice { serial, device_name });
                assert(device_views(self.devices@) =~= device_views(old(self).devices@).push(
                    self.devices@.last()@,
                ));
                true
            },
            BrowseEvent::Other => true,
            BrowseEvent::Expired => false,
            BrowseEvent::Closed => false,
        }
    }
}

/// What pairing asks of a device.
#[derive(Debug)]
pub struct PairingRequest {
    pub url: String,
    pub request_id: u64,
}

/// The pairing request for a device. Its id is the time of the request, in seconds
/// since the Unix epoch.
pub fn pairing_request(serial: &str, seconds: u64) -> (r: PairingRequest)
    ensures
        r.url@ == credential_store::url_of(serial@),
        r.request_id == seconds,
{
    PairingRequest { url: device_url(serial), request_id: seconds }
}

} // verus!
