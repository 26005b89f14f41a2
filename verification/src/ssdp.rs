//! The devices that the proxy announces, and how it announces them.
use vstd::prelude::*;

use crate::encoding;
use crate::ids;
use crate::numbers;
use crate::registry::{PhoneRegistry, PhoneSession, PhoneView, RegistryView};
use crate::registry;
use crate::text::CharSet;
use crate::text;
use crate::upnp::{DeviceView, UpnpDeviceInfo, UpnpState};
use crate::xml;

verus! {

/// The identifier of the proxy as a device.
pub const UPNP_ROOT_UUID: &'static str = "fdab0000-7472-6f6f-7a6e-000000000001";

/// The seconds between two announcements.
pub const UPNP_ADVERTISE_SECONDS: u64 = 30;

/// The description of the content directory.
pub const CONTENT_DIRECTORY_SCPD: &'static str =
    "<?xml version=\"1.0\" encoding=\"UTF-8\"?><scpd xmlns=\"urn:schemas-upnp-org:service-1-0\"><specVersion><major>1</major><minor>0</minor></specVersion><actionList><action><name>GetSearchCapabilities</name><argumentList><argument><name>SearchCaps</name><direction>out</direction><relatedStateVariable>SearchCapabilities</relatedStateVariable></argument></argumentList></action><action><name>GetSortCapabilities</name><argumentList><argument><name>SortCaps</name><direction>out</direction><relatedStateVariable>SortCapabilities</relatedStateVariable></argument></argumentList></action><action><name>GetSystemUpdateID</name><argumentList><argument><name>Id</name><direction>out</direction><relatedStateVariable>SystemUpdateID</relatedStateVariable></argument></argumentList></action><action><name>Browse</name><argumentList><argument><name>ObjectID</name><direction>in</direction><relatedStateVariable>A_ARG_TYPE_ObjectID</relatedStateVariable></argument><argument><name>BrowseFlag</name><direction>in</direction><relatedStateVariable>A_ARG_TYPE_BrowseFlag</relatedStateVariable></argument><argument><name>Filter</name><direction>in</direction><relatedStateVariable>A_ARG_TYPE_Filter</relatedStateVariable></argument><argument><name>StartingIndex</name><direction>in</direction><relatedStateVariable>A_ARG_TYPE_Index</relatedStateVariable></argument><argument><name>RequestedCount</name><direction>in</direction><relatedStateVariable>A_ARG_TYPE_Count</relatedStateVariable></argument><argument><name>SortCriteria</name><direction>in</direction><relatedStateVariable>A_ARG_TYPE_SortCriteria</relatedStateVariable></argument><argument><name>Result</name><direction>out</direction><relatedStateVariable>A_ARG_TYPE_Result</relatedStateVariable></argument><argument><name>NumberReturned</name><direction>out</direction><relatedStateVariable>A_ARG_TYPE_Count</relatedStateVariable></argument><argument><name>TotalMatches</name><direction>out</direction><relatedStateVariable>A_ARG_TYPE_Count</relatedStateVariable></argument><argument><name>UpdateID</name><direction>out</direction><relatedStateVariable>A_ARG_TYPE_UpdateID</relatedStateVariable></argument></argumentList></action><action><name>UpdateObject</name><argumentList><argument><name>ObjectID</name><direction>in</direction><relatedStateVariable>A_ARG_TYPE_ObjectID</relatedStateVariable></argument><argument><name>CurrentTagValue</name><direction>in</direction><relatedStateVariable>A_ARG_TYPE_TagValueList</relatedStateVariable></argument><argument><name>NewTagValue</name><direction>in</direction><relatedStateVariable>A_ARG_TYPE_TagValueList</relatedStateVariable></argument></argumentList></action></actionList><serviceStateTable><stateVariable sendEvents=\"no\"><name>A_ARG_TYPE_ObjectID</name><dataType>string</dataType></stateVariable><stateVariable sendEvents=\"no\"><name>A_ARG_TYPE_BrowseFlag</name><dataType>string</dataType></stateVariable><stateVariable sendEvents=\"no\"><name>A_ARG_TYPE_Filter</name><dataType>string</dataType></stateVariable><stateVariable sendEvents=\"no\"><name>A_ARG_TYPE_Index</name><dataType>ui4</dataType></stateVariable><stateVariable sendEvents=\"no\"><name>A_ARG_TYPE_Count</name><dataType>ui4</dataType></stateVariable><stateVariable sendEvents=\"no\"><name>A_ARG_TYPE_SortCriteria</name><dataType>string</dataType></stateVariable><stateVariable sendEvents=\"no\"><name>A_ARG_TYPE_Result</name><dataType>string</dataType></stateVariable><stateVariable sendEvents=\"no\"><name>A_ARG_TYPE_UpdateID</name><dataType>ui4</dataType></stateVariable><stateVariable sendEvents=\"no\"><name>A_ARG_TYPE_TagValueList</name><dataType>string</dataType></stateVariable><stateVariable sendEvents=\"no\"><name>SearchCapabilities</name><dataType>string</dataType></stateVariable><stateVariable sendEvents=\"no\"><name>SortCapabilities</name><dataType>string</dataType></stateVariable><stateVariable sendEvents=\"yes\"><name>SystemUpdateID</name><dataType>ui4</dataType></stateVariable></serviceStateTable></scpd>";

/// The description of the connection manager.
pub const CONNECTION_MANAGER_SCPD: &'static str =
    "<?xml version=\"1.0\" encoding=\"UTF-8\"?><scpd xmlns=\"urn:schemas-upnp-org:service-1-0\"><specVersion><major>1</major><minor>0</minor></specVersion><actionList><action><name>GetProtocolInfo</name><argumentList><argument><name>Source</name><direction>out</direction><relatedStateVariable>SourceProtocolInfo</relatedStateVariable></argument><argument><name>Sink</name><direction>out</direction><relatedStateVariable>SinkProtocolInfo</relatedStateVariable></argument></argumentList></action><action><name>GetCurrentConnectionIDs</name><argumentList><argument><name>ConnectionIDs</name><direction>out</direction><relatedStateVariable>CurrentConnectionIDs</relatedStateVariable></argument></argumentList></action></actionList><serviceStateTable><stateVariable sendEvents=\"no\"><name>SourceProtocolInfo</name><dataType>string</dataType></stateVariable><stateVariable sendEvents=\"no\"><name>SinkProtocolInfo</name><dataType>string</dataType></stateVariable><stateVariable sendEvents=\"no\"><name>CurrentConnectionIDs</name><dataType>string</dataType></stateVariable></serviceStateTable></scpd>";

/// The name of the server in headers.
pub const SERVER_NAME: &'static str = "Linux UPnP/1.1 TROOZN-Radxa/1.0";

/// The name of the server in headers.
pub fn upnp_server_header() -> (r: &'static str)
    ensures
        r@ == SERVER_NAME@,
{
    SERVER_NAME
}

// ---------------------------------------------------------------------------
// Addresses
// ---------------------------------------------------------------------------

/// The port in an address, where there is one behind its last colon.
pub open spec fn port_of(bind: Seq<char>, default_port: u16) -> u16 {
    match numbers::parse_uint(text::tail(bind, CharSet::Only(':')), 10, u16::MAX as nat) {
        Some(n) => n as u16,
        None => default_port,
    }
}

/// The port in an address.
pub fn bind_port(bind: &str, default_port: u16) -> (r: u16)
    ensures
        r == port_of(bind@, default_port),
{
    match numbers::parse_u16(&text::tail_of(bind, CharSet::Only(':'))) {
        Some(n) => n,
        None => default_port,
    }
}

/// The address of a server on the machine itself.
pub fn loopback_base_url(bind: &str, default_port: u16) -> (r: String)
    ensures
        r@ == "http://127.0.0.1:"@ + numbers::dec(port_of(bind@, default_port) as nat),
{
    text::concat2("http://127.0.0.1:", &numbers::decimal(bind_port(bind, default_port) as u64))
}

impl UpnpState {
    /// Where the proxy is reached: the UPnP server under a host and the port of its own address,
    /// phones' files on the machine itself.
    pub fn new(bind: &str, http_bind: &str, host: &str) -> (r: Self)
        ensures
            r.upnp_base_url@ == "http://"@ + host@ + ":"@ + numbers::dec(
                port_of(bind@, 8788) as nat,
            ),
            r.media_base_url@ == "http://127.0.0.1:"@ + numbers::dec(
                port_of(http_bind@, 8787) as nat,
            ),
    {
        let mut upnp_base_url = text::concat3("http://", host, ":");
        upnp_base_url.push_str(&numbers::decimal(bind_port(bind, 8788) as u64));
        UpnpState { upnp_base_url, media_base_url: loopback_base_url(http_bind, 8787) }
    }
}

// ---------------------------------------------------------------------------
// Devices
// ---------------------------------------------------------------------------

/// The proxy as a device.
pub open spec fn root_device() -> DeviceView {
    DeviceView {
        key: "root"@,
        uuid: UPNP_ROOT_UUID@,
        friendly_name: "TROOZN"@,
        phone_id: None,
    }
}

/// A phone as a device.
pub open spec fn phone_device(p: PhoneView) -> DeviceView {
    DeviceView {
        key: p.id,
        uuid: ids::uuid_for("troozn-phone:"@ + p.id),
        friendly_name: "TROOZN - "@ + p.display_name,
        phone_id: Some(p.id),
    }
}

/// The devices of a list.
pub open spec fn device_views(v: Seq<UpnpDeviceInfo>) -> Seq<DeviceView> {
    v.map_values(|d: UpnpDeviceInfo| d@)
}

/// The proxy and phones as devices.
pub open spec fn devices_for(phones: Seq<PhoneView>) -> Seq<DeviceView> {
    seq![root_device()] + phones.map_values(|p: PhoneView| phone_device(p))
}

fn make_root() -> (r: UpnpDeviceInfo)
    ensures
        r@ == root_device(),
{
    UpnpDeviceInfo {
        key: "root".to_string(),
        uuid: UPNP_ROOT_UUID.to_string(),
        friendly_name: "TROOZN".to_string(),
        phone_id: None,
    }
}

fn make_device(p: &PhoneSession) -> (r: UpnpDeviceInfo)
    ensures
        r@ == phone_device(p@),
{
    UpnpDeviceInfo {
        key: p.id.clone(),
        uuid: ids::deterministic_uuid(&text::concat2("troozn-phone:", &p.id)),
        friendly_name: text::concat2("TROOZN - ", &p.display_name),
        phone_id: Some(p.id.clone()),
    }
}

/// The devices that are announced: the proxy, and each phone that is shown, by name.
pub fn upnp_devices(phones: &mut PhoneRegistry, now: u64) -> (r: Vec<UpnpDeviceInfo>)
    ensures
        final(phones)@ == registry::without_stale(old(phones)@, now),
        exists|shown: Seq<PhoneView>| #[trigger]
            registry::by_name(registry::shown(final(phones)@, now), shown) && device_views(r@)
                == devices_for(shown),
{
    let shown = phones.list(now);
    let ghost all = devices_for(registry::phone_views(shown@));
    let mut r: Vec<UpnpDeviceInfo> = Vec::new();
    r.push(make_root());
    proof {
        assert(device_views(r@) =~= all.take(1));
    }
    let mut i: usize = 0;
    while i < shown.len()
        invariant
            all == devices_for(registry::phone_views(shown@)),
            i <= shown@.len(),
            device_views(r@) == all.take(i + 1),
        decreases shown@.len() - i,
    {
        let ghost before = device_views(r@);
        let device = make_device(&shown[i]);
        let ghost made = device@;
        r.push(device);
        proof {
            assert(made == all[i + 1]);
            assert(device_views(r@) =~= before.push(made));
            assert(all.take(i + 2) =~= all.take(i + 1).push(all[i + 1]));
        }
        i += 1;
    }
    proof {
        assert(all.take(i + 1) =~= all);
    }
    r
}

/// The device with a name in addresses, once lost phones were taken out.
pub open spec fn device_named(s: RegistryView, key: Seq<char>, now: u64) -> Option<DeviceView> {
    if key == "root"@ {
        Some(root_device())
    } else {
        match registry::with_id(s.phones, key) {
            Some(p) if registry::published(p, now) => Some(phone_device(p)),
            _ => None,
        }
    }
}

/// The device with a name in addresses.
pub fn upnp_device_for_key(phones: &mut PhoneRegistry, key: &str, now: u64) -> (r: Option<
    UpnpDeviceInfo,
>)
    ensures
        final(phones)@ == (if key@ == "root"@ {
            old(phones)@
        } else {
            registry::without_stale(old(phones)@, now)
        }),
        match r {
            Some(device) => device_named(final(phones)@, key@, now) == Some(device@),
            None => device_named(final(phones)@, key@, now) is None,
        },
{
    if text::same(key, "root") {
        return Some(make_root());
    }
    match phones.get_by_id(key, now) {
        Some(p) => Some(make_device(&p)),
        None => None,
    }
}

/// Where a device is described.
pub open spec fn location_of(base: Seq<char>, device: DeviceView) -> Seq<char> {
    base + "/upnp/"@ + encoding::percent_encoded(device.key) + "/device.xml"@
}

/// Where a device is described.
pub fn upnp_device_location(upnp_base_url: &str, device: &UpnpDeviceInfo) -> (r: String)
    ensures
        r@ == location_of(upnp_base_url@, device@),
{
    let mut r = text::concat3(
        upnp_base_url,
        "/upnp/",
        &encoding::percent_encode_component(&device.key),
    );
    r.push_str("/device.xml");
    r
}

/// The description of a device.
pub open spec fn description_of(base: Seq<char>, device: DeviceView) -> Seq<char> {
    let key = encoding::percent_encoded(device.key);
    "<?xml version=\"1.0\" encoding=\"UTF-8\"?><root xmlns=\"urn:schemas-upnp-org:device-1-0\"><specVersion><major>1</major><minor>0</minor></specVersion><URLBase>"@
        + base + "/upnp/"@ + key
        + "/</URLBase><device><deviceType>urn:schemas-upnp-org:device:MediaServer:1</deviceType><friendlyName>"@
        + xml::xml_escaped(device.friendly_name)
        + "</friendlyName><manufacturer>TROOZN</manufacturer><modelDescription>TROOZN Radxa WebTransport UPnP/DLNA bridge</modelDescription><modelName>TROOZN Radxa Media Bridge</modelName><modelNumber>1</modelNumber><serialNumber>"@
        + xml::xml_escaped(device.key) + "</serialNumber><UDN>uuid:"@ + xml::xml_escaped(device.uuid)
        + "</UDN><presentationURL>"@ + base
        + "/</presentationURL><serviceList><service><serviceType>urn:schemas-upnp-org:service:ContentDirectory:1</serviceType><serviceId>urn:upnp-org:serviceId:ContentDirectory</serviceId><SCPDURL>/upnp/"@
        + key + "/ContentDirectory.xml</SCPDURL><controlURL>/upnp/"@ + key
        + "/control/ContentDirectory</controlURL><eventSubURL>/upnp/"@ + key
        + "/event/ContentDirectory</eventSubURL></service><service><serviceType>urn:schemas-upnp-org:service:ConnectionManager:1</serviceType><serviceId>urn:upnp-org:serviceId:ConnectionManager</serviceId><SCPDURL>/upnp/"@
        + key + "/ConnectionManager.xml</SCPDURL><controlURL>/upnp/"@ + key
        + "/control/ConnectionManager</controlURL><eventSubURL>/upnp/"@ + key
        + "/event/ConnectionManager</eventSubURL></service></serviceList></device></root>"@
}

/// The description of a device.
pub fn upnp_device_description_xml(upnp_base_url: &str, device: &UpnpDeviceInfo) -> (r: String)
    ensures
        r@ == description_of(upnp_base_url@, device@),
{
    let key = encoding::percent_encode_component(&device.key);
    let mut r =
        "<?xml version=\"1.0\" encoding=\"UTF-8\"?><root xmlns=\"urn:schemas-upnp-org:device-1-0\"><specVersion><major>1</major><minor>0</minor></specVersion><URLBase>".to_string();
    r.push_str(upnp_base_url);
    r.push_str("/upnp/");
    r.push_str(&key);
    r.push_str(
        "/</URLBase><device><deviceType>urn:schemas-upnp-org:device:MediaServer:1</deviceType><friendlyName>",
    );
    r.push_str(&xml::xml_text(&device.friendly_name));
    r.push_str(
        "</friendlyName><manufacturer>TROOZN</manufacturer><modelDescription>TROOZN Radxa WebTransport UPnP/DLNA bridge</modelDescription><modelName>TROOZN Radxa Media Bridge</modelName><modelNumber>1</modelNumber><serialNumber>",
    );
    r.push_str(&xml::xml_text(&device.key));
    r.push_str("</serialNumber><UDN>uuid:");
    r.push_str(&xml::xml_text(&device.uuid));
    r.push_str("</UDN><presentationURL>");
    r.push_str(upnp_base_url);
    r.push_str(
        "/</presentationURL><serviceList><service><serviceType>urn:schemas-upnp-org:service:ContentDirectory:1</serviceType><serviceId>urn:upnp-org:serviceId:ContentDirectory</serviceId><SCPDURL>/upnp/",
    );
    r.push_str(&key);
    r.push_str("/ContentDirectory.xml</SCPDURL><controlURL>/upnp/");
    r.push_str(&key);
    r.push_str("/control/ContentDirectory</controlURL><eventSubURL>/upnp/");
    r.push_str(&key);
    r.push_str(
        "/event/ContentDirectory</eventSubURL></service><service><serviceType>urn:schemas-upnp-org:service:ConnectionManager:1</serviceType><serviceId>urn:upnp-org:serviceId:ConnectionManager</serviceId><SCPDURL>/upnp/",
    );
    r.push_str(&key);
    r.push_str("/ConnectionManager.xml</SCPDURL><controlURL>/upnp/");
    r.push_str(&key);
    r.push_str("/control/ConnectionManager</controlURL><eventSubURL>/upnp/");
    r.push_str(&key);
    r.push_str(
        "/event/ConnectionManager</eventSubURL></service></serviceList></device></root>",
    );
    r
}

// ---------------------------------------------------------------------------
// Announcements
// ---------------------------------------------------------------------------

/// What a device is announced as: the types, each with a name that is unique to the device.
pub open spec fn targets_of(device: DeviceView) -> Seq<(Seq<char>, Seq<char>)> {
    let uuid = "uuid:"@ + device.uuid;
    seq![
        ("upnp:rootdevice"@, uuid + "::upnp:rootdevice"@),
        (uuid, uuid),
        (
            "urn:schemas-upnp-org:device:MediaServer:1"@,
            uuid + "::urn:schemas-upnp-org:device:MediaServer:1"@,
        ),
        (
            "urn:schemas-upnp-org:service:ContentDirectory:1"@,
            uuid + "::urn:schemas-upnp-org:service:ContentDirectory:1"@,
        ),
        (
            "urn:schemas-upnp-org:service:ConnectionManager:1"@,
            uuid + "::urn:schemas-upnp-org:service:ConnectionManager:1"@,
        ),
    ]
}

/// The pairs of a list.
pub open spec fn pair_views(v: Seq<(String, String)>) -> Seq<(Seq<char>, Seq<char>)> {
    v.map_values(|p: (String, String)| (p.0@, p.1@))
}

/// What a device is announced as.
pub fn upnp_targets(device: &UpnpDeviceInfo) -> (r: Vec<(String, String)>)
    ensures
        pair_views(r@) == targets_of(device@),
{
    let uuid = text::concat2("uuid:", &device.uuid);
    let mut r: Vec<(String, String)> = Vec::new();
    r.push(("upnp:rootdevice".to_string(), text::concat2(&uuid, "::upnp:rootdevice")));
    r.push((uuid.clone(), uuid.clone()));
    r.push(
        (
            "urn:schemas-upnp-org:device:MediaServer:1".to_string(),
            text::concat2(&uuid, "::urn:schemas-upnp-org:device:MediaServer:1"),
        ),
    );
    r.push(
        (
            "urn:schemas-upnp-org:service:ContentDirectory:1".to_string(),
            text::concat2(&uuid, "::urn:schemas-upnp-org:service:ContentDirectory:1"),
        ),
    );
    r.push(
        (
            "urn:schemas-upnp-org:service:ConnectionManager:1".to_string(),
            text::concat2(&uuid, "::urn:schemas-upnp-org:service:ConnectionManager:1"),
        ),
    );
    proof {
        assert(pair_views(r@) =~= targets_of(device@));
    }
    r
}

/// A packet: its lines, and an empty line.
pub open spec fn packet_of(lines: Seq<Seq<char>>) -> Seq<char> {
    text::joined(lines, "\r\n"@) + "\r\n\r\n"@
}

/// A packet: its lines, and an empty line.
pub fn ssdp_packet(lines: &Vec<String>) -> (r: String)
    ensures
        r@ == packet_of(text::texts(lines@)),
{
    text::concat2(&text::join(lines, "\r\n"), "\r\n\r\n")
}

/// The lines with which a device is announced to everybody.
pub open spec fn notify_lines(
    location: Seq<char>,
    target: (Seq<char>, Seq<char>),
) -> Seq<Seq<char>> {
    seq![
        "NOTIFY * HTTP/1.1"@,
        "HOST: 239.255.255.250:1900"@,
        "CACHE-CONTROL: max-age=120"@,
        "LOCATION: "@ + location,
        "NT: "@ + target.0,
        "NTS: ssdp:alive"@,
        "SERVER: "@ + SERVER_NAME@,
        "USN: "@ + target.1,
        "BOOTID.UPNP.ORG: 1"@,
        "CONFIGID.UPNP.ORG: 1"@,
    ]
}

/// The lines with which a search is answered.
pub open spec fn answer_lines(
    location: Seq<char>,
    target: (Seq<char>, Seq<char>),
) -> Seq<Seq<char>> {
    seq![
        "HTTP/1.1 200 OK"@,
        "CACHE-CONTROL: max-age=120"@,
        "EXT:"@,
        "LOCATION: "@ + location,
        "SERVER: "@ + SERVER_NAME@,
        "ST: "@ + target.0,
        "USN: "@ + target.1,
        "BOOTID.UPNP.ORG: 1"@,
        "CONFIGID.UPNP.ORG: 1"@,
    ]
}

/// Appends a line.
fn put_line(lines: &mut Vec<String>, start: &str, rest: &str)
    ensures
        text::texts(final(lines)@) == text::texts(old(lines)@).push(start@ + rest@),
{
    let ghost before = text::texts(lines@);
    lines.push(text::concat2(start, rest));
    proof {
        assert(text::texts(lines@) =~= before.push(start@ + rest@));
    }
}

/// Appends a line that is always the same.
fn put_fixed(lines: &mut Vec<String>, line: &str)
    ensures
        text::texts(final(lines)@) == text::texts(old(lines)@).push(line@),
{
    let ghost before = text::texts(lines@);
    lines.push(line.to_string());
    proof {
        assert(text::texts(lines@) =~= before.push(line@));
    }
}

fn notify_packet(location: &str, target: &(String, String)) -> (r: String)
    ensures
        r@ == packet_of(notify_lines(location@, (target.0@, target.1@))),
{
    let mut lines: Vec<String> = Vec::new();
    put_fixed(&mut lines, "NOTIFY * HTTP/1.1");
    put_fixed(&mut lines, "HOST: 239.255.255.250:1900");
    put_fixed(&mut lines, "CACHE-CONTROL: max-age=120");
    put_line(&mut lines, "LOCATION: ", location);
    put_line(&mut lines, "NT: ", &target.0);
    put_fixed(&mut lines, "NTS: ssdp:alive");
    put_line(&mut lines, "SERVER: ", SERVER_NAME);
    put_line(&mut lines, "USN: ", &target.1);
    put_fixed(&mut lines, "BOOTID.UPNP.ORG: 1");
    put_fixed(&mut lines, "CONFIGID.UPNP.ORG: 1");
    proof {
        assert(text::texts(lines@) =~= notify_lines(location@, (target.0@, target.1@)));
    }
    ssdp_packet(&lines)
}

fn answer_packet(location: &str, target: &(String, String)) -> (r: String)
    ensures
        r@ == packet_of(answer_lines(location@, (target.0@, target.1@))),
{
    let mut lines: Vec<String> = Vec::new();
    put_fixed(&mut lines, "HTTP/1.1 200 OK");
    put_fixed(&mut lines, "CACHE-CONTROL: max-age=120");
    put_fixed(&mut lines, "EXT:");
    put_line(&mut lines, "LOCATION: ", location);
    put_line(&mut lines, "SERVER: ", SERVER_NAME);
    put_line(&mut lines, "ST: ", &target.0);
    put_line(&mut lines, "USN: ", &target.1);
    put_fixed(&mut lines, "BOOTID.UPNP.ORG: 1");
    put_fixed(&mut lines, "CONFIGID.UPNP.ORG: 1");
    proof {
        assert(text::texts(lines@) =~= answer_lines(location@, (target.0@, target.1@)));
    }
    ssdp_packet(&lines)
}

/// The packets with which a device is announced: to everybody, or to one who searches.
pub open spec fn device_packets(base: Seq<char>, device: DeviceView, search: bool) -> Seq<
    Seq<char>,
> {
    let location = location_of(base, device);
    targets_of(device).map_values(
        |t: (Seq<char>, Seq<char>)|
            packet_of(
                if search {
                    answer_lines(location, t)
                } else {
                    notify_lines(location, t)
                },
            ),
    )
}

/// The packets with which devices are announced.
pub open spec fn packets_for(base: Seq<char>, devices: Seq<DeviceView>, search: bool) -> Seq<
    Seq<char>,
>
    decreases devices.len(),
{
    if devices.len() == 0 {
        Seq::empty()
    } else {
        packets_for(base, devices.drop_last(), search) + device_packets(
            base,
            devices.last(),
            search,
        )
    }
}

/// The packets with which a device is announced.
fn packets_of_device(upnp_base_url: &str, device: &UpnpDeviceInfo, search: bool) -> (r: Vec<String>)
    ensures
        text::texts(r@) == device_packets(upnp_base_url@, device@, search),
{
    let location = upnp_device_location(upnp_base_url, device);
    let targets = upnp_targets(device);
    let ghost all = device_packets(upnp_base_url@, device@, search);
    let mut r: Vec<String> = Vec::new();
    let mut i: usize = 0;
    while i < targets.len()
        invariant
            location@ == location_of(upnp_base_url@, device@),
            pair_views(targets@) == targets_of(device@),
            all == device_packets(upnp_base_url@, device@, search),
            i <= targets@.len(),
            text::texts(r@) == all.take(i as int),
        decreases targets@.len() - i,
    {
        let ghost before = text::texts(r@);
        proof {
            assert(pair_views(targets@)[i as int] == (targets@[i as int].0@, targets@[i as int].1@));
        }
        let packet = if search {
            answer_packet(&location, &targets[i])
        } else {
            notify_packet(&location, &targets[i])
        };
        let ghost made = packet@;
        r.push(packet);
        proof {
            assert(made == all[i as int]);
            assert(text::texts(r@) =~= before.push(made));
            assert(all.take(i + 1) =~= all.take(i as int).push(all[i as int]));
        }
        i += 1;
    }
    proof {
        assert(pair_views(targets@).len() == targets@.len());
        assert(all.take(i as int) =~= all);
    }
    r
}

/// The packets with which devices are announced: to everybody, or to one who searches.
pub fn announcement_packets(upnp_base_url: &str, devices: &Vec<UpnpDeviceInfo>, search: bool) -> (r:
    Vec<String>)
    ensures
        text::texts(r@) == packets_for(upnp_base_url@, device_views(devices@), search),
{
    let ghost all = device_views(devices@);
    let mut r: Vec<String> = Vec::new();
    let mut i: usize = 0;
    proof {
        assert(text::texts(r@) =~= packets_for(upnp_base_url@, all.take(0), search));
    }
    while i < devices.len()
        invariant
            all == device_views(devices@),
            i <= devices@.len(),
            text::texts(r@) == packets_for(upnp_base_url@, all.take(i as int), search),
        decreases devices@.len() - i,
    {
        let ghost before = text::texts(r@);
        let mut more = packets_of_device(upnp_base_url, &devices[i], search);
        let ghost added = text::texts(more@);
        r.append(&mut more);
        proof {
            assert(text::texts(r@) =~= before + added);
            assert(all.take(i + 1).drop_last() =~= all.take(i as int));
            assert(all.take(i + 1).last() == devices@[i as int]@);
        }
        i += 1;
    }
    proof {
        assert(all.take(i as int) =~= all);
    }
    r
}

/// Whether a text is a search for devices, in capitals or not.
pub open spec fn search_text(s: Seq<char>) -> bool {
    let upper = text::ascii_upper(s);
    text::has_part(upper, "M-SEARCH"@) && text::has_part(upper, "SSDP:DISCOVER"@)
}

/// Whether a text is a search for devices.
pub fn is_search_text(s: &str) -> (r: bool)
    ensures
        r == search_text(s@),
{
    let upper = text::to_ascii_upper(s);
    text::contains(&upper, "M-SEARCH") && text::contains(&upper, "SSDP:DISCOVER")
}

/// Whether a packet is a search for devices.
pub fn is_search_packet(packet: &[u8]) -> (r: bool)
    ensures
        r == search_text(encoding::lossy_text(packet@)),
{
    is_search_text(&encoding::utf8_text_lossy(packet))
}

// ---------------------------------------------------------------------------
// Laws
// ---------------------------------------------------------------------------

/// Each device is announced as itself, and as what it is: all names under which it is announced
/// begin with its identifier.
pub proof fn law_targets_name_device(device: DeviceView)
    ensures
        forall|i: int|
            0 <= i < targets_of(device).len() ==> text::begins(
                #[trigger] targets_of(device)[i].1,
                "uuid:"@ + device.uuid,
            ),
{
    let uuid = "uuid:"@ + device.uuid;
    assert forall|i: int| 0 <= i < targets_of(device).len() implies text::begins(
        #[trigger] targets_of(device)[i].1,
        uuid,
    ) by {
        let name = targets_of(device)[i].1;
        assert(name.subrange(0, uuid.len() as int) =~= uuid);
    }
}

/// The proxy is always found as a device, whatever phones there are, and a phone that is not shown
/// is not.
pub proof fn law_root_device_is_always_there(s: RegistryView, key: Seq<char>, now: u64)
    ensures
        device_named(s, "root"@, now) == Some(root_device()),
        key != "root"@ && device_named(s, key, now) is Some ==> exists|i: int|
            0 <= i < s.phones.len() && (#[trigger] s.phones[i]).id == key && registry::published(
                s.phones[i],
                now,
            ),
{
    registry::lemma_place(s.phones, key, 0);
}

/// The port of an address is what stands behind its last colon; an address without one has the
/// default.
pub proof fn law_port_of_address(host: Seq<char>, port: u16, default_port: u16)
    ensures
        port_of(host + ":"@ + numbers::dec(port as nat), default_port) == port,
        port_of(host + ":"@, default_port) == default_port,
{
    reveal_strlit(":");
    let d = numbers::dec(port as nat);
    let colon = CharSet::Only(':');
    assert(":"@ =~= seq![':']);
    numbers::lemma_digits_of(port as nat, 10);
    assert(text::free_of(d, colon)) by {
        assert forall|i: int| 0 <= i < d.len() implies !colon.has(#[trigger] d[i]) by {
            assert(numbers::digit_value(d[i]) < 10);
        }
    }
    text::lemma_tail_behind(host, ':', d, colon);
    text::lemma_tail_behind(host, ':', Seq::empty(), colon);
    assert(host + seq![':'] + Seq::<char>::empty() =~= host + ":"@);
    numbers::law_parse_of_dec(port as nat, 0, u16::MAX as nat);
}

/// The proxy is the first device, and then comes a device for each phone in its order: it has the
/// phone's identifier, which is also its own in addresses, and the phone's name.
pub proof fn law_devices_follow_phones(phones: Seq<PhoneView>, i: int)
    requires
        0 <= i < phones.len(),
    ensures
        devices_for(phones).len() == phones.len() + 1,
        devices_for(phones)[0].key == "root"@ && devices_for(phones)[0].friendly_name == "TROOZN"@
            && devices_for(phones)[0].phone_id is None,
        devices_for(phones)[i + 1].key == phones[i].id,
        devices_for(phones)[i + 1].phone_id == Some(phones[i].id),
        devices_for(phones)[i + 1].friendly_name == "TROOZN - "@ + phones[i].display_name,
        devices_for(phones)[i + 1].uuid == ids::uuid_for("troozn-phone:"@ + phones[i].id),
{
}

/// A phone that is shown is found as the device under its identifier.
pub proof fn law_shown_phone_is_a_device(s: RegistryView, p: PhoneView, now: u64)
    requires
        registry::with_id(s.phones, p.id) == Some(p),
        p.id != "root"@,
    ensures
        registry::published(p, now) ==> device_named(s, p.id, now) == Some(phone_device(p)),
        !registry::published(p, now) ==> device_named(s, p.id, now) is None,
{
}

/// A device is announced with one packet for each of the things that it is, the packets of devices
/// follow the order of the devices.
pub proof fn law_announcements_follow_devices(
    base: Seq<char>,
    devices: Seq<DeviceView>,
    device: DeviceView,
    search: bool,
)
    ensures
        packets_for(base, Seq::empty(), search).len() == 0,
        packets_for(base, devices.push(device), search) == packets_for(base, devices, search)
            + device_packets(base, device, search),
        device_packets(base, device, search).len() == 5,
        packets_for(base, devices, search).len() == 5 * devices.len(),
    decreases devices.len(),
{
    assert(devices.push(device).drop_last() =~= devices);
    if devices.len() > 0 {
        law_announcements_follow_devices(base, devices.drop_last(), devices.last(), search);
        assert(devices.drop_last().push(devices.last()) =~= devices);
    }
}

/// Each packet says where the device is described, and what it is announced as under which name:
/// one to everybody says that the device is there, one to a searcher that the search succeeded.
pub proof fn law_packets_tell_device(base: Seq<char>, device: DeviceView, i: int)
    requires
        0 <= i < 5,
    ensures
        ({
            let target = targets_of(device)[i];
            let location = location_of(base, device);
            let all = notify_lines(location, target);
            let one = answer_lines(location, target);
            &&& device_packets(base, device, false)[i] == packet_of(all)
            &&& device_packets(base, device, true)[i] == packet_of(one)
            &&& all[0] == "NOTIFY * HTTP/1.1"@ && one[0] == "HTTP/1.1 200 OK"@
            &&& all[3] == "LOCATION: "@ + location && one[3] == "LOCATION: "@ + location
            &&& all[4] == "NT: "@ + target.0 && one[5] == "ST: "@ + target.0
            &&& all[7] == "USN: "@ + target.1 && one[6] == "USN: "@ + target.1
            &&& all[5] == "NTS: ssdp:alive"@
            &&& location == base + "/upnp/"@ + encoding::percent_encoded(device.key)
                + "/device.xml"@
        }),
        targets_of(device)[0].0 == "upnp:rootdevice"@,
        targets_of(device)[1].0 == "uuid:"@ + device.uuid,
        targets_of(device)[1].1 == "uuid:"@ + device.uuid,
        targets_of(device)[2].0 == "urn:schemas-upnp-org:device:MediaServer:1"@,
        targets_of(device)[3].0 == "urn:schemas-upnp-org:service:ContentDirectory:1"@,
        targets_of(device)[4].0 == "urn:schemas-upnp-org:service:ConnectionManager:1"@,
        i != 1 ==> targets_of(device)[i].1 == "uuid:"@ + device.uuid + "::"@ + targets_of(
            device,
        )[i].0,
{
    reveal_strlit("::");
    reveal_strlit("::upnp:rootdevice");
    reveal_strlit("upnp:rootdevice");
    reveal_strlit("::urn:schemas-upnp-org:device:MediaServer:1");
    reveal_strlit("urn:schemas-upnp-org:device:MediaServer:1");
    reveal_strlit("::urn:schemas-upnp-org:service:ContentDirectory:1");
    reveal_strlit("urn:schemas-upnp-org:service:ContentDirectory:1");
    reveal_strlit("::urn:schemas-upnp-org:service:ConnectionManager:1");
    reveal_strlit("urn:schemas-upnp-org:service:ConnectionManager:1");
    assert("::upnp:rootdevice"@ =~= "::"@ + "upnp:rootdevice"@);
    assert("::urn:schemas-upnp-org:device:MediaServer:1"@ =~= "::"@
        + "urn:schemas-upnp-org:device:MediaServer:1"@);
    assert("::urn:schemas-upnp-org:service:ContentDirectory:1"@ =~= "::"@
        + "urn:schemas-upnp-org:service:ContentDirectory:1"@);
    assert("::urn:schemas-upnp-org:service:ConnectionManager:1"@ =~= "::"@
        + "urn:schemas-upnp-org:service:ConnectionManager:1"@);
    let name = targets_of(device)[i].1;
    if i != 1 {
        assert(name =~= "uuid:"@ + device.uuid + "::"@ + targets_of(device)[i].0);
    }
}

/// A packet ends with an empty line, and its lines stand in their order.
pub proof fn law_packet_ends_with_empty_line(lines: Seq<Seq<char>>, line: Seq<char>)
    ensures
        packet_of(seq![line]) == line + "\r\n\r\n"@,
        lines.len() > 0 ==> packet_of(lines.push(line)) == text::joined(lines, "\r\n"@) + "\r\n"@
            + line + "\r\n\r\n"@,
        lines.len() > 0 ==> packet_of(lines) == text::joined(lines, "\r\n"@) + "\r\n\r\n"@,
{
    assert(lines.push(line).drop_last() =~= lines);
}

/// A text with both marks of a search is one, in capitals or small letters.
pub proof fn law_search_is_understood(before: Seq<char>, between: Seq<char>, after: Seq<char>)
    ensures
        search_text(before + "M-SEARCH"@ + between + "ssdp:discover"@ + after),
        search_text(before + "m-search"@ + between + "SSDP:DISCOVER"@ + after),
        !text::has_part(text::ascii_upper(before), "M-SEARCH"@) ==> !search_text(before),
        !text::has_part(text::ascii_upper(before), "SSDP:DISCOVER"@) ==> !search_text(before),
{
    reveal_strlit("M-SEARCH");
    reveal_strlit("m-search");
    reveal_strlit("SSDP:DISCOVER");
    reveal_strlit("ssdp:discover");
    let a = before + "M-SEARCH"@ + between + "ssdp:discover"@ + after;
    let b = before + "m-search"@ + between + "SSDP:DISCOVER"@ + after;
    let i = before.len() as int;
    let j = i + 8 + between.len();
    text::lemma_part_at(text::ascii_upper(a), "M-SEARCH"@, i);
    text::lemma_part_at(text::ascii_upper(a), "SSDP:DISCOVER"@, j);
    text::lemma_part_at(text::ascii_upper(b), "M-SEARCH"@, i);
    text::lemma_part_at(text::ascii_upper(b), "SSDP:DISCOVER"@, j);
}

/// The description of a device tells its name, its identifiers and the addresses under which its
/// services are described and asked.
pub proof fn law_description_tells_device(base: Seq<char>, device: DeviceView)
    ensures
        ({
            let s = description_of(base, device);
            let key = encoding::percent_encoded(device.key);
            &&& text::has_part(s, "<friendlyName>"@ + xml::xml_escaped(device.friendly_name))
            &&& text::has_part(s, "<serialNumber>"@ + xml::xml_escaped(device.key))
            &&& text::has_part(s, "<UDN>uuid:"@ + xml::xml_escaped(device.uuid))
            &&& text::has_part(s, "<URLBase>"@ + base)
            &&& text::has_part(s, "<presentationURL>"@ + base)
            &&& text::has_part(s, "/ContentDirectory.xml</SCPDURL><controlURL>/upnp/"@ + key)
            &&& text::has_part(
                s,
                "/control/ContentDirectory</controlURL><eventSubURL>/upnp/"@ + key,
            )
            &&& text::has_part(s, "/ConnectionManager.xml</SCPDURL><controlURL>/upnp/"@ + key)
            &&& text::has_part(
                s,
                "/control/ConnectionManager</controlURL><eventSubURL>/upnp/"@ + key,
            )
        }),
{
    let none = Seq::<Seq<char>>::empty();
    let nothing = Seq::<char>::empty();
    let key = encoding::percent_encoded(device.key);
    let name = xml::xml_escaped(device.friendly_name);
    let serial = xml::xml_escaped(device.key);
    let uuid = xml::xml_escaped(device.uuid);
    let k0 = "<?xml version=\"1.0\" encoding=\"UTF-8\"?><root xmlns=\"urn:schemas-upnp-org:device-1-0\"><specVersion><major>1</major><minor>0</minor></specVersion><URLBase>"@;
    let k1 = "/upnp/"@;
    let k2 = "/</URLBase><device><deviceType>urn:schemas-upnp-org:device:MediaServer:1</deviceType><friendlyName>"@;
    let k3 = "</friendlyName><manufacturer>TROOZN</manufacturer><modelDescription>TROOZN Radxa WebTransport UPnP/DLNA bridge</modelDescription><modelName>TROOZN Radxa Media Bridge</modelName><modelNumber>1</modelNumber><serialNumber>"@;
    let k4 = "</serialNumber><UDN>uuid:"@;
    let k5 = "</UDN><presentationURL>"@;
    let k6 = "/</presentationURL><serviceList><service><serviceType>urn:schemas-upnp-org:service:ContentDirectory:1</serviceType><serviceId>urn:upnp-org:serviceId:ContentDirectory</serviceId><SCPDURL>/upnp/"@;
    let k7 = "/ContentDirectory.xml</SCPDURL><controlURL>/upnp/"@;
    let k8 = "/control/ContentDirectory</controlURL><eventSubURL>/upnp/"@;
    let k9 = "/event/ContentDirectory</eventSubURL></service><service><serviceType>urn:schemas-upnp-org:service:ConnectionManager:1</serviceType><serviceId>urn:upnp-org:serviceId:ConnectionManager</serviceId><SCPDURL>/upnp/"@;
    let k10 = "/ConnectionManager.xml</SCPDURL><controlURL>/upnp/"@;
    let k11 = "/control/ConnectionManager</controlURL><eventSubURL>/upnp/"@;
    let k12 = "/event/ConnectionManager</eventSubURL></service></serviceList></device></root>"@;
    text::lemma_next_field(nothing, k0, base, none);
    assert(nothing + k0 =~= k0);
    let c0 = k0 + base;
    let p0 = none.push(k0 + base);
    text::lemma_next_field(c0, k1, key, p0);
    let c1 = c0 + k1 + key;
    let p1 = p0.push(k1 + key);
    text::lemma_next_field(c1, k2, name, p1);
    let c2 = c1 + k2 + name;
    let p2 = p1.push(k2 + name);
    text::lemma_next_field(c2, k3, serial, p2);
    let c3 = c2 + k3 + serial;
    let p3 = p2.push(k3 + serial);
    text::lemma_next_field(c3, k4, uuid, p3);
    let c4 = c3 + k4 + uuid;
    let p4 = p3.push(k4 + uuid);
    text::lemma_next_field(c4, k5, base, p4);
    let c5 = c4 + k5 + base;
    let p5 = p4.push(k5 + base);
    text::lemma_next_field(c5, k6, key, p5);
    let c6 = c5 + k6 + key;
    let p6 = p5.push(k6 + key);
    text::lemma_next_field(c6, k7, key, p6);
    let c7 = c6 + k7 + key;
    let p7 = p6.push(k7 + key);
    text::lemma_next_field(c7, k8, key, p7);
    let c8 = c7 + k8 + key;
    let p8 = p7.push(k8 + key);
    text::lemma_next_field(c8, k9, key, p8);
    let c9 = c8 + k9 + key;
    let p9 = p8.push(k9 + key);
    text::lemma_next_field(c9, k10, key, p9);
    let c10 = c9 + k10 + key;
    let p10 = p9.push(k10 + key);
    text::lemma_next_field(c10, k11, key, p10);
    let c11 = c10 + k11 + key;
    let p11 = p10.push(k11 + key);
    text::lemma_next_field(c11, k12, nothing, p11);
    let s = c11 + k12;
    assert(s + nothing =~= s);
    let told = p11.push(k12 + nothing);
    assert(description_of(base, device) == s);
    assert(told[0] == k0 + base);
    assert(told[2] == k2 + name);
    assert(told[3] == k3 + serial);
    assert(told[4] == k4 + uuid);
    assert(told[5] == k5 + base);
    assert(told[7] == k7 + key);
    assert(told[8] == k8 + key);
    assert(told[10] == k10 + key);
    assert(told[11] == k11 + key);
    reveal_strlit("<?xml version=\"1.0\" encoding=\"UTF-8\"?><root xmlns=\"urn:schemas-upnp-org:device-1-0\"><specVersion><major>1</major><minor>0</minor></specVersion><URLBase>");
    reveal_strlit("/</URLBase><device><deviceType>urn:schemas-upnp-org:device:MediaServer:1</deviceType><friendlyName>");
    reveal_strlit("</friendlyName><manufacturer>TROOZN</manufacturer><modelDescription>TROOZN Radxa WebTransport UPnP/DLNA bridge</modelDescription><modelName>TROOZN Radxa Media Bridge</modelName><modelNumber>1</modelNumber><serialNumber>");
    reveal_strlit("</serialNumber><UDN>uuid:");
    reveal_strlit("</UDN><presentationURL>");
    reveal_strlit("<URLBase>");
    reveal_strlit("<friendlyName>");
    reveal_strlit("<serialNumber>");
    reveal_strlit("<UDN>uuid:");
    reveal_strlit("<presentationURL>");
    assert(k0.skip(k0.len() - 9) =~= "<URLBase>"@);
    assert(k2.skip(k2.len() - 14) =~= "<friendlyName>"@);
    assert(k3.skip(k3.len() - 14) =~= "<serialNumber>"@);
    assert(k4.skip(k4.len() - 10) =~= "<UDN>uuid:"@);
    assert(k5.skip(k5.len() - 17) =~= "<presentationURL>"@);
    lemma_end_of_field(s, k0, "<URLBase>"@, base);
    lemma_end_of_field(s, k2, "<friendlyName>"@, name);
    lemma_end_of_field(s, k3, "<serialNumber>"@, serial);
    lemma_end_of_field(s, k4, "<UDN>uuid:"@, uuid);
    lemma_end_of_field(s, k5, "<presentationURL>"@, base);
}

/// A text that holds a field holds how the name of the field ends, with the value behind it.
proof fn lemma_end_of_field(s: Seq<char>, name: Seq<char>, end: Seq<char>, value: Seq<char>)
    requires
        text::has_part(s, name + value),
        end.len() <= name.len(),
        name.skip(name.len() - end.len()) == end,
    ensures
        text::has_part(s, end + value),
{
    let field = name + value;
    let n = name.len() - end.len();
    assert(field.subrange(n, field.len() as int) =~= end + value);
    text::lemma_part_at(field, end + value, n);
    text::lemma_part_of_part(s, field, end + value);
}

} // verus!
