use troozn_proxy::browse::{
    browse_response, described_file, upnp_browse, upnp_connection_manager_control,
    upnp_content_directory_control, BrowseStep, ControlStep,
};
use troozn_proxy::gateway::media_target;
use troozn_proxy::media_path::mime_type_for_path;
use troozn_proxy::phone::{PhoneEntry, PhoneResponse};
use troozn_proxy::registry::{PhoneRegister, PhoneRegistry, PhoneSession};
use troozn_proxy::ids::deterministic_uuid;
use troozn_proxy::ssdp::{
    announcement_packets, bind_port, is_search_packet, loopback_base_url, ssdp_packet,
    upnp_device_description_xml, upnp_device_for_key, upnp_device_location, upnp_devices,
    upnp_server_header, upnp_targets, CONNECTION_MANAGER_SCPD, CONTENT_DIRECTORY_SCPD,
    UPNP_ROOT_UUID,
};
use troozn_proxy::upnp::{
    folder_object_id, item_object_id, normalize_upnp_object_id, parent_id_for_phone_path,
    parse_path_object_id, parse_phone_container_id, phone_container_id, protocol_info_for_mime,
    slice_upnp_items, upnp_class_for_mime, upnp_didl, upnp_file_item, upnp_list_phone_directory,
    upnp_media_url, upnp_source_protocol_info, UpnpDeviceInfo, UpnpDidlItem, UpnpState,
};
use troozn_proxy::xml::{soap_response, soap_tag, xml_text};

const BASE: &str = "http://127.0.0.1:8787";

fn registry() -> PhoneRegistry {
    let mut phones = PhoneRegistry::new();
    let registration = PhoneRegister {
        device_id: "a".to_string(),
        display_name: Some("Pixel <1>".to_string()),
        role: "guest".to_string(),
        source_visible: true,
    };
    phones.register(registration, 1, 100).unwrap();
    phones
}

fn phone() -> PhoneSession {
    registry().get_by_id("a", 100).unwrap()
}

fn root() -> UpnpDeviceInfo {
    upnp_device_for_key(&mut registry(), "root", 100).unwrap()
}

fn own() -> UpnpDeviceInfo {
    upnp_device_for_key(&mut registry(), "a", 100).unwrap()
}

fn container(id: &str) -> UpnpDidlItem {
    UpnpDidlItem {
        id: id.to_string(),
        parent_id: "0".to_string(),
        title: format!("T{id}"),
        upnp_class: "object.container.storageFolder".to_string(),
        is_container: true,
        child_count: 0,
        protocol_info: None,
        url: None,
        size: None,
    }
}

fn listing(entries: Vec<(&str, bool, u64)>) -> PhoneResponse {
    PhoneResponse {
        ok: Some(true),
        error: None,
        entries: Some(
            entries
                .into_iter()
                .map(|(name, is_directory, size)| PhoneEntry {
                    name: name.to_string(),
                    is_directory,
                    size,
                })
                .collect(),
        ),
        is_directory: None,
        size: None,
    }
}

#[test]
fn markup_is_escaped() {
    assert_eq!(xml_text("a<b>&\"'"), "a&lt;b&gt;&amp;&quot;&apos;");
    assert_eq!(xml_text("&amp;"), "&amp;amp;");
}

#[test]
fn elements_of_requests_are_found() {
    let body = "<u:Browse><ObjectID>phone:a</ObjectID><BrowseFlag dt=\"x\"> Y </BrowseFlag></u:Browse>";
    assert_eq!(soap_tag(body, "ObjectID").as_deref(), Some("phone:a"));
    assert_eq!(soap_tag(body, "Missing"), None);
}

#[test]
fn answers_are_wrapped() {
    assert_eq!(
        soap_response("ContentDirectory", "XResponse", "<Id>1</Id>"),
        "<?xml version=\"1.0\" encoding=\"UTF-8\"?><s:Envelope xmlns:s=\"http://schemas.xmlsoap.org/soap/envelope/\" s:encodingStyle=\"http://schemas.xmlsoap.org/soap/encoding/\"><s:Body><u:XResponse xmlns:u=\"urn:schemas-upnp-org:service:ContentDirectory:1\"><Id>1</Id></u:XResponse></s:Body></s:Envelope>"
    );
}

#[test]
fn object_identifiers_name_phones_and_paths() {
    assert_eq!(phone_container_id("a b"), "phone:a%20b");
    assert_eq!(folder_object_id("a", "/x y"), "folder:a:%2Fx%20y");
    assert_eq!(item_object_id("a", "x\\y.mp4"), "item:a:%2Fx%2Fy.mp4");
    assert_eq!(parse_phone_container_id("phone:a%20b").as_deref(), Some("a b"));
    assert_eq!(parse_phone_container_id("phone:"), None);
    assert_eq!(parse_phone_container_id("folder:a"), None);
    assert_eq!(
        parse_path_object_id("folder:a:%2Fx%20y", "folder"),
        Some(("a".to_string(), "/x y".to_string()))
    );
    assert_eq!(parse_path_object_id("folder:a", "folder"), None);
    assert_eq!(parse_path_object_id("item:a:%2Fx", "folder"), None);
}

#[test]
fn object_identifiers_are_cleaned() {
    assert_eq!(normalize_upnp_object_id("  "), "0");
    assert_eq!(normalize_upnp_object_id("upnp://uuid/phone%253Aa/"), "phone:a");
    assert_eq!(normalize_upnp_object_id("folder:a:%2Fx"), "folder:a:/x");
    assert_eq!(normalize_upnp_object_id("///"), "0");
    let listed = item_object_id("a", "/x/y.mp4");
    assert_eq!(
        parse_path_object_id(&normalize_upnp_object_id(&listed), "item"),
        Some(("a".to_string(), "/x/y.mp4".to_string()))
    );
    let listed = item_object_id("a", "/50% off/%FF");
    assert_eq!(
        parse_path_object_id(&normalize_upnp_object_id(&listed), "item"),
        Some(("a".to_string(), "/50% off/%FF".to_string()))
    );
    assert_eq!(
        parse_phone_container_id(&normalize_upnp_object_id(&phone_container_id("a"))).as_deref(),
        Some("a")
    );
}

#[test]
fn classes_follow_the_media_type() {
    assert_eq!(upnp_class_for_mime("audio/mpeg"), "object.item.audioItem.musicTrack");
    assert_eq!(upnp_class_for_mime("video/mp4"), "object.item.videoItem");
    assert_eq!(upnp_class_for_mime("image/png"), "object.item.imageItem.photo");
    assert_eq!(upnp_class_for_mime("text/plain"), "object.item");
    assert_eq!(
        protocol_info_for_mime("video/mp4"),
        "http-get:*:video/mp4:DLNA.ORG_OP=01;DLNA.ORG_CI=0"
    );
    assert!(upnp_source_protocol_info().starts_with("http-get:*:audio/mpeg:"));
}

#[test]
fn media_links_lead_back_to_the_file() {
    let url = upnp_media_url(BASE, "Pixel <1>", "/a b/c.mp4");
    assert_eq!(url, "http://127.0.0.1:8787/media/Pixel%20%3C1%3E/a%20b/c.mp4");
    let raw = url.strip_prefix("http://127.0.0.1:8787/media/").unwrap();
    let (found, path) = media_target(&mut registry(), raw, 100).unwrap();
    assert_eq!((found.id.as_str(), path.as_str()), ("a", "/a b/c.mp4"));
}

#[test]
fn parents_depend_on_the_device() {
    assert_eq!(parent_id_for_phone_path(true, "a", "/"), "0");
    assert_eq!(parent_id_for_phone_path(false, "a", "/"), "phone:a");
    assert_eq!(parent_id_for_phone_path(true, "a", "/x"), "folder:a:%2Fx");
    let item = upnp_file_item(BASE, false, &phone(), "/x/y.mp3", 5);
    assert_eq!(item.parent_id, "folder:a:%2Fx");
    assert_eq!(item.title, "y.mp3");
    assert_eq!(item.size, Some(5));
}

#[test]
fn items_are_described_in_didl() {
    let start = "<DIDL-Lite xmlns=\"urn:schemas-upnp-org:metadata-1-0/DIDL-Lite/\" xmlns:dc=\"http://purl.org/dc/elements/1.1/\" xmlns:upnp=\"urn:schemas-upnp-org:metadata-1-0/upnp/\">";
    assert_eq!(upnp_didl(&vec![]), format!("{start}</DIDL-Lite>"));
    let file = upnp_file_item(BASE, true, &phone(), "/y&.mp3", 0);
    assert_eq!(
        upnp_didl(&vec![container("x"), file]),
        format!("{start}<container id=\"x\" parentID=\"0\" restricted=\"1\" searchable=\"0\" childCount=\"0\"><dc:title>Tx</dc:title><upnp:class>object.container.storageFolder</upnp:class></container><item id=\"item:a:%2Fy%26.mp3\" parentID=\"0\" restricted=\"1\"><dc:title>y&amp;.mp3</dc:title><upnp:class>object.item.audioItem.musicTrack</upnp:class><res protocolInfo=\"http-get:*:audio/mpeg:DLNA.ORG_OP=01;DLNA.ORG_CI=0\">http://127.0.0.1:8787/media/Pixel%20%3C1%3E/y%26.mp3</res></item></DIDL-Lite>")
    );
}

#[test]
fn pages_of_items_are_cut() {
    let items: Vec<UpnpDidlItem> = ["a", "b", "c"].iter().map(|i| container(i)).collect();
    let ids = |from: usize, count: usize| -> Vec<String> {
        slice_upnp_items(&items, from, count).iter().map(|i| i.id.clone()).collect()
    };
    assert_eq!(ids(0, 0), vec!["a", "b", "c"]);
    assert_eq!(ids(1, 1), vec!["b"]);
    assert_eq!(ids(1, usize::MAX), vec!["b", "c"]);
    assert!(ids(3, 1).is_empty());
    let mut joined = ids(0, 2);
    joined.extend(ids(2, 1));
    assert_eq!(joined, ids(0, 3));
}

#[test]
fn directories_come_first_and_by_name() {
    let response = listing(vec![
        ("b.mp3", false, 1),
        (".", true, 0),
        ("Éa", true, 0),
        ("A.mp3", false, 2),
        ("zz", true, 0),
    ]);
    let items = upnp_list_phone_directory(BASE, &phone(), "/x", "p", response).unwrap();
    let titles: Vec<&str> = items.iter().map(|i| i.title.as_str()).collect();
    assert_eq!(titles, vec!["zz", "Éa", "A.mp3", "b.mp3"]);
    assert_eq!(items[0].id, "folder:a:%2Fx%2Fzz");
    assert!(items.iter().all(|i| i.parent_id == "p"));
    let mut refused = listing(vec![]);
    refused.ok = Some(false);
    assert_eq!(
        upnp_list_phone_directory(BASE, &phone(), "/", "0", refused).unwrap_err(),
        "erreur telephone"
    );
}

#[test]
fn control_requests_are_recognized() {
    let reply = |body: &str| match upnp_content_directory_control(body) {
        ControlStep::Reply(text) => text,
        other => panic!("{other:?}"),
    };
    assert!(reply("..GetSearchCapabilities..").contains("<SearchCaps></SearchCaps>"));
    assert!(reply("..GetSortCapabilities..").contains("<SortCaps>dc:title</SortCaps>"));
    assert!(reply("..GetSystemUpdateID..").contains("<Id>1</Id>"));
    assert!(reply("..UpdateObject..").contains("UpdateObjectResponse"));
    match upnp_content_directory_control("<ObjectID>phone%3Aa</ObjectID><StartingIndex>2</StartingIndex><RequestedCount>x</RequestedCount>") {
        ControlStep::Browse(request) => {
            assert_eq!(request.object_id, "phone:a");
            assert_eq!(request.browse_flag, "BrowseDirectChildren");
            assert_eq!((request.starting_index, request.requested_count), (2, 0));
        }
        other => panic!("{other:?}"),
    }
    assert!(upnp_connection_manager_control("GetProtocolInfo").contains("<Sink></Sink>"));
    assert!(upnp_connection_manager_control("GetCurrentConnectionIDs")
        .contains("<ConnectionIDs>0</ConnectionIDs>"));
    assert!(upnp_connection_manager_control("other").contains("<RcsID>-1</RcsID>"));
}

#[test]
fn browsing_leads_through_phones() {
    let mut phones = registry();
    match upnp_browse(&mut phones, &root(), "0", "BrowseDirectChildren", 100) {
        BrowseStep::Items(items) => {
            assert_eq!(items.len(), 1);
            assert_eq!(items[0].id, "phone:a");
            assert_eq!(items[0].title, "Pixel <1>");
        }
        other => panic!("{other:?}"),
    }
    match upnp_browse(&mut phones, &own(), "0", "x", 100) {
        BrowseStep::AskList { path, parent_id, .. } => {
            assert_eq!((path.as_str(), parent_id.as_str()), ("/", "0"))
        }
        other => panic!("{other:?}"),
    }
    match upnp_browse(&mut phones, &root(), "folder:a:/x", "x", 100) {
        BrowseStep::AskList { path, parent_id, .. } => {
            assert_eq!((path.as_str(), parent_id.as_str()), ("/x", "folder:a:/x"))
        }
        other => panic!("{other:?}"),
    }
    match upnp_browse(&mut phones, &root(), "phone:z", "x", 100) {
        BrowseStep::Fail(message) => assert_eq!(message, "telephone UPnP indisponible: z"),
        other => panic!("{other:?}"),
    }
    assert!(matches!(
        upnp_browse(&mut phones, &root(), "item:a:/x", "x", 100),
        BrowseStep::Items(items) if items.is_empty()
    ));
}

#[test]
fn objects_are_described() {
    let mut phones = registry();
    let mut describe = |id: &str| upnp_browse(&mut phones, &root(), id, "BrowseMetadata", 100);
    assert!(matches!(describe("0"), BrowseStep::Items(i) if i[0].parent_id == "-1"));
    assert!(matches!(describe("phone:a"), BrowseStep::Items(i) if i[0].title == "Pixel <1>"));
    assert!(matches!(describe("phone:z"), BrowseStep::Items(i) if i.is_empty()));
    assert!(matches!(describe("folder:a:/x/y"), BrowseStep::Items(i)
        if i[0].title == "y" && i[0].parent_id == "folder:a:%2Fx"));
    assert!(matches!(describe("item:a:/x/y.mp4"), BrowseStep::AskStat { path, .. }
        if path == "/x/y.mp4"));
    assert!(matches!(describe("other"), BrowseStep::Items(i) if i.is_empty()));
    let mut stat = listing(vec![]);
    stat.size = Some(7);
    let item = described_file(BASE, &root(), &phone(), "/y.mp4", stat).unwrap();
    assert_eq!((item.size, item.parent_id.as_str()), (Some(7), "phone:a"));
}

#[test]
fn browse_answers_count() {
    let items = vec![container("a"), container("b")];
    let text = browse_response(&items, 1, 5);
    assert!(text.contains("<NumberReturned>1</NumberReturned><TotalMatches>2</TotalMatches><UpdateID>1</UpdateID>"));
    assert!(text.contains("<Result>&lt;DIDL-Lite"));
}

#[test]
fn devices_are_announced() {
    let mut phones = registry();
    let devices = upnp_devices(&mut phones, 100);
    assert_eq!(devices.len(), 2);
    assert_eq!(devices[0].uuid, UPNP_ROOT_UUID);
    assert_eq!(devices[1].friendly_name, "TROOZN - Pixel <1>");
    assert_eq!(devices[1].uuid, deterministic_uuid("troozn-phone:a"));
    assert!(upnp_device_for_key(&mut phones, "z", 100).is_none());
    assert_eq!(upnp_targets(&devices[0])[1].0, format!("uuid:{UPNP_ROOT_UUID}"));
    assert_eq!(
        upnp_device_location("http://h:1", &devices[1]),
        "http://h:1/upnp/a/device.xml"
    );
    let packets = announcement_packets("http://h:1", &devices, false);
    assert_eq!(packets.len(), 10);
    assert_eq!(
        packets[0],
        format!("NOTIFY * HTTP/1.1\r\nHOST: 239.255.255.250:1900\r\nCACHE-CONTROL: max-age=120\r\nLOCATION: http://h:1/upnp/root/device.xml\r\nNT: upnp:rootdevice\r\nNTS: ssdp:alive\r\nSERVER: Linux UPnP/1.1 TROOZN-Radxa/1.0\r\nUSN: uuid:{UPNP_ROOT_UUID}::upnp:rootdevice\r\nBOOTID.UPNP.ORG: 1\r\nCONFIGID.UPNP.ORG: 1\r\n\r\n")
    );
    let answers = announcement_packets("http://h:1", &devices, true);
    assert!(answers[0].starts_with("HTTP/1.1 200 OK\r\nCACHE-CONTROL: max-age=120\r\nEXT:\r\nLOCATION: "));
    assert!(answers[0].contains("\r\nST: upnp:rootdevice\r\nUSN: "));
    let lines = vec!["a".to_string(), "b".to_string()];
    assert_eq!(ssdp_packet(&lines), "a\r\nb\r\n\r\n");
}

#[test]
fn searches_are_recognized() {
    assert!(is_search_packet(b"m-search * HTTP/1.1\r\nMAN: \"ssdp:discover\"\r\n\xff"));
    assert!(!is_search_packet(b"NOTIFY * HTTP/1.1\r\n"));
    assert!(!is_search_packet(b"M-SEARCH * HTTP/1.1\r\n"));
}

#[test]
fn addresses_of_servers() {
    assert_eq!(bind_port("0.0.0.0:9000", 1), 9000);
    assert_eq!(bind_port("nothing", 1), 1);
    assert_eq!(loopback_base_url("0.0.0.0:9000", 1), "http://127.0.0.1:9000");
    let state = UpnpState::new("0.0.0.0:8788", "127.0.0.1:8787", "10.0.0.2");
    assert_eq!(state.upnp_base_url, "http://10.0.0.2:8788");
    assert_eq!(state.media_base_url, "http://127.0.0.1:8787");
    assert_eq!(upnp_server_header(), "Linux UPnP/1.1 TROOZN-Radxa/1.0");
}

#[test]
fn descriptions_of_devices_and_services() {
    let xml = upnp_device_description_xml("http://h:1", &own());
    assert!(xml.contains("<URLBase>http://h:1/upnp/a/</URLBase>"));
    assert!(xml.contains("<friendlyName>TROOZN - Pixel &lt;1&gt;</friendlyName>"));
    assert!(xml.contains("<controlURL>/upnp/a/control/ContentDirectory</controlURL>"));
    assert!(xml.ends_with("</device></root>"));
    assert!(CONTENT_DIRECTORY_SCPD.contains("<action><name>Browse</name>"));
    assert!(CONNECTION_MANAGER_SCPD.contains("<action><name>GetProtocolInfo</name>"));
}

#[test]
fn every_transfer_is_announced_once() {
    let all = upnp_source_protocol_info();
    let parts: Vec<&str> = all.split(',').collect();
    assert_eq!(parts.len(), 18);
    for (i, part) in parts.iter().enumerate() {
        assert!(!parts[..i].contains(part));
    }
    for path in ["/a.MP3", "/b.jpeg", "/c.heif", "/d", "/e.mkv"] {
        let own = protocol_info_for_mime(mime_type_for_path(path));
        assert!(parts.contains(&own.as_str()), "{path}");
    }
}
