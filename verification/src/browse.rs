//! The content directory and the connection manager: what a UPnP client asks, and what it is
//! answered.
use vstd::prelude::*;

use crate::media_path;
use crate::numbers;
use crate::order;
use crate::phone::PhoneResponse;
use crate::phone;
use crate::registry::{PhoneRegistry, PhoneSession, PhoneView, RegistryView};
use crate::registry;
use crate::text;
use crate::upnp::{DeviceView, DidlView, UpnpDeviceInfo, UpnpDidlItem};
use crate::upnp;
use crate::xml;

verus! {

// ---------------------------------------------------------------------------
// Browsing
// ---------------------------------------------------------------------------

/// What is to be done to answer a question about an object.
#[derive(Debug)]
pub enum BrowseStep {
    /// These objects are the answer.
    Items(Vec<UpnpDidlItem>),
    /// There is no answer, for this reason.
    Fail(String),
    /// The phone is asked for a list of a directory.
    AskList {
        /// The phone.
        phone: PhoneSession,
        /// The path of the directory.
        path: String,
        /// The identifier of the directory.
        parent_id: String,
    },
    /// The phone is asked for a description of a file.
    AskStat {
        /// The phone.
        phone: PhoneSession,
        /// The path of the file.
        path: String,
    },
}

/// The model of what is to be done.
#[verifier::ext_equal]
pub enum BrowseView {
    Items(Seq<DidlView>),
    Fail(Seq<char>),
    AskList { phone: PhoneView, path: Seq<char>, parent_id: Seq<char> },
    AskStat { phone: PhoneView, path: Seq<char> },
}

impl View for BrowseStep {
    type V = BrowseView;

    open spec fn view(&self) -> BrowseView {
        match *self {
            BrowseStep::Items(items) => BrowseView::Items(upnp::didl_views(items@)),
            BrowseStep::Fail(message) => BrowseView::Fail(message@),
            BrowseStep::AskList { phone, path, parent_id } => BrowseView::AskList {
                phone: phone@,
                path: path@,
                parent_id: parent_id@,
            },
            BrowseStep::AskStat { phone, path } => BrowseView::AskStat {
                phone: phone@,
                path: path@,
            },
        }
    }
}

/// The phone with an identifier, where it is shown.
pub open spec fn shown_phone(s: RegistryView, id: Seq<char>, now: u64) -> Option<PhoneView> {
    match registry::with_id(s.phones, id) {
        Some(p) if registry::published(p, now) => Some(p),
        _ => None,
    }
}

/// What an identifier names.
pub enum ObjectView {
    /// The root of the device.
    Root,
    /// The directory of a phone.
    Phone(Seq<char>),
    /// A directory on a phone.
    Folder(Seq<char>, Seq<char>),
    /// A file on a phone.
    File(Seq<char>, Seq<char>),
    /// Nothing.
    Unknown,
}

/// What an identifier names.
pub open spec fn object_named(id: Seq<char>) -> ObjectView {
    if id == "0"@ {
        ObjectView::Root
    } else {
        match upnp::container_phone(id) {
            Some(phone) => ObjectView::Phone(phone),
            None => match upnp::path_in_id(id, "folder"@) {
                Some((phone, path)) => ObjectView::Folder(phone, path),
                None => match upnp::path_in_id(id, "item"@) {
                    Some((phone, path)) => ObjectView::File(phone, path),
                    None => ObjectView::Unknown,
                },
            },
        }
    }
}

/// What an identifier names.
#[derive(Debug)]
enum Object {
    Root,
    Phone(String),
    Folder(String, String),
    File(String, String),
    Unknown,
}

fn find_object(id: &str) -> (r: Object)
    ensures
        match r {
            Object::Root => object_named(id@) == ObjectView::Root,
            Object::Phone(phone) => object_named(id@) == ObjectView::Phone(phone@),
            Object::Folder(phone, path) => object_named(id@) == ObjectView::Folder(phone@, path@),
            Object::File(phone, path) => object_named(id@) == ObjectView::File(phone@, path@),
            Object::Unknown => object_named(id@) == ObjectView::Unknown,
        },
{
    if text::same(id, "0") {
        return Object::Root;
    }
    match upnp::parse_phone_container_id(id) {
        Some(phone) => {
            return Object::Phone(phone);
        },
        None => {},
    }
    match upnp::parse_path_object_id(id, "folder") {
        Some((phone, path)) => {
            return Object::Folder(phone, path);
        },
        None => {},
    }
    match upnp::parse_path_object_id(id, "item") {
        Some((phone, path)) => Object::File(phone, path),
        None => Object::Unknown,
    }
}

/// What is done to describe an object itself. A phone that is not shown has no objects.
pub open spec fn metadata_step(
    s: RegistryView,
    device: DeviceView,
    id: Seq<char>,
    now: u64,
) -> BrowseView {
    match object_named(id) {
        ObjectView::Root => BrowseView::Items(
            seq![upnp::folder_object("0"@, "-1"@, device.friendly_name)],
        ),
        ObjectView::Phone(phone) => match shown_phone(s, phone, now) {
            Some(p) => BrowseView::Items(seq![upnp::folder_object(id, "0"@, p.display_name)]),
            None => BrowseView::Items(Seq::empty()),
        },
        ObjectView::Folder(phone, path) => match shown_phone(s, phone, now) {
            Some(p) => BrowseView::Items(
                seq![
                    upnp::folder_object(
                        id,
                        upnp::parent_id_of(
                            device.phone_id is Some,
                            p.id,
                            media_path::parent_path(path),
                        ),
                        match media_path::base_name(path) {
                            Some(name) => name,
                            None => p.display_name,
                        },
                    ),
                ],
            ),
            None => BrowseView::Items(Seq::empty()),
        },
        ObjectView::File(phone, path) => match shown_phone(s, phone, now) {
            Some(p) => BrowseView::AskStat { phone: p, path },
            None => BrowseView::Items(Seq::empty()),
        },
        ObjectView::Unknown => BrowseView::Items(Seq::empty()),
    }
}

/// What is said where a phone is not shown.
pub open spec fn phone_hidden_text(id: Seq<char>) -> Seq<char> {
    "telephone UPnP indisponible: "@ + id
}

/// What is done to list a directory on a phone.
pub open spec fn list_step(
    s: RegistryView,
    phone: Seq<char>,
    path: Seq<char>,
    parent_id: Seq<char>,
    now: u64,
) -> BrowseView {
    match shown_phone(s, phone, now) {
        Some(p) => BrowseView::AskList { phone: p, path, parent_id },
        None => BrowseView::Fail(phone_hidden_text(phone)),
    }
}

/// The directories of phones.
pub open spec fn phone_objects(phones: Seq<PhoneView>) -> Seq<DidlView> {
    phones.map_values(
        |p: PhoneView| upnp::folder_object(upnp::container_id(p.id), "0"@, p.display_name),
    )
}

/// Whether `step` is what is done to list the entries of an object.
pub open spec fn lists_children(
    s: RegistryView,
    device: DeviceView,
    id: Seq<char>,
    now: u64,
    step: BrowseView,
) -> bool {
    match object_named(id) {
        ObjectView::Root => match device.phone_id {
            Some(phone) => step == list_step(s, phone, "/"@, "0"@, now),
            None => exists|phones: Seq<PhoneView>| #[trigger]
                registry::by_name(registry::shown(s, now), phones) && step == BrowseView::Items(
                    phone_objects(phones),
                ),
        },
        ObjectView::Phone(phone) => step == list_step(s, phone, "/"@, id, now),
        ObjectView::Folder(phone, path) => step == list_step(s, phone, path, id, now),
        _ => step == BrowseView::Items(Seq::empty()),
    }
}

/// Whether phones are looked up for a question about an object, so that lost ones leave.
pub open spec fn looks_up(metadata: bool, id: Seq<char>) -> bool {
    match object_named(id) {
        ObjectView::Root => !metadata,
        ObjectView::Phone(_) => true,
        ObjectView::Folder(_, _) => true,
        ObjectView::File(_, _) => metadata,
        ObjectView::Unknown => false,
    }
}

/// Describes an object itself.
pub fn upnp_metadata(
    phones: &mut PhoneRegistry,
    device: &UpnpDeviceInfo,
    object_id: &str,
    now: u64,
) -> (r: BrowseStep)
    ensures
        final(phones)@ == (if looks_up(true, object_id@) {
            registry::without_stale(old(phones)@, now)
        } else {
            old(phones)@
        }),
        r@ == metadata_step(final(phones)@, device@, object_id@, now),
{
    match find_object(object_id) {
        Object::Root => one_item(
            upnp::new_folder(
                "0".to_string(),
                "-1".to_string(),
                device.friendly_name.clone(),
            ),
        ),
        Object::Phone(id) => match phones.get_by_id(&id, now) {
            Some(p) => one_item(
                upnp::new_folder(object_id.to_string(), "0".to_string(), p.display_name),
            ),
            None => no_items(),
        },
        Object::Folder(id, path) => match phones.get_by_id(&id, now) {
            Some(p) => {
                let parent = upnp::parent_id_for_phone_path(
                    device.phone_id.is_some(),
                    &p.id,
                    &media_path::parent_media_path(&path),
                );
                let title = match media_path::media_basename(&path) {
                    Some(name) => name,
                    None => p.display_name,
                };
                one_item(upnp::new_folder(object_id.to_string(), parent, title))
            },
            None => no_items(),
        },
        Object::File(id, path) => match phones.get_by_id(&id, now) {
            Some(p) => BrowseStep::AskStat { phone: p, path },
            None => no_items(),
        },
        Object::Unknown => no_items(),
    }
}

fn one_item(item: UpnpDidlItem) -> (r: BrowseStep)
    ensures
        r@ == BrowseView::Items(seq![item@]),
{
    let mut items: Vec<UpnpDidlItem> = Vec::new();
    items.push(item);
    proof {
        assert(upnp::didl_views(items@) =~= seq![item@]);
    }
    BrowseStep::Items(items)
}

fn no_items() -> (r: BrowseStep)
    ensures
        r@ == BrowseView::Items(Seq::empty()),
{
    let items: Vec<UpnpDidlItem> = Vec::new();
    proof {
        assert(upnp::didl_views(items@) =~= Seq::empty());
    }
    BrowseStep::Items(items)
}

fn list_phone(
    phones: &mut PhoneRegistry,
    id: &str,
    path: &str,
    parent_id: &str,
    now: u64,
) -> (r: BrowseStep)
    ensures
        final(phones)@ == registry::without_stale(old(phones)@, now),
        r@ == list_step(final(phones)@, id@, path@, parent_id@, now),
{
    match phones.get_by_id(id, now) {
        Some(p) => BrowseStep::AskList {
            phone: p,
            path: path.to_string(),
            parent_id: parent_id.to_string(),
        },
        None => BrowseStep::Fail(text::concat2("telephone UPnP indisponible: ", id)),
    }
}

/// The directories of phones.
fn folders_of(phones: &Vec<PhoneSession>) -> (r: Vec<UpnpDidlItem>)
    ensures
        upnp::didl_views(r@) == phone_objects(registry::phone_views(phones@)),
{
    let ghost all = phone_objects(registry::phone_views(phones@));
    let mut r: Vec<UpnpDidlItem> = Vec::new();
    let mut i: usize = 0;
    while i < phones.len()
        invariant
            all == phone_objects(registry::phone_views(phones@)),
            i <= phones@.len(),
            upnp::didl_views(r@) == all.take(i as int),
        decreases phones@.len() - i,
    {
        let ghost before = upnp::didl_views(r@);
        let item = upnp::new_folder(
            upnp::phone_container_id(&phones[i].id),
            "0".to_string(),
            phones[i].display_name.clone(),
        );
        let ghost made = item@;
        r.push(item);
        proof {
            assert(made == all[i as int]);
            assert(upnp::didl_views(r@) =~= before.push(made));
            assert(all.take(i + 1) =~= all.take(i as int).push(all[i as int]));
        }
        i += 1;
    }
    proof {
        assert(all.take(i as int) =~= all);
    }
    r
}

/// Answers a question about an object: about itself, or about its entries.
pub fn upnp_browse(
    phones: &mut PhoneRegistry,
    device: &UpnpDeviceInfo,
    object_id: &str,
    browse_flag: &str,
    now: u64,
) -> (r: BrowseStep)
    ensures
        final(phones)@ == (if looks_up(browse_flag@ == "BrowseMetadata"@, object_id@) {
            registry::without_stale(old(phones)@, now)
        } else {
            old(phones)@
        }),
        if browse_flag@ == "BrowseMetadata"@ {
            r@ == metadata_step(final(phones)@, device@, object_id@, now)
        } else {
            lists_children(final(phones)@, device@, object_id@, now, r@)
        },
{
    if text::same(browse_flag, "BrowseMetadata") {
        return upnp_metadata(phones, device, object_id, now);
    }
    match find_object(object_id) {
        Object::Root => match &device.phone_id {
            Some(id) => list_phone(phones, id, "/", "0", now),
            None => {
                let shown = phones.list(now);
                BrowseStep::Items(folders_of(&shown))
            },
        },
        Object::Phone(id) => list_phone(phones, &id, "/", object_id, now),
        Object::Folder(id, path) => list_phone(phones, &id, &path, object_id, now),
        _ => no_items(),
    }
}

/// The object for a file that a phone described, or why the phone could not.
pub fn described_file(
    media_base_url: &str,
    device: &UpnpDeviceInfo,
    p: &PhoneSession,
    path: &str,
    response: PhoneResponse,
) -> (r: Result<UpnpDidlItem, String>)
    ensures
        match r {
            Ok(item) => response@.ok != Some(false) && item@ == upnp::file_object(
                media_base_url@,
                p@,
                path@,
                match response@.size {
                    Some(n) => n,
                    None => 0,
                },
                upnp::parent_id_of(
                    device@.phone_id is Some,
                    p@.id,
                    media_path::parent_path(path@),
                ),
            ),
            Err(message) => response@.ok == Some(false) && message@ == (match response@.error {
                Some(e) => e,
                None => "erreur telephone"@,
            }),
        },
{
    match phone::phone_json_request(response) {
        Ok(reply) => {
            let size: u64 = match reply.size {
                Some(n) => n,
                None => 0,
            };
            Ok(upnp::upnp_file_item(media_base_url, device.phone_id.is_some(), p, path, size))
        },
        Err(message) => Err(message),
    }
}

// ---------------------------------------------------------------------------
// Control
// ---------------------------------------------------------------------------

/// A question about an object.
#[derive(Debug)]
pub struct BrowseRequest {
    /// The identifier of the object.
    pub object_id: String,
    /// Whether the question is about the object itself or about its entries.
    pub browse_flag: String,
    /// The first of the objects that are wanted.
    pub starting_index: usize,
    /// How many are wanted; 0 stands for all.
    pub requested_count: usize,
}

/// The model of a question about an object.
#[verifier::ext_equal]
pub struct BrowseRequestView {
    pub object_id: Seq<char>,
    pub browse_flag: Seq<char>,
    pub starting_index: nat,
    pub requested_count: nat,
}

impl View for BrowseRequest {
    type V = BrowseRequestView;

    open spec fn view(&self) -> BrowseRequestView {
        BrowseRequestView {
            object_id: self.object_id@,
            browse_flag: self.browse_flag@,
            starting_index: self.starting_index as nat,
            requested_count: self.requested_count as nat,
        }
    }
}

/// What is to be done for a request to the content directory.
#[derive(Debug)]
pub enum ControlStep {
    /// It is answered with this text.
    Reply(String),
    /// It is a question about an object.
    Browse(BrowseRequest),
}

/// The model of what is to be done for a request.
#[verifier::ext_equal]
pub enum ControlView {
    Reply(Seq<char>),
    Browse(BrowseRequestView),
}

impl View for ControlStep {
    type V = ControlView;

    open spec fn view(&self) -> ControlView {
        match *self {
            ControlStep::Reply(s) => ControlView::Reply(s@),
            ControlStep::Browse(request) => ControlView::Browse(request@),
        }
    }
}

/// The number in an element, where it holds one, and else 0.
pub open spec fn number_in(body: Seq<char>, tag: Seq<char>) -> nat {
    match xml::element_text(body, tag) {
        Some(s) => match numbers::parse_uint(s, 10, usize::MAX as nat) {
            Some(n) => n,
            None => 0,
        },
        None => 0,
    }
}

/// The question about an object in a request.
pub open spec fn browse_request(body: Seq<char>) -> BrowseRequestView {
    BrowseRequestView {
        object_id: upnp::object_of(
            match xml::element_text(body, "ObjectID"@) {
                Some(id) => id,
                None => "0"@,
            },
        ),
        browse_flag: match xml::element_text(body, "BrowseFlag"@) {
            Some(flag) => flag,
            None => "BrowseDirectChildren"@,
        },
        starting_index: number_in(body, "StartingIndex"@),
        requested_count: number_in(body, "RequestedCount"@),
    }
}

/// What is to be done for a request to the content directory.
pub open spec fn content_directory_step(body: Seq<char>) -> ControlView {
    if text::has_part(body, "GetSearchCapabilities"@) {
        ControlView::Reply(
            xml::envelope(
                "ContentDirectory"@,
                "GetSearchCapabilitiesResponse"@,
                "<SearchCaps></SearchCaps>"@,
            ),
        )
    } else if text::has_part(body, "GetSortCapabilities"@) {
        ControlView::Reply(
            xml::envelope(
                "ContentDirectory"@,
                "GetSortCapabilitiesResponse"@,
                "<SortCaps>dc:title</SortCaps>"@,
            ),
        )
    } else if text::has_part(body, "GetSystemUpdateID"@) {
        ControlView::Reply(
            xml::envelope("ContentDirectory"@, "GetSystemUpdateIDResponse"@, "<Id>1</Id>"@),
        )
    } else if text::has_part(body, "UpdateObject"@) {
        ControlView::Reply(xml::envelope("ContentDirectory"@, "UpdateObjectResponse"@, ""@))
    } else {
        ControlView::Browse(browse_request(body))
    }
}

fn find_number(body: &str, tag: &str) -> (r: usize)
    ensures
        r == number_in(body@, tag@),
{
    match xml::soap_tag(body, tag) {
        Some(s) => match numbers::parse_usize(&s) {
            Some(n) => n,
            None => 0,
        },
        None => 0,
    }
}

/// What is to be done for a request to the content directory.
pub fn upnp_content_directory_control(body: &str) -> (r: ControlStep)
    ensures
        r@ == content_directory_step(body@),
{
    if text::contains(body, "GetSearchCapabilities") {
        return ControlStep::Reply(
            xml::soap_response(
                "ContentDirectory",
                "GetSearchCapabilitiesResponse",
                "<SearchCaps></SearchCaps>",
            ),
        );
    }
    if text::contains(body, "GetSortCapabilities") {
        return ControlStep::Reply(
            xml::soap_response(
                "ContentDirectory",
                "GetSortCapabilitiesResponse",
                "<SortCaps>dc:title</SortCaps>",
            ),
        );
    }
    if text::contains(body, "GetSystemUpdateID") {
        return ControlStep::Reply(
            xml::soap_response("ContentDirectory", "GetSystemUpdateIDResponse", "<Id>1</Id>"),
        );
    }
    if text::contains(body, "UpdateObject") {
        return ControlStep::Reply(
            xml::soap_response("ContentDirectory", "UpdateObjectResponse", ""),
        );
    }
    let id = match xml::soap_tag(body, "ObjectID") {
        Some(id) => id,
        None => "0".to_string(),
    };
    let browse_flag = match xml::soap_tag(body, "BrowseFlag") {
        Some(flag) => flag,
        None => "BrowseDirectChildren".to_string(),
    };
    ControlStep::Browse(
        BrowseRequest {
            object_id: upnp::normalize_upnp_object_id(&id),
            browse_flag,
            starting_index: find_number(body, "StartingIndex"),
            requested_count: find_number(body, "RequestedCount"),
        },
    )
}

/// The answer to a question about an object.
pub open spec fn browse_response_text(items: Seq<DidlView>, from: nat, count: nat) -> Seq<char> {
    let selected = upnp::sliced(items, from, count);
    xml::envelope(
        "ContentDirectory"@,
        "BrowseResponse"@,
        "<Result>"@ + xml::xml_escaped(upnp::didl_of(selected)) + "</Result><NumberReturned>"@
            + numbers::dec(selected.len()) + "</NumberReturned><TotalMatches>"@ + numbers::dec(
            items.len(),
        ) + "</TotalMatches><UpdateID>1</UpdateID>"@,
    )
}

/// The answer to a question about an object.
pub fn browse_response(items: &Vec<UpnpDidlItem>, starting_index: usize, requested_count: usize)
    -> (r: String)
    ensures
        r@ == browse_response_text(
            upnp::didl_views(items@),
            starting_index as nat,
            requested_count as nat,
        ),
{
    let selected = upnp::slice_upnp_items(items, starting_index, requested_count);
    let didl = upnp::upnp_didl(&selected);
    proof {
        assert(upnp::didl_views(selected@).len() == selected@.len());
        assert(upnp::didl_views(items@).len() == items@.len());
    }
    let mut inner = text::concat3(
        "<Result>",
        &xml::xml_text(&didl),
        "</Result><NumberReturned>",
    );
    inner.push_str(&numbers::decimal(selected.len() as u64));
    inner.push_str("</NumberReturned><TotalMatches>");
    inner.push_str(&numbers::decimal(items.len() as u64));
    inner.push_str("</TotalMatches><UpdateID>1</UpdateID>");
    xml::soap_response("ContentDirectory", "BrowseResponse", &inner)
}

/// The answer to a request to the connection manager.
pub open spec fn connection_manager_text(body: Seq<char>) -> Seq<char> {
    if text::has_part(body, "GetProtocolInfo"@) {
        xml::envelope(
            "ConnectionManager"@,
            "GetProtocolInfoResponse"@,
            "<Source>"@ + xml::xml_escaped(upnp::source_protocol_info())
                + "</Source><Sink></Sink>"@,
        )
    } else if text::has_part(body, "GetCurrentConnectionIDs"@) {
        xml::envelope(
            "ConnectionManager"@,
            "GetCurrentConnectionIDsResponse"@,
            "<ConnectionIDs>0</ConnectionIDs>"@,
        )
    } else {
        xml::envelope(
            "ConnectionManager"@,
            "GetCurrentConnectionInfoResponse"@,
            "<RcsID>-1</RcsID><AVTransportID>-1</AVTransportID><ProtocolInfo></ProtocolInfo><PeerConnectionManager></PeerConnectionManager><PeerConnectionID>-1</PeerConnectionID><Direction>Output</Direction><Status>OK</Status>"@,
        )
    }
}

/// The answer to a request to the connection manager.
pub fn upnp_connection_manager_control(body: &str) -> (r: String)
    ensures
        r@ == connection_manager_text(body@),
{
    if text::contains(body, "GetProtocolInfo") {
        let inner = text::concat3(
            "<Source>",
            &xml::xml_text(&upnp::upnp_source_protocol_info()),
            "</Source><Sink></Sink>",
        );
        return xml::soap_response("ConnectionManager", "GetProtocolInfoResponse", &inner);
    }
    if text::contains(body, "GetCurrentConnectionIDs") {
        return xml::soap_response(
            "ConnectionManager",
            "GetCurrentConnectionIDsResponse",
            "<ConnectionIDs>0</ConnectionIDs>",
        );
    }
    xml::soap_response(
        "ConnectionManager",
        "GetCurrentConnectionInfoResponse",
        "<RcsID>-1</RcsID><AVTransportID>-1</AVTransportID><ProtocolInfo></ProtocolInfo><PeerConnectionManager></PeerConnectionManager><PeerConnectionID>-1</PeerConnectionID><Direction>Output</Direction><Status>OK</Status>",
    )
}

// ---------------------------------------------------------------------------
// Laws
// ---------------------------------------------------------------------------

/// The identifiers of phones' directories, of directories and of files name what they were made
/// for, and `0` names the root.
proof fn lemma_named(phone: Seq<char>, path: Seq<char>)
    ensures
        object_named("0"@) == ObjectView::Root,
        phone.len() > 0 ==> object_named(upnp::container_id(phone)) == ObjectView::Phone(phone),
        object_named(upnp::path_id("folder"@, phone, path)) == ObjectView::Folder(
            phone,
            media_path::normalized(path),
        ),
        object_named(upnp::path_id("item"@, phone, path)) == ObjectView::File(
            phone,
            media_path::normalized(path),
        ),
{
    reveal_strlit("0");
    reveal_strlit("phone:");
    reveal_strlit("folder");
    reveal_strlit("item");
    reveal_strlit(":");
    let c = upnp::container_id(phone);
    assert(c[0] == 'p');
    if phone.len() > 0 {
        upnp::law_container_id_names_phone(phone);
    }
    let f = upnp::path_id("folder"@, phone, path);
    assert(f[0] == 'f');
    upnp::law_path_id_names_path("folder"@, phone, path);
    let t = upnp::path_id("item"@, phone, path);
    assert(t[0] == 'i');
    upnp::law_path_id_names_path("item"@, phone, path);
    assert(upnp::container_phone(f) is None) by {
        if text::begins(f, "phone:"@) {
            assert(f.subrange(0, 6)[0] == 'p');
        }
    }
    assert(upnp::container_phone(t) is None) by {
        if text::begins(t, "phone:"@) {
            assert(t.subrange(0, 6)[0] == 'p');
        }
    }
    assert(upnp::path_in_id(t, "folder"@) is None) by {
        let start = "folder"@ + ":"@;
        if text::begins(t, start) {
            assert(t.subrange(0, start.len() as int)[0] == start[0]);
        }
    }
}

/// A phone that is in the registry and shown is found by its identifier, and no other is.
pub proof fn law_shown_phone_is_found(s: RegistryView, k: int, now: u64)
    requires
        s.well_formed(),
        0 <= k < s.phones.len(),
    ensures
        s.phones[k].source_visible && s.phones[k].disconnected_at == 0 ==> shown_phone(
            s,
            s.phones[k].id,
            now,
        ) == Some(s.phones[k]),
        !s.phones[k].source_visible ==> shown_phone(s, s.phones[k].id, now) is None,
        shown_phone(s, s.phones[k].id, now) matches Some(p) ==> p == s.phones[k],
{
    lemma_place(s.phones, s.phones[k].id, 0, k);
}

/// The place of a phone whose identifier no other has.
proof fn lemma_place(phones: Seq<PhoneView>, id: Seq<char>, from: int, k: int)
    requires
        0 <= from <= k < phones.len(),
        phones[k].id == id,
        forall|i: int, j: int|
            0 <= i < j < phones.len() ==> (#[trigger] phones[i]).id != (#[trigger] phones[j]).id,
    ensures
        registry::place_from(phones, id, from) == Some(k),
    decreases k - from,
{
    if from < k {
        assert(phones[from].id != phones[k].id);
        lemma_place(phones, id, from + 1, k);
    }
}

/// Opening a phone asks it for its root directory: through its directory on the proxy's own device,
/// and through the root of its own device. The identifier that was asked about is the parent of
/// what it lists.
pub proof fn law_opened_phone_lists_its_root(
    s: RegistryView,
    device: DeviceView,
    p: PhoneView,
    now: u64,
    step: BrowseView,
)
    requires
        p.id.len() > 0,
        shown_phone(s, p.id, now) == Some(p),
    ensures
        lists_children(s, device, upnp::container_id(p.id), now, step) ==> step == (
        BrowseView::AskList { phone: p, path: "/"@, parent_id: upnp::container_id(p.id) }),
        device.phone_id == Some(p.id) && lists_children(s, device, "0"@, now, step) ==> step == (
        BrowseView::AskList { phone: p, path: "/"@, parent_id: "0"@ }),
{
    lemma_named(p.id, Seq::empty());
}

/// Opening a directory asks its phone for the path of that directory, and a file has no entries.
pub proof fn law_opened_folder_lists_its_path(
    s: RegistryView,
    device: DeviceView,
    p: PhoneView,
    path: Seq<char>,
    now: u64,
    step: BrowseView,
)
    requires
        shown_phone(s, p.id, now) == Some(p),
    ensures
        lists_children(s, device, upnp::path_id("folder"@, p.id, path), now, step) ==> step == (
        BrowseView::AskList {
            phone: p,
            path: media_path::normalized(path),
            parent_id: upnp::path_id("folder"@, p.id, path),
        }),
        lists_children(s, device, upnp::path_id("item"@, p.id, path), now, step) ==> step
            == BrowseView::Items(Seq::empty()),
{
    lemma_named(p.id, path);
}

/// Whatever is asked about, a phone is only ever asked for paths that begin with a slash, and only
/// where it is shown.
pub proof fn law_asked_paths_begin_with_slash(
    s: RegistryView,
    device: DeviceView,
    id: Seq<char>,
    now: u64,
    step: BrowseView,
)
    ensures
        lists_children(s, device, id, now, step) ==> (step matches BrowseView::AskList {
            phone,
            path,
            ..
        } ==> path.len() > 0 && path[0] == '/' && registry::published(phone, now)
            && s.phones.contains(phone)),
        metadata_step(s, device, id, now) matches BrowseView::AskStat { phone, path } ==> path.len()
            > 0 && path[0] == '/' && registry::published(phone, now) && s.phones.contains(phone),
        !(metadata_step(s, device, id, now) is AskList),
{
    reveal_strlit("/");
    match object_named(id) {
        ObjectView::Root => match device.phone_id {
            Some(phone) => {
                lemma_found_is_there(s.phones, phone, 0);
            },
            None => {},
        },
        ObjectView::Phone(phone) => {
            lemma_found_is_there(s.phones, phone, 0);
        },
        ObjectView::Folder(phone, path) => {
            lemma_found_is_there(s.phones, phone, 0);
            lemma_path_begins(id, "folder"@);
        },
        ObjectView::File(phone, path) => {
            lemma_found_is_there(s.phones, phone, 0);
            lemma_path_begins(id, "item"@);
        },
        ObjectView::Unknown => {},
    }
}

proof fn lemma_path_begins(id: Seq<char>, kind: Seq<char>)
    ensures
        upnp::path_in_id(id, kind) matches Some((_, path)) ==> path.len() > 0 && path[0] == '/',
{
    match text::without_prefix(id, kind + ":"@) {
        Some(rest) => match text::cut(rest, text::CharSet::Only(':')) {
            Some((_, path)) => {
                upnp::lemma_normal_end(crate::encoding::percent_decoded(path));
            },
            None => {},
        },
        None => {},
    }
}

proof fn lemma_found_is_there(phones: Seq<PhoneView>, id: Seq<char>, from: int)
    requires
        0 <= from,
    ensures
        registry::place_from(phones, id, from) matches Some(i) ==> from <= i < phones.len()
            && phones[i].id == id && phones.contains(phones[i]),
    decreases phones.len() - from,
{
    if from < phones.len() && phones[from].id != id {
        lemma_found_is_there(phones, id, from + 1);
    }
}

/// A phone that is not shown is not asked: opening it fails, and the reason names it.
pub proof fn law_hidden_phone_is_not_asked(
    s: RegistryView,
    device: DeviceView,
    phone: Seq<char>,
    path: Seq<char>,
    now: u64,
    step: BrowseView,
)
    requires
        phone.len() > 0,
        shown_phone(s, phone, now) is None,
    ensures
        lists_children(s, device, upnp::container_id(phone), now, step) ==> step
            == BrowseView::Fail("telephone UPnP indisponible: "@ + phone),
        lists_children(s, device, upnp::path_id("folder"@, phone, path), now, step) ==> step
            == BrowseView::Fail("telephone UPnP indisponible: "@ + phone),
        metadata_step(s, device, upnp::container_id(phone), now) == BrowseView::Items(Seq::empty()),
        metadata_step(s, device, upnp::path_id("folder"@, phone, path), now) == BrowseView::Items(
            Seq::empty(),
        ),
        metadata_step(s, device, upnp::path_id("item"@, phone, path), now) == BrowseView::Items(
            Seq::empty(),
        ),
{
    lemma_named(phone, path);
}

/// An object is the directory of a phone on the proxy's own device.
pub open spec fn is_phone_folder(object: DidlView, p: PhoneView) -> bool {
    &&& object.id == upnp::container_id(p.id)
    &&& object.parent_id == "0"@
    &&& object.title == p.display_name
    &&& object.is_container
}

/// An object is the directory of a phone that is shown.
pub open spec fn is_folder_of_shown(s: RegistryView, now: u64, object: DidlView) -> bool {
    exists|i: int|
        0 <= i < s.phones.len() && registry::published(#[trigger] s.phones[i], now)
            && is_phone_folder(object, s.phones[i])
}

/// The root of the proxy's own device lists one directory for each phone that is shown, and no
/// other object.
pub proof fn law_root_lists_phones(
    s: RegistryView,
    device: DeviceView,
    now: u64,
    step: BrowseView,
)
    requires
        device.phone_id is None,
        lists_children(s, device, "0"@, now, step),
        registry::shown(s, now).len() <= usize::MAX,
    ensures
        step matches BrowseView::Items(objects) && {
            &&& objects.len() == registry::shown(s, now).len()
            &&& forall|i: int|
                0 <= i < s.phones.len() && registry::published(#[trigger] s.phones[i], now)
                    ==> exists|k: int|
                    0 <= k < objects.len() && is_phone_folder(#[trigger] objects[k], s.phones[i])
            &&& forall|k: int|
                0 <= k < objects.len() ==> is_folder_of_shown(s, now, #[trigger] objects[k])
        },
{
    lemma_named(Seq::empty(), Seq::empty());
    let shown = registry::shown(s, now);
    let keep = |p: PhoneView| registry::published(p, now);
    let phones = choose|phones: Seq<PhoneView>| #[trigger]
        registry::by_name(shown, phones) && step == BrowseView::Items(phone_objects(phones));
    let places = choose|places: Seq<usize>| #[trigger]
        order::stable_order(registry::name_keys(shown), places) && phones == registry::arranged(
            shown,
            places,
        );
    let objects = phone_objects(phones);
    assert(step == BrowseView::Items(objects));
    assert(objects.len() == shown.len());
    text::lemma_filter_members(s.phones, keep);
    assert forall|i: int|
        0 <= i < s.phones.len() && registry::published(#[trigger] s.phones[i], now) implies exists|
        k: int,
    |
        0 <= k < objects.len() && is_phone_folder(#[trigger] objects[k], s.phones[i]) by {
        s.phones.lemma_filter_contains(keep, i);
        let at = choose|at: int| 0 <= at < shown.len() && shown[at] == s.phones[i];
        assert(places.contains(at as usize));
        let k = choose|k: int| 0 <= k < places.len() && places[k] == at as usize;
        assert(phones[k] == s.phones[i]);
        assert(is_phone_folder(objects[k], s.phones[i]));
    }
    assert forall|k: int| 0 <= k < objects.len() implies is_folder_of_shown(
        s,
        now,
        #[trigger] objects[k],
    ) by {
        let p = shown[places[k] as int];
        assert(keep(p));
        assert(s.phones.contains(p));
        let i = choose|i: int| 0 <= i < s.phones.len() && s.phones[i] == p;
        assert(is_phone_folder(objects[k], s.phones[i]));
    }
}

/// An object is described as it is listed: the root by the name of the device, a phone by its name
/// and under the root, a directory by its own name, and of a file its phone is asked.
pub proof fn law_objects_are_described(
    s: RegistryView,
    device: DeviceView,
    p: PhoneView,
    parent: Seq<char>,
    name: Seq<char>,
    now: u64,
)
    requires
        p.id.len() > 0,
        shown_phone(s, p.id, now) == Some(p),
        media_path::is_name(name),
        text::free_of(name, text::CharSet::Pair('/', '\\')),
    ensures
        metadata_step(s, device, "0"@, now) matches BrowseView::Items(objects) && objects.len() == 1
            && objects[0].id == "0"@ && objects[0].parent_id == "-1"@ && objects[0].title
            == device.friendly_name && objects[0].is_container,
        metadata_step(s, device, upnp::container_id(p.id), now) matches BrowseView::Items(objects)
            && objects.len() == 1 && is_phone_folder(objects[0], p),
        ({
            let child = media_path::child_path(parent, name);
            let id = upnp::path_id("folder"@, p.id, child);
            &&& metadata_step(s, device, id, now) matches BrowseView::Items(objects)
            &&& objects.len() == 1
            &&& objects[0].id == id
            &&& objects[0].title == name
            &&& objects[0].is_container
            &&& objects[0].parent_id == upnp::parent_id_of(
                device.phone_id is Some,
                p.id,
                media_path::normalized(parent),
            )
        }),
        metadata_step(s, device, upnp::path_id("item"@, p.id, parent), now) == (
        BrowseView::AskStat { phone: p, path: media_path::normalized(parent) }),
{
    let child = media_path::child_path(parent, name);
    lemma_named(p.id, child);
    lemma_named(p.id, parent);
    media_path::law_parent_of_child(parent, name);
    media_path::law_normalize_idempotent(child);
    lemma_same_names(child);
}

/// A path and its normal form have the same parent and the same last name.
proof fn lemma_same_names(path: Seq<char>)
    ensures
        media_path::parent_path(media_path::normalized(path)) == media_path::parent_path(path),
        media_path::base_name(media_path::normalized(path)) == media_path::base_name(path),
{
    media_path::law_normalize_idempotent(path);
}

/// The answer to a question tells how many objects it holds and how many there are, and holds those
/// of the page that was asked for.
pub proof fn law_answer_tells_page(items: Seq<DidlView>, from: nat, count: nat)
    ensures
        ({
            let n = if from >= items.len() {
                0
            } else if count == 0 || count > items.len() - from {
                (items.len() - from) as nat
            } else {
                count
            };
            let page = upnp::sliced(items, from, count);
            let inner = "<Result>"@ + xml::xml_escaped(upnp::didl_of(page))
                + "</Result><NumberReturned>"@ + numbers::dec(n)
                + "</NumberReturned><TotalMatches>"@ + numbers::dec(items.len())
                + "</TotalMatches><UpdateID>1</UpdateID>"@;
            &&& page.len() == n
            &&& text::has_part(
                browse_response_text(items, from, count),
                "<u:"@ + "BrowseResponse"@ + " xmlns:u=\"urn:schemas-upnp-org:service:"@
                    + "ContentDirectory"@ + ":1\">"@ + inner + "</u:"@ + "BrowseResponse"@ + ">"@,
            )
        }),
{
    upnp::law_page_of_objects(items, from, count, 0);
    let page = upnp::sliced(items, from, count);
    xml::law_answer_names_action(
        "ContentDirectory"@,
        "BrowseResponse"@,
        "<Result>"@ + xml::xml_escaped(upnp::didl_of(page)) + "</Result><NumberReturned>"@
            + numbers::dec(page.len()) + "</NumberReturned><TotalMatches>"@ + numbers::dec(
            items.len(),
        ) + "</TotalMatches><UpdateID>1</UpdateID>"@,
    );
}

/// A question asks about the object that it names, about all of its children where it does not say
/// otherwise, from the place and for the number that it gives, and from the start for all where it
/// gives none.
pub proof fn law_question_is_read(body: Seq<char>, id: Seq<char>, flag: Seq<char>, n: nat)
    requires
        n <= usize::MAX,
    ensures
        xml::element_text(body, "ObjectID"@) == Some(id) ==> browse_request(body).object_id
            == upnp::object_of(id),
        xml::element_text(body, "ObjectID"@) is None ==> browse_request(body).object_id
            == upnp::object_of("0"@),
        xml::element_text(body, "BrowseFlag"@) == Some(flag) ==> browse_request(body).browse_flag
            == flag,
        xml::element_text(body, "BrowseFlag"@) is None ==> browse_request(body).browse_flag
            == "BrowseDirectChildren"@,
        xml::element_text(body, "StartingIndex"@) == Some(numbers::dec(n)) ==> browse_request(
            body,
        ).starting_index == n,
        xml::element_text(body, "StartingIndex"@) is None ==> browse_request(body).starting_index
            == 0,
        xml::element_text(body, "RequestedCount"@) == Some(numbers::dec(n)) ==> browse_request(
            body,
        ).requested_count == n,
        xml::element_text(body, "RequestedCount"@) is None ==> browse_request(body).requested_count
            == 0,
{
    numbers::law_parse_of_dec(n, 0, usize::MAX as nat);
}

/// A request that names an action is answered with the answer to that action; a request that names
/// none of those that are answered at once is a question about an object.
pub proof fn law_actions_are_answered(before: Seq<char>, after: Seq<char>, body: Seq<char>)
    ensures
        content_directory_step(before + "GetSearchCapabilities"@ + after) == ControlView::Reply(
            xml::envelope(
                "ContentDirectory"@,
                "GetSearchCapabilitiesResponse"@,
                "<SearchCaps></SearchCaps>"@,
            ),
        ),
        !text::has_part(body, "GetSearchCapabilities"@) && text::has_part(
            body,
            "GetSortCapabilities"@,
        ) ==> content_directory_step(body) == ControlView::Reply(
            xml::envelope(
                "ContentDirectory"@,
                "GetSortCapabilitiesResponse"@,
                "<SortCaps>dc:title</SortCaps>"@,
            ),
        ),
        !text::has_part(body, "GetSearchCapabilities"@) && !text::has_part(
            body,
            "GetSortCapabilities"@,
        ) && !text::has_part(body, "GetSystemUpdateID"@) && !text::has_part(body, "UpdateObject"@)
            ==> content_directory_step(body) == ControlView::Browse(browse_request(body)),
        connection_manager_text(before + "GetProtocolInfo"@ + after) == xml::envelope(
            "ConnectionManager"@,
            "GetProtocolInfoResponse"@,
            "<Source>"@ + xml::xml_escaped(upnp::source_protocol_info()) + "</Source><Sink></Sink>"@,
        ),
        !text::has_part(body, "GetProtocolInfo"@) && text::has_part(
            body,
            "GetCurrentConnectionIDs"@,
        ) ==> connection_manager_text(body) == xml::envelope(
            "ConnectionManager"@,
            "GetCurrentConnectionIDsResponse"@,
            "<ConnectionIDs>0</ConnectionIDs>"@,
        ),
{
    text::lemma_phrase_within(before, "GetSearchCapabilities"@, after);
    text::lemma_phrase_within(before, "GetProtocolInfo"@, after);
}

} // verus!
