//! Phones' files as UPnP objects: their identifiers, their description in DIDL-Lite, and browsing.
use vstd::prelude::*;

use crate::encoding;
use crate::media_path;
use crate::numbers;
use crate::order::{sort_positions, SortKey};
use crate::order;
use crate::phone::{PhoneEntry, PhoneEntryView, PhoneResponse};
use crate::phone;
use crate::registry::{PhoneSession, PhoneView};
use crate::registry;
use crate::text::CharSet;
use crate::text;
use crate::xml;

verus! {

/// The class of a directory.
pub const FOLDER_CLASS: &'static str = "object.container.storageFolder";

// ---------------------------------------------------------------------------
// Identifiers
// ---------------------------------------------------------------------------

/// The identifier of the directory of a phone.
pub open spec fn container_id(phone: Seq<char>) -> Seq<char> {
    "phone:"@ + encoding::percent_encoded(phone)
}

/// The identifier of a path on a phone, with the kind of object before it.
pub open spec fn path_id(kind: Seq<char>, phone: Seq<char>, path: Seq<char>) -> Seq<char> {
    kind + ":"@ + encoding::percent_encoded(phone) + ":"@ + encoding::percent_encoded(
        media_path::normalized(path),
    )
}

/// The identifier of the directory of a phone.
pub fn phone_container_id(phone_id: &str) -> (r: String)
    ensures
        r@ == container_id(phone_id@),
{
    text::concat2("phone:", &encoding::percent_encode_component(phone_id))
}

fn path_object_id(kind: &str, phone_id: &str, path: &str) -> (r: String)
    ensures
        r@ == path_id(kind@, phone_id@, path@),
{
    let mut r = text::concat3(kind, ":", &encoding::percent_encode_component(phone_id));
    r.push_str(":");
    r.push_str(&encoding::percent_encode_component(&media_path::normalize_media_path(path)));
    r
}

/// The identifier of a directory on a phone.
pub fn folder_object_id(phone_id: &str, path: &str) -> (r: String)
    ensures
        r@ == path_id("folder"@, phone_id@, path@),
{
    path_object_id("folder", phone_id, path)
}

/// The identifier of a file on a phone.
pub fn item_object_id(phone_id: &str, path: &str) -> (r: String)
    ensures
        r@ == path_id("item"@, phone_id@, path@),
{
    path_object_id("item", phone_id, path)
}

/// The phone whose directory an identifier names.
pub open spec fn container_phone(id: Seq<char>) -> Option<Seq<char>> {
    match text::without_prefix(id, "phone:"@) {
        Some(rest) => if encoding::percent_decoded(rest).len() > 0 {
            Some(encoding::percent_decoded(rest))
        } else {
            None
        },
        None => None,
    }
}

/// The phone whose directory an identifier names.
pub fn parse_phone_container_id(object_id: &str) -> (r: Option<String>)
    ensures
        text::text_in(r) == container_phone(object_id@),
{
    match text::strip_prefix(object_id, "phone:") {
        Some(rest) => {
            let phone = encoding::percent_decode_path(&rest);
            if phone.as_str().is_empty() {
                None
            } else {
                Some(phone)
            }
        },
        None => None,
    }
}

/// The phone and the path on it that an identifier of a kind of objects names.
pub open spec fn path_in_id(id: Seq<char>, kind: Seq<char>) -> Option<(Seq<char>, Seq<char>)> {
    match text::without_prefix(id, kind + ":"@) {
        Some(rest) => match text::cut(rest, CharSet::Only(':')) {
            Some((phone, path)) => Some(
                (
                    encoding::percent_decoded(phone),
                    media_path::normalized(encoding::percent_decoded(path)),
                ),
            ),
            None => None,
        },
        None => None,
    }
}

/// The phone and the path on it that an identifier of a kind of objects names.
pub fn parse_path_object_id(object_id: &str, prefix: &str) -> (r: Option<(String, String)>)
    ensures
        match r {
            Some((phone, path)) => path_in_id(object_id@, prefix@) == Some((phone@, path@)),
            None => path_in_id(object_id@, prefix@) is None,
        },
{
    let start = text::concat2(prefix, ":");
    match text::strip_prefix(object_id, &start) {
        Some(rest) => match text::split_once(&rest, CharSet::Only(':')) {
            Some((phone, path)) => Some(
                (
                    encoding::percent_decode_path(&phone),
                    media_path::normalize_media_path(&encoding::percent_decode_path(&path)),
                ),
            ),
            None => None,
        },
        None => None,
    }
}

/// A text with its percent escapes resolved, where it has any percent sign.
pub open spec fn decoded_once(s: Seq<char>) -> Seq<char> {
    if s.contains('%') {
        encoding::percent_decoded(s)
    } else {
        s
    }
}

/// The last of the parts that are not blank.
pub open spec fn last_solid(parts: Seq<Seq<char>>) -> Option<Seq<char>>
    decreases parts.len(),
{
    if parts.len() == 0 {
        None
    } else if text::trimmed(parts.last()).len() > 0 {
        Some(parts.last())
    } else {
        last_solid(parts.drop_last())
    }
}

/// The part of an identifier that names an object: of a URL its last part.
pub open spec fn object_part(id: Seq<char>) -> Seq<char> {
    if text::begins(id, "upnp://"@) {
        match last_solid(text::parts(id, CharSet::Only('/'))) {
            Some(part) => part,
            None => id,
        }
    } else {
        id
    }
}

/// The text, or `0` where it is empty.
pub open spec fn or_root(s: Seq<char>) -> Seq<char> {
    if s.len() == 0 {
        "0"@
    } else {
        s
    }
}

/// An identifier as it is understood: without white space around it and slashes behind it, of a
/// URL the last part, with percent escapes resolved up to twice, and `0` where nothing is left.
pub open spec fn object_of(id: Seq<char>) -> Seq<char> {
    let trimmed = text::trimmed(id);
    if trimmed.len() == 0 {
        "0"@
    } else {
        or_root(
            text::trim_end(
                decoded_once(decoded_once(object_part(trimmed))),
                CharSet::Only('/'),
            ),
        )
    }
}

/// The last of the parts that are not blank.
fn find_last_solid(parts: &Vec<String>) -> (r: Option<String>)
    ensures
        text::text_in(r) == last_solid(text::texts(parts@)),
{
    let ghost all = text::texts(parts@);
    let mut n: usize = parts.len();
    proof {
        assert(all.take(n as int) =~= all);
    }
    while n > 0
        invariant
            all == text::texts(parts@),
            n <= parts@.len(),
            last_solid(all) == last_solid(all.take(n as int)),
        decreases n,
    {
        proof {
            assert(all.take(n as int).last() == parts@[n - 1]@);
            assert(all.take(n as int).drop_last() =~= all.take(n - 1));
        }
        if !text::trim(&parts[n - 1]).as_str().is_empty() {
            return Some(parts[n - 1].clone());
        }
        n -= 1;
    }
    None
}

/// A text with its percent escapes resolved, where it has any percent sign.
fn decode_once(s: String) -> (r: String)
    ensures
        r@ == decoded_once(s@),
{
    if text::contains_char(&s, '%') {
        encoding::percent_decode_path(&s)
    } else {
        s
    }
}

/// An identifier as it is understood.
pub fn normalize_upnp_object_id(object_id: &str) -> (r: String)
    ensures
        r@ == object_of(object_id@),
{
    let trimmed = text::trim(object_id);
    if trimmed.as_str().is_empty() {
        return "0".to_string();
    }
    let part = if text::starts_with(&trimmed, "upnp://") {
        match find_last_solid(&text::split(&trimmed, CharSet::Only('/'))) {
            Some(part) => part,
            None => trimmed,
        }
    } else {
        trimmed
    };
    let decoded = decode_once(decode_once(part));
    let left = text::strip_end(&decoded, CharSet::Only('/'));
    if left.as_str().is_empty() {
        "0".to_string()
    } else {
        left
    }
}

// ---------------------------------------------------------------------------
// Types of files
// ---------------------------------------------------------------------------

/// The class of files of a MIME type.
pub open spec fn class_of(mime: Seq<char>) -> Seq<char> {
    if text::begins(mime, "audio/"@) {
        "object.item.audioItem.musicTrack"@
    } else if text::begins(mime, "video/"@) {
        "object.item.videoItem"@
    } else if text::begins(mime, "image/"@) {
        "object.item.imageItem.photo"@
    } else {
        "object.item"@
    }
}

/// The class of files of a MIME type.
pub fn upnp_class_for_mime(mime: &str) -> (r: &'static str)
    ensures
        r@ == class_of(mime@),
{
    if text::starts_with(mime, "audio/") {
        "object.item.audioItem.musicTrack"
    } else if text::starts_with(mime, "video/") {
        "object.item.videoItem"
    } else if text::starts_with(mime, "image/") {
        "object.item.imageItem.photo"
    } else {
        "object.item"
    }
}

/// How files of a MIME type are transferred.
pub open spec fn protocol_info(mime: Seq<char>) -> Seq<char> {
    "http-get:*:"@ + mime + ":DLNA.ORG_OP=01;DLNA.ORG_CI=0"@
}

/// How files of a MIME type are transferred.
pub fn protocol_info_for_mime(mime: &str) -> (r: String)
    ensures
        r@ == protocol_info(mime@),
{
    text::concat3("http-get:*:", mime, ":DLNA.ORG_OP=01;DLNA.ORG_CI=0")
}

/// The MIME types that are offered.
pub open spec fn offered_types() -> Seq<Seq<char>> {
    seq![
        "audio/mpeg"@,
        "audio/aac"@,
        "audio/flac"@,
        "audio/wav"@,
        "audio/ogg"@,
        "video/mp4"@,
        "video/x-matroska"@,
        "video/x-msvideo"@,
        "video/quicktime"@,
        "video/webm"@,
        "image/jpeg"@,
        "image/png"@,
        "image/webp"@,
        "image/gif"@,
        "image/bmp"@,
        "image/heic"@,
        "image/heif"@,
        "application/octet-stream"@,
    ]
}

/// How the files that are offered are transferred.
pub open spec fn source_protocol_info() -> Seq<char> {
    text::joined(offered_types().map_values(|mime: Seq<char>| protocol_info(mime)), ","@)
}

/// Appends how files of a MIME type are transferred.
fn put_type(all: &mut Vec<String>, mime: &str)
    ensures
        text::texts(final(all)@) == text::texts(old(all)@).push(protocol_info(mime@)),
{
    let ghost before = text::texts(all@);
    all.push(protocol_info_for_mime(mime));
    proof {
        assert(text::texts(all@) =~= before.push(protocol_info(mime@)));
    }
}

/// How the files that are offered are transferred.
pub fn upnp_source_protocol_info() -> (r: String)
    ensures
        r@ == source_protocol_info(),
{
    let mut all: Vec<String> = Vec::new();
    put_type(&mut all, "audio/mpeg");
    put_type(&mut all, "audio/aac");
    put_type(&mut all, "audio/flac");
    put_type(&mut all, "audio/wav");
    put_type(&mut all, "audio/ogg");
    put_type(&mut all, "video/mp4");
    put_type(&mut all, "video/x-matroska");
    put_type(&mut all, "video/x-msvideo");
    put_type(&mut all, "video/quicktime");
    put_type(&mut all, "video/webm");
    put_type(&mut all, "image/jpeg");
    put_type(&mut all, "image/png");
    put_type(&mut all, "image/webp");
    put_type(&mut all, "image/gif");
    put_type(&mut all, "image/bmp");
    put_type(&mut all, "image/heic");
    put_type(&mut all, "image/heif");
    put_type(&mut all, "application/octet-stream");
    proof {
        assert(text::texts(all@) =~= offered_types().map_values(
            |mime: Seq<char>| protocol_info(mime),
        ));
    }
    text::join(&all, ",")
}

// ---------------------------------------------------------------------------
// Objects
// ---------------------------------------------------------------------------

/// Where the proxy is reached.
#[derive(Debug)]
pub struct UpnpState {
    /// The address of the UPnP server.
    pub upnp_base_url: String,
    /// The address of the server of phones' files.
    pub media_base_url: String,
}

/// A device that is announced: the proxy, or a phone.
#[derive(Debug)]
pub struct UpnpDeviceInfo {
    /// The name of the device in addresses.
    pub key: String,
    /// Its identifier.
    pub uuid: String,
    /// The name that is shown.
    pub friendly_name: String,
    /// The phone, where it is one.
    pub phone_id: Option<String>,
}

/// The model of a device.
#[verifier::ext_equal]
pub struct DeviceView {
    pub key: Seq<char>,
    pub uuid: Seq<char>,
    pub friendly_name: Seq<char>,
    pub phone_id: Option<Seq<char>>,
}

impl View for UpnpDeviceInfo {
    type V = DeviceView;

    open spec fn view(&self) -> DeviceView {
        DeviceView {
            key: self.key@,
            uuid: self.uuid@,
            friendly_name: self.friendly_name@,
            phone_id: text::text_in(self.phone_id),
        }
    }
}

/// An object: a directory or a file.
#[derive(Debug)]
pub struct UpnpDidlItem {
    /// Its identifier.
    pub id: String,
    /// The identifier of its directory.
    pub parent_id: String,
    /// The name that is shown.
    pub title: String,
    /// Its class.
    pub upnp_class: String,
    /// Whether it is a directory.
    pub is_container: bool,
    /// The number of its entries.
    pub child_count: usize,
    /// How it is transferred.
    pub protocol_info: Option<String>,
    /// Where it is.
    pub url: Option<String>,
    /// Its size in bytes.
    pub size: Option<u64>,
}

/// The model of an object.
#[verifier::ext_equal]
pub struct DidlView {
    pub id: Seq<char>,
    pub parent_id: Seq<char>,
    pub title: Seq<char>,
    pub upnp_class: Seq<char>,
    pub is_container: bool,
    pub child_count: usize,
    pub protocol_info: Option<Seq<char>>,
    pub url: Option<Seq<char>>,
    pub size: Option<u64>,
}

impl View for UpnpDidlItem {
    type V = DidlView;

    open spec fn view(&self) -> DidlView {
        DidlView {
            id: self.id@,
            parent_id: self.parent_id@,
            title: self.title@,
            upnp_class: self.upnp_class@,
            is_container: self.is_container,
            child_count: self.child_count,
            protocol_info: text::text_in(self.protocol_info),
            url: text::text_in(self.url),
            size: self.size,
        }
    }
}

impl Clone for UpnpDidlItem {
    fn clone(&self) -> (r: Self)
        ensures
            r == *self,
    {
        UpnpDidlItem {
            id: self.id.clone(),
            parent_id: self.parent_id.clone(),
            title: self.title.clone(),
            upnp_class: self.upnp_class.clone(),
            is_container: self.is_container,
            child_count: self.child_count,
            protocol_info: self.protocol_info.clone(),
            url: self.url.clone(),
            size: self.size,
        }
    }
}

/// The objects of a list.
pub open spec fn didl_views(v: Seq<UpnpDidlItem>) -> Seq<DidlView> {
    v.map_values(|item: UpnpDidlItem| item@)
}

/// A directory.
pub open spec fn folder_object(id: Seq<char>, parent_id: Seq<char>, title: Seq<char>) -> DidlView {
    DidlView {
        id,
        parent_id,
        title,
        upnp_class: FOLDER_CLASS@,
        is_container: true,
        child_count: 0,
        protocol_info: None,
        url: None,
        size: None,
    }
}

/// A directory.
pub(crate) fn new_folder(id: String, parent_id: String, title: String) -> (r: UpnpDidlItem)
    ensures
        r@ == folder_object(id@, parent_id@, title@),
{
    UpnpDidlItem {
        id,
        parent_id,
        title,
        upnp_class: FOLDER_CLASS.to_string(),
        is_container: true,
        child_count: 0,
        protocol_info: None,
        url: None,
        size: None,
    }
}

/// The address of a file on a phone.
pub open spec fn media_url(base: Seq<char>, folder: Seq<char>, path: Seq<char>) -> Seq<char> {
    base + "/media/"@ + encoding::percent_encoded(folder) + "/"@ + media_path::encoded_media_path(
        path,
    )
}

/// The address of a file on a phone.
pub fn upnp_media_url(media_base_url: &str, phone_folder: &str, path: &str) -> (r: String)
    ensures
        r@ == media_url(media_base_url@, phone_folder@, path@),
{
    let mut r = text::concat3(
        media_base_url,
        "/media/",
        &encoding::percent_encode_component(phone_folder),
    );
    r.push_str("/");
    r.push_str(&media_path::percent_encode_media_path(path));
    r
}

/// The identifier of the directory with a path: the root of a phone is the root of the phone's own
/// device, and a directory of the proxy's.
pub open spec fn parent_id_of(
    own_device: bool,
    phone_id: Seq<char>,
    parent_path: Seq<char>,
) -> Seq<char> {
    if parent_path == "/"@ {
        if own_device {
            "0"@
        } else {
            container_id(phone_id)
        }
    } else {
        path_id("folder"@, phone_id, parent_path)
    }
}

/// The identifier of the directory with a path.
pub fn parent_id_for_phone_path(own_device: bool, phone_id: &str, parent_path: &str) -> (r: String)
    ensures
        r@ == parent_id_of(own_device, phone_id@, parent_path@),
{
    if text::same(parent_path, "/") {
        if own_device {
            "0".to_string()
        } else {
            phone_container_id(phone_id)
        }
    } else {
        folder_object_id(phone_id, parent_path)
    }
}

/// A file on a phone, in the directory with an identifier.
pub open spec fn file_object(
    base: Seq<char>,
    p: PhoneView,
    path: Seq<char>,
    size: u64,
    parent_id: Seq<char>,
) -> DidlView {
    let mime = media_path::mime_type(path);
    DidlView {
        id: path_id("item"@, p.id, path),
        parent_id,
        title: match media_path::base_name(path) {
            Some(name) => name,
            None => "media"@,
        },
        upnp_class: class_of(mime),
        is_container: false,
        child_count: 0,
        protocol_info: Some(protocol_info(mime)),
        url: Some(media_url(base, p.folder_name, path)),
        size: Some(size),
    }
}

/// A file on a phone, in the directory with an identifier.
pub fn upnp_file_item_for_parent(
    media_base_url: &str,
    p: &PhoneSession,
    path: &str,
    size: u64,
    parent_id: String,
) -> (r: UpnpDidlItem)
    ensures
        r@ == file_object(media_base_url@, p@, path@, size, parent_id@),
{
    let mime = media_path::mime_type_for_path(path);
    let title = match media_path::media_basename(path) {
        Some(name) => name,
        None => "media".to_string(),
    };
    UpnpDidlItem {
        id: item_object_id(&p.id, path),
        parent_id,
        title,
        upnp_class: upnp_class_for_mime(mime).to_string(),
        is_container: false,
        child_count: 0,
        protocol_info: Some(protocol_info_for_mime(mime)),
        url: Some(upnp_media_url(media_base_url, &p.folder_name, path)),
        size: Some(size),
    }
}

/// A file on a phone.
pub fn upnp_file_item(
    media_base_url: &str,
    own_device: bool,
    p: &PhoneSession,
    path: &str,
    size: u64,
) -> (r: UpnpDidlItem)
    ensures
        r@ == file_object(
            media_base_url@,
            p@,
            path@,
            size,
            parent_id_of(own_device, p@.id, media_path::parent_path(path@)),
        ),
{
    let parent = parent_id_for_phone_path(own_device, &p.id, &media_path::parent_media_path(path));
    upnp_file_item_for_parent(media_base_url, p, path, size, parent)
}

// ---------------------------------------------------------------------------
// DIDL-Lite
// ---------------------------------------------------------------------------

/// The start of a description.
pub const DIDL_START: &'static str =
    "<DIDL-Lite xmlns=\"urn:schemas-upnp-org:metadata-1-0/DIDL-Lite/\" xmlns:dc=\"http://purl.org/dc/elements/1.1/\" xmlns:upnp=\"urn:schemas-upnp-org:metadata-1-0/upnp/\">";

/// The description of a directory.
pub open spec fn container_xml(item: DidlView) -> Seq<char> {
    "<container id=\""@ + xml::xml_escaped(item.id) + "\" parentID=\""@ + xml::xml_escaped(
        item.parent_id,
    ) + "\" restricted=\"1\" searchable=\"0\" childCount=\""@ + numbers::dec(
        item.child_count as nat,
    ) + "\"><dc:title>"@ + xml::xml_escaped(item.title) + "</dc:title><upnp:class>"@
        + xml::xml_escaped(item.upnp_class) + "</upnp:class></container>"@
}

/// The attribute with the size of a file, where it is not empty.
pub open spec fn size_attribute(size: Option<u64>) -> Seq<char> {
    match size {
        Some(n) if n > 0 => " size=\""@ + numbers::dec(n as nat) + "\""@,
        _ => Seq::empty(),
    }
}

/// The description of a file.
pub open spec fn file_xml(item: DidlView) -> Seq<char> {
    "<item id=\""@ + xml::xml_escaped(item.id) + "\" parentID=\""@ + xml::xml_escaped(
        item.parent_id,
    ) + "\" restricted=\"1\"><dc:title>"@ + xml::xml_escaped(item.title)
        + "</dc:title><upnp:class>"@ + xml::xml_escaped(item.upnp_class)
        + "</upnp:class><res protocolInfo=\""@ + xml::xml_escaped(
        match item.protocol_info {
            Some(p) => p,
            None => "http-get:*:application/octet-stream:*"@,
        },
    ) + "\""@ + size_attribute(item.size) + ">"@ + xml::xml_escaped(
        match item.url {
            Some(u) => u,
            None => Seq::empty(),
        },
    ) + "</res></item>"@
}

/// The description of an object.
pub open spec fn object_xml(item: DidlView) -> Seq<char> {
    if item.is_container {
        container_xml(item)
    } else {
        file_xml(item)
    }
}

/// The descriptions of objects, one after the other.
pub open spec fn objects_xml(items: Seq<DidlView>) -> Seq<char>
    decreases items.len(),
{
    if items.len() == 0 {
        Seq::empty()
    } else {
        objects_xml(items.drop_last()) + object_xml(items.last())
    }
}

/// The description of objects.
pub open spec fn didl_of(items: Seq<DidlView>) -> Seq<char> {
    DIDL_START@ + objects_xml(items) + "</DIDL-Lite>"@
}

fn describe_container(item: &UpnpDidlItem) -> (r: String)
    ensures
        r@ == container_xml(item@),
{
    let mut r = text::concat3("<container id=\"", &xml::xml_text(&item.id), "\" parentID=\"");
    r.push_str(&xml::xml_text(&item.parent_id));
    r.push_str("\" restricted=\"1\" searchable=\"0\" childCount=\"");
    r.push_str(&numbers::decimal(item.child_count as u64));
    r.push_str("\"><dc:title>");
    r.push_str(&xml::xml_text(&item.title));
    r.push_str("</dc:title><upnp:class>");
    r.push_str(&xml::xml_text(&item.upnp_class));
    r.push_str("</upnp:class></container>");
    r
}

fn describe_file(item: &UpnpDidlItem) -> (r: String)
    ensures
        r@ == file_xml(item@),
{
    let mut r = text::concat3("<item id=\"", &xml::xml_text(&item.id), "\" parentID=\"");
    r.push_str(&xml::xml_text(&item.parent_id));
    r.push_str("\" restricted=\"1\"><dc:title>");
    r.push_str(&xml::xml_text(&item.title));
    r.push_str("</dc:title><upnp:class>");
    r.push_str(&xml::xml_text(&item.upnp_class));
    r.push_str("</upnp:class><res protocolInfo=\"");
    let info = match &item.protocol_info {
        Some(p) => xml::xml_text(p),
        None => xml::xml_text("http-get:*:application/octet-stream:*"),
    };
    r.push_str(&info);
    r.push_str("\"");
    let size = match item.size {
        Some(n) => if n > 0 {
            text::concat3(" size=\"", &numbers::decimal(n), "\"")
        } else {
            String::new()
        },
        None => String::new(),
    };
    r.push_str(&size);
    r.push_str(">");
    let url = match &item.url {
        Some(u) => xml::xml_text(u),
        None => xml::xml_text(""),
    };
    proof {
        reveal_strlit("");
        assert(""@ =~= Seq::<char>::empty());
    }
    r.push_str(&url);
    r.push_str("</res></item>");
    r
}

/// The description of objects.
pub fn upnp_didl(items: &Vec<UpnpDidlItem>) -> (r: String)
    ensures
        r@ == didl_of(didl_views(items@)),
{
    let ghost all = didl_views(items@);
    let mut body = String::new();
    let mut i: usize = 0;
    while i < items.len()
        invariant
            all == didl_views(items@),
            i <= items@.len(),
            body@ == objects_xml(all.take(i as int)),
        decreases items@.len() - i,
    {
        proof {
            assert(all.take(i + 1).drop_last() =~= all.take(i as int));
            assert(all.take(i + 1).last() == items@[i as int]@);
        }
        let one = if items[i].is_container {
            describe_container(&items[i])
        } else {
            describe_file(&items[i])
        };
        body.push_str(&one);
        i += 1;
    }
    proof {
        assert(all.take(i as int) =~= all);
    }
    text::concat3(DIDL_START, &body, "</DIDL-Lite>")
}

/// The objects from a place on, and at most as many as asked for; 0 stands for all.
pub open spec fn sliced(items: Seq<DidlView>, from: nat, count: nat) -> Seq<DidlView> {
    if from >= items.len() {
        Seq::empty()
    } else if count == 0 || from + count >= items.len() {
        items.skip(from as int)
    } else {
        items.subrange(from as int, (from + count) as int)
    }
}

/// The objects from a place on, and at most as many as asked for; 0 stands for all.
pub fn slice_upnp_items(
    items: &Vec<UpnpDidlItem>,
    starting_index: usize,
    requested_count: usize,
) -> (r: Vec<UpnpDidlItem>)
    ensures
        didl_views(r@) == sliced(didl_views(items@), starting_index as nat, requested_count as nat),
{
    let ghost all = didl_views(items@);
    let n: usize = items.len();
    let mut r: Vec<UpnpDidlItem> = Vec::new();
    if starting_index >= n {
        proof {
            assert(didl_views(r@) =~= Seq::empty());
        }
        return r;
    }
    let end: usize = if requested_count == 0 || requested_count >= n - starting_index {
        n
    } else {
        starting_index + requested_count
    };
    let mut i: usize = starting_index;
    while i < end
        invariant
            all == didl_views(items@),
            n == items@.len(),
            starting_index <= i <= end <= n,
            didl_views(r@) == all.subrange(starting_index as int, i as int),
        decreases end - i,
    {
        let ghost before = didl_views(r@);
        r.push(items[i].clone());
        proof {
            assert(didl_views(r@) =~= before.push(all[i as int]));
            assert(all.subrange(starting_index as int, i + 1) =~= all.subrange(
                starting_index as int,
                i as int,
            ).push(all[i as int]));
        }
        i += 1;
    }
    proof {
        if end == n {
            assert(all.subrange(starting_index as int, n as int) =~= all.skip(
                starting_index as int,
            ));
        }
    }
    r
}

// ---------------------------------------------------------------------------
// Directories
// ---------------------------------------------------------------------------

/// What entries are ordered by: directories come first, then names in small letters.
pub open spec fn entry_keys(entries: Seq<PhoneEntryView>) -> Seq<(u128, Seq<char>)> {
    entries.map_values(
        |e: PhoneEntryView|
            (
                if e.is_directory {
                    0u128
                } else {
                    1u128
                },
                text::unicode_lowercase(e.name),
            ),
    )
}

/// The object for an entry of a directory on a phone.
pub open spec fn entry_object(
    base: Seq<char>,
    p: PhoneView,
    path: Seq<char>,
    parent_id: Seq<char>,
    e: PhoneEntryView,
) -> DidlView {
    let child = media_path::child_path(path, e.name);
    if e.is_directory {
        folder_object(path_id("folder"@, p.id, child), parent_id, e.name)
    } else {
        file_object(base, p, child, e.size, parent_id)
    }
}

/// The objects for the entries at the given places.
pub open spec fn entry_objects(
    base: Seq<char>,
    p: PhoneView,
    path: Seq<char>,
    parent_id: Seq<char>,
    entries: Seq<PhoneEntryView>,
    places: Seq<usize>,
) -> Seq<DidlView> {
    places.map_values(|i: usize| entry_object(base, p, path, parent_id, entries[i as int]))
}

/// The objects of a directory whose entries are in the order that the places give.
pub fn arranged_entries(
    media_base_url: &str,
    p: &PhoneSession,
    path: &str,
    parent_id: &str,
    entries: &Vec<PhoneEntry>,
    places: &Vec<usize>,
) -> (r: Vec<UpnpDidlItem>)
    requires
        forall|i: int| 0 <= i < places@.len() ==> (#[trigger] places@[i]) < entries@.len(),
    ensures
        didl_views(r@) == entry_objects(
            media_base_url@,
            p@,
            path@,
            parent_id@,
            phone::entry_views(entries@),
            places@,
        ),
{
    let ghost all = entry_objects(
        media_base_url@,
        p@,
        path@,
        parent_id@,
        phone::entry_views(entries@),
        places@,
    );
    let mut r: Vec<UpnpDidlItem> = Vec::new();
    let mut k: usize = 0;
    while k < places.len()
        invariant
            forall|i: int| 0 <= i < places@.len() ==> (#[trigger] places@[i]) < entries@.len(),
            all == entry_objects(
                media_base_url@,
                p@,
                path@,
                parent_id@,
                phone::entry_views(entries@),
                places@,
            ),
            k <= places@.len(),
            didl_views(r@) == all.take(k as int),
        decreases places@.len() - k,
    {
        let ghost before = didl_views(r@);
        let place: usize = places[k];
        let entry = &entries[place];
        let child = media_path::join_media_path(path, &entry.name);
        let item = if entry.is_directory {
            new_folder(
                folder_object_id(&p.id, &child),
                parent_id.to_string(),
                entry.name.clone(),
            )
        } else {
            upnp_file_item_for_parent(
                media_base_url,
                p,
                &child,
                entry.size,
                parent_id.to_string(),
            )
        };
        let ghost made = item@;
        r.push(item);
        proof {
            assert(made == all[k as int]);
            assert(didl_views(r@) =~= before.push(made));
            assert(all.take(k + 1) =~= all.take(k as int).push(all[k as int]));
        }
        k += 1;
    }
    proof {
        assert(all.take(k as int) =~= all);
    }
    r
}

/// Whether `items` are the objects of a directory with the given entries.
pub open spec fn directory_objects(
    base: Seq<char>,
    p: PhoneView,
    path: Seq<char>,
    parent_id: Seq<char>,
    entries: Seq<PhoneEntryView>,
    items: Seq<DidlView>,
) -> bool {
    exists|places: Seq<usize>| #[trigger]
        order::stable_order(entry_keys(entries), places) && items == entry_objects(
            base,
            p,
            path,
            parent_id,
            entries,
            places,
        )
}

/// The objects of a directory on a phone: directories first, then files, each in the order of
/// their names in small letters.
pub fn upnp_list_phone_directory(
    media_base_url: &str,
    p: &PhoneSession,
    path: &str,
    parent_id: &str,
    response: PhoneResponse,
) -> (r: Result<Vec<UpnpDidlItem>, String>)
    ensures
        match r {
            Ok(items) => response@.ok != Some(false) && directory_objects(
                media_base_url@,
                p@,
                path@,
                parent_id@,
                phone::real_entries(response@),
                didl_views(items@),
            ),
            Err(message) => response@.ok == Some(false) && message@ == (match response@.error {
                Some(e) => e,
                None => "erreur telephone"@,
            }),
        },
{
    let entries = match phone::phone_json_request(response) {
        Ok(reply) => phone::listed_entries(reply),
        Err(message) => {
            return Err(message);
        },
    };
    let ghost all = entry_keys(phone::entry_views(entries@));
    let mut keys: Vec<SortKey> = Vec::new();
    let mut i: usize = 0;
    while i < entries.len()
        invariant
            all == entry_keys(phone::entry_views(entries@)),
            i <= entries@.len(),
            order::key_views(keys@) == all.take(i as int),
        decreases entries@.len() - i,
    {
        let ghost before = order::key_views(keys@);
        let number: u128 = if entries[i].is_directory {
            0
        } else {
            1
        };
        let key = SortKey { number, text: text::lowercase(&entries[i].name) };
        let ghost kv = key@;
        keys.push(key);
        proof {
            assert(order::key_views(keys@) =~= before.push(kv));
            assert(kv == all[i as int]);
            assert(all.take(i + 1) =~= all.take(i as int).push(all[i as int]));
        }
        i += 1;
    }
    proof {
        assert(all.take(i as int) =~= all);
    }
    let places = sort_positions(&keys);
    Ok(arranged_entries(media_base_url, p, path, parent_id, &entries, &places))
}

// ---------------------------------------------------------------------------
// Laws
// ---------------------------------------------------------------------------

/// A text that begins with another is cut behind it.
proof fn lemma_cut_prefix(start: Seq<char>, rest: Seq<char>)
    ensures
        text::without_prefix(start + rest, start) == Some(rest),
{
    let all = start + rest;
    assert(all.subrange(0, start.len() as int) =~= start);
    assert(all.skip(start.len() as int) =~= rest);
}

/// A text is cut at the first colon.
proof fn lemma_cut_colon(a: Seq<char>, b: Seq<char>)
    requires
        forall|i: int| 0 <= i < a.len() ==> #[trigger] a[i] != ':',
    ensures
        text::cut(a + ":"@ + b, CharSet::Only(':')) == Some((a, b)),
{
    reveal_strlit(":");
    let all = a + ":"@ + b;
    assert forall|j: int| 0 <= j < a.len() implies !CharSet::Only(':').has(#[trigger] all[j]) by {
        assert(all[j] == a[j]);
    }
    text::lemma_until_is(all, CharSet::Only(':'), a.len() as int);
    assert(all.take(a.len() as int) =~= a);
    assert(all.skip(a.len() as int + 1) =~= b);
}

/// The identifier of a phone's directory names the phone.
pub proof fn law_container_id_names_phone(phone: Seq<char>)
    requires
        phone.len() > 0,
    ensures
        container_phone(container_id(phone)) == Some(phone),
{
    lemma_cut_prefix("phone:"@, encoding::percent_encoded(phone));
    encoding::law_percent_round_trip(phone);
}

/// The identifier of a path on a phone names the phone and the path.
pub proof fn law_path_id_names_path(kind: Seq<char>, phone: Seq<char>, path: Seq<char>)
    ensures
        path_in_id(path_id(kind, phone, path), kind) == Some((phone, media_path::normalized(path))),
{
    let a = encoding::percent_encoded(phone);
    let b = encoding::percent_encoded(media_path::normalized(path));
    assert(path_id(kind, phone, path) =~= (kind + ":"@) + (a + ":"@ + b));
    lemma_cut_prefix(kind + ":"@, a + ":"@ + b);
    encoding::law_encoded_component_chars(phone);
    assert forall|i: int| 0 <= i < a.len() implies #[trigger] a[i] != ':' by {
        assert(encoding::component_char(a[i]));
    }
    lemma_cut_colon(a, b);
    encoding::law_percent_round_trip(phone);
    encoding::law_percent_round_trip(media_path::normalized(path));
    media_path::law_normalize_idempotent(path);
}

/// A normal form ends with a slash only where it is the root.
pub proof fn lemma_normal_end(path: Seq<char>)
    ensures
        ({
            let p = media_path::normalized(path);
            p.len() > 0 && p[0] == '/' && (p == seq!['/'] || p.last() != '/')
        }),
{
    let names = media_path::media_names(path);
    let p = media_path::normalized(path);
    media_path::lemma_media_names(path);
    if names.len() == 0 {
        assert(p =~= seq!['/']);
    } else {
        let last = names.last();
        assert(names[names.len() - 1] == last);
        let j = text::joined(names, seq!['/']);
        assert(media_path::is_name(names[names.len() - 1]));
        assert(text::free_of(names[names.len() - 1], CharSet::Pair('/', '\\')));
        assert(j.last() == last.last()) by {
            if names.len() > 1 {
                assert(j == text::joined(names.drop_last(), seq!['/']) + seq!['/'] + last);
            }
        }
        assert(!CharSet::Pair('/', '\\').has(last[last.len() - 1]));
        assert(p.last() == j.last());
    }
}

/// Whether a text can be the identifier of a phone: letters, digits and `-_.`.
pub open spec fn phone_identifier(id: Seq<char>) -> bool {
    id.len() > 0 && forall|i: int| 0 <= i < id.len() ==> registry::id_char(#[trigger] id[i])
}

/// What is understood of the identifier of a path on a phone.
proof fn lemma_object_of_path_id(kind: Seq<char>, phone: Seq<char>, path: Seq<char>)
    requires
        kind == "folder"@ || kind == "item"@,
        phone_identifier(phone),
        encoding::percent_decoded(media_path::normalized(path)) == media_path::normalized(path),
    ensures
        object_of(path_id(kind, phone, path)) == kind + ":"@ + phone + ":"@ + (
        if media_path::normalized(path) == seq!['/'] {
            Seq::empty()
        } else {
            media_path::normalized(path)
        }),
{
    reveal_strlit("folder");
    reveal_strlit("item");
    reveal_strlit(":");
    reveal_strlit("upnp://");
    let slash = CharSet::Only('/');
    let p = media_path::normalized(path);
    let e = encoding::percent_encoded(p);
    lemma_normal_end(path);
    assert forall|i: int| 0 <= i < phone.len() implies encoding::component_char(
        #[trigger] phone[i],
    ) && phone[i] != '%' by {
        assert(registry::id_char(phone[i]));
    }
    encoding::law_encode_unreserved(phone);
    let plain = kind + ":"@ + phone + ":"@;
    let id = path_id(kind, phone, path);
    assert(id =~= plain + e);
    assert(!plain.contains('%')) by {
        assert forall|i: int| 0 <= i < plain.len() implies plain[i] != '%' by {
            if kind.len() < i < kind.len() + 1 + phone.len() {
                assert(plain[i] == phone[i - kind.len() - 1]);
            } else if i < kind.len() {
                assert(plain[i] == kind[i]);
            }
        }
    }
    encoding::law_encoded_component_chars(p);
    // The normal form is not empty, and neither is its encoding.
    encoding::law_percent_round_trip(p);
    assert(e.len() > 0) by {
        if e.len() == 0 {
            assert(e =~= Seq::<char>::empty());
            assert(!e.contains('%'));
            encoding::law_decode_without_escapes(e);
        }
    }
    assert(id[0] == kind[0]);
    assert(id.last() == e.last());
    assert(encoding::component_char(e[e.len() - 1]));
    text::lemma_char_range(e[e.len() - 1]);
    assert(!text::white_space(e[e.len() - 1]));
    assert(!text::white_space(kind[0]));
    media_path::lemma_trim_nothing(id, CharSet::White);
    assert(!text::begins(id, "upnp://"@)) by {
        if text::begins(id, "upnp://"@) {
            assert(id.subrange(0, 7)[0] == "upnp://"@[0]);
        }
    }
    encoding::law_decode_behind_plain(plain, p);
    let d = plain + p;
    encoding::lemma_decode_nothing_behind_plain(plain, p);
    assert(decoded_once(id) == d) by {
        if !id.contains('%') {
            encoding::law_decode_without_escapes(id);
        }
    }
    assert(decoded_once(d) == d);
    if p == seq!['/'] {
        assert(d.drop_last() =~= plain);
        assert(plain.last() == ':');
        assert(text::trim_end(plain, slash) == plain);
        assert(plain + Seq::<char>::empty() =~= plain);
    } else {
        assert(d.last() == p.last());
        assert(text::trim_end(d, slash) == d);
    }
}

/// A client that asks about an object by the identifier that it was given is understood: the
/// identifier of a path on a phone, as it comes back in a request, names the phone and the path.
/// Paths that hold percent escapes themselves are the exception, for identifiers are decoded more
/// than once.
pub proof fn law_listed_object_is_found(kind: Seq<char>, phone: Seq<char>, path: Seq<char>)
    requires
        kind == "folder"@ || kind == "item"@,
        phone_identifier(phone),
        encoding::percent_decoded(media_path::normalized(path)) == media_path::normalized(path),
    ensures
        path_in_id(object_of(path_id(kind, phone, path)), kind) == Some(
            (phone, media_path::normalized(path)),
        ),
{
    lemma_object_of_path_id(kind, phone, path);
    reveal_strlit(":");
    let p = media_path::normalized(path);
    let q = if p == seq!['/'] {
        Seq::<char>::empty()
    } else {
        p
    };
    let id = kind + ":"@ + phone + ":"@ + q;
    assert(id =~= (kind + ":"@) + (phone + ":"@ + q));
    lemma_cut_prefix(kind + ":"@, phone + ":"@ + q);
    assert forall|i: int| 0 <= i < phone.len() implies #[trigger] phone[i] != ':' by {
        assert(registry::id_char(phone[i]));
    }
    lemma_cut_colon(phone, q);
    assert(!phone.contains('%')) by {
        assert forall|i: int| 0 <= i < phone.len() implies phone[i] != '%' by {
            assert(registry::id_char(phone[i]));
        }
    }
    encoding::law_decode_without_escapes(phone);
    if q.len() == 0 {
        encoding::law_decode_without_escapes(q);
    }
    media_path::law_normalize_idempotent(path);
    if p == seq!['/'] {
        let names = media_path::media_names(path);
        let none = Seq::<Seq<char>>::empty();
        media_path::lemma_names_of_path(none);
        assert(media_path::path_of_names(none) =~= seq!['/']);
        assert(names == none);
        lemma_empty_path();
    }
}

/// The empty path is the root.
proof fn lemma_empty_path()
    ensures
        media_path::normalized(Seq::empty()) == seq!['/'],
{
    let e = Seq::<char>::empty();
    let fwd = text::replaced_set(e, CharSet::Only('\\'), '/');
    assert(fwd =~= e);
    text::lemma_parts_free(e, CharSet::Only('/'));
    assert(media_path::names_of(seq![e]) =~= Seq::<Seq<char>>::empty()) by {
        reveal_with_fuel(Seq::filter, 2);
        assert(seq![e].drop_last() =~= Seq::<Seq<char>>::empty());
    }
    assert(media_path::normalized(e) =~= seq!['/']);
}

/// The identifier of a phone's directory, as it comes back in a request, names the phone.
pub proof fn law_listed_phone_is_found(phone: Seq<char>)
    requires
        phone_identifier(phone),
    ensures
        container_phone(object_of(container_id(phone))) == Some(phone),
{
    reveal_strlit("phone:");
    reveal_strlit("upnp://");
    assert forall|i: int| 0 <= i < phone.len() implies encoding::component_char(
        #[trigger] phone[i],
    ) && phone[i] != '%' && phone[i] != '/' && !text::white_space(phone[i]) by {
        assert(registry::id_char(phone[i]));
    }
    encoding::law_encode_unreserved(phone);
    let id = container_id(phone);
    assert(id.last() == phone[phone.len() - 1]);
    assert(id[0] == "phone:"@[0]);
    assert(encoding::component_char(phone[phone.len() - 1]));
    media_path::lemma_trim_nothing(id, CharSet::White);
    assert(!text::begins(id, "upnp://"@)) by {
        if text::begins(id, "upnp://"@) {
            assert(id.subrange(0, 7)[0] == "upnp://"@[0]);
        }
    }
    assert(!id.contains('%')) by {
        assert forall|i: int| 0 <= i < id.len() implies id[i] != '%' by {
            if i >= 6 {
                assert(id[i] == phone[i - 6]);
            }
        }
    }
    assert(text::trim_end(id, CharSet::Only('/')) == id);
    law_container_id_names_phone(phone);
}

/// Names joined by slashes, each percent-encoded, in bytes: resolving the escapes of them and of
/// what follows them.
proof fn lemma_unescape_joined(names: Seq<Seq<char>>, rest: Seq<u8>)
    requires
        names.len() > 0,
    ensures
        encoding::unescaped(
            encoding::ascii_bytes(
                text::joined(media_path::encoded_names(names), seq!['/']),
            ) + rest,
        ) == vstd::utf8::encode_utf8(text::joined(names, seq!['/'])) + encoding::unescaped(rest),
    decreases names.len(),
{
    let enc = media_path::encoded_names(names);
    let last = names.last();
    let last_bytes = encoding::ascii_bytes(encoding::percent_encoded(last));
    if names.len() == 1 {
        assert(text::joined(enc, seq!['/']) == encoding::percent_encoded(names[0]));
        encoding::lemma_unescape_encoded(names[0], rest);
    } else {
        let front = names.drop_last();
        assert(enc.drop_last() =~= media_path::encoded_names(front));
        assert(enc.last() == encoding::percent_encoded(last));
        let jf = text::joined(media_path::encoded_names(front), seq!['/']);
        let after = seq![47u8] + (last_bytes + rest);
        assert(encoding::ascii_bytes(text::joined(enc, seq!['/'])) + rest
            =~= encoding::ascii_bytes(jf) + after);
        lemma_unescape_joined(front, after);
        encoding::lemma_unescape_plain(seq![47u8], last_bytes + rest);
        encoding::lemma_unescape_encoded(last, rest);
        let joined_front = text::joined(front, seq!['/']);
        encoding::lemma_encode_concat(joined_front + seq!['/'], last);
        encoding::lemma_encode_concat(joined_front, seq!['/']);
        encoding::lemma_ascii_utf8(seq!['/']);
        assert(encoding::ascii_bytes(seq!['/']) =~= seq![47u8]);
        assert(vstd::utf8::encode_utf8(joined_front) + (seq![47u8] + (vstd::utf8::encode_utf8(last)
            + encoding::unescaped(rest))) =~= (vstd::utf8::encode_utf8(joined_front) + seq![47u8]
            + vstd::utf8::encode_utf8(last)) + encoding::unescaped(rest));
    }
}

/// Encoded names joined by slashes are ASCII.
proof fn lemma_joined_ascii(names: Seq<Seq<char>>)
    ensures
        forall|i: int|
            0 <= i < text::joined(media_path::encoded_names(names), seq!['/']).len() ==> (
            #[trigger] text::joined(media_path::encoded_names(names), seq!['/'])[i] as int) < 128,
    decreases names.len(),
{
    let enc = media_path::encoded_names(names);
    let j = text::joined(enc, seq!['/']);
    if names.len() > 0 {
        let last = encoding::percent_encoded(names.last());
        encoding::law_encoded_component_chars(names.last());
        if names.len() == 1 {
            assert(j == last);
            assert forall|i: int| 0 <= i < j.len() implies (#[trigger] j[i] as int) < 128 by {
                assert(encoding::component_char(last[i]));
            }
        } else {
            lemma_joined_ascii(names.drop_last());
            assert(enc.drop_last() =~= media_path::encoded_names(names.drop_last()));
            let front = text::joined(media_path::encoded_names(names.drop_last()), seq!['/']);
            assert(j == front + seq!['/'] + last);
            assert forall|i: int| 0 <= i < j.len() implies (#[trigger] j[i] as int) < 128 by {
                if i < front.len() {
                    assert(j[i] == front[i]);
                } else if i > front.len() {
                    assert(j[i] == last[i - front.len() - 1]);
                    assert(encoding::component_char(last[i - front.len() - 1]));
                }
            }
        }
    }
}

/// The address of a file leads to it: what stands in it behind `/media/` names the folder of the
/// phone and the path of the file.
pub proof fn law_media_url_leads_to_file(folder: Seq<char>, path: Seq<char>)
    requires
        folder.len() > 0,
        !folder.contains('/'),
        media_path::media_names(path).len() > 0,
    ensures
        media_path::http_media_target(
            encoding::percent_encoded(folder) + "/"@ + media_path::encoded_media_path(path),
        ) == Ok::<_, media_path::PathError>((folder, media_path::normalized(path))),
{
    reveal_strlit("/");
    assert("/"@ =~= seq!['/']);
    let names = media_path::media_names(path);
    let slash = CharSet::Only('/');
    let enc_folder = encoding::percent_encoded(folder);
    let enc_path = media_path::encoded_media_path(path);
    let url = enc_folder + "/"@ + enc_path;
    let inner = text::joined(names, seq!['/']);
    let plain = folder + seq!['/'] + inner;
    // Decoding.
    encoding::law_encoded_component_chars(folder);
    lemma_joined_ascii(names);
    assert forall|i: int| 0 <= i < url.len() implies (#[trigger] url[i] as int) < 128 by {
        if i < enc_folder.len() {
            assert(url[i] == enc_folder[i]);
            assert(encoding::component_char(enc_folder[i]));
        } else if i > enc_folder.len() {
            assert(url[i] == enc_path[i - enc_folder.len() - 1]);
        }
    }
    encoding::lemma_ascii_utf8(url);
    let tail_bytes = encoding::ascii_bytes(enc_path);
    assert(encoding::ascii_bytes(url) =~= encoding::ascii_bytes(enc_folder) + (seq![47u8]
        + tail_bytes));
    encoding::lemma_unescape_encoded(folder, seq![47u8] + tail_bytes);
    encoding::lemma_unescape_plain(seq![47u8], tail_bytes);
    let none = Seq::<u8>::empty();
    lemma_unescape_joined(names, none);
    assert(tail_bytes + none =~= tail_bytes);
    assert(encoding::unescaped(none) =~= none);
    let inner_bytes = vstd::utf8::encode_utf8(inner);
    assert(inner_bytes + none =~= inner_bytes);
    encoding::lemma_encode_concat(folder + seq!['/'], inner);
    encoding::lemma_encode_concat(folder, seq!['/']);
    encoding::lemma_ascii_utf8(seq!['/']);
    assert(encoding::ascii_bytes(seq!['/']) =~= seq![47u8]);
    assert(vstd::utf8::encode_utf8(folder) + (seq![47u8] + inner_bytes) =~= vstd::utf8::encode_utf8(
        plain,
    ));
    vstd::utf8::encode_utf8_valid_utf8(plain);
    vstd::utf8::encode_utf8_decode_utf8(plain);
    assert(encoding::percent_decoded(url) == plain);
    // Splitting.
    lemma_normal_end(path);
    let p = media_path::normalized(path);
    assert(p == seq!['/'] + inner);
    assert(inner.len() > 0) by {
        media_path::lemma_media_names(path);
        assert(media_path::is_name(names[names.len() - 1]));
        if names.len() > 1 {
            assert(inner == text::joined(names.drop_last(), seq!['/']) + seq!['/'] + names.last());
        }
    }
    assert(p.len() > 1);
    assert(plain.last() == p.last());
    assert(plain[0] == folder[0]);
    assert(folder.contains(folder[0]));
    media_path::lemma_trim_nothing(plain, slash);
    assert forall|j: int| 0 <= j < folder.len() implies !slash.has(#[trigger] plain[j]) by {
        assert(plain[j] == folder[j]);
        assert(folder.contains(folder[j]));
    }
    text::lemma_until_is(plain, slash, folder.len() as int);
    assert(plain.take(folder.len() as int) =~= folder);
    assert(plain.skip(folder.len() as int + 1) =~= inner);
}

/// Pages that follow each other hold what one page of both sizes holds: nothing is left out, and
/// nothing comes twice.
pub proof fn law_pages_join(items: Seq<DidlView>, from: nat, a: nat, b: nat)
    requires
        a > 0,
        b > 0,
    ensures
        sliced(items, from, a) + sliced(items, from + a, b) == sliced(items, from, a + b),
        sliced(items, from, a).len() <= a,
        sliced(items, 0, 0) == items,
{
    assert(sliced(items, from, a) + sliced(items, from + a, b) =~= sliced(items, from, a + b));
    assert(sliced(items, 0, 0) =~= items);
}

/// The place of an offered type among all of them, by some of its characters.
spec fn place_of(mime: Seq<char>) -> int {
    if mime[0] == 'v' {
        if mime[6] == 'm' {
            5
        } else if mime.last() == 'a' {
            6
        } else if mime.last() == 'o' {
            7
        } else if mime[6] == 'q' {
            8
        } else {
            9
        }
    } else if mime[0] == 'i' {
        if mime[6] == 'j' {
            10
        } else if mime[6] == 'p' {
            11
        } else if mime[6] == 'w' {
            12
        } else if mime[6] == 'g' {
            13
        } else if mime[6] == 'b' {
            14
        } else if mime.last() == 'c' {
            15
        } else {
            16
        }
    } else if mime[6] == 'm' {
        0
    } else if mime[6] == 'f' {
        2
    } else if mime[6] == 'w' {
        3
    } else if mime[6] == 'o' {
        4
    } else if mime[7] == 'a' {
        1
    } else {
        17
    }
}

/// No offered type holds a comma, and each has its own place.
proof fn lemma_offered_types()
    ensures
        offered_types().len() == 18,
        forall|i: int|
            0 <= i < offered_types().len() ==> text::free_of(
                #[trigger] offered_types()[i],
                CharSet::Only(','),
            ) && place_of(offered_types()[i]) == i,
{
    let comma = CharSet::Only(',');
    assert(text::free_of("audio/mpeg"@, comma) && place_of("audio/mpeg"@) == 0) by {
        reveal_strlit("audio/mpeg");
    }
    assert(text::free_of("audio/aac"@, comma) && place_of("audio/aac"@) == 1) by {
        reveal_strlit("audio/aac");
    }
    assert(text::free_of("audio/flac"@, comma) && place_of("audio/flac"@) == 2) by {
        reveal_strlit("audio/flac");
    }
    assert(text::free_of("audio/wav"@, comma) && place_of("audio/wav"@) == 3) by {
        reveal_strlit("audio/wav");
    }
    assert(text::free_of("audio/ogg"@, comma) && place_of("audio/ogg"@) == 4) by {
        reveal_strlit("audio/ogg");
    }
    assert(text::free_of("video/mp4"@, comma) && place_of("video/mp4"@) == 5) by {
        reveal_strlit("video/mp4");
    }
    assert(text::free_of("video/x-matroska"@, comma) && place_of("video/x-matroska"@) == 6) by {
        reveal_strlit("video/x-matroska");
    }
    assert(text::free_of("video/x-msvideo"@, comma) && place_of("video/x-msvideo"@) == 7) by {
        reveal_strlit("video/x-msvideo");
    }
    assert(text::free_of("video/quicktime"@, comma) && place_of("video/quicktime"@) == 8) by {
        reveal_strlit("video/quicktime");
    }
    assert(text::free_of("video/webm"@, comma) && place_of("video/webm"@) == 9) by {
        reveal_strlit("video/webm");
    }
    assert(text::free_of("image/jpeg"@, comma) && place_of("image/jpeg"@) == 10) by {
        reveal_strlit("image/jpeg");
    }
    assert(text::free_of("image/png"@, comma) && place_of("image/png"@) == 11) by {
        reveal_strlit("image/png");
    }
    assert(text::free_of("image/webp"@, comma) && place_of("image/webp"@) == 12) by {
        reveal_strlit("image/webp");
    }
    assert(text::free_of("image/gif"@, comma) && place_of("image/gif"@) == 13) by {
        reveal_strlit("image/gif");
    }
    assert(text::free_of("image/bmp"@, comma) && place_of("image/bmp"@) == 14) by {
        reveal_strlit("image/bmp");
    }
    assert(text::free_of("image/heic"@, comma) && place_of("image/heic"@) == 15) by {
        reveal_strlit("image/heic");
    }
    assert(text::free_of("image/heif"@, comma) && place_of("image/heif"@) == 16) by {
        reveal_strlit("image/heif");
    }
    assert(text::free_of("application/octet-stream"@, comma) && place_of("application/octet-stream"@) == 17) by {
        reveal_strlit("application/octet-stream");
    }
}

/// Every file is of an offered type.
proof fn lemma_type_is_offered(path: Seq<char>)
    ensures
        offered_types().contains(media_path::mime_type(path)),
{
    let o = offered_types();
    assert(o[0] == "audio/mpeg"@);
    assert(o[1] == "audio/aac"@);
    assert(o[2] == "audio/flac"@);
    assert(o[3] == "audio/wav"@);
    assert(o[4] == "audio/ogg"@);
    assert(o[5] == "video/mp4"@);
    assert(o[6] == "video/x-matroska"@);
    assert(o[7] == "video/x-msvideo"@);
    assert(o[8] == "video/quicktime"@);
    assert(o[9] == "video/webm"@);
    assert(o[10] == "image/jpeg"@);
    assert(o[11] == "image/png"@);
    assert(o[12] == "image/webp"@);
    assert(o[13] == "image/gif"@);
    assert(o[14] == "image/bmp"@);
    assert(o[15] == "image/heic"@);
    assert(o[16] == "image/heif"@);
    assert(o[17] == "application/octet-stream"@);
}

/// How a file is transferred tells its type.
proof fn lemma_protocol_tells_type(a: Seq<char>, b: Seq<char>)
    requires
        protocol_info(a) == protocol_info(b),
    ensures
        a == b,
{
    let front = "http-get:*:"@.len() as int;
    let back = ":DLNA.ORG_OP=01;DLNA.ORG_CI=0"@.len() as int;
    assert(protocol_info(a).len() == front + a.len() + back);
    assert(protocol_info(b).len() == front + b.len() + back);
    assert(protocol_info(a).subrange(front, front + a.len()) =~= a);
    assert(protocol_info(b).subrange(front, front + b.len()) =~= b);
}

/// What is announced of the transfer of files has one part for each offered type, no two of them
/// the same, and how any file is transferred is one of them.
pub proof fn law_every_transfer_is_announced(path: Seq<char>)
    ensures
        text::parts(source_protocol_info(), CharSet::Only(',')).len() == offered_types().len(),
        offered_types().len() == 18,
        text::parts(source_protocol_info(), CharSet::Only(',')).no_duplicates(),
        text::parts(source_protocol_info(), CharSet::Only(',')).contains(
            protocol_info(media_path::mime_type(path)),
        ),
{
    let comma = CharSet::Only(',');
    let o = offered_types();
    let p = o.map_values(|mime: Seq<char>| protocol_info(mime));
    lemma_offered_types();
    reveal_strlit("http-get:*:");
    reveal_strlit(":DLNA.ORG_OP=01;DLNA.ORG_CI=0");
    let front = "http-get:*:"@;
    let back = ":DLNA.ORG_OP=01;DLNA.ORG_CI=0"@;
    assert(text::free_of(front, comma));
    assert(text::free_of(back, comma));
    assert forall|i: int| 0 <= i < p.len() implies text::free_of(#[trigger] p[i], comma) by {
        let mime = o[i];
        assert forall|j: int| 0 <= j < p[i].len() implies !comma.has(#[trigger] p[i][j]) by {
            if j < front.len() {
                assert(p[i][j] == front[j]);
            } else if j < front.len() + mime.len() {
                assert(p[i][j] == mime[j - front.len()]);
            } else {
                assert(p[i][j] == back[j - front.len() - mime.len()]);
            }
        }
    }
    text::lemma_parts_of_joined(p, ',');
    reveal_strlit(",");
    assert(","@ =~= seq![',']);
    assert forall|i: int, j: int| 0 <= i < j < p.len() implies p[i] != p[j] by {
        if p[i] == p[j] {
            lemma_protocol_tells_type(o[i], o[j]);
            assert(place_of(o[i]) == i && place_of(o[j]) == j);
        }
    }
    lemma_type_is_offered(path);
    let k = choose|k: int| 0 <= k < o.len() && o[k] == media_path::mime_type(path);
    assert(p[k] == protocol_info(media_path::mime_type(path)));
}

/// Sound, films and pictures have classes of their own, whatever their format; all else has one.
pub proof fn law_class_of_type(format: Seq<char>, mime: Seq<char>)
    ensures
        class_of("audio/"@ + format) == "object.item.audioItem.musicTrack"@,
        class_of("video/"@ + format) == "object.item.videoItem"@,
        class_of("image/"@ + format) == "object.item.imageItem.photo"@,
        mime.len() > 0 && mime[0] != 'a' && mime[0] != 'v' && mime[0] != 'i' ==> class_of(mime)
            == "object.item"@,
        protocol_info(mime) == "http-get:*:"@ + mime + ":DLNA.ORG_OP=01;DLNA.ORG_CI=0"@,
{
    reveal_strlit("audio/");
    reveal_strlit("video/");
    reveal_strlit("image/");
    let a = "audio/"@ + format;
    let v = "video/"@ + format;
    let i = "image/"@ + format;
    assert(a.subrange(0, 6) =~= "audio/"@);
    assert(v.subrange(0, 6) =~= "video/"@);
    assert(i.subrange(0, 6) =~= "image/"@);
    lemma_first_letter(v, "audio/"@);
    lemma_first_letter(i, "audio/"@);
    lemma_first_letter(i, "video/"@);
    lemma_first_letter(mime, "audio/"@);
    lemma_first_letter(mime, "video/"@);
    lemma_first_letter(mime, "image/"@);
}

/// A text begins with the first character of how it begins.
proof fn lemma_first_letter(s: Seq<char>, pat: Seq<char>)
    requires
        pat.len() > 0,
    ensures
        text::begins(s, pat) ==> s[0] == pat[0],
{
    if text::begins(s, pat) {
        assert(s.subrange(0, pat.len() as int)[0] == s[0]);
    }
}

/// An entry of a directory is listed under its own name and below that directory: a directory as
/// one, and a file with its size, its type and the address under which its bytes are served.
pub proof fn law_entry_becomes_object(
    base: Seq<char>,
    p: PhoneView,
    path: Seq<char>,
    parent_id: Seq<char>,
    e: PhoneEntryView,
)
    requires
        media_path::is_name(e.name),
        text::free_of(e.name, CharSet::Pair('/', '\\')),
    ensures
        ({
            let object = entry_object(base, p, path, parent_id, e);
            let child = media_path::child_path(path, e.name);
            &&& object.title == e.name
            &&& object.parent_id == parent_id
            &&& object.is_container == e.is_directory
            &&& e.is_directory ==> object.id == path_id("folder"@, p.id, child) && object.upnp_class
                == "object.container.storageFolder"@ && object.url is None && object.size is None
            &&& !e.is_directory ==> {
                &&& object.id == path_id("item"@, p.id, child)
                &&& object.size == Some(e.size)
                &&& object.url == Some(
                    base + "/media/"@ + encoding::percent_encoded(p.folder_name) + "/"@
                        + media_path::encoded_media_path(child),
                )
                &&& object.upnp_class == class_of(media_path::mime_type(child))
                &&& object.protocol_info == Some(protocol_info(media_path::mime_type(child)))
            }
        }),
{
    media_path::law_parent_of_child(path, e.name);
}

/// A directory is listed whole: each entry once, directories before files, and each of the two in
/// the order of the names in small letters.
pub proof fn law_directory_is_listed(
    base: Seq<char>,
    p: PhoneView,
    path: Seq<char>,
    parent_id: Seq<char>,
    entries: Seq<PhoneEntryView>,
    items: Seq<DidlView>,
    i: int,
    j: int,
)
    requires
        directory_objects(base, p, path, parent_id, entries, items),
        entries.len() <= usize::MAX,
    ensures
        items.len() == entries.len(),
        0 <= i < entries.len() ==> items.contains(
            entry_object(base, p, path, parent_id, entries[i]),
        ),
        0 <= i < j < items.len() ==> exists|a: int, b: int|
            #![trigger entries[a], entries[b]]
            0 <= a < entries.len() && 0 <= b < entries.len() && a != b && items[i] == entry_object(
                base,
                p,
                path,
                parent_id,
                entries[a],
            ) && items[j] == entry_object(base, p, path, parent_id, entries[b]) && (
            entries[b].is_directory ==> entries[a].is_directory) && (entries[a].is_directory
                == entries[b].is_directory ==> !order::text_less(
                text::unicode_lowercase(entries[b].name),
                text::unicode_lowercase(entries[a].name),
            )),
{
    let keys = entry_keys(entries);
    let places = choose|places: Seq<usize>| #[trigger]
        order::stable_order(keys, places) && items == entry_objects(
            base,
            p,
            path,
            parent_id,
            entries,
            places,
        );
    if 0 <= i < entries.len() {
        assert(places.contains(i as usize));
        let k = choose|k: int| 0 <= k < places.len() && places[k] == i as usize;
        assert(items[k] == entry_object(base, p, path, parent_id, entries[i]));
    }
    if 0 <= i < j < items.len() {
        let a = places[i] as int;
        let b = places[j] as int;
        order::law_stable_order_sorts(keys, places, i, j);
        assert(items[i] == entry_object(base, p, path, parent_id, entries[a]));
        assert(items[j] == entry_object(base, p, path, parent_id, entries[b]));
        assert(keys[a].1 == text::unicode_lowercase(entries[a].name));
        assert(keys[b].1 == text::unicode_lowercase(entries[b].name));
    }
}

/// A page starts with the object at the given place, keeps the order, and ends with the page or
/// with the list.
pub proof fn law_page_of_objects(items: Seq<DidlView>, from: nat, count: nat, i: int)
    ensures
        from >= items.len() ==> sliced(items, from, count).len() == 0,
        from < items.len() && count == 0 ==> sliced(items, from, count).len() == items.len() - from,
        from < items.len() && 0 < count <= items.len() - from ==> sliced(items, from, count).len()
            == count,
        from < items.len() && count > items.len() - from ==> sliced(items, from, count).len()
            == items.len() - from,
        0 <= i < sliced(items, from, count).len() ==> sliced(items, from, count)[i] == items[from
            + i],
{
}

/// The description of a list is that of its objects in their order: one more adds its own
/// description at the end.
pub proof fn law_description_grows(items: Seq<DidlView>, item: DidlView)
    ensures
        didl_of(Seq::empty()) == DIDL_START@ + "</DIDL-Lite>"@,
        objects_xml(items.push(item)) == objects_xml(items) + object_xml(item),
        didl_of(items) == DIDL_START@ + objects_xml(items) + "</DIDL-Lite>"@,
        item.is_container ==> object_xml(item) == container_xml(item),
        !item.is_container ==> object_xml(item) == file_xml(item),
{
    assert(items.push(item).drop_last() =~= items);
    assert(DIDL_START@ + Seq::<char>::empty() =~= DIDL_START@);
}

/// The description of an object names it, what it is listed under, its title and its class; that of
/// a file also its address and, where the file is not empty, its size.
pub proof fn law_description_tells_object(item: DidlView)
    ensures
        text::has_part(object_xml(item), " id=\""@ + xml::xml_escaped(item.id) + "\""@),
        text::has_part(object_xml(item), " parentID=\""@ + xml::xml_escaped(item.parent_id) + "\""@),
        text::has_part(
            object_xml(item),
            "<dc:title>"@ + xml::xml_escaped(item.title) + "</dc:title>"@,
        ),
        text::has_part(
            object_xml(item),
            "<upnp:class>"@ + xml::xml_escaped(item.upnp_class) + "</upnp:class>"@,
        ),
        item.is_container ==> text::has_part(
            object_xml(item),
            " childCount=\""@ + numbers::dec(item.child_count as nat) + "\""@,
        ),
        !item.is_container ==> (item.url matches Some(url) ==> text::has_part(
            object_xml(item),
            ">"@ + xml::xml_escaped(url) + "</res>"@,
        )),
        !item.is_container ==> (item.protocol_info matches Some(info) ==> text::has_part(
            object_xml(item),
            " protocolInfo=\""@ + xml::xml_escaped(info) + "\""@,
        )),
        !item.is_container ==> (item.size matches Some(n) ==> n > 0 ==> text::has_part(
            object_xml(item),
            " size=\""@ + numbers::dec(n as nat) + "\""@,
        )),
{
    lemma_container_tells(item);
    lemma_file_tells(item);
}

#[verifier::rlimit(40)]
proof fn lemma_container_tells(item: DidlView)
    ensures
        ({
            let s = container_xml(item);
            &&& text::has_part(s, " id=\""@ + xml::xml_escaped(item.id) + "\""@)
            &&& text::has_part(s, " parentID=\""@ + xml::xml_escaped(item.parent_id) + "\""@)
            &&& text::has_part(
                s,
                "<dc:title>"@ + xml::xml_escaped(item.title) + "</dc:title>"@,
            )
            &&& text::has_part(
                s,
                "<upnp:class>"@ + xml::xml_escaped(item.upnp_class) + "</upnp:class>"@,
            )
            &&& text::has_part(
                s,
                " childCount=\""@ + numbers::dec(item.child_count as nat) + "\""@,
            )
        }),
{
    reveal_strlit("<container id=\"");
    reveal_strlit("\" parentID=\"");
    reveal_strlit("\" restricted=\"1\" searchable=\"0\" childCount=\"");
    reveal_strlit("\"><dc:title>");
    reveal_strlit("</dc:title><upnp:class>");
    reveal_strlit("</upnp:class></container>");
    reveal_strlit(" id=\"");
    reveal_strlit("\"");
    reveal_strlit(" parentID=\"");
    reveal_strlit("<dc:title>");
    reveal_strlit("</dc:title>");
    reveal_strlit("<upnp:class>");
    reveal_strlit("</upnp:class>");
    reveal_strlit(" childCount=\"");
    let s = container_xml(item);
    let a = "<container id=\""@.len() as int;
    let b = a + xml::xml_escaped(item.id).len() + "\" parentID=\""@.len();
    let c = b + xml::xml_escaped(item.parent_id).len()
        + "\" restricted=\"1\" searchable=\"0\" childCount=\""@.len();
    let d = c + numbers::dec(item.child_count as nat).len() + "\"><dc:title>"@.len();
    let e = d + xml::xml_escaped(item.title).len() + "</dc:title><upnp:class>"@.len();
    text::lemma_part_at(s, " id=\""@ + xml::xml_escaped(item.id) + "\""@, a - 5);
    text::lemma_part_at(s, " parentID=\""@ + xml::xml_escaped(item.parent_id) + "\""@, b - 11);
    text::lemma_part_at(s, " childCount=\""@ + numbers::dec(item.child_count as nat) + "\""@, c - 13);
    text::lemma_part_at(s, "<dc:title>"@ + xml::xml_escaped(item.title) + "</dc:title>"@, d - 10);
    text::lemma_part_at(
        s,
        "<upnp:class>"@ + xml::xml_escaped(item.upnp_class) + "</upnp:class>"@,
        e - 12,
    );
}

#[verifier::rlimit(60)]
proof fn lemma_file_tells(item: DidlView)
    ensures
        ({
            let s = file_xml(item);
            &&& text::has_part(s, " id=\""@ + xml::xml_escaped(item.id) + "\""@)
            &&& text::has_part(s, " parentID=\""@ + xml::xml_escaped(item.parent_id) + "\""@)
            &&& text::has_part(
                s,
                "<dc:title>"@ + xml::xml_escaped(item.title) + "</dc:title>"@,
            )
            &&& text::has_part(
                s,
                "<upnp:class>"@ + xml::xml_escaped(item.upnp_class) + "</upnp:class>"@,
            )
            &&& item.url matches Some(url) ==> text::has_part(
                s,
                ">"@ + xml::xml_escaped(url) + "</res>"@,
            )
            &&& item.protocol_info matches Some(info) ==> text::has_part(
                s,
                " protocolInfo=\""@ + xml::xml_escaped(info) + "\""@,
            )
            &&& item.size matches Some(n) ==> n > 0 ==> text::has_part(
                s,
                " size=\""@ + numbers::dec(n as nat) + "\""@,
            )
        }),
{
    reveal_strlit("<item id=\"");
    reveal_strlit("\" parentID=\"");
    reveal_strlit("\" restricted=\"1\"><dc:title>");
    reveal_strlit("</dc:title><upnp:class>");
    reveal_strlit("</upnp:class><res protocolInfo=\"");
    reveal_strlit("\"");
    reveal_strlit(">");
    reveal_strlit("</res></item>");
    reveal_strlit(" id=\"");
    reveal_strlit(" parentID=\"");
    reveal_strlit("<dc:title>");
    reveal_strlit("</dc:title>");
    reveal_strlit("<upnp:class>");
    reveal_strlit("</upnp:class>");
    reveal_strlit(" protocolInfo=\"");
    reveal_strlit("</res>");
    reveal_strlit(" size=\"");
    let s = file_xml(item);
    let info = match item.protocol_info {
        Some(p) => p,
        None => "http-get:*:application/octet-stream:*"@,
    };
    let url = match item.url {
        Some(u) => u,
        None => Seq::empty(),
    };
    let a = "<item id=\""@.len() as int;
    let b = a + xml::xml_escaped(item.id).len() + "\" parentID=\""@.len();
    let c = b + xml::xml_escaped(item.parent_id).len() + "\" restricted=\"1\"><dc:title>"@.len();
    let d = c + xml::xml_escaped(item.title).len() + "</dc:title><upnp:class>"@.len();
    let e = d + xml::xml_escaped(item.upnp_class).len()
        + "</upnp:class><res protocolInfo=\""@.len();
    let f = e + xml::xml_escaped(info).len() + 1;
    let g = f + size_attribute(item.size).len();
    text::lemma_part_at(s, " id=\""@ + xml::xml_escaped(item.id) + "\""@, a - 5);
    text::lemma_part_at(s, " parentID=\""@ + xml::xml_escaped(item.parent_id) + "\""@, b - 11);
    text::lemma_part_at(s, "<dc:title>"@ + xml::xml_escaped(item.title) + "</dc:title>"@, c - 10);
    text::lemma_part_at(
        s,
        "<upnp:class>"@ + xml::xml_escaped(item.upnp_class) + "</upnp:class>"@,
        d - 12,
    );
    text::lemma_part_at(s, " protocolInfo=\""@ + xml::xml_escaped(info) + "\""@, e - 15);
    if item.size is Some && item.size->0 > 0 {
        text::lemma_part_at(s, size_attribute(item.size), f);
    }
    text::lemma_part_at(s, ">"@ + xml::xml_escaped(url) + "</res>"@, g);
}

/// The root of a phone is the root of its own device, and the phone's directory on the proxy's;
/// any other directory is the same on both.
pub proof fn law_parent_of_path(phone: Seq<char>, path: Seq<char>, own_device: bool)
    ensures
        parent_id_of(true, phone, "/"@) == "0"@,
        parent_id_of(false, phone, "/"@) == container_id(phone),
        path != "/"@ ==> parent_id_of(own_device, phone, path) == path_id("folder"@, phone, path),
{
}

} // verus!
