//! The phones that are connected to the proxy.
//!
//! A phone is known by the identifier of its device, and shown as a folder. A phone whose
//! connection is lost stays for a short while, so that it can come back unnoticed.
use vstd::prelude::*;

use crate::numbers;
use crate::order::{sort_positions, SortKey};
use crate::order;
use crate::text::CharSet;
use crate::text;

verus! {

/// How long a phone stays after its connection was lost, in seconds.
pub const PHONE_DISCONNECT_GRACE_SECONDS: u64 = 30;

// ---------------------------------------------------------------------------
// Names
// ---------------------------------------------------------------------------

/// Whether a character stays as it is in an identifier.
pub open spec fn id_char(c: char) -> bool {
    text::ascii_alphanumeric(c) || c == '-' || c == '_' || c == '.'
}

/// The identifier of a device: each other character becomes an underscore, and the empty
/// identifier becomes `phone`.
pub open spec fn safe_id(value: Seq<char>) -> Seq<char> {
    if value.len() == 0 {
        "phone"@
    } else {
        value.map_values(
            |c: char|
                if id_char(c) {
                    c
                } else {
                    '_'
                },
        )
    }
}

/// The identifier of a device.
pub fn safe_device_id(value: &str) -> (r: String)
    ensures
        r@ == safe_id(value@),
{
    let v = text::chars_of(value);
    if v.len() == 0 {
        return "phone".to_string();
    }
    let mut r = String::new();
    let mut i: usize = 0;
    let ghost all = safe_id(value@);
    while i < v.len()
        invariant
            v@ == value@,
            v@.len() > 0,
            all == safe_id(value@),
            i <= v@.len(),
            r@ == all.take(i as int),
        decreases v@.len() - i,
    {
        let c = v[i];
        let kept = text::is_ascii_alphanumeric(c) || c == '-' || c == '_' || c == '.';
        let d = if kept {
            c
        } else {
            '_'
        };
        r.push(d);
        proof {
            assert(all.take(i + 1) =~= all.take(i as int).push(d));
        }
        i += 1;
    }
    proof {
        assert(all.take(i as int) =~= all);
    }
    r
}

/// The role that a word stands for.
pub open spec fn role_of(value: Seq<char>) -> Seq<char> {
    let word = text::ascii_lower(text::trimmed(value));
    if word == "admin"@ || word == "principal"@ {
        "admin"@
    } else {
        "guest"@
    }
}

/// The role that a word stands for: `admin` or `guest`.
pub fn normalize_phone_role(value: &str) -> (r: String)
    ensures
        r@ == role_of(value@),
{
    let word = text::to_ascii_lower(&text::trim(value));
    if text::same(&word, "admin") || text::same(&word, "principal") {
        "admin".to_string()
    } else {
        "guest".to_string()
    }
}

/// The role of a phone that names none.
pub fn default_phone_role() -> (r: String)
    ensures
        r@ == "guest"@,
{
    "guest".to_string()
}

/// Whether a phone that does not say so shows its files.
pub fn default_source_visible() -> (r: bool)
    ensures
        r,
{
    true
}

/// Whether a character cannot stand in a folder name.
pub open spec fn not_in_folder(c: char) -> bool {
    c == '/' || c == '\\' || text::control(c)
}

/// The text with an underscore for each character that cannot stand in a folder name.
pub open spec fn masked(s: Seq<char>) -> Seq<char> {
    s.map_values(
        |c: char|
            if not_in_folder(c) {
                '_'
            } else {
                c
            },
    )
}

/// The folder name for a display name.
pub open spec fn folder_base(name: Seq<char>) -> Seq<char> {
    let safe = text::trim_ends(text::trimmed(masked(text::trimmed(name))), CharSet::Only('.'));
    if safe.len() == 0 {
        "Telephone"@
    } else {
        safe
    }
}

/// The text with an underscore for each character that cannot stand in a folder name.
fn mask(s: &str) -> (r: String)
    ensures
        r@ == masked(s@),
{
    let v = text::chars_of(s);
    let mut r = String::new();
    let mut i: usize = 0;
    while i < v.len()
        invariant
            v@ == s@,
            i <= v@.len(),
            r@ == masked(s@).take(i as int),
        decreases v@.len() - i,
    {
        let c = v[i];
        let d = if c == '/' || c == '\\' || text::is_control(c) {
            '_'
        } else {
            c
        };
        r.push(d);
        proof {
            assert(masked(s@).take(i + 1) =~= masked(s@).take(i as int).push(d));
        }
        i += 1;
    }
    proof {
        assert(masked(s@).take(i as int) =~= masked(s@));
    }
    r
}

/// The folder name for a display name.
pub fn safe_folder_name(value: &str) -> (r: String)
    ensures
        r@ == folder_base(value@),
{
    let safe = text::strip_ends(&text::trim(&mask(&text::trim(value))), CharSet::Only('.'));
    if safe.as_str().is_empty() {
        "Telephone".to_string()
    } else {
        safe
    }
}

// ---------------------------------------------------------------------------
// Phones
// ---------------------------------------------------------------------------

/// A phone.
#[derive(Debug)]
pub struct PhoneSession {
    /// The identifier of its device.
    pub id: String,
    /// The name that is shown.
    pub display_name: String,
    /// The folder that holds its files.
    pub folder_name: String,
    /// `admin` or `guest`.
    pub role: String,
    /// Whether its files are shown.
    pub source_visible: bool,
    /// The number of its connection.
    pub connection: u64,
    /// When its connection was lost, in seconds since 1970; 0 where it was not.
    pub disconnected_at: u64,
}

/// The model of a phone.
#[verifier::ext_equal]
pub struct PhoneView {
    pub id: Seq<char>,
    pub display_name: Seq<char>,
    pub folder_name: Seq<char>,
    pub role: Seq<char>,
    pub source_visible: bool,
    pub connection: u64,
    pub disconnected_at: u64,
}

impl View for PhoneSession {
    type V = PhoneView;

    open spec fn view(&self) -> PhoneView {
        PhoneView {
            id: self.id@,
            display_name: self.display_name@,
            folder_name: self.folder_name@,
            role: self.role@,
            source_visible: self.source_visible,
            connection: self.connection,
            disconnected_at: self.disconnected_at,
        }
    }
}

impl Clone for PhoneSession {
    fn clone(&self) -> (r: Self)
        ensures
            r == *self,
    {
        PhoneSession {
            id: self.id.clone(),
            display_name: self.display_name.clone(),
            folder_name: self.folder_name.clone(),
            role: self.role.clone(),
            source_visible: self.source_visible,
            connection: self.connection,
            disconnected_at: self.disconnected_at,
        }
    }
}

/// The phones of a list.
pub open spec fn phone_views(v: Seq<PhoneSession>) -> Seq<PhoneView> {
    v.map_values(|p: PhoneSession| p@)
}

/// The phone in an optional phone.
pub open spec fn phone_in(o: Option<PhoneSession>) -> Option<PhoneView> {
    match o {
        Some(p) => Some(p@),
        None => None,
    }
}

/// Whether a phone is connected, or was until a short while ago.
pub open spec fn connected(p: PhoneView, now: u64) -> bool {
    p.disconnected_at == 0 || now - p.disconnected_at <= PHONE_DISCONNECT_GRACE_SECONDS
}

/// Whether a phone is shown.
pub open spec fn published(p: PhoneView, now: u64) -> bool {
    p.source_visible && connected(p, now)
}

/// Whether a phone is connected, or was until a short while ago.
pub fn phone_is_connected(phone: &PhoneSession, now: u64) -> (r: bool)
    ensures
        r == connected(phone@, now),
{
    phone.disconnected_at == 0 || now <= phone.disconnected_at || now - phone.disconnected_at
        <= PHONE_DISCONNECT_GRACE_SECONDS
}

/// Whether a phone is shown.
pub fn phone_is_published(phone: &PhoneSession, now: u64) -> (r: bool)
    ensures
        r == published(phone@, now),
{
    phone.source_visible && phone_is_connected(phone, now)
}

/// What a phone says of itself.
#[derive(Debug)]
pub struct PhoneRegister {
    /// The identifier of its device.
    pub device_id: String,
    /// The name to show.
    pub display_name: Option<String>,
    /// The role that it wants.
    pub role: String,
    /// Whether its files are shown.
    pub source_visible: bool,
}

/// The model of what a phone says of itself.
#[verifier::ext_equal]
pub struct RegisterView {
    pub device_id: Seq<char>,
    pub display_name: Option<Seq<char>>,
    pub role: Seq<char>,
    pub source_visible: bool,
}

impl View for PhoneRegister {
    type V = RegisterView;

    open spec fn view(&self) -> RegisterView {
        RegisterView {
            device_id: self.device_id@,
            display_name: text::text_in(self.display_name),
            role: self.role@,
            source_visible: self.source_visible,
        }
    }
}

/// Why a phone is not taken in.
#[derive(Clone, Copy, Debug, PartialEq, Eq, Structural)]
pub enum RegisterError {
    /// Another phone has the role of the administrator.
    AdminAlreadyClaimed,
}

impl RegisterError {
    /// The code of the error.
    pub fn message(self) -> (r: String)
        ensures
            r@ == "admin_already_claimed"@,
    {
        "admin_already_claimed".to_string()
    }
}

/// The phones.
#[derive(Debug)]
pub struct PhoneRegistry {
    /// The phones, no two of one device.
    pub phones: Vec<PhoneSession>,
    /// The device of the administrator, once there is one.
    pub admin_device_id: Option<String>,
}

/// The model of the phones.
#[verifier::ext_equal]
pub struct RegistryView {
    pub phones: Seq<PhoneView>,
    pub admin: Option<Seq<char>>,
}

impl View for PhoneRegistry {
    type V = RegistryView;

    open spec fn view(&self) -> RegistryView {
        RegistryView {
            phones: phone_views(self.phones@),
            admin: text::text_in(self.admin_device_id),
        }
    }
}

impl RegistryView {
    /// No two phones are of one device, and only the device of the administrator has that role.
    pub open spec fn well_formed(self) -> bool {
        &&& forall|i: int, j: int|
            0 <= i < j < self.phones.len() ==> (#[trigger] self.phones[i]).id != (
            #[trigger] self.phones[j]).id
        &&& forall|i: int|
            0 <= i < self.phones.len() && (#[trigger] self.phones[i]).role == "admin"@
                ==> self.admin == Some(self.phones[i].id)
    }
}

/// The place of the first phone with an identifier at or after `from`.
pub open spec fn place_from(phones: Seq<PhoneView>, id: Seq<char>, from: int) -> Option<int>
    decreases phones.len() - from,
{
    if from < 0 || from >= phones.len() {
        None
    } else if phones[from].id == id {
        Some(from)
    } else {
        place_from(phones, id, from + 1)
    }
}

/// The phones with one more, in place of the one of the same device where there is one.
pub open spec fn with_phone(phones: Seq<PhoneView>, p: PhoneView) -> Seq<PhoneView> {
    match place_from(phones, p.id, 0) {
        Some(i) => phones.update(i, p),
        None => phones.push(p),
    }
}

/// Whether a phone of another device has a folder name.
pub open spec fn taken(phones: Seq<PhoneView>, id: Seq<char>, name: Seq<char>) -> bool {
    exists|i: int|
        0 <= i < phones.len() && (#[trigger] phones[i]).id != id && phones[i].folder_name == name
}

/// The folder name for a display name, followed by a mark in brackets.
pub open spec fn marked_folder(name: Seq<char>, mark: Seq<char>) -> Seq<char> {
    folder_base(name) + " ("@ + mark + ")"@
}

/// The folder name that a phone gets: that for its display name; where a phone of another device
/// has it, with the identifier of the device; and where that is taken too, with the time.
pub open spec fn folder_for(
    name: Seq<char>,
    id: Seq<char>,
    phones: Seq<PhoneView>,
    now: u64,
) -> Seq<char> {
    if !taken(phones, id, folder_base(name)) {
        folder_base(name)
    } else if !taken(phones, id, marked_folder(name, safe_id(id))) {
        marked_folder(name, safe_id(id))
    } else {
        marked_folder(name, numbers::dec(now as nat))
    }
}

/// The name that is shown for a phone.
pub open spec fn shown_name(reg: RegisterView) -> Seq<char> {
    match reg.display_name {
        Some(name) if text::trimmed(name).len() > 0 => name,
        _ => safe_id(reg.device_id),
    }
}

/// The phone that registers.
pub open spec fn new_phone(
    phones: Seq<PhoneView>,
    reg: RegisterView,
    connection: u64,
    now: u64,
) -> PhoneView {
    PhoneView {
        id: safe_id(reg.device_id),
        display_name: shown_name(reg),
        folder_name: folder_for(shown_name(reg), safe_id(reg.device_id), phones, now),
        role: role_of(reg.role),
        source_visible: reg.source_visible,
        connection,
        disconnected_at: 0,
    }
}

/// Whether a registration is refused: it asks for the role of the administrator, and another
/// device has it.
pub open spec fn refused(s: RegistryView, reg: RegisterView) -> bool {
    role_of(reg.role) == "admin"@ && s.admin is Some && s.admin != Some(safe_id(reg.device_id))
}

/// The phones after a registration.
pub open spec fn registered(
    s: RegistryView,
    reg: RegisterView,
    connection: u64,
    now: u64,
) -> RegistryView {
    if refused(s, reg) {
        s
    } else {
        RegistryView {
            phones: with_phone(s.phones, new_phone(s.phones, reg, connection, now)),
            admin: if role_of(reg.role) == "admin"@ {
                Some(safe_id(reg.device_id))
            } else {
                s.admin
            },
        }
    }
}

/// The phones with the time at which a connection was lost.
pub open spec fn disconnected(s: RegistryView, connection: u64, now: u64) -> RegistryView {
    RegistryView {
        phones: s.phones.map_values(
            |p: PhoneView|
                if p.connection == connection {
                    PhoneView { disconnected_at: now, ..p }
                } else {
                    p
                },
        ),
        ..s
    }
}

/// The phones without those that were lost a while ago.
pub open spec fn without_stale(s: RegistryView, now: u64) -> RegistryView {
    RegistryView { phones: s.phones.filter(|p: PhoneView| connected(p, now)), ..s }
}

/// The phones that are shown.
pub open spec fn shown(s: RegistryView, now: u64) -> Seq<PhoneView> {
    s.phones.filter(|p: PhoneView| published(p, now))
}

/// What phones are ordered by: the name that is shown.
pub open spec fn name_keys(phones: Seq<PhoneView>) -> Seq<(u128, Seq<char>)> {
    phones.map_values(|p: PhoneView| (0u128, p.display_name))
}

/// The phones at the given places.
pub open spec fn arranged(phones: Seq<PhoneView>, places: Seq<usize>) -> Seq<PhoneView> {
    places.map_values(|i: usize| phones[i as int])
}

/// Whether `r` lists `phones` by the name that is shown.
pub open spec fn by_name(phones: Seq<PhoneView>, r: Seq<PhoneView>) -> bool {
    exists|places: Seq<usize>| #[trigger]
        order::stable_order(name_keys(phones), places) && r == arranged(phones, places)
}

/// The first phone with a folder name at or after `from`.
pub open spec fn in_folder(phones: Seq<PhoneView>, name: Seq<char>, from: int) -> Option<PhoneView>
    decreases phones.len() - from,
{
    if from < 0 || from >= phones.len() {
        None
    } else if phones[from].folder_name == name {
        Some(phones[from])
    } else {
        in_folder(phones, name, from + 1)
    }
}

/// The phone with an identifier.
pub open spec fn with_id(phones: Seq<PhoneView>, id: Seq<char>) -> Option<PhoneView> {
    match place_from(phones, id, 0) {
        Some(i) => Some(phones[i]),
        None => None,
    }
}

/// The place of the first phone with an identifier.
fn find_phone(phones: &Vec<PhoneSession>, id: &str) -> (r: Option<usize>)
    ensures
        match r {
            Some(i) => place_from(phone_views(phones@), id@, 0) == Some(i as int) && i
                < phones@.len(),
            None => place_from(phone_views(phones@), id@, 0) is None,
        },
{
    let mut i: usize = 0;
    while i < phones.len()
        invariant
            i <= phones@.len(),
            place_from(phone_views(phones@), id@, 0) == place_from(
                phone_views(phones@),
                id@,
                i as int,
            ),
        decreases phones@.len() - i,
    {
        if text::same(&phones[i].id, id) {
            return Some(i);
        }
        i += 1;
    }
    None
}

/// Whether a phone of another device has a folder name.
fn is_taken(phones: &Vec<PhoneSession>, id: &str, name: &str) -> (r: bool)
    ensures
        r == taken(phone_views(phones@), id@, name@),
{
    let mut i: usize = 0;
    let ghost all = phone_views(phones@);
    while i < phones.len()
        invariant
            all == phone_views(phones@),
            i <= phones@.len(),
            forall|j: int|
                0 <= j < i ==> (#[trigger] all[j]).id == id@ || all[j].folder_name != name@,
        decreases phones@.len() - i,
    {
        if !text::same(&phones[i].id, id) && text::same(&phones[i].folder_name, name) {
            proof {
                assert(all[i as int].id != id@ && all[i as int].folder_name == name@);
            }
            return true;
        }
        proof {
            assert(all[i as int] == phones@[i as int]@);
        }
        i += 1;
    }
    false
}

/// The folder name that a phone gets.
pub fn unique_folder_name(
    display_name: &str,
    device_id: &str,
    phones: &Vec<PhoneSession>,
    now: u64,
) -> (r: String)
    ensures
        r@ == folder_for(display_name@, device_id@, phone_views(phones@), now),
{
    let base = safe_folder_name(display_name);
    if !is_taken(phones, device_id, &base) {
        return base;
    }
    let candidate = mark_folder(&base, &safe_device_id(device_id));
    if is_taken(phones, device_id, &candidate) {
        mark_folder(&base, &numbers::decimal(now))
    } else {
        candidate
    }
}

/// A folder name followed by a mark in brackets.
fn mark_folder(base: &str, mark: &str) -> (r: String)
    ensures
        r@ == base@ + " ("@ + mark@ + ")"@,
{
    let mut r = text::concat3(base, " (", mark);
    r.push_str(")");
    r
}

/// Takes the phones out that were lost a while ago.
pub fn prune_stale_phones(phones: &mut Vec<PhoneSession>, now: u64)
    ensures
        phone_views(final(phones)@) == phone_views(old(phones)@).filter(
            |p: PhoneView| connected(p, now),
        ),
{
    let ghost all = phone_views(phones@);
    let ghost keep = |p: PhoneView| connected(p, now);
    let mut kept: Vec<PhoneSession> = Vec::new();
    let mut i: usize = 0;
    proof {
        text::lemma_filter_all(all.take(0), keep);
        assert(phone_views(kept@) =~= all.take(0).filter(keep));
    }
    while i < phones.len()
        invariant
            all == phone_views(phones@),
            keep == (|p: PhoneView| connected(p, now)),
            i <= phones@.len(),
            phone_views(kept@) == all.take(i as int).filter(keep),
        decreases phones@.len() - i,
    {
        let ghost before = phone_views(kept@);
        proof {
            text::lemma_filter_push(all.take(i as int), all[i as int], keep);
            assert(all.take(i + 1) =~= all.take(i as int).push(all[i as int]));
        }
        if phone_is_connected(&phones[i], now) {
            kept.push(phones[i].clone());
            proof {
                assert(phone_views(kept@) =~= before.push(all[i as int]));
            }
        }
        i += 1;
    }
    proof {
        assert(all.take(i as int) =~= all);
    }
    *phones = kept;
}

impl PhoneRegistry {
    /// No phones, and no administrator.
    pub fn new() -> (r: Self)
        ensures
            r@ == (RegistryView { phones: Seq::empty(), admin: None }),
            r@.well_formed(),
    {
        let r = PhoneRegistry { phones: Vec::new(), admin_device_id: None };
        proof {
            assert(r@ =~= (RegistryView { phones: Seq::empty(), admin: None }));
        }
        r
    }

    /// Takes a phone in. Only one device can be the administrator until the program ends.
    pub fn register(
        &mut self,
        registration: PhoneRegister,
        connection: u64,
        now: u64,
    ) -> (r: Result<(), RegisterError>)
        ensures
            final(self)@ == registered(old(self)@, registration@, connection, now),
            r == (if refused(old(self)@, registration@) {
                Err::<(), RegisterError>(RegisterError::AdminAlreadyClaimed)
            } else {
                Ok(())
            }),
    {
        let ghost before = self@;
        let id = safe_device_id(&registration.device_id);
        let role = normalize_phone_role(&registration.role);
        if text::same(&role, "admin") {
            match &self.admin_device_id {
                Some(existing) => {
                    if !text::same(existing, &id) {
                        return Err(RegisterError::AdminAlreadyClaimed);
                    }
                },
                None => {
                    self.admin_device_id = Some(id.clone());
                },
            }
        }
        let ghost middle = self@;
        proof {
            assert(middle.phones == before.phones);
            assert(middle.admin == (if role_of(registration@.role) == "admin"@ {
                Some(id@)
            } else {
                before.admin
            }));
        }
        let display_name = match registration.display_name {
            Some(name) => {
                if text::trim(&name).as_str().is_empty() {
                    id.clone()
                } else {
                    name
                }
            },
            None => id.clone(),
        };
        let folder_name = unique_folder_name(&display_name, &id, &self.phones, now);
        let place = find_phone(&self.phones, &id);
        let session = PhoneSession {
            id,
            display_name,
            folder_name,
            role,
            source_visible: registration.source_visible,
            connection,
            disconnected_at: 0,
        };
        let ghost p = session@;
        proof {
            assert(p =~= new_phone(before.phones, registration@, connection, now));
        }
        match place {
            Some(i) => {
                self.phones.set(i, session);
                proof {
                    assert(phone_views(self.phones@) =~= before.phones.update(i as int, p));
                }
            },
            None => {
                self.phones.push(session);
                proof {
                    assert(phone_views(self.phones@) =~= before.phones.push(p));
                }
            },
        }
        proof {
            assert(self@ =~= registered(before, registration@, connection, now));
        }
        Ok(())
    }

    /// Notes that a connection was lost, and returns the folder names of its phones.
    pub fn unregister_connection(&mut self, connection: u64, now: u64) -> (r: Vec<String>)
        ensures
            final(self)@ == disconnected(old(self)@, connection, now),
            text::texts(r@) == old(self)@.phones.filter(
                |p: PhoneView| p.connection == connection,
            ).map_values(|p: PhoneView| p.folder_name),
    {
        let ghost before = self@;
        let ghost all = self@.phones;
        let ghost keep = |p: PhoneView| p.connection == connection;
        let ghost name = |p: PhoneView| p.folder_name;
        let mut lost: Vec<String> = Vec::new();
        let mut i: usize = 0;
        proof {
            text::lemma_filter_all(all.take(0), keep);
            assert(text::texts(lost@) =~= all.take(0).filter(keep).map_values(name));
        }
        while i < self.phones.len()
            invariant
                keep == (|p: PhoneView| p.connection == connection),
                name == (|p: PhoneView| p.folder_name),
                all == before.phones,
                self@.admin == before.admin,
                self.phones@.len() == all.len(),
                i <= all.len(),
                forall|j: int|
                    0 <= j < i ==> (#[trigger] self.phones@[j])@ == disconnected(
                        before,
                        connection,
                        now,
                    ).phones[j],
                forall|j: int| i <= j < all.len() ==> (#[trigger] self.phones@[j])@ == all[j],
                text::texts(lost@) == all.take(i as int).filter(keep).map_values(name),
            decreases all.len() - i,
        {
            let ghost names = text::texts(lost@);
            proof {
                text::lemma_filter_push(all.take(i as int), all[i as int], keep);
                assert(all.take(i + 1) =~= all.take(i as int).push(all[i as int]));
                assert(all.take(i as int).filter(keep).push(all[i as int]).map_values(name)
                    =~= all.take(i as int).filter(keep).map_values(name).push(
                    all[i as int].folder_name,
                ));
            }
            if self.phones[i].connection == connection {
                let mut phone = self.phones[i].clone();
                lost.push(phone.folder_name.clone());
                proof {
                    assert(text::texts(lost@) =~= names.push(all[i as int].folder_name));
                }
                phone.disconnected_at = now;
                self.phones.set(i, phone);
            }
            i += 1;
        }
        proof {
            assert(all.take(i as int) =~= all);
            assert(self@.phones =~= disconnected(before, connection, now).phones);
        }
        lost
    }

    fn prune(&mut self, now: u64)
        ensures
            final(self)@ == without_stale(old(self)@, now),
    {
        let ghost before = self@;
        prune_stale_phones(&mut self.phones, now);
        proof {
            assert(self@ =~= without_stale(before, now));
        }
    }

    /// The phones that are shown, by name; those that were lost a while ago are taken out.
    pub fn list(&mut self, now: u64) -> (r: Vec<PhoneSession>)
        ensures
            final(self)@ == without_stale(old(self)@, now),
            by_name(shown(without_stale(old(self)@, now), now), phone_views(r@)),
    {
        self.prune(now);
        let ghost all = self@.phones;
        let ghost keep = |p: PhoneView| published(p, now);
        let mut kept: Vec<PhoneSession> = Vec::new();
        let mut keys: Vec<SortKey> = Vec::new();
        let mut i: usize = 0;
        proof {
            text::lemma_filter_all(all.take(0), keep);
            assert(phone_views(kept@) =~= all.take(0).filter(keep));
            assert(order::key_views(keys@) =~= name_keys(phone_views(kept@)));
        }
        while i < self.phones.len()
            invariant
                all == phone_views(self.phones@),
                keep == (|p: PhoneView| published(p, now)),
                i <= all.len(),
                phone_views(kept@) == all.take(i as int).filter(keep),
                order::key_views(keys@) == name_keys(phone_views(kept@)),
            decreases all.len() - i,
        {
            let ghost before = phone_views(kept@);
            let ghost keys_before = order::key_views(keys@);
            proof {
                text::lemma_filter_push(all.take(i as int), all[i as int], keep);
                assert(all.take(i + 1) =~= all.take(i as int).push(all[i as int]));
            }
            if phone_is_published(&self.phones[i], now) {
                keys.push(SortKey { number: 0, text: self.phones[i].display_name.clone() });
                kept.push(self.phones[i].clone());
                proof {
                    assert(phone_views(kept@) =~= before.push(all[i as int]));
                    assert(order::key_views(keys@) =~= keys_before.push(
                        (0u128, all[i as int].display_name),
                    ));
                    assert(order::key_views(keys@) =~= name_keys(phone_views(kept@)));
                }
            }
            i += 1;
        }
        proof {
            assert(all.take(i as int) =~= all);
        }
        let places = sort_positions(&keys);
        let ghost phones = phone_views(kept@);
        let mut r: Vec<PhoneSession> = Vec::new();
        let mut k: usize = 0;
        while k < places.len()
            invariant
                phones == phone_views(kept@),
                order::stable_order(name_keys(phones), places@),
                k <= places@.len(),
                phone_views(r@) == arranged(phones, places@).take(k as int),
            decreases places@.len() - k,
        {
            let ghost before = phone_views(r@);
            proof {
                assert(places@[k as int] < phones.len());
            }
            r.push(kept[places[k]].clone());
            proof {
                assert(phone_views(r@) =~= before.push(phones[places@[k as int] as int]));
                assert(arranged(phones, places@).take(k + 1) =~= arranged(phones, places@).take(
                    k as int,
                ).push(phones[places@[k as int] as int]));
            }
            k += 1;
        }
        proof {
            assert(arranged(phones, places@).take(k as int) =~= arranged(phones, places@));
        }
        r
    }

    /// The phone whose files a folder holds: the one that shows that name, or else the one with
    /// that identifier. Phones that were lost a while ago are taken out.
    pub fn get_by_folder(&mut self, folder_name: &str, now: u64) -> (r: Option<PhoneSession>)
        ensures
            final(self)@ == without_stale(old(self)@, now),
            phone_in(r) == match in_folder(final(self)@.phones, folder_name@, 0) {
                Some(p) => Some(p),
                None => with_id(final(self)@.phones, folder_name@),
            },
    {
        self.prune(now);
        let mut i: usize = 0;
        while i < self.phones.len()
            invariant
                self@ == without_stale(old(self)@, now),
                i <= self.phones@.len(),
                in_folder(self@.phones, folder_name@, 0) == in_folder(
                    self@.phones,
                    folder_name@,
                    i as int,
                ),
            decreases self.phones@.len() - i,
        {
            if text::same(&self.phones[i].folder_name, folder_name) {
                return Some(self.phones[i].clone());
            }
            i += 1;
        }
        match find_phone(&self.phones, folder_name) {
            Some(i) => Some(self.phones[i].clone()),
            None => None,
        }
    }

    /// The phone with an identifier, where it is shown. Phones that were lost a while ago are
    /// taken out.
    pub fn get_by_id(&mut self, id: &str, now: u64) -> (r: Option<PhoneSession>)
        ensures
            final(self)@ == without_stale(old(self)@, now),
            phone_in(r) == match with_id(final(self)@.phones, id@) {
                Some(p) if published(p, now) => Some(p),
                _ => None,
            },
    {
        self.prune(now);
        match find_phone(&self.phones, id) {
            Some(i) => {
                if phone_is_published(&self.phones[i], now) {
                    Some(self.phones[i].clone())
                } else {
                    None
                }
            },
            None => None,
        }
    }
}

// ---------------------------------------------------------------------------
// Laws
// ---------------------------------------------------------------------------

/// What `place_from` returns.
pub proof fn lemma_place(phones: Seq<PhoneView>, id: Seq<char>, from: int)
    requires
        0 <= from,
    ensures
        match place_from(phones, id, from) {
            Some(i) => from <= i < phones.len() && phones[i].id == id,
            None => forall|j: int| from <= j < phones.len() ==> (#[trigger] phones[j]).id != id,
        },
    decreases phones.len() - from,
{
    if from < phones.len() && phones[from].id != id {
        lemma_place(phones, id, from + 1);
    }
}

/// A filter keeps the order: where two of the kept elements stand in the list.
proof fn lemma_filter_order<A>(s: Seq<A>, keep: spec_fn(A) -> bool, i: int, j: int) -> (r: (int, int))
    requires
        0 <= i < j < s.filter(keep).len(),
    ensures
        0 <= r.0 < r.1 < s.len(),
        s[r.0] == s.filter(keep)[i],
        s[r.1] == s.filter(keep)[j],
    decreases s.len(),
{
    reveal(Seq::filter);
    assert(s.len() > 0) by {
        if s.len() == 0 {
            assert(s.filter(keep) =~= Seq::empty());
        }
    }
    let front = s.drop_last();
    assert(s =~= front.push(s.last()));
    text::lemma_filter_push(front, s.last(), keep);
    let n = front.filter(keep).len();
    if j < n {
        let (a, b) = lemma_filter_order(front, keep, i, j);
        (a, b)
    } else {
        text::lemma_filter_members(front, keep);
        assert(front.contains(front.filter(keep)[i]));
        let a = choose|a: int| 0 <= a < front.len() && front[a] == front.filter(keep)[i];
        (a, s.len() - 1)
    }
}

/// Registering, losing a connection and taking lost phones out keep what holds of the phones:
/// no two are of one device, and no phone but that of the administrator has that role.
pub proof fn law_registry_stays_well_formed(
    s: RegistryView,
    reg: RegisterView,
    connection: u64,
    now: u64,
)
    requires
        s.well_formed(),
    ensures
        registered(s, reg, connection, now).well_formed(),
        disconnected(s, connection, now).well_formed(),
        without_stale(s, now).well_formed(),
{
    let p = new_phone(s.phones, reg, connection, now);
    lemma_place(s.phones, p.id, 0);
    let t = registered(s, reg, connection, now);
    if !refused(s, reg) {
        assert forall|i: int, j: int| 0 <= i < j < t.phones.len() implies (
        #[trigger] t.phones[i]).id != (#[trigger] t.phones[j]).id by {
            match place_from(s.phones, p.id, 0) {
                Some(k) => {
                    assert(s.phones[i].id != s.phones[j].id);
                },
                None => {
                    if j < s.phones.len() {
                        assert(s.phones[i].id != s.phones[j].id);
                    } else {
                        assert(t.phones[i] == s.phones[i]);
                    }
                },
            }
        }
        assert forall|i: int|
            0 <= i < t.phones.len() && (#[trigger] t.phones[i]).role == "admin"@ implies t.admin
            == Some(t.phones[i].id) by {
            if t.phones[i] != p {
                assert(t.phones[i] == s.phones[i]);
                assert(s.admin == Some(s.phones[i].id));
            }
        }
    }
    let u = without_stale(s, now);
    let keep = |q: PhoneView| connected(q, now);
    assert forall|i: int, j: int| 0 <= i < j < u.phones.len() implies (#[trigger] u.phones[i]).id
        != (#[trigger] u.phones[j]).id by {
        let (a, b) = lemma_filter_order(s.phones, keep, i, j);
        assert(s.phones[a].id != s.phones[b].id);
    }
    text::lemma_filter_members(s.phones, keep);
    assert forall|i: int|
        0 <= i < u.phones.len() && (#[trigger] u.phones[i]).role == "admin"@ implies u.admin
        == Some(u.phones[i].id) by {
        assert(s.phones.contains(s.phones.filter(keep)[i]));
        let a = choose|a: int| 0 <= a < s.phones.len() && s.phones[a] == s.phones.filter(keep)[i];
        assert(s.phones[a].role == "admin"@);
    }
    let v = disconnected(s, connection, now);
    assert forall|i: int, j: int| 0 <= i < j < v.phones.len() implies (#[trigger] v.phones[i]).id
        != (#[trigger] v.phones[j]).id by {
        assert(s.phones[i].id != s.phones[j].id);
    }
    assert forall|i: int|
        0 <= i < v.phones.len() && (#[trigger] v.phones[i]).role == "admin"@ implies v.admin
        == Some(v.phones[i].id) by {
        assert(s.phones[i].role == "admin"@);
    }
}

/// Once there is an administrator, it stays the same device: no registration changes it, and
/// another device that asks for the role is refused and changes nothing.
pub proof fn law_admin_is_locked(
    s: RegistryView,
    reg: RegisterView,
    connection: u64,
    now: u64,
)
    requires
        s.admin is Some,
    ensures
        registered(s, reg, connection, now).admin == s.admin,
        role_of(reg.role) == "admin"@ && s.admin != Some(safe_id(reg.device_id)) ==> refused(s, reg)
            && registered(s, reg, connection, now) == s,
{
}

/// A phone that was taken in is found by the identifier of its device, and replaces what was
/// known of that device; all other phones stay.
pub proof fn law_registered_phone_is_known(
    s: RegistryView,
    reg: RegisterView,
    connection: u64,
    now: u64,
)
    requires
        s.well_formed(),
        !refused(s, reg),
    ensures
        with_id(registered(s, reg, connection, now).phones, safe_id(reg.device_id)) == Some(
            new_phone(s.phones, reg, connection, now),
        ),
        forall|id: Seq<char>|
            id != safe_id(reg.device_id) ==> #[trigger] with_id(
                registered(s, reg, connection, now).phones,
                id,
            ) == with_id(s.phones, id),
{
    law_registry_stays_well_formed(s, reg, connection, now);
    let p = new_phone(s.phones, reg, connection, now);
    let t = registered(s, reg, connection, now).phones;
    lemma_place(s.phones, p.id, 0);
    lemma_place(t, p.id, 0);
    let k = match place_from(s.phones, p.id, 0) {
        Some(k) => k,
        None => s.phones.len() as int,
    };
    assert(t[k] == p);
    let a = place_from(t, p.id, 0)->0;
    if a < k {
        assert(t[a].id != t[k].id);
    }
    if k < a {
        assert(t[k].id != t[a].id);
    }
    assert forall|id: Seq<char>| id != p.id implies #[trigger] with_id(t, id) == with_id(
        s.phones,
        id,
    ) by {
        lemma_place(s.phones, id, 0);
        lemma_place(t, id, 0);
        match place_from(s.phones, id, 0) {
            Some(i) => {
                assert(i != k);
                assert(t[i] == s.phones[i]);
                let b = place_from(t, id, 0)->0;
                if b < i {
                    assert(t[b].id != t[i].id);
                }
                if i < b {
                    assert(t[i].id != t[b].id);
                }
            },
            None => {
                if place_from(t, id, 0) is Some {
                    let b = place_from(t, id, 0)->0;
                    assert(b != k);
                    assert(t[b] == s.phones[b]);
                }
            },
        }
    }
}

/// A phone gets a folder name that no phone of another device has, unless both the name for its
/// display name and that name with its identifier are taken.
pub proof fn law_folder_names_differ(
    name: Seq<char>,
    id: Seq<char>,
    phones: Seq<PhoneView>,
    now: u64,
)
    requires
        !(taken(phones, id, folder_base(name)) && taken(
            phones,
            id,
            marked_folder(name, safe_id(id)),
        )),
    ensures
        !taken(phones, id, folder_for(name, id, phones, now)),
{
}

/// Trimming at the ends keeps to the characters of the text.
proof fn lemma_trim_keeps(s: Seq<char>, set: CharSet, bad: spec_fn(char) -> bool)
    requires
        forall|i: int| 0 <= i < s.len() ==> !bad(#[trigger] s[i]),
    ensures
        forall|i: int|
            0 <= i < text::trim_ends(s, set).len() ==> !bad(#[trigger] text::trim_ends(s, set)[i]),
{
    lemma_trim_start_keeps(s, set, bad);
    lemma_trim_end_keeps(text::trim_start(s, set), set, bad);
}

proof fn lemma_trim_start_keeps(s: Seq<char>, set: CharSet, bad: spec_fn(char) -> bool)
    requires
        forall|i: int| 0 <= i < s.len() ==> !bad(#[trigger] s[i]),
    ensures
        forall|i: int|
            0 <= i < text::trim_start(s, set).len() ==> !bad(
                #[trigger] text::trim_start(s, set)[i],
            ),
    decreases s.len(),
{
    let r = text::trim_start(s, set);
    if s.len() > 0 && set.has(s[0]) {
        lemma_trim_start_keeps(s.skip(1), set, bad);
        assert(r == text::trim_start(s.skip(1), set));
    } else {
        assert(r == s);
    }
}

proof fn lemma_trim_end_keeps(s: Seq<char>, set: CharSet, bad: spec_fn(char) -> bool)
    requires
        forall|i: int| 0 <= i < s.len() ==> !bad(#[trigger] s[i]),
    ensures
        forall|i: int|
            0 <= i < text::trim_end(s, set).len() ==> !bad(#[trigger] text::trim_end(s, set)[i]),
    decreases s.len(),
{
    let r = text::trim_end(s, set);
    if s.len() > 0 && set.has(s.last()) {
        lemma_trim_end_keeps(s.drop_last(), set, bad);
        assert(r == text::trim_end(s.drop_last(), set));
    } else {
        assert(r == s);
    }
}

/// What is left after trimming neither starts nor ends with a character that is trimmed.
proof fn lemma_trimmed_ends(s: Seq<char>, set: CharSet)
    ensures
        text::trim_ends(s, set).len() > 0 ==> !set.has(text::trim_ends(s, set)[0]) && !set.has(
            text::trim_ends(s, set).last(),
        ),
{
    lemma_trim_start_end(s, set);
    lemma_trim_end_end(text::trim_start(s, set), set);
}

proof fn lemma_trim_start_end(s: Seq<char>, set: CharSet)
    ensures
        text::trim_start(s, set).len() > 0 ==> !set.has(text::trim_start(s, set)[0]),
    decreases s.len(),
{
    if s.len() > 0 && set.has(s[0]) {
        lemma_trim_start_end(s.skip(1), set);
    }
}

proof fn lemma_trim_end_end(s: Seq<char>, set: CharSet)
    ensures
        text::trim_end(s, set).len() > 0 ==> text::trim_end(s, set)[0] == s[0] && !set.has(
            text::trim_end(s, set).last(),
        ),
    decreases s.len(),
{
    if s.len() > 0 && set.has(s.last()) {
        lemma_trim_end_end(s.drop_last(), set);
    }
}

/// The folder name of a phone is one name of a path: it is not empty, holds no slash, no
/// backslash and no control character, and neither starts nor ends with a dot.
pub proof fn law_folder_name_is_a_name(
    name: Seq<char>,
    id: Seq<char>,
    phones: Seq<PhoneView>,
    now: u64,
)
    ensures
        folder_for(name, id, phones, now).len() > 0,
        folder_for(name, id, phones, now)[0] != '.',
        folder_for(name, id, phones, now).last() != '.',
        forall|i: int|
            0 <= i < folder_for(name, id, phones, now).len() ==> !not_in_folder(
                #[trigger] folder_for(name, id, phones, now)[i],
            ),
{
    let bad = |c: char| not_in_folder(c);
    let m = masked(text::trimmed(name));
    assert forall|i: int| 0 <= i < m.len() implies !bad(#[trigger] m[i]) by {}
    lemma_trim_keeps(m, CharSet::White, bad);
    let t = text::trimmed(m);
    assert forall|i: int| 0 <= i < t.len() implies !bad(#[trigger] t[i]) by {}
    lemma_trim_keeps(t, CharSet::Only('.'), bad);
    lemma_trimmed_ends(t, CharSet::Only('.'));
    let base = folder_base(name);
    reveal_strlit("Telephone");
    assert(base.len() > 0 && base[0] != '.' && base.last() != '.');
    assert forall|i: int| 0 <= i < base.len() implies !bad(#[trigger] base[i]) by {
        if text::trim_ends(t, CharSet::Only('.')).len() > 0 {
            assert(!bad(text::trim_ends(t, CharSet::Only('.'))[i]));
        }
    }
    reveal_strlit(" (");
    reveal_strlit(")");
    reveal_strlit("phone");
    let sid = safe_id(id);
    assert forall|i: int| 0 <= i < sid.len() implies !bad(#[trigger] sid[i]) by {}
    let a = marked_folder(name, sid);
    assert forall|i: int| 0 <= i < a.len() implies !bad(#[trigger] a[i]) by {
        if i < base.len() {
            assert(a[i] == base[i]);
        } else if i < base.len() + 2 {
            assert(a[i] == " ("@[i - base.len()]);
        } else if i < base.len() + 2 + sid.len() {
            assert(a[i] == sid[i - base.len() - 2]);
        }
    }
    let d = numbers::dec(now as nat);
    numbers::lemma_digits_of(now as nat, 10);
    assert forall|i: int| 0 <= i < d.len() implies !bad(#[trigger] d[i]) by {
        assert(0 <= numbers::digit_value(d[i]));
    }
    let b = marked_folder(name, d);
    assert forall|i: int| 0 <= i < b.len() implies !bad(#[trigger] b[i]) by {
        if i < base.len() {
            assert(b[i] == base[i]);
        } else if i < base.len() + 2 {
            assert(b[i] == " ("@[i - base.len()]);
        } else if i < base.len() + 2 + d.len() {
            assert(b[i] == d[i - base.len() - 2]);
        }
    }
}

/// A phone stays for as long as its connection, and for half a minute longer; then it is gone.
pub proof fn law_lost_phones_leave(s: RegistryView, now: u64)
    ensures
        forall|p: PhoneView|
            #[trigger] without_stale(s, now).phones.contains(p) <==> s.phones.contains(p)
                && connected(p, now),
{
    let keep = |p: PhoneView| connected(p, now);
    text::lemma_filter_members(s.phones, keep);
    assert forall|p: PhoneView| s.phones.contains(p) && connected(p, now) implies #[trigger] without_stale(
        s,
        now,
    ).phones.contains(p) by {
        s.phones.lemma_filter_contains(keep, s.phones.index_of(p));
    }
    assert forall|p: PhoneView| #[trigger] without_stale(s, now).phones.contains(p) implies s.phones.contains(p)
        && connected(p, now) by {
        let i = choose|i: int| 0 <= i < s.phones.filter(keep).len() && s.phones.filter(keep)[i] == p;
        assert(keep(s.phones.filter(keep)[i]));
    }
}

/// A phone is found by its folder as long as it is connected, or was until a short while ago,
/// where no other phone has that folder.
pub proof fn law_folder_leads_to_phone(s: RegistryView, k: int, now: u64)
    requires
        0 <= k < s.phones.len(),
        connected(s.phones[k], now),
        forall|j: int|
            0 <= j < s.phones.len() && j != k ==> (#[trigger] s.phones[j]).folder_name
                != s.phones[k].folder_name,
    ensures
        in_folder(without_stale(s, now).phones, s.phones[k].folder_name, 0) == Some(s.phones[k]),
{
    let p = s.phones[k];
    let kept = without_stale(s, now).phones;
    law_lost_phones_leave(s, now);
    assert(s.phones.contains(p));
    assert(kept.contains(p));
    let at = choose|at: int| 0 <= at < kept.len() && kept[at] == p;
    assert forall|j: int| 0 <= j < kept.len() && kept[j].folder_name == p.folder_name implies (
    #[trigger] kept[j]) == p by {
        assert(kept.contains(kept[j]));
        assert(s.phones.contains(kept[j]));
        let m = choose|m: int| 0 <= m < s.phones.len() && s.phones[m] == kept[j];
        assert(s.phones[m].folder_name == p.folder_name);
    }
    lemma_in_folder(kept, p, 0, at);
}

/// The first phone with a folder name, where all with that name are the same.
proof fn lemma_in_folder(phones: Seq<PhoneView>, p: PhoneView, from: int, at: int)
    requires
        0 <= from <= at < phones.len(),
        phones[at] == p,
        forall|j: int|
            0 <= j < phones.len() && phones[j].folder_name == p.folder_name ==> (
            #[trigger] phones[j]) == p,
    ensures
        in_folder(phones, p.folder_name, from) == Some(p),
    decreases at - from,
{
    if phones[from].folder_name != p.folder_name {
        lemma_in_folder(phones, p, from + 1, at);
    }
}

/// A phone whose connection was lost is kept for 30 seconds.
pub proof fn law_lost_phone_is_kept_a_while(p: PhoneView, now: u64)
    ensures
        p.disconnected_at == 0 ==> connected(p, now),
        p.disconnected_at != 0 ==> (connected(p, now) <==> now <= p.disconnected_at + 30),
        published(p, now) <==> p.source_visible && connected(p, now),
{
}

/// In the identifier of a device ASCII letters, digits, dashes, underscores and dots stay, and any
/// other character is an underscore. An identifier stays as it is.
pub proof fn law_identifier_of_device(value: Seq<char>, i: int)
    requires
        0 <= i < value.len(),
    ensures
        safe_id(value).len() == value.len(),
        'a' <= value[i] <= 'z' || 'A' <= value[i] <= 'Z' || '0' <= value[i] <= '9' || value[i]
            == '-' || value[i] == '_' || value[i] == '.' ==> safe_id(value)[i] == value[i],
        !('a' <= value[i] <= 'z' || 'A' <= value[i] <= 'Z' || '0' <= value[i] <= '9' || value[i]
            == '-' || value[i] == '_' || value[i] == '.') ==> safe_id(value)[i] == '_',
        safe_id(safe_id(value)) == safe_id(value),
        safe_id(Seq::empty()) == "phone"@,
{
    assert(safe_id(safe_id(value)) =~= safe_id(value));
}

/// A word stands for the administrator where it is `admin` or `principal` in any case and with any
/// white space around it; any other word stands for a guest.
pub proof fn law_role_of_word(value: Seq<char>)
    ensures
        role_of(value) == "admin"@ || role_of(value) == "guest"@,
        role_of(value) == "admin"@ <==> (text::ascii_lower(text::trimmed(value)) == "admin"@
            || text::ascii_lower(text::trimmed(value)) == "principal"@),
{
    reveal_strlit("admin");
    reveal_strlit("guest");
    assert("admin"@[0] != "guest"@[0]);
}

/// A phone that registers is known by what it says of itself: its device, its name, or its device
/// where it gives none, its role, whether it shows its files, and its connection, which is not
/// lost.
pub proof fn law_phone_tells_registration(
    phones: Seq<PhoneView>,
    reg: RegisterView,
    connection: u64,
    now: u64,
)
    ensures
        ({
            let p = new_phone(phones, reg, connection, now);
            &&& p.id == safe_id(reg.device_id)
            &&& p.role == role_of(reg.role)
            &&& p.source_visible == reg.source_visible
            &&& p.connection == connection
            &&& p.disconnected_at == 0
            &&& connected(p, now)
            &&& reg.display_name is None ==> p.display_name == safe_id(reg.device_id)
            &&& reg.display_name matches Some(name) ==> {
                &&& text::trimmed(name).len() > 0 ==> p.display_name == name
                &&& text::trimmed(name).len() == 0 ==> p.display_name == safe_id(reg.device_id)
            }
            &&& !taken(phones, p.id, folder_base(p.display_name)) ==> p.folder_name == folder_base(
                p.display_name,
            )
            &&& taken(phones, p.id, folder_base(p.display_name)) && !taken(
                phones,
                p.id,
                folder_base(p.display_name) + " ("@ + safe_id(p.id) + ")"@,
            ) ==> p.folder_name == folder_base(p.display_name) + " ("@ + safe_id(p.id) + ")"@
            &&& taken(phones, p.id, folder_base(p.display_name)) && taken(
                phones,
                p.id,
                folder_base(p.display_name) + " ("@ + safe_id(p.id) + ")"@,
            ) ==> p.folder_name == folder_base(p.display_name) + " ("@ + numbers::dec(now as nat)
                + ")"@
        }),
{
}

/// A name without slashes, backslashes and control characters, and without white space and dots at
/// its ends, is its own folder name; nothing but these makes `Telephone`.
pub proof fn law_plain_name_is_its_folder(name: Seq<char>)
    requires
        forall|i: int| 0 <= i < name.len() ==> !not_in_folder(#[trigger] name[i]),
        name.len() > 0 ==> !CharSet::White.has(name[0]) && !CharSet::White.has(name.last())
            && name[0] != '.' && name.last() != '.',
    ensures
        name.len() > 0 ==> folder_base(name) == name,
        name.len() == 0 ==> folder_base(name) == "Telephone"@,
{
    assert(text::trimmed(name) == name);
    assert(masked(name) =~= name);
    assert(text::trim_ends(name, CharSet::Only('.')) == name);
}

/// Losing a connection marks the phones on it with the time, and leaves the others as they are.
pub proof fn law_lost_connection_is_noted(s: RegistryView, connection: u64, now: u64, i: int)
    requires
        0 <= i < s.phones.len(),
    ensures
        ({
            let t = disconnected(s, connection, now);
            &&& t.phones.len() == s.phones.len()
            &&& t.admin == s.admin
            &&& s.phones[i].connection != connection ==> t.phones[i] == s.phones[i]
            &&& s.phones[i].connection == connection ==> t.phones[i].disconnected_at == now
                && t.phones[i].id == s.phones[i].id && t.phones[i].folder_name
                == s.phones[i].folder_name && t.phones[i].display_name == s.phones[i].display_name
                && t.phones[i].role == s.phones[i].role && t.phones[i].source_visible
                == s.phones[i].source_visible
        }),
{
}

/// The phones that are shown are those that show their files and are connected, or were until a
/// short while ago.
pub proof fn law_shown_phones(s: RegistryView, now: u64, p: PhoneView)
    ensures
        shown(s, now).contains(p) <==> s.phones.contains(p) && p.source_visible && connected(p, now),
{
    let keep = |q: PhoneView| published(q, now);
    text::lemma_filter_members(s.phones, keep);
    if s.phones.contains(p) && published(p, now) {
        s.phones.lemma_filter_contains(keep, s.phones.index_of(p));
    }
    if shown(s, now).contains(p) {
        let i = choose|i: int| 0 <= i < shown(s, now).len() && shown(s, now)[i] == p;
        assert(keep(s.phones.filter(keep)[i]));
    }
}

/// A list by name holds each phone once, and no phone stands before one with a lesser name.
pub proof fn law_list_by_name(phones: Seq<PhoneView>, r: Seq<PhoneView>, i: int, j: int)
    requires
        by_name(phones, r),
    ensures
        r.len() == phones.len(),
        0 <= i < r.len() ==> phones.contains(r[i]),
        0 <= i < phones.len() <= usize::MAX ==> r.contains(phones[i]),
        0 <= i < j < r.len() ==> !order::text_less(r[j].display_name, r[i].display_name),
{
    let places = choose|places: Seq<usize>| #[trigger]
        order::stable_order(name_keys(phones), places) && r == arranged(phones, places);
    if 0 <= i < r.len() {
        assert(r[i] == phones[places[i] as int]);
    }
    if 0 <= i < phones.len() <= usize::MAX {
        assert(places.contains(i as usize));
        let k = choose|k: int| 0 <= k < places.len() && places[k] == i as usize;
        assert(r[k] == phones[i]);
    }
    if 0 <= i < j < r.len() {
        order::law_stable_order_sorts(name_keys(phones), places, i, j);
    }
}

/// A phone is found by its identifier exactly where it is there, and by its folder name likewise.
pub proof fn law_phones_are_found(phones: Seq<PhoneView>, word: Seq<char>)
    ensures
        match with_id(phones, word) {
            Some(p) => p.id == word && phones.contains(p),
            None => forall|k: int| 0 <= k < phones.len() ==> (#[trigger] phones[k]).id != word,
        },
        match in_folder(phones, word, 0) {
            Some(p) => p.folder_name == word && phones.contains(p),
            None => forall|k: int|
                0 <= k < phones.len() ==> (#[trigger] phones[k]).folder_name != word,
        },
{
    lemma_place(phones, word, 0);
    lemma_folder_found(phones, word, 0);
}

proof fn lemma_folder_found(phones: Seq<PhoneView>, word: Seq<char>, from: int)
    requires
        0 <= from <= phones.len(),
    ensures
        match in_folder(phones, word, from) {
            Some(p) => p.folder_name == word && phones.contains(p),
            None => forall|k: int|
                from <= k < phones.len() ==> (#[trigger] phones[k]).folder_name != word,
        },
    decreases phones.len() - from,
{
    if from < phones.len() && phones[from].folder_name != word {
        lemma_folder_found(phones, word, from + 1);
    }
}

/// In a folder name an underscore stands for each slash, each backslash and each control character,
/// and nothing else changes.
pub proof fn law_characters_of_folder(s: Seq<char>, i: int)
    requires
        0 <= i < s.len(),
    ensures
        masked(s).len() == s.len(),
        s[i] == '/' || s[i] == '\\' || s[i] as u32 <= 0x1f || 0x7f <= s[i] as u32 <= 0x9f ==> masked(
            s,
        )[i] == '_',
        !(s[i] == '/' || s[i] == '\\' || s[i] as u32 <= 0x1f || 0x7f <= s[i] as u32 <= 0x9f)
            ==> masked(s)[i] == s[i],
{
    text::lemma_char_range(s[i]);
}

} // verus!
