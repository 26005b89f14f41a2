//! Where the proxy listens, how long its certificate is used, and what it says of itself.
use vstd::prelude::*;

use crate::gateway;
use crate::json;
use crate::numbers;
use crate::ssdp;
use crate::text;
use crate::worker;

verus! {

/// Where Kodi finds the FTP server, unless configured otherwise.
pub const DEFAULT_FTP_BIND: &'static str = "0.0.0.0:2120";

/// Where phones' files are found over HTTP, unless configured otherwise.
pub const DEFAULT_HTTP_BIND: &'static str = "127.0.0.1:8787";

/// Where the UPnP server is found, unless configured otherwise.
pub const DEFAULT_UPNP_BIND: &'static str = "0.0.0.0:8788";

/// Where phones find the proxy, unless configured otherwise.
pub const DEFAULT_WEBTRANSPORT_BIND: &'static str = "0.0.0.0:4433";

/// The directory of the proxy, unless configured otherwise.
pub const DEFAULT_STATE_DIR: &'static str = "./troozn-state";

/// How long a certificate is used, in seconds: 13 days.
pub const WEBTRANSPORT_CERT_MAX_AGE_SECONDS: u64 = 1_123_200;

/// How long a certificate is valid, in seconds: 14 days.
pub const WEBTRANSPORT_CERT_LIFE_SECONDS: u64 = 1_209_600;

/// A setting, or a default where there is none.
pub fn setting_or(value: Option<String>, default: &str) -> (r: String)
    ensures
        r@ == match text::text_in(value) {
            Some(s) => s,
            None => default@,
        },
{
    match value {
        Some(s) => s,
        None => default.to_string(),
    }
}

/// The host under which the UPnP server is announced: a setting that is not blank, or else the
/// machine's own address.
pub fn public_host(setting: Option<String>, own_address: String) -> (r: String)
    ensures
        r@ == match text::text_in(setting) {
            Some(s) if text::trimmed(s).len() > 0 => s,
            _ => own_address@,
        },
{
    match setting {
        Some(s) => if text::trim(&s).as_str().is_empty() {
            own_address
        } else {
            s
        },
        None => own_address,
    }
}

// ---------------------------------------------------------------------------
// The certificate
// ---------------------------------------------------------------------------

/// Whether a certificate is too old: one of which it is not known when it was made is.
pub open spec fn too_old(created_at: u64, now: u64) -> bool {
    created_at == 0 || now - created_at >= WEBTRANSPORT_CERT_MAX_AGE_SECONDS
}

/// Whether a certificate is too old.
pub fn certificate_too_old(created_at: u64, now: u64) -> (r: bool)
    ensures
        r == too_old(created_at, now),
{
    created_at == 0 || now.saturating_sub(created_at) >= WEBTRANSPORT_CERT_MAX_AGE_SECONDS
}

/// When a certificate was made, by what was noted of it; 0 where that is not known.
pub open spec fn noted_creation(note: Option<Seq<char>>) -> u64 {
    match note {
        Some(s) => match json::json_text(s) {
            Some(v) => match v.unsigned_at("createdAt"@) {
                Some(n) => n,
                None => 0,
            },
            None => 0,
        },
        None => 0,
    }
}

/// What is noted of a certificate that was made at this time.
pub open spec fn note_text(created_at: u64) -> Seq<char> {
    "{\"createdAt\":"@ + numbers::dec(created_at as nat) + ",\"expiresAfter\":"@ + numbers::dec(
        (created_at + WEBTRANSPORT_CERT_LIFE_SECONDS) as nat,
    ) + ",\"rotateAfter\":"@ + numbers::dec(
        (created_at + WEBTRANSPORT_CERT_MAX_AGE_SECONDS) as nat,
    ) + "}"@
}

/// Whether a certificate is too old, by what was noted of it. What [`identity_note`] noted is
/// understood.
pub fn identity_is_stale(note: Option<String>, now: u64) -> (r: bool)
    ensures
        r == too_old(noted_creation(text::text_in(note)), now),
        forall|created_at: u64|
            #![trigger note_text(created_at)]
            created_at + WEBTRANSPORT_CERT_LIFE_SECONDS <= u64::MAX && text::text_in(note) == Some(
                note_text(created_at),
            ) ==> r == too_old(created_at, now),
{
    let created_at: u64 = match &note {
        Some(s) => {
            let parsed = json::parse_json(s);
            proof {
                assert forall|t: u64|
                    #![trigger note_text(t)]
                    t + WEBTRANSPORT_CERT_LIFE_SECONDS <= u64::MAX && s@ == note_text(
                        t,
                    ) implies parsed is Some && parsed->0@.unsigned_at("createdAt"@) == Some(t) by {
                    lemma_note_is_counts(t);
                    assert(note_counts(t)[0].0 == "createdAt"@);
                }
            }
            match parsed {
                Some(v) => match v.unsigned_at("createdAt") {
                    Some(n) => n,
                    None => 0,
                },
                None => 0,
            }
        },
        None => 0,
    };
    certificate_too_old(created_at, now)
}

/// The numbers that are noted of a certificate.
spec fn note_counts(created_at: u64) -> Seq<(Seq<char>, u64)> {
    seq![
        ("createdAt"@, created_at),
        ("expiresAfter"@, (created_at + WEBTRANSPORT_CERT_LIFE_SECONDS) as u64),
        ("rotateAfter"@, (created_at + WEBTRANSPORT_CERT_MAX_AGE_SECONDS) as u64),
    ]
}

/// What is noted of a certificate is the text of an object of numbers, under different names of
/// letters.
proof fn lemma_note_is_counts(created_at: u64)
    requires
        created_at + WEBTRANSPORT_CERT_LIFE_SECONDS <= u64::MAX,
    ensures
        note_text(created_at) == json::counts_text(note_counts(created_at)),
        json::plain_names(note_counts(created_at)),
{
    reveal_strlit("createdAt");
    reveal_strlit("expiresAfter");
    reveal_strlit("rotateAfter");
    reveal_strlit("{\"createdAt\":");
    reveal_strlit(",\"expiresAfter\":");
    reveal_strlit(",\"rotateAfter\":");
    reveal_strlit("{");
    reveal_strlit("}");
    reveal_strlit(":");
    reveal_strlit(",");
    json::lemma_quoted_plain("createdAt"@);
    json::lemma_quoted_plain("expiresAfter"@);
    json::lemma_quoted_plain("rotateAfter"@);
    let m = note_counts(created_at);
    let parts = m.map_values(
        |m: (Seq<char>, u64)| json::quoted(m.0) + ":"@ + numbers::dec(m.1 as nat),
    );
    let a = parts[0];
    let b = parts[1];
    let c = parts[2];
    assert(parts =~= seq![a, b, c]);
    assert(text::joined(parts, ","@) == a + ","@ + b + ","@ + c) by {
        reveal_with_fuel(text::joined, 4);
        assert(parts.drop_last() =~= seq![a, b]);
        assert(parts.drop_last().drop_last() =~= seq![a]);
    }
    assert("createdAt"@.len() != "expiresAfter"@.len());
    assert("createdAt"@.len() != "rotateAfter"@.len());
    assert("expiresAfter"@.len() != "rotateAfter"@.len());
    assert(note_text(created_at) =~= json::counts_text(m));
}

/// What is noted of a certificate.
pub fn identity_note(created_at: u64) -> (r: String)
    requires
        created_at + WEBTRANSPORT_CERT_LIFE_SECONDS <= u64::MAX,
    ensures
        r@ == note_text(created_at),
{
    let mut r = text::concat3(
        "{\"createdAt\":",
        &numbers::decimal(created_at),
        ",\"expiresAfter\":",
    );
    r.push_str(&numbers::decimal(created_at + WEBTRANSPORT_CERT_LIFE_SECONDS));
    r.push_str(",\"rotateAfter\":");
    r.push_str(&numbers::decimal(created_at + WEBTRANSPORT_CERT_MAX_AGE_SECONDS));
    r.push_str("}");
    r
}

// ---------------------------------------------------------------------------
// The status
// ---------------------------------------------------------------------------

/// What is configured, as far as the status shows it.
#[derive(Debug)]
pub struct StatusSettings {
    /// Where the FTP server listens.
    pub ftp_bind: Option<String>,
    /// Where the server of phones' files listens.
    pub http_bind: Option<String>,
    /// Where the UPnP server listens.
    pub upnp_bind: Option<String>,
    /// The name of the user of Kodi.
    pub kodi_username: Option<String>,
    /// How many bytes of a file are kept.
    pub head_cache_bytes: Option<String>,
    /// How many bytes are kept of all files.
    pub head_cache_max_bytes: Option<String>,
    /// Where they are kept.
    pub head_cache_dir: Option<String>,
    /// The directory of the proxy.
    pub state_dir: Option<String>,
}

/// The model of what is configured.
#[verifier::ext_equal]
pub struct StatusView {
    pub ftp_bind: Option<Seq<char>>,
    pub http_bind: Option<Seq<char>>,
    pub upnp_bind: Option<Seq<char>>,
    pub kodi_username: Option<Seq<char>>,
    pub head_cache_bytes: Option<Seq<char>>,
    pub head_cache_max_bytes: Option<Seq<char>>,
    pub head_cache_dir: Option<Seq<char>>,
    pub state_dir: Option<Seq<char>>,
}

impl View for StatusSettings {
    type V = StatusView;

    open spec fn view(&self) -> StatusView {
        StatusView {
            ftp_bind: text::text_in(self.ftp_bind),
            http_bind: text::text_in(self.http_bind),
            upnp_bind: text::text_in(self.upnp_bind),
            kodi_username: text::text_in(self.kodi_username),
            head_cache_bytes: text::text_in(self.head_cache_bytes),
            head_cache_max_bytes: text::text_in(self.head_cache_max_bytes),
            head_cache_dir: text::text_in(self.head_cache_dir),
            state_dir: text::text_in(self.state_dir),
        }
    }
}

/// A setting, or a default where there is none.
pub open spec fn or_default(value: Option<Seq<char>>, default: Seq<char>) -> Seq<char> {
    match value {
        Some(s) => s,
        None => default,
    }
}

/// The directory in which the first bytes of files are kept.
pub open spec fn cache_dir_of(s: StatusView) -> Seq<char> {
    match s.head_cache_dir {
        Some(dir) => dir,
        None => worker::path_in(or_default(s.state_dir, DEFAULT_STATE_DIR@), "head-cache"@),
    }
}

/// Whether Kodi asks for a user: the name is configured and not blank.
pub open spec fn asks_for_user(username: Option<Seq<char>>) -> bool {
    match username {
        Some(u) => text::trimmed(u).len() > 0,
        None => false,
    }
}

/// What the proxy says of itself.
pub open spec fn status_text(
    s: StatusView,
    bind: Seq<char>,
    cert_hash: Seq<char>,
    now: nat,
) -> Seq<char> {
    "{\"ftpBind\":"@ + json::quoted(or_default(s.ftp_bind, DEFAULT_FTP_BIND@))
        + ",\"headCacheBytes\":"@ + numbers::dec(
        gateway::cache_bytes(
            s.head_cache_bytes,
            gateway::DEFAULT_HEAD_CACHE_BYTES,
            Some((gateway::MIN_HEAD_CACHE_BYTES, gateway::MAX_HEAD_CACHE_BYTES)),
        ) as nat,
    ) + ",\"headCacheDir\":"@ + json::quoted(cache_dir_of(s)) + ",\"headCacheMaxBytes\":"@
        + numbers::dec(
        gateway::cache_bytes(
            s.head_cache_max_bytes,
            gateway::DEFAULT_HEAD_CACHE_MAX_BYTES,
            None,
        ) as nat,
    ) + ",\"httpBind\":"@ + json::quoted(or_default(s.http_bind, DEFAULT_HTTP_BIND@))
        + ",\"kodiAuthConfigured\":"@ + (if asks_for_user(s.kodi_username) {
        "true"@
    } else {
        "false"@
    }) + ",\"state\":\"running\",\"transport\":\"webtransport\",\"updatedAt\":"@ + numbers::dec(now)
        + ",\"upnpBind\":"@ + json::quoted(or_default(s.upnp_bind, DEFAULT_UPNP_BIND@))
        + ",\"webTransportBind\":"@ + json::quoted(bind) + ",\"webTransportCertHash\":"@
        + json::quoted(cert_hash) + ",\"webTransportPort\":"@ + numbers::dec(
        ssdp::port_of(bind, 4433) as nat,
    ) + "}\n"@
}

impl StatusSettings {
    /// The directory in which the first bytes of files are kept.
    pub fn cache_dir(&self) -> (r: String)
        ensures
            r@ == cache_dir_of(self@),
    {
        match &self.head_cache_dir {
            Some(dir) => dir.clone(),
            None => worker::join_path(
                &setting_or(self.state_dir.clone(), DEFAULT_STATE_DIR),
                "head-cache",
            ),
        }
    }

    /// What the proxy says of itself.
    pub fn write_proxy_status(&self, bind: &str, cert_hash: &str, now: u64) -> (r: String)
        ensures
            r@ == status_text(self@, bind@, cert_hash@, now as nat),
    {
        let file_bytes: u64 = gateway::configured_cache_bytes(
            self.head_cache_bytes.clone(),
            gateway::DEFAULT_HEAD_CACHE_BYTES,
            Some((gateway::MIN_HEAD_CACHE_BYTES, gateway::MAX_HEAD_CACHE_BYTES)),
        );
        let max_bytes: u64 = gateway::configured_cache_bytes(
            self.head_cache_max_bytes.clone(),
            gateway::DEFAULT_HEAD_CACHE_MAX_BYTES,
            None,
        );
        let user = match &self.kodi_username {
            Some(u) => !text::trim(u).as_str().is_empty(),
            None => false,
        };
        let flag = if user {
            "true"
        } else {
            "false"
        };
        let mut r = "{\"ftpBind\":".to_string();
        r.push_str(&json::quote(&setting_or(self.ftp_bind.clone(), DEFAULT_FTP_BIND)));
        r.push_str(",\"headCacheBytes\":");
        r.push_str(&numbers::decimal(file_bytes));
        r.push_str(",\"headCacheDir\":");
        r.push_str(&json::quote(&self.cache_dir()));
        r.push_str(",\"headCacheMaxBytes\":");
        r.push_str(&numbers::decimal(max_bytes));
        r.push_str(",\"httpBind\":");
        r.push_str(&json::quote(&setting_or(self.http_bind.clone(), DEFAULT_HTTP_BIND)));
        r.push_str(",\"kodiAuthConfigured\":");
        r.push_str(flag);
        r.push_str(",\"state\":\"running\",\"transport\":\"webtransport\",\"updatedAt\":");
        r.push_str(&numbers::decimal(now));
        r.push_str(",\"upnpBind\":");
        r.push_str(&json::quote(&setting_or(self.upnp_bind.clone(), DEFAULT_UPNP_BIND)));
        r.push_str(",\"webTransportBind\":");
        r.push_str(&json::quote(bind));
        r.push_str(",\"webTransportCertHash\":");
        r.push_str(&json::quote(cert_hash));
        r.push_str(",\"webTransportPort\":");
        r.push_str(&numbers::decimal(ssdp::bind_port(bind, 4433) as u64));
        r.push_str("}\n");
        r
    }
}

// ---------------------------------------------------------------------------
// Laws
// ---------------------------------------------------------------------------

/// A certificate is used only while it is valid: it is replaced before it expires, and where it is
/// not known when it was made.
pub proof fn law_certificate_is_valid_while_used(created_at: u64, now: u64)
    ensures
        !too_old(created_at, now) ==> now < created_at + WEBTRANSPORT_CERT_LIFE_SECONDS,
        too_old(0, now),
{
}

/// A certificate is replaced 13 days after it was made, and no sooner, where that is known.
pub proof fn law_certificate_is_replaced(created_at: u64, now: u64)
    requires
        created_at > 0,
    ensures
        too_old(created_at, now) <==> now >= created_at + 13 * 24 * 60 * 60,
{
}

/// The proxy says where it is reached, by the settings or their defaults, how its certificate is
/// recognised, when it said so, and whether Kodi asks for a user.
pub proof fn law_status_tells_settings(
    s: StatusView,
    bind: Seq<char>,
    cert_hash: Seq<char>,
    now: nat,
)
    ensures
        text::holds_all(
            status_text(s, bind, cert_hash, now),
            seq![
                "{\"ftpBind\":"@ + json::quoted(
                    match s.ftp_bind {
                        Some(b) => b,
                        None => "0.0.0.0:2120"@,
                    },
                ),
                ",\"headCacheDir\":"@ + json::quoted(cache_dir_of(s)),
                ",\"httpBind\":"@ + json::quoted(
                    match s.http_bind {
                        Some(b) => b,
                        None => "127.0.0.1:8787"@,
                    },
                ),
                ",\"kodiAuthConfigured\":"@ + (match s.kodi_username {
                    Some(u) => if text::trimmed(u).len() > 0 {
                        "true"@
                    } else {
                        "false"@
                    },
                    None => "false"@,
                }),
                ",\"state\":\"running\",\"transport\":\"webtransport\",\"updatedAt\":"@
                    + numbers::dec(now),
                ",\"upnpBind\":"@ + json::quoted(
                    match s.upnp_bind {
                        Some(b) => b,
                        None => "0.0.0.0:8788"@,
                    },
                ),
                ",\"webTransportBind\":"@ + json::quoted(bind),
                ",\"webTransportCertHash\":"@ + json::quoted(cert_hash),
                ",\"webTransportPort\":"@ + numbers::dec(ssdp::port_of(bind, 4433) as nat),
            ],
        ),
        s.head_cache_dir matches Some(dir) ==> cache_dir_of(s) == dir,
        s.head_cache_dir is None ==> (s.state_dir matches Some(dir) ==> cache_dir_of(s)
            == worker::path_in(dir, "head-cache"@)),
{
    let none = Seq::<Seq<char>>::empty();
    let nothing = Seq::<char>::empty();
    let q1 = json::quoted(or_default(s.ftp_bind, DEFAULT_FTP_BIND@));
    let q2 = numbers::dec(
        gateway::cache_bytes(
            s.head_cache_bytes,
            gateway::DEFAULT_HEAD_CACHE_BYTES,
            Some((gateway::MIN_HEAD_CACHE_BYTES, gateway::MAX_HEAD_CACHE_BYTES)),
        ) as nat,
    );
    let q3 = json::quoted(cache_dir_of(s));
    let q4 = numbers::dec(
        gateway::cache_bytes(
            s.head_cache_max_bytes,
            gateway::DEFAULT_HEAD_CACHE_MAX_BYTES,
            None,
        ) as nat,
    );
    let q5 = json::quoted(or_default(s.http_bind, DEFAULT_HTTP_BIND@));
    let q6 = if asks_for_user(s.kodi_username) {
        "true"@
    } else {
        "false"@
    };
    let q7 = numbers::dec(now);
    let q8 = json::quoted(or_default(s.upnp_bind, DEFAULT_UPNP_BIND@));
    let q9 = json::quoted(bind);
    let q10 = json::quoted(cert_hash);
    let q11 = numbers::dec(ssdp::port_of(bind, 4433) as nat);
    let c1 = "{\"ftpBind\":"@ + q1;
    assert(nothing + "{\"ftpBind\":"@ =~= "{\"ftpBind\":"@);
    text::lemma_next_field(nothing, "{\"ftpBind\":"@, q1, none);
    let p1 = none.push("{\"ftpBind\":"@ + q1);
    text::lemma_next_field(c1, ",\"headCacheBytes\":"@, q2, p1);
    let c2 = c1 + ",\"headCacheBytes\":"@ + q2;
    let p2 = p1.push(",\"headCacheBytes\":"@ + q2);
    text::lemma_next_field(c2, ",\"headCacheDir\":"@, q3, p2);
    let c3 = c2 + ",\"headCacheDir\":"@ + q3;
    let p3 = p2.push(",\"headCacheDir\":"@ + q3);
    text::lemma_next_field(c3, ",\"headCacheMaxBytes\":"@, q4, p3);
    let c4 = c3 + ",\"headCacheMaxBytes\":"@ + q4;
    let p4 = p3.push(",\"headCacheMaxBytes\":"@ + q4);
    text::lemma_next_field(c4, ",\"httpBind\":"@, q5, p4);
    let c5 = c4 + ",\"httpBind\":"@ + q5;
    let p5 = p4.push(",\"httpBind\":"@ + q5);
    text::lemma_next_field(c5, ",\"kodiAuthConfigured\":"@, q6, p5);
    let c6 = c5 + ",\"kodiAuthConfigured\":"@ + q6;
    let p6 = p5.push(",\"kodiAuthConfigured\":"@ + q6);
    let k7 = ",\"state\":\"running\",\"transport\":\"webtransport\",\"updatedAt\":"@;
    text::lemma_next_field(c6, k7, q7, p6);
    let c7 = c6 + k7 + q7;
    let p7 = p6.push(k7 + q7);
    text::lemma_next_field(c7, ",\"upnpBind\":"@, q8, p7);
    let c8 = c7 + ",\"upnpBind\":"@ + q8;
    let p8 = p7.push(",\"upnpBind\":"@ + q8);
    text::lemma_next_field(c8, ",\"webTransportBind\":"@, q9, p8);
    let c9 = c8 + ",\"webTransportBind\":"@ + q9;
    let p9 = p8.push(",\"webTransportBind\":"@ + q9);
    text::lemma_next_field(c9, ",\"webTransportCertHash\":"@, q10, p9);
    let c10 = c9 + ",\"webTransportCertHash\":"@ + q10;
    let p10 = p9.push(",\"webTransportCertHash\":"@ + q10);
    text::lemma_next_field(c10, ",\"webTransportPort\":"@, q11, p10);
    let c11 = c10 + ",\"webTransportPort\":"@ + q11;
    let p11 = p10.push(",\"webTransportPort\":"@ + q11);
    text::lemma_next_field(c11, "}\n"@, nothing, p11);
    let whole = c11 + "}\n"@;
    assert(whole + nothing =~= whole);
    let told = p11.push("}\n"@ + nothing);
    assert(status_text(s, bind, cert_hash, now) == whole);
    assert(told[0] == "{\"ftpBind\":"@ + q1);
    assert(told[2] == ",\"headCacheDir\":"@ + q3);
    assert(told[4] == ",\"httpBind\":"@ + q5);
    assert(told[5] == ",\"kodiAuthConfigured\":"@ + q6);
    assert(told[6] == k7 + q7);
    assert(told[7] == ",\"upnpBind\":"@ + q8);
    assert(told[8] == ",\"webTransportBind\":"@ + q9);
    assert(told[9] == ",\"webTransportCertHash\":"@ + q10);
    assert(told[10] == ",\"webTransportPort\":"@ + q11);
}

/// What is noted of a certificate tells when it was made, that it expires two weeks later, and that
/// it is replaced a day before that.
pub proof fn law_note_tells_dates(created_at: u64)
    ensures
        note_text(created_at) == "{\"createdAt\":"@ + numbers::dec(created_at as nat)
            + ",\"expiresAfter\":"@ + numbers::dec((created_at + 14 * 24 * 60 * 60) as nat)
            + ",\"rotateAfter\":"@ + numbers::dec((created_at + 13 * 24 * 60 * 60) as nat) + "}"@,
        noted_creation(None) == 0,
{
}

} // verus!
