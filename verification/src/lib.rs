//! The decisions of a media proxy that stands between phones, Kodi and the web.
//!
//! Phones register over WebTransport and offer their files; the proxy shows them to Kodi over
//! FTP, HTTP and UPnP ([`registry`], [`phone`], [`gateway`], [`upnp`], [`browse`], [`ssdp`]), and
//! passes commands on to Kodi ([`kodi`], [`http_client`]). Links to videos become a continuous HLS
//! stream ([`live`], [`stream`], [`worker`], [`hls`]) or a library of files ([`library`]); what is
//! played for a link is found with yt-dlp ([`extraction`], [`resolve`], [`ytdlp`], [`items`],
//! [`links`]).
//!
//! Nothing here reads a socket, a file or a clock. Where such work lies between two decisions, a
//! function says what is to be done, and a further one goes on with the outcome.
//!
//! Each type has a model, its view, and each function says in terms of these models what it
//! returns and changes. What holds of several functions together is stated and proved in the
//! section "Laws" at the end of a module.

pub mod browse;
pub mod encoding;
pub mod extraction;
pub mod gateway;
pub mod hls;
pub mod http_client;
pub mod ids;
pub mod items;
pub mod json;
pub mod kodi;
pub mod library;
pub mod links;
pub mod live;
pub mod media_path;
pub mod numbers;
pub mod order;
pub mod phone;
pub mod registry;
pub mod resolve;
pub mod settings;
pub mod ssdp;
pub mod stream;
pub mod text;
pub mod upnp;
pub mod worker;
pub mod xml;
pub mod ytdlp;
