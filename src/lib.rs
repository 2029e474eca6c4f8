//! Verified core of an IPTV portal bridge: the portal session's requests and
//! step decisions, the handshake's encrypted payload, the channel catalog
//! scraper with its locator rewriting and tiers, the guide merge and the
//! guide's choice of source under channel remapping, the XMLTV guide reader,
//! and the state machines that govern the RTSP and multicast stream relays.

pub mod text;
pub mod model;
pub mod category;
pub mod locator;
pub mod catalog;
pub mod auth;
pub mod session;
pub mod guide;
pub mod mapping;
pub mod xmltv;
pub mod relay;
