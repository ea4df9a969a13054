//! Verified core of a campus-portal client: session negotiation decisions,
//! cookie scoping, and timetable-to-calendar conversion.

pub mod strutil;
pub mod dates;
pub mod cookies;
pub mod client;
pub mod sso_type;
pub mod login;
pub mod calendar;
pub mod ical;
pub mod timetable;
pub mod events;
pub mod jwcas_type;
pub mod jwqywx_type;
pub mod webvpn_type;
pub mod iccard;
pub mod matrix_source;
