//! Types of the single-sign-on negotiation: which network path a session
//! uses, and the identity token the tunneled path hands out.

use vstd::prelude::*;
use crate::client::Property;

verus! {

/// The identity token carried by the tunnel's `clientInfo` cookie.
#[derive(Debug, Clone)]
pub struct ElinkLoginInfo {
    pub username: String,
    pub sid: String,
    pub userid: String,
    pub loginkey: String,
}

/// Which network path reaches the portal: the public tunnel gateway, or the
/// campus network directly.
#[derive(Debug, Clone, Copy, PartialEq, Eq, Structural)]
pub enum SSOLoginConnectType {
    WEBVPN,
    COMMON,
}

impl SSOLoginConnectType {
    /// The property key under which the negotiated path is remembered.
    pub fn key() -> (r: &'static str)
        ensures
            r@ == "login-connect-type"@,
    {
        "login-connect-type"
    }

    /// The property value that stands for this path.
    pub fn to_property(&self) -> (r: Property)
        ensures
            r is Str,
            self is COMMON ==> r->Str_0@ == "common"@,
            self is WEBVPN ==> r->Str_0@ == "webvpn"@,
    {
        Property::Str(
            match self {
                SSOLoginConnectType::COMMON => "common",
                SSOLoginConnectType::WEBVPN => "webvpn",
            },
        )
    }
}

} // verus!
