//! The persisted entities of the roster store: the single interface record,
//! the peers (clients), free-form settings, and the admin users.

use vstd::prelude::*;

verus! {

/// The view of an optional string.
pub open spec fn opt_view(o: Option<String>) -> Option<Seq<char>> {
    match o {
        Some(s) => Some(s@),
        None => None,
    }
}

/// A peer of the VPN, as persisted. `enabled` is kept as the store keeps it,
/// an integer with zero meaning disabled; it is the sole source of truth for
/// whether the peer belongs in kernel device state.
#[derive(Debug, Clone)]
pub struct Client {
    pub id: String,
    pub name: String,
    pub public_key: String,
    pub preshared_key: String,
    pub ipv4: String,
    pub ipv6: Option<String>,
    pub enabled: i64,
    pub created_at: String,
    pub expires_at: Option<String>,
    pub download_url: Option<String>,
    pub one_time_link: Option<String>,
}

/// The one interface record of the deployment.
#[derive(Debug, Clone)]
pub struct Interface {
    pub id: String,
    pub name: String,
    pub private_key: String,
    pub public_key: String,
    pub listen_port: i64,
    pub ipv4_cidr: String,
    pub ipv6_cidr: Option<String>,
}

/// One free-form configuration setting.
#[derive(Debug, Clone)]
pub struct Settings {
    pub key: String,
    pub value: String,
}

/// An admin user of the serving layer.
#[derive(Debug, Clone)]
pub struct User {
    pub id: i64,
    pub username: String,
    pub password_hash: String,
    pub totp_secret: Option<String>,
}

} // verus!
