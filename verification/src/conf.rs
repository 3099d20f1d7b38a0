//! The downloadable client configuration: a fixed text rendered from the
//! peer record, the interface and the process configuration. The private
//! key is the client's own and never stored here; a placeholder marks where
//! to put it.

use vstd::prelude::*;
use crate::config::AppConfig;
use crate::models::{Client, Interface, opt_view};
use crate::text::dec_str;

verus! {

/// The full text of a client configuration file.
pub open spec fn client_conf_str(
    ipv4: Seq<char>,
    ipv6: Option<Seq<char>>,
    preshared_key: Seq<char>,
    server_public_key: Seq<char>,
    dns: Seq<char>,
    host: Seq<char>,
    port: u16,
    allowed_ips: Seq<char>,
) -> Seq<char> {
    "[Interface]\nPrivateKey = [REPLACE_WITH_YOUR_PRIVATE_KEY]\nAddress = "@
    + ipv4 + "/32"@
    + (match ipv6 {
        Some(v6) => ", "@ + v6,
        None => Seq::<char>::empty(),
    })
    + "\nDNS = "@ + dns
    + "\n\n[Peer]\nPublicKey = "@ + server_public_key
    + "\nPresharedKey = "@ + preshared_key
    + "\nAllowedIPs = "@ + allowed_ips
    + "\nEndpoint = "@ + host + ":"@ + dec_str(port as int) + "\n"@
}

/// Render the client configuration for a peer.
pub fn build_client_conf(client: &Client, iface: &Interface, config: &AppConfig) -> (r: String)
    ensures
        r@ == client_conf_str(
            client.ipv4@,
            opt_view(client.ipv6),
            client.preshared_key@,
            iface.public_key@,
            config.wg_default_dns@,
            config.wg_host@,
            config.wg_port,
            config.wg_allowed_ips@,
        ),
{
    let mut r = String::from_str(
        "[Interface]\nPrivateKey = [REPLACE_WITH_YOUR_PRIVATE_KEY]\nAddress = ");
    r.append(client.ipv4.as_str());
    r.append("/32");
    match &client.ipv6 {
        Some(v6) => {
            r.append(", ");
            r.append(v6.as_str());
        },
        None => {},
    }
    r.append("\nDNS = ");
    r.append(config.wg_default_dns.as_str());
    r.append("\n\n[Peer]\nPublicKey = ");
    r.append(iface.public_key.as_str());
    r.append("\nPresharedKey = ");
    r.append(client.preshared_key.as_str());
    r.append("\nAllowedIPs = ");
    r.append(config.wg_allowed_ips.as_str());
    r.append("\nEndpoint = ");
    r.append(config.wg_host.as_str());
    r.append(":");
    let port = crate::text::format_u32(config.wg_port as u32);
    r.append(port.as_str());
    r.append("\n");
    proof {
        assert(r@ =~= client_conf_str(
            client.ipv4@,
            opt_view(client.ipv6),
            client.preshared_key@,
            iface.public_key@,
            config.wg_default_dns@,
            config.wg_host@,
            config.wg_port,
            config.wg_allowed_ips@,
        ));
    }
    r
}

} // verus!
