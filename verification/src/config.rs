//! Process configuration: validation of the raw environment values and the
//! defaults applied when one is absent. Reading the environment itself is
//! the caller's business; this module decides what the values mean.

use vstd::prelude::*;
use crate::models::opt_view;
use crate::text::{spec_parse_dec, parse_dec};

verus! {

/// The raw environment values the process was started with; absent variables
/// are `None`.
pub struct EnvValues {
    pub wg_host: Option<String>,
    pub wg_port: Option<String>,
    pub wg_mtu: Option<String>,
    pub wg_default_address: Option<String>,
    pub wg_default_dns: Option<String>,
    pub wg_allowed_ips: Option<String>,
    pub wg_pre_up: Option<String>,
    pub wg_post_up: Option<String>,
    pub wg_pre_down: Option<String>,
    pub wg_post_down: Option<String>,
    pub port: Option<String>,
    pub insecure: Option<String>,
    pub password_hash: Option<String>,
    pub db_path: Option<String>,
    pub static_path: Option<String>,
}

/// Why the configuration was rejected.
#[derive(Debug, PartialEq, Eq, Structural)]
pub enum ConfigError {
    /// The VPN host name is required.
    MissingHost,
    /// The VPN host name must not be empty.
    EmptyHost,
    /// The VPN port is not a number up to 65535.
    BadWgPort,
    /// The MTU is not a number up to 65535.
    BadMtu,
    /// The UI port is not a number up to 65535.
    BadPort,
    /// Without the insecure flag a password hash is required.
    MissingPasswordHash,
}

/// The validated process configuration.
#[derive(Clone)]
pub struct AppConfig {
    pub wg_host: String,
    pub wg_port: u16,
    pub wg_mtu: Option<u16>,
    pub wg_default_address: String,
    pub wg_default_dns: String,
    pub wg_allowed_ips: String,
    pub wg_pre_up: Option<String>,
    pub wg_post_up: Option<String>,
    pub wg_pre_down: Option<String>,
    pub wg_post_down: Option<String>,
    pub port: u16,
    pub insecure: bool,
    pub password_hash: Option<String>,
    pub db_path: String,
    pub static_path: String,
}

/// The word "true" in any letter case: what enables the insecure mode.
pub open spec fn is_true_ci(s: Seq<char>) -> bool {
    s.len() == 4
    && (s[0] == 't' || s[0] == 'T')
    && (s[1] == 'r' || s[1] == 'R')
    && (s[2] == 'u' || s[2] == 'U')
    && (s[3] == 'e' || s[3] == 'E')
}

/// Whether the insecure flag is set by this value.
fn insecure_of(s: &str) -> (r: bool)
    ensures
        r == is_true_ci(s@),
{
    let n = s.unicode_len();
    if n != 4 {
        return false;
    }
    let c0 = s.get_char(0);
    let c1 = s.get_char(1);
    let c2 = s.get_char(2);
    let c3 = s.get_char(3);
    (c0 == 't' || c0 == 'T') && (c1 == 'r' || c1 == 'R') && (c2 == 'u' || c2 == 'U')
        && (c3 == 'e' || c3 == 'E')
}

/// A port value: digits only, at most 65535.
pub open spec fn port_ok(s: Seq<char>) -> bool {
    spec_parse_dec(s, 0xffff) is Some
}

/// The port a value denotes.
pub open spec fn port_of(s: Seq<char>) -> u16 {
    spec_parse_dec(s, 0xffff)->0 as u16
}

/// Whether the insecure mode is on for these values.
pub open spec fn spec_insecure(env: EnvValues) -> bool {
    match env.insecure {
        Some(s) => is_true_ci(s@),
        None => false,
    }
}

impl AppConfig {
    /// Validate raw environment values into a configuration. The host is
    /// required and must not be empty; ports and the MTU must be numbers;
    /// without the insecure flag a password hash is required. Everything
    /// else falls back to its default. Shell hook variables are kept as
    /// given; `unsupported_hooks` names the ones that will be ignored.
    pub fn from_env(env: EnvValues) -> (r: Result<AppConfig, ConfigError>)
        ensures
            match r {
                Ok(cfg) => {
                    &&& env.wg_host matches Some(h) && h@.len() > 0 && cfg.wg_host@ == h@
                    &&& cfg.wg_port == (match env.wg_port {
                        Some(s) => port_of(s@),
                        None => 51820u16,
                    })
                    &&& (match env.wg_port {
                        Some(s) => port_ok(s@),
                        None => true,
                    })
                    &&& (match env.wg_mtu {
                        Some(s) => port_ok(s@) && cfg.wg_mtu == Some(port_of(s@)),
                        None => cfg.wg_mtu is None,
                    })
                    &&& cfg.wg_default_address@ == (match env.wg_default_address {
                        Some(s) => s@,
                        None => "10.8.0.x"@,
                    })
                    &&& cfg.wg_default_dns@ == (match env.wg_default_dns {
                        Some(s) => s@,
                        None => "1.1.1.1"@,
                    })
                    &&& cfg.wg_allowed_ips@ == (match env.wg_allowed_ips {
                        Some(s) => s@,
                        None => "0.0.0.0/0"@,
                    })
                    &&& opt_view(cfg.wg_pre_up) == opt_view(env.wg_pre_up)
                    &&& opt_view(cfg.wg_post_up) == opt_view(env.wg_post_up)
                    &&& opt_view(cfg.wg_pre_down) == opt_view(env.wg_pre_down)
                    &&& opt_view(cfg.wg_post_down) == opt_view(env.wg_post_down)
                    &&& cfg.port == (match env.port {
                        Some(s) => port_of(s@),
                        None => 51821u16,
                    })
                    &&& (match env.port {
                        Some(s) => port_ok(s@),
                        None => true,
                    })
                    &&& cfg.insecure == spec_insecure(env)
                    &&& opt_view(cfg.password_hash) == opt_view(env.password_hash)
                    &&& (cfg.insecure || cfg.password_hash is Some)
                    &&& cfg.db_path@ == (match env.db_path {
                        Some(s) => s@,
                        None => "/etc/wireguard/wg-easy.db"@,
                    })
                    &&& cfg.static_path@ == (match env.static_path {
                        Some(s) => s@,
                        None => "/app/static"@,
                    })
                },
                Err(ConfigError::MissingHost) => env.wg_host is None,
                Err(ConfigError::EmptyHost) => env.wg_host matches Some(h) && h@.len() == 0,
                Err(ConfigError::BadWgPort) => env.wg_port matches Some(s) && !port_ok(s@),
                Err(ConfigError::BadMtu) => env.wg_mtu matches Some(s) && !port_ok(s@),
                Err(ConfigError::BadPort) => env.port matches Some(s) && !port_ok(s@),
                Err(ConfigError::MissingPasswordHash) => !spec_insecure(env)
                    && env.password_hash is None,
            },
    {
        let wg_host = match env.wg_host {
            Some(h) => h,
            None => {
                return Err(ConfigError::MissingHost);
            },
        };
        if wg_host.as_str().unicode_len() == 0 {
            return Err(ConfigError::EmptyHost);
        }
        let wg_port: u16 = match &env.wg_port {
            Some(s) => match parse_dec(s.as_str(), 0xffff) {
                Some(v) => v as u16,
                None => {
                    return Err(ConfigError::BadWgPort);
                },
            },
            None => 51820,
        };
        let wg_mtu: Option<u16> = match &env.wg_mtu {
            Some(s) => match parse_dec(s.as_str(), 0xffff) {
                Some(v) => Some(v as u16),
                None => {
                    return Err(ConfigError::BadMtu);
                },
            },
            None => None,
        };
        let port: u16 = match &env.port {
            Some(s) => match parse_dec(s.as_str(), 0xffff) {
                Some(v) => v as u16,
                None => {
                    return Err(ConfigError::BadPort);
                },
            },
            None => 51821,
        };
        let insecure = match &env.insecure {
            Some(s) => insecure_of(s.as_str()),
            None => false,
        };
        if !insecure && matches!(env.password_hash, None) {
            return Err(ConfigError::MissingPasswordHash);
        }
        Ok(AppConfig {
            wg_host,
            wg_port,
            wg_mtu,
            wg_default_address: or_default(env.wg_default_address, "10.8.0.x"),
            wg_default_dns: or_default(env.wg_default_dns, "1.1.1.1"),
            wg_allowed_ips: or_default(env.wg_allowed_ips, "0.0.0.0/0"),
            wg_pre_up: env.wg_pre_up,
            wg_post_up: env.wg_post_up,
            wg_pre_down: env.wg_pre_down,
            wg_post_down: env.wg_post_down,
            port,
            insecure,
            password_hash: env.password_hash,
            db_path: or_default(env.db_path, "/etc/wireguard/wg-easy.db"),
            static_path: or_default(env.static_path, "/app/static"),
        })
    }

    /// The shell hook variables that are set but unsupported in this
    /// deployment: the caller reports each as a visible warning and ignores
    /// it.
    pub fn unsupported_hooks(&self) -> (r: Vec<String>)
        ensures
            crate::text::views_of(r@) == (if self.wg_pre_up is Some {
                seq!["WG_PRE_UP"@]
            } else {
                Seq::<Seq<char>>::empty()
            }) + (if self.wg_post_up is Some {
                seq!["WG_POST_UP"@]
            } else {
                Seq::<Seq<char>>::empty()
            }) + (if self.wg_pre_down is Some {
                seq!["WG_PRE_DOWN"@]
            } else {
                Seq::<Seq<char>>::empty()
            }) + (if self.wg_post_down is Some {
                seq!["WG_POST_DOWN"@]
            } else {
                Seq::<Seq<char>>::empty()
            }),
    {
        let mut r: Vec<String> = Vec::new();
        if matches!(self.wg_pre_up, Some(_)) {
            r.push(String::from_str("WG_PRE_UP"));
        }
        if matches!(self.wg_post_up, Some(_)) {
            r.push(String::from_str("WG_POST_UP"));
        }
        if matches!(self.wg_pre_down, Some(_)) {
            r.push(String::from_str("WG_PRE_DOWN"));
        }
        if matches!(self.wg_post_down, Some(_)) {
            r.push(String::from_str("WG_POST_DOWN"));
        }
        proof {
            assert(crate::text::views_of(r@) =~~= (if self.wg_pre_up is Some {
                seq!["WG_PRE_UP"@]
            } else {
                Seq::<Seq<char>>::empty()
            }) + (if self.wg_post_up is Some {
                seq!["WG_POST_UP"@]
            } else {
                Seq::<Seq<char>>::empty()
            }) + (if self.wg_pre_down is Some {
                seq!["WG_PRE_DOWN"@]
            } else {
                Seq::<Seq<char>>::empty()
            }) + (if self.wg_post_down is Some {
                seq!["WG_POST_DOWN"@]
            } else {
                Seq::<Seq<char>>::empty()
            }));
        }
        r
    }
}

/// The given value, or the default when absent.
fn or_default(v: Option<String>, default: &str) -> (r: String)
    ensures
        r@ == (match v {
            Some(s) => s@,
            None => default@,
        }),
{
    match v {
        Some(s) => s,
        None => String::from_str(default),
    }
}

/// What the configuration endpoint reports.
pub struct ConfigResponse {
    pub wg_host: String,
    pub wg_port: u16,
    pub wg_default_dns: String,
    pub wg_allowed_ips: String,
    pub wg_default_address: String,
}

/// A request to change the stored settings; absent fields stay.
pub struct UpdateConfigRequest {
    pub wg_default_dns: Option<String>,
    pub wg_allowed_ips: Option<String>,
}

/// The configuration report for a validated configuration.
pub fn config_response(c: &AppConfig) -> (r: ConfigResponse)
    ensures
        r.wg_host@ == c.wg_host@,
        r.wg_port == c.wg_port,
        r.wg_default_dns@ == c.wg_default_dns@,
        r.wg_allowed_ips@ == c.wg_allowed_ips@,
        r.wg_default_address@ == c.wg_default_address@,
{
    ConfigResponse {
        wg_host: c.wg_host.clone(),
        wg_port: c.wg_port,
        wg_default_dns: c.wg_default_dns.clone(),
        wg_allowed_ips: c.wg_allowed_ips.clone(),
        wg_default_address: c.wg_default_address.clone(),
    }
}

} // verus!
