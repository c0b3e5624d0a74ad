use vstd::prelude::*;

use crate::connection::{app_config_bool, cfg_flag};
use crate::json::{as_u64, get, Json, JsonV};
use crate::text::{cat, contains, contains_str, decimal, decimal_u128, own, ascii_lower_seq, to_ascii_lowercase};

verus! {

/// LAN and loopback ranges kept off the system proxy on Windows.
pub const BYPASS_WINDOWS: &'static str = "<local>;localhost;127.*;10.*;172.16.*;172.17.*;172.18.*;\
    172.19.*;172.20.*;172.21.*;172.22.*;172.23.*;172.24.*;172.25.*;172.26.*;172.27.*;172.28.*;\
    172.29.*;172.30.*;172.31.*;192.168.*";

/// LAN and loopback ranges kept off the system proxy elsewhere.
pub const BYPASS_UNIX: &'static str = "localhost,127.0.0.0/8,::1,10.0.0.0/8,172.16.0.0/12,192.168.0.0/16";

/// The port the proxy listens on when the core's config names none.
pub const DEFAULT_MIXED_PORT: u16 = 7890;

/// The system proxy setting to write.
pub struct SysproxyRequest {
    pub enable: bool,
    pub host: String,
    pub port: u16,
    pub bypass: String,
    /// Whether dial-up and VPN connections get it too.
    pub affect_vpn: bool,
}

/// The request for a proxy `enable`d on the loopback host at `port`.
pub open spec fn request_matches(r: SysproxyRequest, enable: bool, port: u16, affect_vpn: bool, windows: bool) -> bool {
    &&& r.enable == enable
    &&& r.host@ == "127.0.0.1"@
    &&& r.port == port
    &&& r.bypass@ == (if windows {
        BYPASS_WINDOWS@
    } else {
        BYPASS_UNIX@
    })
    &&& r.affect_vpn == affect_vpn
}

/// The system proxy request on the loopback host.
pub fn proxy_request(enable: bool, port: u16, affect_vpn: bool, windows: bool) -> (r: SysproxyRequest)
    ensures
        request_matches(r, enable, port, affect_vpn, windows),
{
    SysproxyRequest {
        enable,
        host: own("127.0.0.1"),
        port,
        bypass: own(if windows {
            BYPASS_WINDOWS
        } else {
            BYPASS_UNIX
        }),
        affect_vpn,
    }
}

/// The core's mixed port from its running config (cut to 16 bits), else 7890.
pub open spec fn mixed_port_v(runtime_config: Option<JsonV>) -> u16 {
    match runtime_config {
        Some(c) => match as_u64(get(c, "mixed-port"@)) {
            Some(p) => (p % 0x1_0000) as u16,
            None => DEFAULT_MIXED_PORT,
        },
        None => DEFAULT_MIXED_PORT,
    }
}

/// The core's mixed port, read from its running config when that could be
/// fetched.
pub fn mixed_port(runtime_config: Option<&Json>) -> (r: u16)
    ensures
        r == mixed_port_v(
            match runtime_config {
                Some(c) => Some(c@),
                None => None,
            },
        ),
{
    match runtime_config {
        Some(c) => match c.get("mixed-port") {
            Some(v) => match v.as_u64() {
                Some(p) => (p % 0x1_0000) as u16,
                None => DEFAULT_MIXED_PORT,
            },
            None => DEFAULT_MIXED_PORT,
        },
        None => DEFAULT_MIXED_PORT,
    }
}

/// The system proxy to set for the toggle: on the core's mixed port when
/// enabled, port 0 when not.
pub fn apply(enable: bool, affect_vpn: bool, runtime_config: Option<&Json>, windows: bool) -> (r: SysproxyRequest)
    ensures
        request_matches(
            r,
            enable,
            if enable {
                mixed_port_v(
                    match runtime_config {
                        Some(c) => Some(c@),
                        None => None,
                    },
                )
            } else {
                0
            },
            affect_vpn,
            windows,
        ),
{
    let port = if enable {
        mixed_port(runtime_config)
    } else {
        0
    };
    proxy_request(enable, port, affect_vpn, windows)
}

/// The request that removes the system proxy, over the same scope it was set
/// (the app config's `affectVPNConnections`).
pub fn clear(app_config: &Json, windows: bool) -> (r: SysproxyRequest)
    ensures
        request_matches(r, false, 0, cfg_flag(app_config@, "affectVPNConnections"@), windows),
{
    let affect_vpn = app_config_bool(app_config, "affectVPNConnections");
    proxy_request(false, 0, affect_vpn, windows)
}

/// Whether a desktop (its `XDG_CURRENT_DESKTOP`) honours the proxy written:
/// the GNOME family and KDE do.
pub open spec fn honors_proxy_v(desktop: Option<Seq<char>>) -> bool {
    match desktop {
        Some(d) => {
            let l = ascii_lower_seq(d);
            contains(l, "gnome"@) || contains(l, "unity"@) || contains(l, "cinnamon"@) || contains(l, "mate"@)
                || contains(l, "budgie"@) || contains(l, "pop"@) || contains(l, "kde"@) || contains(l, "plasma"@)
        },
        None => false,
    }
}

/// Whether the session's desktop honours the system proxy.
pub fn session_honors_proxy(desktop: Option<&str>) -> (r: bool)
    ensures
        r == honors_proxy_v(
            match desktop {
                Some(d) => Some(d@),
                None => None,
            },
        ),
{
    match desktop {
        Some(d) => {
            let l = to_ascii_lowercase(d);
            let s = l.as_str();
            contains_str(s, "gnome") || contains_str(s, "unity") || contains_str(s, "cinnamon")
                || contains_str(s, "mate") || contains_str(s, "budgie") || contains_str(s, "pop")
                || contains_str(s, "kde") || contains_str(s, "plasma")
        },
        None => false,
    }
}

/// The environment names a session proxy is set under.
pub open spec fn env_names() -> Seq<Seq<char>> {
    seq!["http_proxy"@, "https_proxy"@, "HTTP_PROXY"@, "HTTPS_PROXY"@, "no_proxy"@, "NO_PROXY"@]
}

/// How the session environment changes with the proxy.
pub enum EnvProxyChange {
    /// `NAME=value` assignments to export.
    Export(Vec<String>),
    /// Names to unset.
    Unset(Vec<String>),
}

/// The proxy URL for `port` on the loopback host.
pub open spec fn proxy_url_v(port: u16) -> Seq<char> {
    "http://127.0.0.1:"@ + decimal(port as nat)
}

/// The environment change for the proxy: when enabled, the four proxy
/// variables set to the loopback URL and the two `no_proxy` ones to the
/// loopback names; when not, all six unset.
pub open spec fn env_change_ok(r: EnvProxyChange, enable: bool, port: u16) -> bool {
    match r {
        EnvProxyChange::Export(v) => enable && v@.map_values(|s: String| s@) == seq![
            "http_proxy="@ + proxy_url_v(port),
            "https_proxy="@ + proxy_url_v(port),
            "HTTP_PROXY="@ + proxy_url_v(port),
            "HTTPS_PROXY="@ + proxy_url_v(port),
            "no_proxy=localhost,127.0.0.1,::1"@,
            "NO_PROXY=localhost,127.0.0.1,::1"@,
        ],
        EnvProxyChange::Unset(v) => !enable && v@.map_values(|s: String| s@) == env_names(),
    }
}

/// The session environment change for the proxy (Linux).
pub fn env_proxy_change(enable: bool, port: u16) -> (r: EnvProxyChange)
    ensures
        env_change_ok(r, enable, port),
{
    if enable {
        let url = cat("http://127.0.0.1:", decimal_u128(port as u128).as_str());
        proof {
            reveal_strlit("http://127.0.0.1:");
        }
        let v = vec![
            cat("http_proxy=", url.as_str()),
            cat("https_proxy=", url.as_str()),
            cat("HTTP_PROXY=", url.as_str()),
            cat("HTTPS_PROXY=", url.as_str()),
            own("no_proxy=localhost,127.0.0.1,::1"),
            own("NO_PROXY=localhost,127.0.0.1,::1"),
        ];
        assert(v@.map_values(|s: String| s@) =~= seq![
            "http_proxy="@ + proxy_url_v(port),
            "https_proxy="@ + proxy_url_v(port),
            "HTTP_PROXY="@ + proxy_url_v(port),
            "HTTPS_PROXY="@ + proxy_url_v(port),
            "no_proxy=localhost,127.0.0.1,::1"@,
            "NO_PROXY=localhost,127.0.0.1,::1"@,
        ]);
        EnvProxyChange::Export(v)
    } else {
        let v = vec![
            own("http_proxy"),
            own("https_proxy"),
            own("HTTP_PROXY"),
            own("HTTPS_PROXY"),
            own("no_proxy"),
            own("NO_PROXY"),
        ];
        assert(v@.map_values(|s: String| s@) =~= env_names());
        EnvProxyChange::Unset(v)
    }
}

} // verus!
