//! Addresses of the configuration web endpoint, as reported to observers and
//! to the provisioning peer.

use vstd::prelude::*;
use vstd::string::StringExecFns;

use crate::text::{decimal_text, int_text};

verus! {

/// An IPv4 address in dotted decimal form.
pub open spec fn ipv4_text(a: (u8, u8, u8, u8)) -> Seq<char> {
    decimal_text(a.0 as int) + "."@ + decimal_text(a.1 as int) + "."@ + decimal_text(a.2 as int)
        + "."@ + decimal_text(a.3 as int)
}

/// `https://` or `http://`.
pub open spec fn scheme(https: bool) -> Seq<char> {
    if https {
        "https://"@
    } else {
        "http://"@
    }
}

/// Nothing for the default ports 80 and 443, else `:` and the port.
pub open spec fn port_suffix(port: u16) -> Seq<char> {
    if port == 80 || port == 443 {
        Seq::<char>::empty()
    } else {
        ":"@ + decimal_text(port as int)
    }
}

/// The URL sent to the provisioning peer once the station has an address.
pub open spec fn redirect_url(https: bool, a: (u8, u8, u8, u8)) -> Seq<char> {
    scheme(https) + ipv4_text(a)
}

/// What observers are told when there is no station address.
pub open spec fn not_connected_text() -> Seq<char> {
    "N/A - WiFi not connected"@
}

/// The address URL and, where there is one, the name URL of the
/// configuration endpoint.
pub open spec fn webapp_urls_spec(
    https: bool,
    port: u16,
    mdns: bool,
    device_name: Option<Seq<char>>,
    ip: Option<(u8, u8, u8, u8)>,
    captive: bool,
) -> (Seq<char>, Option<Seq<char>>) {
    match ip {
        None => (not_connected_text(), None),
        Some(a) => (
            scheme(https) + ipv4_text(a) + port_suffix(port),
            if captive {
                Some(scheme(https) + "config"@ + port_suffix(port))
            } else if mdns && device_name is Some {
                Some(scheme(https) + device_name->0 + ".local"@ + port_suffix(port))
            } else {
                None
            },
        ),
    }
}

/// Dotted decimal text of an IPv4 address.
pub fn ipv4_string(a: (u8, u8, u8, u8)) -> (r: String)
    ensures
        r@ == ipv4_text(a),
{
    let mut s = int_text(a.0 as i32);
    s.append(".");
    s.append(int_text(a.1 as i32).as_str());
    s.append(".");
    s.append(int_text(a.2 as i32).as_str());
    s.append(".");
    s.append(int_text(a.3 as i32).as_str());
    proof {
        reveal_strlit(".");
    }
    s
}

fn scheme_string(https: bool) -> (r: String)
    ensures
        r@ == scheme(https),
{
    if https {
        "https://".to_owned()
    } else {
        "http://".to_owned()
    }
}

fn port_suffix_string(port: u16) -> (r: String)
    ensures
        r@ == port_suffix(port),
{
    if port == 80 || port == 443 {
        String::new()
    } else {
        let mut s = ":".to_owned();
        s.append(int_text(port as i32).as_str());
        s
    }
}

/// The URL sent to the provisioning peer once the station has an address.
pub fn redirect_url_string(https: bool, a: (u8, u8, u8, u8)) -> (r: String)
    ensures
        r@ == redirect_url(https, a),
{
    let mut s = scheme_string(https);
    s.append(ipv4_string(a).as_str());
    s
}

/// The URLs that observers are given for the configuration endpoint: by
/// address, and by name where the portal is captive (`config`) or the
/// device has a name announced over mDNS (`<name>.local`).
pub fn webapp_urls(
    https: bool,
    port: u16,
    mdns: bool,
    device_name: Option<&str>,
    ip: Option<(u8, u8, u8, u8)>,
    captive: bool,
) -> (r: (String, Option<String>))
    ensures
        ({
            let want = webapp_urls_spec(
                https,
                port,
                mdns,
                match device_name {
                    Some(n) => Some(n@),
                    None => None,
                },
                ip,
                captive,
            );
            &&& r.0@ == want.0
            &&& r.1 is Some <==> want.1 is Some
            &&& r.1 matches Some(u) ==> u@ == want.1->0
        }),
{
    match ip {
        None => ("N/A - WiFi not connected".to_owned(), None),
        Some(a) => {
            let prefix = scheme_string(https);
            let port_text = port_suffix_string(port);
            let mut ip_url = prefix.clone();
            ip_url.append(ipv4_string(a).as_str());
            ip_url.append(port_text.as_str());
            let name_url = if captive {
                let mut u = prefix.clone();
                u.append("config");
                u.append(port_text.as_str());
                Some(u)
            } else {
                match device_name {
                    Some(name) => if mdns {
                        let mut u = prefix.clone();
                        u.append(name);
                        u.append(".local");
                        u.append(port_text.as_str());
                        Some(u)
                    } else {
                        None
                    },
                    None => None,
                }
            };
            (ip_url, name_url)
        },
    }
}

} // verus!
