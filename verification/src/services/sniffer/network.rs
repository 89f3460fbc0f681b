//! Choosing the network interface to capture on, and the traffic watchdog.

use crate::text::{contains_text, has_substring, lower_text, lowercase_text, same_text};
use vstd::prelude::*;

verus! {

/// The adapter-name keywords of virtual adapters and VPNs that are skipped.
pub open spec fn adapter_keywords() -> Seq<Seq<char>> {
    seq![
        "Loopback"@,
        "vEthernet"@,
        "TAP"@,
        "Tailscale"@,
        "WireGuard"@,
        "OpenVPN"@,
        "Radmin"@,
        "Hamachi"@,
        "ZeroTier"@,
        "VMware"@,
        "VirtualBox"@,
        "WSL"@,
        "Npcap"@,
    ]
}

/// The `i`-th skipped keyword.
fn adapter_keyword(i: usize) -> (r: &'static str)
    requires
        i < 13,
    ensures
        r@ == adapter_keywords()[i as int],
{
    match i {
        0 => "Loopback",
        1 => "vEthernet",
        2 => "TAP",
        3 => "Tailscale",
        4 => "WireGuard",
        5 => "OpenVPN",
        6 => "Radmin",
        7 => "Hamachi",
        8 => "ZeroTier",
        9 => "VMware",
        10 => "VirtualBox",
        11 => "WSL",
        _ => "Npcap",
    }
}

/// Whether an adapter's name, lower-cased, holds a skipped keyword (lower-cased).
pub open spec fn blocked_adapter(name: Seq<char>) -> bool {
    exists|k: int| 0 <= k < 13 && has_substring(lower_text(name), lower_text(#[trigger] adapter_keywords()[k]))
}

/// Whether an adapter name, lower-cased, holds none of the keywords of
/// virtual adapters and VPNs, each lower-cased: Loopback, vEthernet, TAP,
/// Tailscale, WireGuard, OpenVPN, Radmin, Hamachi, ZeroTier, VMware,
/// VirtualBox, WSL, Npcap.
pub open spec fn names_no_virtual_keyword(name: Seq<char>) -> bool {
    let n = lower_text(name);
    &&& !has_substring(n, lower_text("Loopback"@))
    &&& !has_substring(n, lower_text("vEthernet"@))
    &&& !has_substring(n, lower_text("TAP"@))
    &&& !has_substring(n, lower_text("Tailscale"@))
    &&& !has_substring(n, lower_text("WireGuard"@))
    &&& !has_substring(n, lower_text("OpenVPN"@))
    &&& !has_substring(n, lower_text("Radmin"@))
    &&& !has_substring(n, lower_text("Hamachi"@))
    &&& !has_substring(n, lower_text("ZeroTier"@))
    &&& !has_substring(n, lower_text("VMware"@))
    &&& !has_substring(n, lower_text("VirtualBox"@))
    &&& !has_substring(n, lower_text("WSL"@))
    &&& !has_substring(n, lower_text("Npcap"@))
}

/// The interface chosen is never a virtual adapter or VPN: it is the address
/// of a listed adapter whose name holds none of their keywords
/// ([`names_no_virtual_keyword`]) and whose address is neither loopback
/// (127/8) nor link-local (169.254/16); every adapter listed before it is
/// one of those skipped.
pub proof fn law_virtual_adapters_skipped(ifs: Seq<(Seq<char>, Option<[u8; 4]>)>)
    ensures
        first_game_interface(ifs) matches Some(ip) ==> exists|i: int|
            0 <= i < ifs.len() && #[trigger] ifs[i].1 == Some(ip) && ip[0] != 127 && !(ip[0] == 169 && ip[1] == 254)
                && names_no_virtual_keyword(ifs[i].0) && forall|j: int| 0 <= j < i ==> !game_interface(#[trigger] ifs[j]),
    decreases ifs.len(),
{
    if ifs.len() > 0 {
        if game_interface(ifs[0]) {
            let n = ifs[0].0;
            assert(!blocked_adapter(n));
            assert forall|k: int| 0 <= k < 13 implies !has_substring(lower_text(n), lower_text(#[trigger] adapter_keywords()[k])) by {}
            assert(adapter_keywords()[0] == "Loopback"@ && adapter_keywords()[6] == "Radmin"@);
            assert(names_no_virtual_keyword(n)) by {
                assert(!has_substring(lower_text(n), lower_text(adapter_keywords()[0])));
                assert(!has_substring(lower_text(n), lower_text(adapter_keywords()[1])));
                assert(!has_substring(lower_text(n), lower_text(adapter_keywords()[2])));
                assert(!has_substring(lower_text(n), lower_text(adapter_keywords()[3])));
                assert(!has_substring(lower_text(n), lower_text(adapter_keywords()[4])));
                assert(!has_substring(lower_text(n), lower_text(adapter_keywords()[5])));
                assert(!has_substring(lower_text(n), lower_text(adapter_keywords()[6])));
                assert(!has_substring(lower_text(n), lower_text(adapter_keywords()[7])));
                assert(!has_substring(lower_text(n), lower_text(adapter_keywords()[8])));
                assert(!has_substring(lower_text(n), lower_text(adapter_keywords()[9])));
                assert(!has_substring(lower_text(n), lower_text(adapter_keywords()[10])));
                assert(!has_substring(lower_text(n), lower_text(adapter_keywords()[11])));
                assert(!has_substring(lower_text(n), lower_text(adapter_keywords()[12])));
            }
            assert(ifs[0].1 is Some);
        } else {
            law_virtual_adapters_skipped(ifs.drop_first());
            if let Some(ip) = first_game_interface(ifs) {
                let r = ifs.drop_first();
                let i = choose|i: int|
                    0 <= i < r.len() && #[trigger] r[i].1 == Some(ip) && ip[0] != 127 && !(ip[0] == 169 && ip[1] == 254)
                        && names_no_virtual_keyword(r[i].0) && forall|j: int| 0 <= j < i ==> !game_interface(#[trigger] r[j]);
                assert(ifs[i + 1] == r[i]);
                assert forall|j: int| 0 <= j < i + 1 implies !game_interface(#[trigger] ifs[j]) by {
                    if j > 0 {
                        assert(ifs[j] == r[j - 1]);
                    }
                }
            }
        }
    }
}

/// Whether an IPv4 address is neither loopback (127/8) nor link-local (169.254/16).
pub open spec fn usable_ipv4(ip: [u8; 4]) -> bool {
    ip[0] != 127 && !(ip[0] == 169 && ip[1] == 254)
}

/// Whether an (adapter name, IPv4 address) entry is one to capture on.
pub open spec fn game_interface(e: (Seq<char>, Option<[u8; 4]>)) -> bool {
    !blocked_adapter(e.0) && match e.1 {
        Some(ip) => usable_ipv4(ip),
        None => false,
    }
}

/// The address of the first entry to capture on, if any.
pub open spec fn first_game_interface(ifs: Seq<(Seq<char>, Option<[u8; 4]>)>) -> Option<[u8; 4]>
    decreases ifs.len(),
{
    if ifs.len() == 0 {
        None
    } else if game_interface(ifs[0]) {
        ifs[0].1
    } else {
        first_game_interface(ifs.drop_first())
    }
}

/// The abstract value of the listed interfaces.
pub open spec fn interfaces_view(ifs: Seq<(String, Option<[u8; 4]>)>) -> Seq<(Seq<char>, Option<[u8; 4]>)> {
    ifs.map_values(|e: (String, Option<[u8; 4]>)| (e.0@, e.1))
}

/// Whether an adapter is a virtual adapter or VPN to skip.
fn is_blocked_adapter(name: &str) -> (r: bool)
    ensures
        r == blocked_adapter(name@),
{
    let lower = lowercase_text(name);
    let mut k: usize = 0;
    while k < 13
        invariant
            lower@ == lower_text(name@),
            k <= 13,
            forall|j: int| 0 <= j < k ==> !has_substring(lower@, lower_text(#[trigger] adapter_keywords()[j])),
        decreases 13 - k,
    {
        let kw = lowercase_text(adapter_keyword(k));
        if contains_text(lower.as_str(), kw.as_str()) {
            return true;
        }
        k += 1;
    }
    false
}

/// Picks the interface to capture game traffic on: the first IPv4 adapter,
/// in the order listed, that is not a virtual adapter or VPN and whose
/// address is neither loopback nor link-local. Entries are (adapter name,
/// IPv4 address, `None` for other addresses).
pub fn find_game_interface_ip(interfaces: &Vec<(String, Option<[u8; 4]>)>) -> (r: Option<[u8; 4]>)
    ensures
        r == first_game_interface(interfaces_view(interfaces@)),
{
    let ghost v = interfaces_view(interfaces@);
    let mut i: usize = 0;
    assert(v.skip(0) =~= v);
    while i < interfaces.len()
        invariant
            v == interfaces_view(interfaces@),
            i <= interfaces@.len(),
            first_game_interface(v) == first_game_interface(v.skip(i as int)),
        decreases interfaces@.len() - i,
    {
        let ghost rest = v.skip(i as int);
        assert(rest[0] == v[i as int]);
        assert(rest.drop_first() =~= v.skip(i + 1));
        if !is_blocked_adapter(interfaces[i].0.as_str()) {
            match interfaces[i].1 {
                Some(ip) => {
                    if ip[0] != 127 && !(ip[0] == 169 && ip[1] == 254) {
                        return Some(ip);
                    }
                },
                None => {},
            }
        }
        i += 1;
    }
    None
}

/// The watchdog warns after this many seconds without game traffic.
pub const TRAFFIC_TIMEOUT_SECS: u64 = 15;

/// Whether the game traffic has stalled: traffic was seen (`last_secs` is
/// not zero) and more than [`TRAFFIC_TIMEOUT_SECS`] passed since.
pub fn traffic_stalled(now_secs: u64, last_secs: u64) -> (r: bool)
    ensures
        r == (last_secs != 0 && now_secs > last_secs && now_secs - last_secs > TRAFFIC_TIMEOUT_SECS),
{
    last_secs != 0 && now_secs.saturating_sub(last_secs) > TRAFFIC_TIMEOUT_SECS
}

/// Where the capture socket binds.
#[derive(Clone, Copy, Debug)]
pub enum LocalIpChoice {
    /// The interface the user selected.
    Manual([u8; 4]),
    /// The selection was not an IPv4 address: detection, or loopback when
    /// nothing was detected.
    InvalidManualFallback([u8; 4]),
    /// The detected interface.
    Auto([u8; 4]),
    /// Nothing selected and nothing detected: capture cannot start.
    NotFound,
}

/// Chooses the capture address from the user's selection (`manual`, empty
/// for automatic; `manual_ip` its parse as IPv4) and the detected interface.
pub fn choose_local_ip(manual: &str, manual_ip: Option<[u8; 4]>, detected: Option<[u8; 4]>) -> (r: LocalIpChoice)
    ensures
        manual@.len() > 0 && manual_ip is Some ==> r == LocalIpChoice::Manual(manual_ip->0),
        manual@.len() > 0 && manual_ip is None ==> r == LocalIpChoice::InvalidManualFallback(
            match detected {
                Some(ip) => ip,
                None => [127u8, 0u8, 0u8, 1u8],
            },
        ),
        manual@.len() == 0 ==> r == match detected {
            Some(ip) => LocalIpChoice::Auto(ip),
            None => LocalIpChoice::NotFound,
        },
{
    if !manual.is_empty() {
        match manual_ip {
            Some(ip) => LocalIpChoice::Manual(ip),
            None => LocalIpChoice::InvalidManualFallback(
                match detected {
                    Some(ip) => ip,
                    None => [127u8, 0u8, 0u8, 1u8],
                },
            ),
        }
    } else {
        match detected {
            Some(ip) => LocalIpChoice::Auto(ip),
            None => LocalIpChoice::NotFound,
        }
    }
}

/// Whether the configured log level lists every interface at start-up
/// ("debug" or "info", in any case).
pub fn lists_interfaces(log_level: &str) -> (r: bool)
    ensures
        r == (lower_text(log_level@) == "debug"@ || lower_text(log_level@) == "info"@),
{
    let l = lowercase_text(log_level);
    same_text(l.as_str(), "debug") || same_text(l.as_str(), "info")
}

} // verus!
