//! IP allowlisting: which client addresses may reach the node.

use vstd::prelude::*;
use crate::text::{chars_of, contains, owned, split, split_on, str_eq, string_of, string_views, trim, trim_chars};
use core::str::FromStr;
use vstd::arithmetic::power2::{lemma2_to64, pow2};
use vstd::bits::{lemma_u128_shr_is_div, lemma_u32_shr_is_div};

verus! {

/// An IP address: IPv4 as a 32-bit number, IPv6 as a 128-bit number.
#[derive(Debug, Clone, Copy, PartialEq, Eq, Structural)]
pub enum IpAddress {
    V4(u32),
    V6(u128),
}

impl IpAddress {
    /// The IPv4 address `a.b.c.d`.
    pub fn v4(a: u8, b: u8, c: u8, d: u8) -> (r: IpAddress)
        ensures
            r == IpAddress::V4(
                ((a as u32) * 0x100_0000 + (b as u32) * 0x1_0000 + (c as u32) * 0x100 + (d as u32)) as u32,
            ),
    {
        IpAddress::V4((a as u32) * 0x100_0000 + (b as u32) * 0x1_0000 + (c as u32) * 0x100 + (d as u32))
    }
}

/// An IP network: an address and how many leading bits of it are fixed.
#[derive(Debug, Clone, Copy, PartialEq, Eq, Structural)]
pub enum IpNet {
    V4 { addr: u32, prefix: u8 },
    V6 { addr: u128, prefix: u8 },
}

/// The network that `ipnetwork` reads from `s` (CIDR notation, a netmask,
/// or a bare address), or `None` when it reads none.
pub uninterp spec fn network_of(s: Seq<char>) -> Option<IpNet>;

/// `IpNetwork::from_str`: its result, as plain values, is named
/// `network_of`. Its prefix is at most the address width, which ipnetwork's
/// constructors enforce.
#[verifier::external_body]
fn parse_network(s: &str) -> (r: Option<IpNet>)
    ensures
        r == network_of(s@),
        r matches Some(IpNet::V4 { prefix, .. }) ==> prefix <= 32,
        r matches Some(IpNet::V6 { prefix, .. }) ==> prefix <= 128,
{
    match ipnetwork::IpNetwork::from_str(s) {
        Ok(ipnetwork::IpNetwork::V4(n)) => Some(IpNet::V4 { addr: u32::from(n.ip()), prefix: n.prefix() }),
        Ok(ipnetwork::IpNetwork::V6(n)) => Some(IpNet::V6 { addr: u128::from(n.ip()), prefix: n.prefix() }),
        Err(_) => None,
    }
}

/// The mask of the first `prefix` bits of an IPv4 address.
pub open spec fn mask_v4(prefix: u8) -> u32 {
    if prefix >= 32 {
        0xffff_ffffu32
    } else {
        !(0xffff_ffffu32 >> prefix)
    }
}

/// The mask of the first `prefix` bits of an IPv6 address.
pub open spec fn mask_v6(prefix: u8) -> u128 {
    if prefix >= 128 {
        0xffff_ffff_ffff_ffff_ffff_ffff_ffff_ffffu128
    } else {
        !(0xffff_ffff_ffff_ffff_ffff_ffff_ffff_ffffu128 >> prefix)
    }
}

/// `ip` lies in `net`: same family, and the network's fixed bits agree.
pub open spec fn net_contains(net: IpNet, ip: IpAddress) -> bool {
    match (net, ip) {
        (IpNet::V4 { addr, prefix }, IpAddress::V4(a)) => a & mask_v4(prefix) == addr & mask_v4(prefix),
        (IpNet::V6 { addr, prefix }, IpAddress::V6(a)) => a & mask_v6(prefix) == addr & mask_v6(prefix),
        _ => false,
    }
}

impl IpNet {
    /// Whether `ip` lies in the network (what `IpNetwork::contains` computes).
    pub fn contains(&self, ip: IpAddress) -> (r: bool)
        ensures
            r == net_contains(*self, ip),
    {
        match (*self, ip) {
            (IpNet::V4 { addr, prefix }, IpAddress::V4(a)) => {
                let mask: u32 = if prefix >= 32 {
                    0xffff_ffffu32
                } else {
                    !(0xffff_ffffu32 >> prefix)
                };
                a & mask == addr & mask
            },
            (IpNet::V6 { addr, prefix }, IpAddress::V6(a)) => {
                let mask: u128 = if prefix >= 128 {
                    0xffff_ffff_ffff_ffff_ffff_ffff_ffff_ffffu128
                } else {
                    !(0xffff_ffff_ffff_ffff_ffff_ffff_ffff_ffffu128 >> prefix)
                };
                a & mask == addr & mask
            },
            _ => false,
        }
    }
}

/// The address written in `s`: a network without `/` is a plain address.
pub open spec fn address_of(s: Seq<char>) -> Option<IpAddress> {
    if s.contains('/') {
        None
    } else {
        match network_of(s) {
            Some(IpNet::V4 { addr, .. }) => Some(IpAddress::V4(addr)),
            Some(IpNet::V6 { addr, .. }) => Some(IpAddress::V6(addr)),
            None => None,
        }
    }
}

/// The address written in `s`, if `s` holds one.
pub fn parse_address(s: &str) -> (r: Option<IpAddress>)
    ensures
        r == address_of(s@),
{
    let v = chars_of(s);
    let mut i: usize = 0;
    while i < v.len()
        invariant
            i <= v@.len(),
            v@ == s@,
            forall|k: int| 0 <= k < i ==> v@[k] != '/',
        decreases v@.len() - i,
    {
        if v[i] == '/' {
            assert(s@[i as int] == '/');
            return None;
        }
        i += 1;
    }
    match parse_network(s) {
        Some(IpNet::V4 { addr, .. }) => Some(IpAddress::V4(addr)),
        Some(IpNet::V6 { addr, .. }) => Some(IpAddress::V6(addr)),
        None => None,
    }
}

/// Why an allowlist operation failed.
#[derive(Debug, Clone, PartialEq, Eq)]
pub enum SecurityError {
    /// An entry that does not read as an IP network.
    InvalidNetwork(String),
}

/// Who may connect.
#[derive(Debug)]
pub struct IpAllowlist {
    /// Allowed networks in CIDR notation; empty allows everyone.
    pub allowed_ips: Vec<String>,
    /// Refuse Tor exit nodes.
    pub block_tor: bool,
    /// Refuse VPN connections.
    pub block_vpn: bool,
    /// Allowed countries (ISO 3166-1 alpha-2); empty allows all.
    pub allowed_countries: Vec<String>,
    /// Trust the proxy header for the client address.
    pub trust_proxy: bool,
    /// The proxy header to read.
    pub proxy_header: String,
}

/// The header read for the client address behind a proxy.
pub fn default_proxy_header() -> (r: String)
    ensures
        r@ == "X-Real-IP"@,
{
    owned("X-Real-IP")
}

impl Default for IpAllowlist {
    /// Everyone allowed, Tor blocked, proxy headers not trusted.
    fn default() -> (r: IpAllowlist)
        ensures
            r.allowed_ips@.len() == 0,
            r.block_tor,
            !r.block_vpn,
            r.allowed_countries@.len() == 0,
            !r.trust_proxy,
            r.proxy_header@ == "X-Real-IP"@,
    {
        IpAllowlist {
            allowed_ips: Vec::new(),
            block_tor: true,
            block_vpn: false,
            allowed_countries: Vec::new(),
            trust_proxy: false,
            proxy_header: default_proxy_header(),
        }
    }
}

/// Checking `ip` against the entries `nets` in order: allowed at the first
/// network that holds it, refused at the first entry that is no network.
pub open spec fn check_entries(nets: Seq<Seq<char>>, ip: IpAddress) -> Result<bool, Seq<char>>
    decreases nets.len(),
{
    if nets.len() == 0 {
        Ok(false)
    } else {
        match network_of(nets[0]) {
            None => Err(nets[0]),
            Some(n) => if net_contains(n, ip) {
                Ok(true)
            } else {
                check_entries(nets.drop_first(), ip)
            },
        }
    }
}

/// Whether `ip` may connect: always when the list is empty, else as `check_entries` says.
pub open spec fn allowed(nets: Seq<Seq<char>>, ip: IpAddress) -> Result<bool, Seq<char>> {
    if nets.len() == 0 {
        Ok(true)
    } else {
        check_entries(nets, ip)
    }
}

/// The entries other than `network`, in order.
pub open spec fn without(nets: Seq<Seq<char>>, network: Seq<char>) -> Seq<Seq<char>>
    decreases nets.len(),
{
    if nets.len() == 0 {
        Seq::empty()
    } else {
        let rest = without(nets.drop_last(), network);
        if nets.last() == network {
            rest
        } else {
            rest.push(nets.last())
        }
    }
}

/// Removing a network from the allowlist removes every copy of it and
/// keeps every other entry.
pub proof fn lemma_without_len(nets: Seq<Seq<char>>, network: Seq<char>)
    ensures
        without(nets, network).len() <= nets.len(),
        without(nets, network).len() < nets.len() <==> nets.contains(network),
        !without(nets, network).contains(network),
        forall|x: Seq<char>| x != network ==> (#[trigger] without(nets, network).contains(x) <==> nets.contains(x)),
    decreases nets.len(),
{
    if nets.len() > 0 {
        let d = nets.drop_last();
        lemma_without_len(d, network);
        assert forall|x: Seq<char>| #[trigger] nets.contains(x) <==> d.contains(x) || x == nets.last() by {
            if nets.contains(x) {
                let i = choose|i: int| 0 <= i < nets.len() && nets[i] == x;
                if i < d.len() {
                    assert(d[i] == x);
                }
            }
            if d.contains(x) {
                let i = choose|i: int| 0 <= i < d.len() && d[i] == x;
                assert(nets[i] == x);
            }
            if x == nets.last() {
                assert(nets[nets.len() - 1] == x);
            }
        }
        let rest = without(d, network);
        if nets.last() != network {
            assert forall|x: Seq<char>| #[trigger] rest.push(nets.last()).contains(x) <==> rest.contains(x) || x
                == nets.last() by {
                if rest.push(nets.last()).contains(x) {
                    let i = choose|i: int| 0 <= i < rest.push(nets.last()).len() && rest.push(nets.last())[i] == x;
                    if i < rest.len() {
                        assert(rest[i] == x);
                    }
                }
                if rest.contains(x) {
                    let i = choose|i: int| 0 <= i < rest.len() && rest[i] == x;
                    assert(rest.push(nets.last())[i] == x);
                }
                if x == nets.last() {
                    assert(rest.push(nets.last())[rest.len() as int] == x);
                }
            }
        }
    }
}

impl IpAllowlist {
    /// Whether `ip` may connect; an entry that is no network is an error.
    pub fn is_allowed(&self, ip: IpAddress) -> (r: Result<bool, SecurityError>)
        ensures
            match r {
                Ok(b) => allowed(string_views(self.allowed_ips@), ip) == Ok::<bool, Seq<char>>(b),
                Err(SecurityError::InvalidNetwork(n)) => allowed(string_views(self.allowed_ips@), ip)
                    == Err::<bool, Seq<char>>(n@),
            },
    {
        if self.allowed_ips.len() == 0 {
            return Ok(true);
        }
        let ghost all = string_views(self.allowed_ips@);
        let mut i: usize = 0;
        assert(all.skip(0) =~= all);
        while i < self.allowed_ips.len()
            invariant
                i <= self.allowed_ips@.len(),
                all == string_views(self.allowed_ips@),
                all.len() > 0,
                check_entries(all.skip(i as int), ip) == check_entries(all, ip),
            decreases self.allowed_ips@.len() - i,
        {
            let ghost rest = all.skip(i as int);
            assert(rest[0] == self.allowed_ips@[i as int]@);
            assert(rest.drop_first() =~= all.skip(i + 1));
            match parse_network(self.allowed_ips[i].as_str()) {
                None => {
                    return Err(SecurityError::InvalidNetwork(self.allowed_ips[i].clone()));
                },
                Some(net) => {
                    if net.contains(ip) {
                        return Ok(true);
                    }
                },
            }
            i += 1;
        }
        assert(all.skip(i as int) =~= Seq::<Seq<char>>::empty());
        Ok(false)
    }

    /// Adds a network (once); an entry that is no network is refused.
    pub fn add_network(&mut self, network: String) -> (r: Result<(), SecurityError>)
        ensures
            r is Ok <==> network_of(network@) is Some,
            r is Err ==> r == Err::<(), SecurityError>(SecurityError::InvalidNetwork(network))
                && string_views(final(self).allowed_ips@) == string_views(old(self).allowed_ips@),
            r is Ok ==> string_views(final(self).allowed_ips@) == with_network(string_views(old(self).allowed_ips@), network@),
            final(self).block_tor == old(self).block_tor,
            final(self).block_vpn == old(self).block_vpn,
            final(self).allowed_countries@ == old(self).allowed_countries@,
            final(self).trust_proxy == old(self).trust_proxy,
            final(self).proxy_header@ == old(self).proxy_header@,
    {
        if parse_network(network.as_str()).is_none() {
            return Err(SecurityError::InvalidNetwork(network));
        }
        let mut found = false;
        let mut i: usize = 0;
        while i < self.allowed_ips.len()
            invariant
                i <= self.allowed_ips@.len(),
                found <==> exists|k: int| 0 <= k < i && self.allowed_ips@[k]@ == network@,
            decreases self.allowed_ips@.len() - i,
        {
            if str_eq(self.allowed_ips[i].as_str(), network.as_str()) {
                found = true;
            }
            i += 1;
        }
        proof {
            let sv = string_views(self.allowed_ips@);
            if found {
                let k = choose|k: int| 0 <= k < i && self.allowed_ips@[k]@ == network@;
                assert(sv[k] == network@);
            } else {
                assert forall|k: int| 0 <= k < sv.len() implies sv[k] != network@ by {
                    assert(sv[k] == self.allowed_ips@[k]@);
                }
            }
        }
        if !found {
            let ghost before = self.allowed_ips@;
            let ghost nv = network@;
            self.allowed_ips.push(network);
            assert(string_views(self.allowed_ips@) =~= string_views(before).push(nv));
        }
        Ok(())
    }

    /// Removes every copy of `network`; whether there was one.
    pub fn remove_network(&mut self, network: &str) -> (r: bool)
        ensures
            string_views(final(self).allowed_ips@) == without(string_views(old(self).allowed_ips@), network@),
            r == string_views(old(self).allowed_ips@).contains(network@),
            final(self).block_tor == old(self).block_tor,
            final(self).block_vpn == old(self).block_vpn,
            final(self).allowed_countries@ == old(self).allowed_countries@,
            final(self).trust_proxy == old(self).trust_proxy,
            final(self).proxy_header@ == old(self).proxy_header@,
    {
        let ghost all = string_views(self.allowed_ips@);
        let initial_len = self.allowed_ips.len();
        let mut kept: Vec<String> = Vec::new();
        let mut i: usize = 0;
        while i < self.allowed_ips.len()
            invariant
                i <= self.allowed_ips@.len(),
                all == string_views(self.allowed_ips@),
                string_views(kept@) == without(all.take(i as int), network@),
            decreases self.allowed_ips@.len() - i,
        {
            proof {
                assert(all.take(i + 1).drop_last() == all.take(i as int));
                assert(all.take(i + 1).last() == self.allowed_ips@[i as int]@);
            }
            if !str_eq(self.allowed_ips[i].as_str(), network) {
                let ghost before = kept@;
                kept.push(self.allowed_ips[i].clone());
                assert(string_views(kept@) =~= string_views(before).push(self.allowed_ips@[i as int]@));
            }
            i += 1;
        }
        proof {
            assert(all.take(initial_len as int) == all);
            lemma_without_len(all, network@);
        }
        self.allowed_ips = kept;
        self.allowed_ips.len() < initial_len
    }

    /// Whether the list is empty, which allows everyone.
    pub fn is_empty(&self) -> (r: bool)
        ensures
            r == (self.allowed_ips@.len() == 0),
    {
        self.allowed_ips.len() == 0
    }
}

/// The client address: the peer, unless proxy headers are trusted and the
/// header's first comma-separated item, trimmed, is an address.
pub open spec fn real_ip(peer: IpAddress, header: Option<Seq<char>>, trust_proxy: bool) -> IpAddress {
    if !trust_proxy {
        peer
    } else {
        match header {
            Some(h) => match address_of(trim(split(h, ',')[0])) {
                Some(ip) => ip,
                None => peer,
            },
            None => peer,
        }
    }
}

/// The client address of a request (see `real_ip`).
pub fn extract_real_ip(peer_ip: IpAddress, proxy_header: Option<&str>, trust_proxy: bool) -> (r:
    IpAddress)
    ensures
        r == real_ip(
            peer_ip,
            match proxy_header {
                Some(h) => Some(h@),
                None => None,
            },
            trust_proxy,
        ),
{
    if !trust_proxy {
        return peer_ip;
    }
    match proxy_header {
        Some(h) => {
            let parts = split_on(&chars_of(h), ',');
            proof {
                crate::text::lemma_split_nonempty(h@, ',');
            }
            let first = string_of(&trim_chars(&parts[0]));
            match parse_address(first.as_str()) {
                Some(ip) => ip,
                None => peer_ip,
            }
        },
        None => peer_ip,
    }
}


/// The list after `network` is added: unchanged when it is already there,
/// else with the network at the end.
pub open spec fn with_network(nets: Seq<Seq<char>>, network: Seq<char>) -> Seq<Seq<char>> {
    if nets.contains(network) {
        nets
    } else {
        nets.push(network)
    }
}

/// Every entry names a network.
pub open spec fn all_networks(nets: Seq<Seq<char>>) -> bool {
    forall|i: int| 0 <= i < nets.len() ==> (#[trigger] network_of(nets[i])) is Some
}

/// The entry names a network that holds `ip`.
pub open spec fn entry_holds(entry: Seq<char>, ip: IpAddress) -> bool {
    match network_of(entry) {
        Some(n) => net_contains(n, ip),
        None => false,
    }
}

/// Some entry names a network that holds `ip`.
pub open spec fn some_network_holds(nets: Seq<Seq<char>>, ip: IpAddress) -> bool {
    exists|i: int| 0 <= i < nets.len() && #[trigger] entry_holds(nets[i], ip)
}

proof fn lemma_check_valid_entries(nets: Seq<Seq<char>>, ip: IpAddress)
    requires
        all_networks(nets),
    ensures
        check_entries(nets, ip) == Ok::<bool, Seq<char>>(some_network_holds(nets, ip)),
    decreases nets.len(),
{
    if nets.len() > 0 {
        let rest = nets.drop_first();
        assert forall|i: int| 0 <= i < rest.len() implies (#[trigger] network_of(rest[i])) is Some by {
            assert(rest[i] == nets[i + 1]);
        }
        lemma_check_valid_entries(rest, ip);
        assert(network_of(nets[0]) is Some);
        if entry_holds(nets[0], ip) {
            assert(some_network_holds(nets, ip));
        }
        if some_network_holds(rest, ip) {
            let i = choose|i: int| 0 <= i < rest.len() && #[trigger] entry_holds(rest[i], ip);
            assert(nets[i + 1] == rest[i]);
        }
        if some_network_holds(nets, ip) {
            let i = choose|i: int| 0 <= i < nets.len() && #[trigger] entry_holds(nets[i], ip);
            if i > 0 {
                assert(rest[i - 1] == nets[i]);
            }
        }
    }
}

/// With no entries, the allowlist lets every address in.
pub proof fn law_empty_allowlist_allows_all(ip: IpAddress)
    ensures
        allowed(Seq::empty(), ip) == Ok::<bool, Seq<char>>(true),
{
}

/// Once a network is added to an allowlist of networks, every address that
/// the network holds is allowed.
pub proof fn law_added_network_allows(nets: Seq<Seq<char>>, network: Seq<char>, ip: IpAddress)
    requires
        all_networks(nets),
        entry_holds(network, ip),
    ensures
        allowed(with_network(nets, network), ip) == Ok::<bool, Seq<char>>(true),
{
    let l = with_network(nets, network);
    assert forall|i: int| 0 <= i < l.len() implies (#[trigger] network_of(l[i])) is Some by {
        if i < nets.len() {
            assert(l[i] == nets[i]);
        }
    }
    lemma_check_valid_entries(l, ip);
    if nets.contains(network) {
        let i = choose|i: int| 0 <= i < nets.len() && nets[i] == network;
        assert(network_of(l[i]) == network_of(network));
    } else {
        assert(l[nets.len() as int] == network);
    }
}

/// An IPv4 address lies in the network `addr/prefix` exactly when its first
/// `prefix` bits equal those of `addr`, that is when both agree once divided
/// by two to the power of the remaining `32 - prefix` bits; for every prefix
/// from 0 to 32.
pub proof fn law_v4_network_holds_prefix_matches(addr: u32, prefix: u8, a: u32)
    requires
        prefix <= 32,
    ensures
        net_contains(IpNet::V4 { addr, prefix }, IpAddress::V4(a)) <==> (a as nat) / pow2(
            (32 - prefix) as nat,
        ) == (addr as nat) / pow2((32 - prefix) as nat),
{
    lemma2_to64();
    if prefix == 32 {
        assert(a & 0xffff_ffffu32 == a) by (bit_vector);
        assert(addr & 0xffff_ffffu32 == addr) by (bit_vector);
        assert(mask_v4(prefix) == 0xffff_ffffu32);
        assert(pow2(0) == 1);
        assert((a as nat) / pow2(0) == a as nat);
        assert((addr as nat) / pow2(0) == addr as nat);
        assert(net_contains(IpNet::V4 { addr, prefix }, IpAddress::V4(a)) <==> (a as nat) / pow2(
            (32 - prefix) as nat,
        ) == (addr as nat) / pow2((32 - prefix) as nat));
    } else if prefix == 0 {
        assert(0xffff_ffffu32 >> 0u8 == 0xffff_ffffu32) by (bit_vector);
        assert(!0xffff_ffffu32 == 0u32) by (bit_vector);
        assert(mask_v4(prefix) == 0u32);
        assert(a & 0u32 == 0u32) by (bit_vector);
        assert(addr & 0u32 == 0u32) by (bit_vector);
        assert(pow2(32) == 0x1_0000_0000nat);
        assert((a as nat) / 0x1_0000_0000nat == 0);
        assert((addr as nat) / 0x1_0000_0000nat == 0);
        assert((a as nat) / pow2(32) == (addr as nat) / pow2(32));
        assert(net_contains(IpNet::V4 { addr, prefix }, IpAddress::V4(a)) <==> (a as nat) / pow2(
            (32 - prefix) as nat,
        ) == (addr as nat) / pow2((32 - prefix) as nat));
    } else {
        let p: u32 = prefix as u32;
        let sh: u32 = (32 - p) as u32;
        let m = mask_v4(prefix);
        assert(0xffff_ffffu32 >> prefix == 0xffff_ffffu32 >> p) by (bit_vector)
            requires
                p == prefix as u32,
        ;
        assert(m == !(0xffff_ffffu32 >> p));
        lemma_v4_mask_shift(a, p, sh);
        lemma_v4_mask_shift(addr, p, sh);
        lemma_u32_shr_is_div(a, sh);
        lemma_u32_shr_is_div(addr, sh);
        assert(sh as nat == (32 - prefix) as nat);
        assert((a & m == addr & m) <==> (a >> sh == addr >> sh));
        assert((a >> sh == addr >> sh) <==> (a as nat) / pow2(sh as nat) == (addr as nat) / pow2(
            sh as nat,
        ));
    }
}

proof fn lemma_v4_mask_shift(x: u32, p: u32, sh: u32)
    requires
        0 < p < 32,
        sh == 32 - p,
    ensures
        (x & !(0xffff_ffffu32 >> p)) >> sh == x >> sh,
        x & !(0xffff_ffffu32 >> p) == (x >> sh) << sh,
{
    assert((x & !(0xffff_ffffu32 >> p)) >> sh == x >> sh) by (bit_vector)
        requires
            0 < p < 32,
            sh == 32 - p,
    ;
    assert(x & !(0xffff_ffffu32 >> p) == (x >> sh) << sh) by (bit_vector)
        requires
            0 < p < 32,
            sh == 32 - p,
    ;
}

/// An IPv6 address lies in the network `addr/prefix` exactly when its first
/// `prefix` bits equal those of `addr`, for every prefix from 0 to 128.
pub proof fn law_v6_network_holds_prefix_matches(addr: u128, prefix: u8, a: u128)
    requires
        prefix <= 128,
    ensures
        net_contains(IpNet::V6 { addr, prefix }, IpAddress::V6(a)) <==> (a as nat) / pow2(
            (128 - prefix) as nat,
        ) == (addr as nat) / pow2((128 - prefix) as nat),
{
    if prefix == 128 {
        assert(pow2(0) == 1) by {
            lemma2_to64();
        }
        assert(a & 0xffff_ffff_ffff_ffff_ffff_ffff_ffff_ffffu128 == a) by (bit_vector);
        assert(addr & 0xffff_ffff_ffff_ffff_ffff_ffff_ffff_ffffu128 == addr) by (bit_vector);
        assert(mask_v6(prefix) == 0xffff_ffff_ffff_ffff_ffff_ffff_ffff_ffffu128);
        assert((a as nat) / pow2(0) == a as nat);
        assert((addr as nat) / pow2(0) == addr as nat);
    } else if prefix == 0 {
        assert(0xffff_ffff_ffff_ffff_ffff_ffff_ffff_ffffu128 >> 0u8
            == 0xffff_ffff_ffff_ffff_ffff_ffff_ffff_ffffu128) by (bit_vector);
        assert(!0xffff_ffff_ffff_ffff_ffff_ffff_ffff_ffffu128 == 0u128) by (bit_vector);
        assert(mask_v6(prefix) == 0u128);
        assert(a & 0u128 == 0u128) by (bit_vector);
        assert(addr & 0u128 == 0u128) by (bit_vector);
        lemma_pow2_bound_u128(a);
        lemma_pow2_bound_u128(addr);
        assert((a as nat) / pow2(128) == (addr as nat) / pow2(128));
    } else {
        let p: u128 = prefix as u128;
        let sh: u128 = (128 - p) as u128;
        let m = mask_v6(prefix);
        assert(0xffff_ffff_ffff_ffff_ffff_ffff_ffff_ffffu128 >> prefix
            == 0xffff_ffff_ffff_ffff_ffff_ffff_ffff_ffffu128 >> p) by (bit_vector)
            requires
                p == prefix as u128,
        ;
        assert(m == !(0xffff_ffff_ffff_ffff_ffff_ffff_ffff_ffffu128 >> p));
        lemma_v6_mask_shift(a, p, sh);
        lemma_v6_mask_shift(addr, p, sh);
        lemma_u128_shr_is_div(a, sh);
        lemma_u128_shr_is_div(addr, sh);
        assert(sh as nat == (128 - prefix) as nat);
        assert((a & m == addr & m) <==> (a >> sh == addr >> sh));
        assert((a >> sh == addr >> sh) <==> (a as nat) / pow2(sh as nat) == (addr as nat) / pow2(
            sh as nat,
        ));
    }
}

proof fn lemma_v6_mask_shift(x: u128, p: u128, sh: u128)
    requires
        0 < p < 128,
        sh == 128 - p,
    ensures
        (x & !(0xffff_ffff_ffff_ffff_ffff_ffff_ffff_ffffu128 >> p)) >> sh == x >> sh,
        x & !(0xffff_ffff_ffff_ffff_ffff_ffff_ffff_ffffu128 >> p) == (x >> sh) << sh,
{
    assert((x & !(0xffff_ffff_ffff_ffff_ffff_ffff_ffff_ffffu128 >> p)) >> sh == x >> sh)
        by (bit_vector)
        requires
            0 < p < 128,
            sh == 128 - p,
    ;
    assert(x & !(0xffff_ffff_ffff_ffff_ffff_ffff_ffff_ffffu128 >> p) == (x >> sh) << sh)
        by (bit_vector)
        requires
            0 < p < 128,
            sh == 128 - p,
    ;
}

proof fn lemma_pow2_bound_u128(x: u128)
    ensures
        (x as nat) / pow2(128) == 0,
{
    vstd::arithmetic::power2::lemma_pow2_adds(64, 64);
    lemma2_to64();
    assert((x as nat) < pow2(128)) by (nonlinear_arith)
        requires
            pow2(128) == pow2(64) * pow2(64),
            pow2(64) == 0x1_0000_0000_0000_0000nat,
            (x as nat) <= 0xffff_ffff_ffff_ffff_ffff_ffff_ffff_ffffnat,
    ;
    vstd::arithmetic::div_mod::lemma_basic_div_specific_divisor(pow2(128) as int);
    assert((x as int) / (pow2(128) as int) == 0);
}

/// Adding a network that is already listed changes nothing.
pub proof fn law_add_network_idempotent(nets: Seq<Seq<char>>, network: Seq<char>)
    ensures
        with_network(with_network(nets, network), network) == with_network(nets, network),
{
    if !nets.contains(network) {
        assert(nets.push(network)[nets.len() as int] == network);
    }
}
/// The security file: the allowlist under `security`.
#[derive(Debug)]
pub struct SecurityConfig {
    pub security: IpAllowlist,
}

/// Where the security settings are kept: `security.yaml` in the
/// configuration directory.
#[derive(Debug)]
pub struct SecurityManager {
    config_path: String,
}

impl SecurityManager {
    /// The path of the settings file.
    pub closed spec fn path(&self) -> Seq<char> {
        self.config_path@
    }

    /// The settings of the configuration directory `config_dir`.
    pub fn new(config_dir: &str) -> (r: SecurityManager)
        ensures
            r.path() == crate::wallet::path_join(config_dir@, "security.yaml"@),
    {
        SecurityManager { config_path: crate::wallet::join_path(config_dir, "security.yaml") }
    }

    /// The path of the settings file.
    pub fn config_path(&self) -> (r: &str)
        ensures
            r@ == self.path(),
    {
        self.config_path.as_str()
    }

    /// The allowlist that the settings file holds, or the default one where
    /// there is no file.
    pub fn allowlist_from(config: Option<SecurityConfig>) -> (r: IpAllowlist)
        ensures
            match config {
                Some(c) => r == c.security,
                None => r.allowed_ips@.len() == 0 && r.block_tor && !r.block_vpn && r.allowed_countries@.len()
                    == 0 && !r.trust_proxy && r.proxy_header@ == "X-Real-IP"@,
            },
    {
        match config {
            Some(c) => c.security,
            None => IpAllowlist::default(),
        }
    }
}

} // verus!
