//! The configuration of a network instance, and the policy that lets an instance
//! offer private networks only.
//!
//! EasyTier can act as a public exit or a general proxy. This front end is for
//! private networks only, so whatever a configuration asks for, those abilities
//! are switched off before an instance starts.
use vstd::arithmetic::power2::pow2;
use vstd::prelude::*;

verus! {

/// The flags of EasyTier that can carry traffic out of the private network.
#[derive(Clone, Copy, Debug, PartialEq, Eq, Structural)]
pub struct Flags {
    /// Act as an exit node for other peers.
    pub enable_exit_node: bool,
    /// Forward through the network stack of the system.
    pub proxy_forward_by_system: bool,
    /// Take over name resolution.
    pub accept_dns: bool,
    /// Carry IPv6.
    pub enable_ipv6: bool,
    /// Relay the calls of all peers.
    pub relay_all_peer_rpc: bool,
    /// Talk to peers directly only.
    pub p2p_only: bool,
}

/// An IP address.
#[derive(Clone, Copy, Debug, PartialEq, Eq)]
pub enum IpAddress {
    V4([u8; 4]),
    V6([u16; 8]),
}

/// An IP address and a port.
#[derive(Clone, Copy, Debug, PartialEq, Eq)]
pub struct SocketAddress {
    pub ip: IpAddress,
    pub port: u16,
}

/// A block of IPv4 addresses, by its first address and the length of its prefix.
#[derive(Clone, Copy, Debug, PartialEq, Eq)]
pub struct Cidr {
    pub first_address: [u8; 4],
    pub network_length: u8,
}

/// A network that the instance offers to its peers, and the block under which
/// they see it where that is another.
#[derive(Clone, Copy, Debug, PartialEq, Eq)]
pub struct ProxyCidr {
    pub cidr: Cidr,
    pub mapped_cidr: Option<Cidr>,
}

/// A forwarded port.
#[derive(Clone, Debug, PartialEq, Eq)]
pub struct PortForward {
    pub bind_addr: SocketAddress,
    pub dst_addr: SocketAddress,
    pub proto: String,
}

/// The portal for WireGuard clients.
#[derive(Clone, Copy, Debug, PartialEq, Eq)]
pub struct VpnPortal {
    pub client_cidr: Cidr,
    pub wireguard_listen: SocketAddress,
}

/// What the policy reads and writes of the configuration of an instance.
#[derive(Clone, Debug, PartialEq, Eq)]
pub struct NetworkConfig {
    pub inst_name: String,
    pub flags: Flags,
    pub exit_nodes: Vec<IpAddress>,
    pub routes: Option<Vec<Cidr>>,
    pub socks5_portal: Option<String>,
    pub port_forwards: Vec<PortForward>,
    pub proxy_cidrs: Vec<ProxyCidr>,
    pub vpn_portal: Option<VpnPortal>,
}

/// The contents of a configuration.
#[verifier::ext_equal]
pub struct ConfigView {
    pub inst_name: Seq<char>,
    pub flags: Flags,
    pub exit_nodes: Seq<IpAddress>,
    pub routes: Option<Seq<Cidr>>,
    pub socks5_portal: Option<Seq<char>>,
    pub port_forwards: Seq<PortForward>,
    pub proxy_cidrs: Seq<ProxyCidr>,
    pub vpn_portal: Option<VpnPortal>,
}

impl View for NetworkConfig {
    type V = ConfigView;

    open spec fn view(&self) -> ConfigView {
        ConfigView {
            inst_name: self.inst_name@,
            flags: self.flags,
            exit_nodes: self.exit_nodes@,
            routes: match self.routes {
                Some(routes) => Some(routes@),
                None => None,
            },
            socks5_portal: match self.socks5_portal {
                Some(url) => Some(url@),
                None => None,
            },
            port_forwards: self.port_forwards@,
            proxy_cidrs: self.proxy_cidrs@,
            vpn_portal: self.vpn_portal,
        }
    }
}

/// The address as a number.
pub open spec fn address_number(octets: [u8; 4]) -> int {
    octets[0] * 0x100_0000 + octets[1] * 0x1_0000 + octets[2] * 0x100 + octets[3]
}

/// The number is that of an address in 10.0.0.0/8, 172.16.0.0/12, 192.168.0.0/16
/// or 100.64.0.0/10.
pub open spec fn is_private_number(n: int) -> bool {
    ||| 0x0a00_0000 <= n <= 0x0aff_ffff
    ||| 0xac10_0000 <= n <= 0xac1f_ffff
    ||| 0xc0a8_0000 <= n <= 0xc0a8_ffff
    ||| 0x6440_0000 <= n <= 0x647f_ffff
}

/// The address is private.
pub open spec fn is_private(octets: [u8; 4]) -> bool {
    is_private_number(address_number(octets))
}

/// How many addresses a block with a prefix of that length holds. No block has a
/// prefix of more than 32 bits; such a length counts as 32.
pub open spec fn network_size(network_length: u8) -> int {
    if network_length <= 32 {
        pow2((32 - network_length) as nat) as int
    } else {
        1
    }
}

/// The address with the number `n` belongs to the block.
pub open spec fn in_network(n: int, c: Cidr) -> bool {
    address_number(c.first_address) <= n < address_number(c.first_address) + network_size(
        c.network_length,
    )
}

/// Every address of the offered network is private.
pub open spec fn is_private_proxy(p: ProxyCidr) -> bool {
    forall|n: int| #[trigger] in_network(n, p.cidr) ==> is_private_number(n)
}

/// All of the flags off.
pub open spec fn safe_flags() -> Flags {
    Flags {
        enable_exit_node: false,
        proxy_forward_by_system: false,
        accept_dns: false,
        enable_ipv6: false,
        relay_all_peer_rpc: false,
        p2p_only: false,
    }
}

/// The address 127.0.0.1 and a port that the system picks.
pub open spec fn is_loopback(a: SocketAddress) -> bool {
    a.port == 0 && match a.ip {
        IpAddress::V4(octets) => octets@ == seq![127u8, 0u8, 0u8, 1u8],
        IpAddress::V6(_) => false,
    }
}

/// `after` is `before` as the policy leaves it: no flag is on; there are no exit
/// nodes, no manual routes, no SOCKS5 portal and no forwarded ports; of the
/// offered networks the private ones are left, in their order; a WireGuard portal
/// listens on the loopback address; and nothing else differs.
pub open spec fn is_sanitized(before: ConfigView, after: ConfigView) -> bool {
    &&& after.inst_name == before.inst_name
    &&& after.flags == safe_flags()
    &&& after.exit_nodes == Seq::<IpAddress>::empty()
    &&& after.routes is None
    &&& after.socks5_portal is None
    &&& after.port_forwards == Seq::<PortForward>::empty()
    &&& after.proxy_cidrs == before.proxy_cidrs.filter(|p: ProxyCidr| is_private_proxy(p))
    &&& match (before.vpn_portal, after.vpn_portal) {
        (Some(old_portal), Some(new_portal)) => {
            &&& new_portal.client_cidr == old_portal.client_cidr
            &&& is_loopback(new_portal.wireguard_listen)
        },
        (None, None) => true,
        _ => false,
    }
}

/// The configuration is within the policy: no flag is on; there are no exit nodes,
/// no manual routes, no SOCKS5 portal and no forwarded ports; every address of
/// every offered network is private; and a WireGuard portal listens on the
/// loopback address.
pub open spec fn is_safe(c: ConfigView) -> bool {
    &&& c.flags == safe_flags()
    &&& c.exit_nodes.len() == 0
    &&& c.routes is None
    &&& c.socks5_portal is None
    &&& c.port_forwards.len() == 0
    &&& forall|i: int| 0 <= i < c.proxy_cidrs.len() ==> #[trigger] is_private_proxy(c.proxy_cidrs[i])
    &&& c.vpn_portal matches Some(p) ==> is_loopback(p.wireguard_listen)
}

/// Tells whether an IPv4 address is of a private network, those behind
/// carrier-grade NAT counted in.
pub fn is_private_ipv4_addr(octets: [u8; 4]) -> (r: bool)
    ensures
        r == is_private(octets),
{
    let a: u8 = octets[0];
    let b: u8 = octets[1];
    // 10.0.0.0/8
    if a == 10 {
        return true;
    }
    // 172.16.0.0/12
    if a == 172 && 16 <= b && b <= 31 {
        return true;
    }
    // 192.168.0.0/16
    if a == 192 && b == 168 {
        return true;
    }
    // 100.64.0.0/10
    if a == 100 && 64 <= b && b <= 127 {
        return true;
    }
    false
}

/// The address as a number.
fn to_number(octets: [u8; 4]) -> (r: u64)
    ensures
        r == address_number(octets),
{
    let a: u64 = octets[0] as u64;
    let b: u64 = octets[1] as u64;
    let c: u64 = octets[2] as u64;
    let d: u64 = octets[3] as u64;
    a * 0x100_0000 + b * 0x1_0000 + c * 0x100 + d
}

/// Tells whether every address of the block is private.
pub fn is_private_network(c: Cidr) -> (r: bool)
    ensures
        r == forall|n: int| #[trigger] in_network(n, c) ==> is_private_number(n),
{
    let first: u64 = to_number(c.first_address);
    let host_bits: u64 = if c.network_length <= 32 {
        (32 - c.network_length) as u64
    } else {
        0
    };
    proof {
        lemma_network_size(c.network_length, host_bits);
    }
    assert(in_network(first as int, c));
    if !is_private_ipv4_addr(c.first_address) {
        return false;
    }
    // The private block that the first address lies in must hold the last one too.
    let block_end: u64 = if c.first_address[0] == 10 {
        0x0aff_ffff
    } else if c.first_address[0] == 172 {
        0xac1f_ffff
    } else if c.first_address[0] == 192 {
        0xc0a8_ffff
    } else {
        0x647f_ffff
    };
    let last: u64 = first + ((1u64 << host_bits) - 1);
    if last > block_end {
        assert(in_network(block_end + 1, c));
    }
    last <= block_end
}

/// Overrides whatever in `cfg` could carry traffic out of the private network.
/// The offered networks that are dropped come back.
pub fn sanitize_config(cfg: &mut NetworkConfig) -> (dropped: Vec<ProxyCidr>)
    ensures
        is_sanitized(old(cfg)@, final(cfg)@),
        dropped@ == old(cfg)@.proxy_cidrs.filter(|p: ProxyCidr| !is_private_proxy(p)),
{
    cfg.flags = Flags {
        enable_exit_node: false,
        proxy_forward_by_system: false,
        accept_dns: false,
        enable_ipv6: false,
        relay_all_peer_rpc: false,
        p2p_only: false,
    };
    cfg.exit_nodes = Vec::new();
    cfg.routes = None;
    cfg.socks5_portal = None;
    cfg.port_forwards = Vec::new();

    let mut left: Vec<ProxyCidr> = Vec::new();
    let mut dropped: Vec<ProxyCidr> = Vec::new();
    let ghost all = cfg.proxy_cidrs@;
    let ghost private = |p: ProxyCidr| is_private_proxy(p);
    let ghost public = |p: ProxyCidr| !is_private_proxy(p);
    let mut i: usize = 0;
    assert(all.take(0) =~= Seq::<ProxyCidr>::empty());
    assert(left@ =~= all.take(0).filter(private)) by {
        reveal(Seq::filter);
    }
    assert(dropped@ =~= all.take(0).filter(public)) by {
        reveal(Seq::filter);
    }
    while i < cfg.proxy_cidrs.len()
        invariant
            all == cfg.proxy_cidrs@,
            i <= all.len(),
            private == (|p: ProxyCidr| is_private_proxy(p)),
            public == (|p: ProxyCidr| !is_private_proxy(p)),
            left@ == all.take(i as int).filter(private),
            dropped@ == all.take(i as int).filter(public),
        decreases all.len() - i,
    {
        let p = cfg.proxy_cidrs[i];
        proof {
            reveal(Seq::filter);
            assert(all.take(i + 1).drop_last() =~= all.take(i as int));
        }
        if is_private_network(p.cidr) {
            left.push(p);
        } else {
            dropped.push(p);
        }
        i += 1;
    }
    assert(all.take(i as int) =~= all);
    cfg.proxy_cidrs = left;

    if let Some(portal) = cfg.vpn_portal {
        let octets: [u8; 4] = [127, 0, 0, 1];
        let loopback = SocketAddress { ip: IpAddress::V4(octets), port: 0 };
        cfg.vpn_portal = Some(
            VpnPortal { client_cidr: portal.client_cidr, wireguard_listen: loopback },
        );
        assert(octets@ =~= seq![127u8, 0u8, 0u8, 1u8]);
    }
    dropped
}

/// What the policy leaves is safe, and goes by the name that it had.
pub proof fn law_sanitized_is_safe(before: ConfigView, after: ConfigView)
    requires
        is_sanitized(before, after),
    ensures
        is_safe(after),
        after.inst_name == before.inst_name,
{
    let private = |p: ProxyCidr| is_private_proxy(p);
    assert forall|i: int| 0 <= i < after.proxy_cidrs.len() implies #[trigger] is_private_proxy(
        after.proxy_cidrs[i],
    ) by {
        before.proxy_cidrs.lemma_filter_pred(private, i);
    }
}

/// A network with so much as one address that is not private is not left.
pub proof fn law_no_public_address_is_offered(
    before: ConfigView,
    after: ConfigView,
    p: ProxyCidr,
    n: int,
)
    requires
        is_sanitized(before, after),
        in_network(n, p.cidr),
        !is_private_number(n),
    ensures
        !after.proxy_cidrs.contains(p),
{
    law_sanitized_is_safe(before, after);
    if after.proxy_cidrs.contains(p) {
        let i = choose|i: int| 0 <= i < after.proxy_cidrs.len() && after.proxy_cidrs[i] == p;
        assert(is_private_proxy(after.proxy_cidrs[i]));
    }
}

/// The policy leaves a safe configuration as it is: that very configuration is
/// the only outcome.
pub proof fn law_safe_config_is_unchanged(c: ConfigView)
    requires
        is_safe(c),
    ensures
        is_sanitized(c, c),
        forall|after: ConfigView| #[trigger] is_sanitized(c, after) ==> after == c,
{
    let private = |p: ProxyCidr| is_private_proxy(p);
    assert forall|i: int| 0 <= i < c.proxy_cidrs.len() implies private(
        #[trigger] c.proxy_cidrs[i],
    ) by {
        assert(is_private_proxy(c.proxy_cidrs[i]));
    }
    lemma_filter_all(c.proxy_cidrs, private);
    assert(c.exit_nodes =~= Seq::<IpAddress>::empty());
    assert(c.port_forwards =~= Seq::<PortForward>::empty());
    assert forall|after: ConfigView| #[trigger] is_sanitized(c, after) implies after == c by {
        if let (Some(p), Some(q)) = (c.vpn_portal, after.vpn_portal) {
            lemma_loopback_is_one(p.wireguard_listen, q.wireguard_listen);
        }
        assert(after =~= c);
    }
}

/// To apply the policy again changes nothing.
pub proof fn law_sanitize_is_idempotent(before: ConfigView, after: ConfigView)
    requires
        is_sanitized(before, after),
    ensures
        is_sanitized(after, after),
        forall|again: ConfigView| #[trigger] is_sanitized(after, again) ==> again == after,
{
    law_sanitized_is_safe(before, after);
    law_safe_config_is_unchanged(after);
}

/// The policy decides on every offered network: it is left exactly if it is
/// private, and dropped exactly if not; none is invented.
pub proof fn law_every_proxy_is_decided(all: Seq<ProxyCidr>, p: ProxyCidr)
    ensures
        ({
            let left = all.filter(|p: ProxyCidr| is_private_proxy(p));
            let dropped = all.filter(|p: ProxyCidr| !is_private_proxy(p));
            &&& left.contains(p) <==> all.contains(p) && is_private_proxy(p)
            &&& dropped.contains(p) <==> all.contains(p) && !is_private_proxy(p)
            &&& left.len() + dropped.len() == all.len()
        }),
    decreases all.len(),
{
    let private = |p: ProxyCidr| is_private_proxy(p);
    let public = |p: ProxyCidr| !is_private_proxy(p);
    reveal(Seq::filter);
    if all.len() > 0 {
        let front = all.drop_last();
        let last = all.last();
        law_every_proxy_is_decided(front, p);
        assert(all =~= front.push(last));
        lemma_push_contains(front, last, p);
        lemma_push_contains(front.filter(private), last, p);
        lemma_push_contains(front.filter(public), last, p);
    }
}

/// An address is private exactly if its octets say so: it begins with 10, with 172
/// and 16 to 31, with 192 and 168, or with 100 and 64 to 127.
pub proof fn law_private_addresses_by_octets(octets: [u8; 4])
    ensures
        is_private(octets) <==> {
            ||| octets[0] == 10
            ||| octets[0] == 172 && 16 <= octets[1] <= 31
            ||| octets[0] == 192 && octets[1] == 168
            ||| octets[0] == 100 && 64 <= octets[1] <= 127
        },
        is_private_number(address_number(octets)) == is_private(octets),
{
}

/// Every number that is private is that of an address, and the number of an address
/// holds its octets, the first as the most significant.
pub proof fn law_address_numbers(octets: [u8; 4], n: int)
    ensures
        is_private_number(n) ==> 0 <= n < 0x1_0000_0000,
        address_number(octets) == ((octets[0] * 256 + octets[1]) * 256 + octets[2]) * 256
            + octets[3],
{
}

/// A block with a prefix of 32 bits is one address, one bit less doubles it, and a
/// block with no prefix is all addresses.
pub proof fn law_network_sizes(network_length: u8)
    ensures
        network_length >= 32 ==> network_size(network_length) == 1,
        network_length < 32 ==> network_size(network_length) == 2 * network_size(
            (network_length + 1) as u8,
        ),
        network_size(0) == 0x1_0000_0000,
{
    vstd::arithmetic::power2::lemma2_to64();
    if network_length < 32 {
        vstd::arithmetic::power2::lemma_pow2_unfold((32 - network_length) as nat);
    }
}

/// A block is its first address and as many of the following ones as it holds: the
/// first belongs to it, with every address but the last the next one does, and
/// neither what is before the first nor what is behind the last.
pub proof fn law_network_is_a_run_of_addresses(c: Cidr, n: int)
    ensures
        ({
            let first = address_number(c.first_address);
            let last = first + network_size(c.network_length) - 1;
            &&& in_network(first, c) && in_network(last, c)
            &&& in_network(n, c) && n != last ==> in_network(n + 1, c)
            &&& n < first || n > last ==> !in_network(n, c)
        }),
{
    lemma_network_size(
        c.network_length,
        if c.network_length <= 32 {
            (32 - c.network_length) as u64
        } else {
            0
        },
    );
}

/// An address belongs to a block exactly if it agrees with the first address in the
/// bits of the prefix.
pub proof fn law_network_by_prefix(c: Cidr, n: int)
    requires
        address_number(c.first_address) % network_size(c.network_length) == 0,
    ensures
        in_network(n, c) <==> n / network_size(c.network_length) == address_number(c.first_address)
            / network_size(c.network_length),
{
    let size = network_size(c.network_length);
    let first = address_number(c.first_address);
    lemma_network_size(
        c.network_length,
        if c.network_length <= 32 {
            (32 - c.network_length) as u64
        } else {
            0
        },
    );
    assert((first <= n < first + size) <==> n / size == first / size) by (nonlinear_arith)
        requires
            size >= 1,
            first % size == 0,
    ;
}

/// An offered network holds private addresses only exactly if it is one of the four
/// private blocks or a part of one: its first address is in that block, and its
/// prefix is no shorter than the block's.
pub proof fn law_private_networks_by_prefix(p: ProxyCidr)
    requires
        p.cidr.network_length <= 32,
        address_number(p.cidr.first_address) % network_size(p.cidr.network_length) == 0,
    ensures
        is_private_proxy(p) <==> {
            let a = p.cidr.first_address[0];
            let b = p.cidr.first_address[1];
            let length = p.cidr.network_length;
            ||| a == 10 && length >= 8
            ||| a == 172 && 16 <= b <= 31 && length >= 12
            ||| a == 192 && b == 168 && length >= 16
            ||| a == 100 && 64 <= b <= 127 && length >= 10
        },
{
    let octets = p.cidr.first_address;
    let first = address_number(octets);
    let length = p.cidr.network_length;
    let size = network_size(length);
    lemma_network_size(length, (32 - length) as u64);
    assert(in_network(first, p.cidr));
    if is_private_number(first) {
        // The private block ends where `parts` blocks of its size end.
        let (parts, bits): (int, u8) = if octets[0] == 10 {
            (0x0b, 8)
        } else if octets[0] == 172 {
            (0xac2, 12)
        } else if octets[0] == 192 {
            (0xc0a9, 16)
        } else {
            (0x192, 10)
        };
        vstd::arithmetic::power2::lemma2_to64();
        let whole = network_size(bits);
        let end = parts * whole;
        if length >= bits {
            lemma_sizes_divide(bits, length);
            let k = pow2((length - bits) as nat) as int;
            let q = first / size;
            assert(first == q * size) by (nonlinear_arith)
                requires
                    first % size == 0,
                    size >= 1,
                    q == first / size,
            ;
            assert(end == (parts * k) * size) by (nonlinear_arith)
                requires
                    end == parts * whole,
                    whole == k * size,
            ;
            let t = parts * k;
            assert(first + size <= end) by (nonlinear_arith)
                requires
                    first == q * size,
                    end == t * size,
                    first < end,
                    size >= 1,
            ;
            assert forall|n: int| #[trigger] in_network(n, p.cidr) implies is_private_number(
                n,
            ) by {}
        } else {
            lemma_sizes_divide(length, bits);
            assert(size >= 2 * network_size(bits));
            assert(in_network(end, p.cidr));
            assert(!is_private_number(end));
        }
    }
}

/// A longer prefix divides a block in equal parts.
proof fn lemma_sizes_divide(short: u8, long: u8)
    requires
        short <= long <= 32,
    ensures
        network_size(long) >= 1,
        network_size(short) == pow2((long - short) as nat) * network_size(long),
        short < long ==> network_size(short) >= 2 * network_size(long),
{
    vstd::arithmetic::power2::lemma_pow2_adds((long - short) as nat, (32 - long) as nat);
    vstd::arithmetic::power2::lemma_pow2_pos((32 - long) as nat);
    if short < long {
        let k = pow2((long - short) as nat) as int;
        let part = network_size(long);
        vstd::arithmetic::power2::lemma_pow2_unfold((long - short) as nat);
        vstd::arithmetic::power2::lemma_pow2_pos((long - short - 1) as nat);
        assert(k * part >= 2 * part) by (nonlinear_arith)
            requires
                k >= 2,
                part >= 1,
        ;
    }
}

/// What the policy makes of a configuration, part by part: every flag is off; exit
/// nodes, manual routes, SOCKS5 portal and forwarded ports are gone; the offered
/// networks are left that hold private addresses only, in their order; a WireGuard
/// portal is there if it was, for the same clients, and listens on 127.0.0.1 with
/// a port that the system picks; and the name stays.
pub proof fn law_policy_on_every_part(before: NetworkConfig, after: NetworkConfig)
    requires
        is_sanitized(before@, after@),
    ensures
        after.inst_name@ == before.inst_name@,
        !after.flags.enable_exit_node,
        !after.flags.proxy_forward_by_system,
        !after.flags.accept_dns,
        !after.flags.enable_ipv6,
        !after.flags.relay_all_peer_rpc,
        !after.flags.p2p_only,
        after.exit_nodes@.len() == 0,
        after.routes is None,
        after.socks5_portal is None,
        after.port_forwards@.len() == 0,
        after.proxy_cidrs@ == before.proxy_cidrs@.filter(
            |p: ProxyCidr| forall|n: int| #[trigger] in_network(n, p.cidr) ==> is_private_number(n),
        ),
        after.vpn_portal is Some <==> before.vpn_portal is Some,
        after.vpn_portal matches Some(portal) ==> {
            &&& portal.client_cidr == before.vpn_portal->0.client_cidr
            &&& portal.wireguard_listen.port == 0
            &&& portal.wireguard_listen.ip matches IpAddress::V4(octets) && octets[0] == 127
                && octets[1] == 0 && octets[2] == 0 && octets[3] == 1
        },
{
    let all_private = |p: ProxyCidr|
        forall|n: int| #[trigger] in_network(n, p.cidr) ==> is_private_number(n);
    assert((|p: ProxyCidr| is_private_proxy(p)) =~= all_private);
    if let Some(portal) = after.vpn_portal {
        if let IpAddress::V4(octets) = portal.wireguard_listen.ip {
            assert(octets@[0] == 127 && octets@[1] == 0 && octets@[2] == 0 && octets@[3] == 1);
        }
    }
}

/// The policy keeps a network exactly if every address of it is private, and drops
/// it exactly if not: one it keeps is kept wherever it stands, and what is decided
/// of some networks does not depend on the others.
pub proof fn law_policy_decides_each_network_alone(
    before: ConfigView,
    after: ConfigView,
    more: ConfigView,
    after_more: ConfigView,
    p: ProxyCidr,
)
    requires
        is_sanitized(before, after),
        is_sanitized(more, after_more),
        more.proxy_cidrs == before.proxy_cidrs.push(p),
    ensures
        after_more.proxy_cidrs == if forall|n: int|
            #[trigger] in_network(n, p.cidr) ==> is_private_number(n) {
            after.proxy_cidrs.push(p)
        } else {
            after.proxy_cidrs
        },
{
    reveal(Seq::filter);
    assert(more.proxy_cidrs.drop_last() =~= before.proxy_cidrs);
}

/// A configuration is within the policy exactly if every part of it is.
pub proof fn law_safe_means_every_part(c: NetworkConfig)
    ensures
        is_safe(c@) <==> {
            &&& !c.flags.enable_exit_node && !c.flags.proxy_forward_by_system
            &&& !c.flags.accept_dns && !c.flags.enable_ipv6
            &&& !c.flags.relay_all_peer_rpc && !c.flags.p2p_only
            &&& c.exit_nodes@.len() == 0
            &&& c.routes is None
            &&& c.socks5_portal is None
            &&& c.port_forwards@.len() == 0
            &&& forall|i: int, n: int|
                0 <= i < c.proxy_cidrs@.len() && #[trigger] in_network(n, c.proxy_cidrs@[i].cidr)
                    ==> is_private_number(n)
            &&& c.vpn_portal matches Some(portal) ==> {
                &&& portal.wireguard_listen.port == 0
                &&& portal.wireguard_listen.ip matches IpAddress::V4(octets) && octets@
                    == seq![127u8, 0u8, 0u8, 1u8]
            }
        },
{
    if forall|i: int, n: int|
        0 <= i < c.proxy_cidrs@.len() && #[trigger] in_network(n, c.proxy_cidrs@[i].cidr)
            ==> is_private_number(n) {
        assert forall|i: int| 0 <= i < c@.proxy_cidrs.len() implies #[trigger] is_private_proxy(
            c@.proxy_cidrs[i],
        ) by {}
    }
    if is_safe(c@) {
        assert forall|i: int, n: int|
            0 <= i < c.proxy_cidrs@.len() && #[trigger] in_network(
                n,
                c.proxy_cidrs@[i].cidr,
            ) implies is_private_number(n) by {
            assert(is_private_proxy(c@.proxy_cidrs[i]));
        }
    }
}

/// A block holds two to the power of its host bits.
proof fn lemma_network_size(network_length: u8, host_bits: u64)
    requires
        host_bits == if network_length <= 32 {
            32 - network_length
        } else {
            0
        },
    ensures
        (1u64 << host_bits) == network_size(network_length),
        1 <= network_size(network_length) <= 0x1_0000_0000,
{
    vstd::arithmetic::power2::lemma2_to64();
    vstd::bits::lemma_u64_shl_is_mul(1, host_bits);
    assert(1 <= (1u64 << host_bits) <= 0x1_0000_0000) by (bit_vector)
        requires
            host_bits <= 32,
    ;
}

/// The loopback address with a port that the system picks is one value.
proof fn lemma_loopback_is_one(a: SocketAddress, b: SocketAddress)
    requires
        is_loopback(a),
        is_loopback(b),
    ensures
        a == b,
{
    if let (IpAddress::V4(x), IpAddress::V4(y)) = (a.ip, b.ip) {
        assert(x =~= y);
    }
}

proof fn lemma_push_contains(s: Seq<ProxyCidr>, last: ProxyCidr, p: ProxyCidr)
    ensures
        s.push(last).contains(p) <==> s.contains(p) || p == last,
{
    if s.contains(p) {
        let i = choose|i: int| 0 <= i < s.len() && s[i] == p;
        assert(s.push(last)[i] == p);
    }
    assert(s.push(last)[s.len() as int] == last);
}

proof fn lemma_filter_all(s: Seq<ProxyCidr>, keep: spec_fn(ProxyCidr) -> bool)
    requires
        forall|i: int| 0 <= i < s.len() ==> keep(#[trigger] s[i]),
    ensures
        s.filter(keep) == s,
    decreases s.len(),
{
    reveal(Seq::filter);
    if s.len() > 0 {
        assert(forall|i: int|
            0 <= i < s.drop_last().len() ==> s.drop_last()[i] == #[trigger] s[i]);
        lemma_filter_all(s.drop_last(), keep);
        assert(s.drop_last().push(s.last()) =~= s);
    }
}

} // verus!
