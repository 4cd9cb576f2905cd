use vstd::prelude::*;

use crate::packet::{ip_packet_addrs, packet_addrs};
use smoltcp::wire::{IpAddress as SmolAddress, IpCidr as SmolCidr, Ipv4Address, Ipv4Cidr, Ipv6Address, Ipv6Cidr};

verus! {

/// An IP address as a number: IPv4 as 32 bits, IPv6 as 128 bits, the
/// first octet highest.
#[derive(Clone, Copy, Debug, PartialEq, Eq, Structural)]
pub enum IpAddress {
    Ipv4(u32),
    Ipv6(u128),
}

/// A network: an address and the length of its prefix.
#[derive(Clone, Copy, Debug, PartialEq, Eq, Structural)]
pub struct IpCidr {
    pub address: IpAddress,
    pub prefix_len: u8,
}

impl IpCidr {
    /// The prefix fits the address family.
    pub open spec fn wf(&self) -> bool {
        match self.address {
            IpAddress::Ipv4(_) => self.prefix_len <= 32,
            IpAddress::Ipv6(_) => self.prefix_len <= 128,
        }
    }

    /// The network holds `addr`: same family, and the first `prefix_len`
    /// bits agree.
    pub open spec fn holds(&self, addr: IpAddress) -> bool {
        match (self.address, addr) {
            (IpAddress::Ipv4(a), IpAddress::Ipv4(b)) => self.prefix_len == 0 || a & (0xffff_ffffu32 << (32
                - self.prefix_len) as u32) == b & (0xffff_ffffu32 << (32 - self.prefix_len) as u32),
            (IpAddress::Ipv6(a), IpAddress::Ipv6(b)) => self.prefix_len == 0 || a >> (128
                - self.prefix_len) as u128 == b >> (128 - self.prefix_len) as u128,
            _ => false,
        }
    }
}

/// `smoltcp::wire::IpCidr::contains_addr`: in smoltcp an IPv4 network
/// holds an IPv4 address when both agree under the netmask (empty for a
/// zero prefix), an IPv6 network holds an IPv6 address when the prefix is
/// zero or the first `prefix_len` bits agree, and no network holds an
/// address of the other family.
#[verifier::external_body]
fn cidr_contains(cidr: &IpCidr, addr: &IpAddress) -> (r: bool)
    requires
        cidr.wf(),
    ensures
        r == cidr.holds(*addr),
{
    let c = match cidr.address {
        IpAddress::Ipv4(a) => SmolCidr::Ipv4(Ipv4Cidr::new(Ipv4Address::from_bits(a), cidr.prefix_len)),
        IpAddress::Ipv6(a) => SmolCidr::Ipv6(Ipv6Cidr::new(Ipv6Address::from_bits(a), cidr.prefix_len)),
    };
    let a = match *addr {
        IpAddress::Ipv4(b) => SmolAddress::Ipv4(Ipv4Address::from_bits(b)),
        IpAddress::Ipv6(b) => SmolAddress::Ipv6(Ipv6Address::from_bits(b)),
    };
    c.contains_addr(&a)
}

/// A route: packets to `filter` leave by device `dev`, through `via` if
/// given, with source address `src`.
#[derive(Clone, Copy, Debug, PartialEq, Eq, Structural)]
pub struct Rule {
    pub filter: IpCidr,
    pub via: Option<IpAddress>,
    pub dev: usize,
    pub src: IpAddress,
}

impl Rule {
    pub fn new(filter: IpCidr, via: Option<IpAddress>, dev: usize, src: IpAddress) -> (r: Rule)
        ensures
            r == (Rule { filter, via, dev, src }),
    {
        Rule { filter, via, dev, src }
    }
}

/// The index of the first rule of `rules` that holds `dst`.
pub open spec fn first_match(rules: Seq<Rule>, dst: IpAddress) -> Option<int>
    decreases rules.len(),
{
    if rules.len() == 0 {
        None
    } else if rules[0].filter.holds(dst) {
        Some(0)
    } else {
        match first_match(rules.drop_first(), dst) {
            Some(i) => Some(i + 1),
            None => None,
        }
    }
}

/// Routes, longest prefix first.
pub struct RouteTable {
    rules: Vec<Rule>,
}

/// What to do with an outgoing packet.
#[derive(Clone, Copy, Debug, PartialEq, Eq, Structural)]
pub enum RouteDecision {
    /// Send it on every device.
    AllDevices,
    /// Send it on device `dev` to `next_hop`; the rule's source is `src`.
    Device { dev: usize, next_hop: IpAddress, src: IpAddress },
    /// No rule holds the destination: drop it.
    NoRoute,
}

/// The broadcast address of IPv4, or an IPv6 multicast address.
pub open spec fn is_flood(dst: IpAddress) -> bool {
    match dst {
        IpAddress::Ipv4(a) => a == 0xffff_ffffu32,
        IpAddress::Ipv6(a) => a >> 120u128 == 0xffu128,
    }
}

impl RouteTable {
    pub closed spec fn view(&self) -> Seq<Rule> {
        self.rules@
    }

    /// Every network fits its family and the rules go from the longest
    /// prefix to the shortest.
    pub open spec fn wf(&self) -> bool {
        &&& forall|i: int| 0 <= i < self@.len() ==> (#[trigger] self@[i]).filter.wf()
        &&& forall|i: int, j: int|
            0 <= i < j < self@.len() ==> #[trigger] self@[i].filter.prefix_len >= #[trigger] self@[j].filter.prefix_len
    }

    pub fn new() -> (r: RouteTable)
        ensures
            r.wf(),
            r@.len() == 0,
    {
        RouteTable { rules: Vec::new() }
    }

    /// Adds a rule after the rules whose prefix is at least as long.
    pub fn add_rule(&mut self, rule: Rule)
        requires
            old(self).wf(),
            rule.filter.wf(),
        ensures
            final(self).wf(),
            exists|i: int|
                0 <= i <= old(self)@.len() && final(self)@ == old(self)@.insert(i, rule) && (forall|j: int|
                    0 <= j < i ==> (#[trigger] old(self)@[j]).filter.prefix_len >= rule.filter.prefix_len)
                    && (forall|j: int|
                    i <= j < old(self)@.len() ==> (#[trigger] old(self)@[j]).filter.prefix_len
                        < rule.filter.prefix_len),
    {
        let mut idx: usize = 0;
        while idx < self.rules.len() && self.rules[idx].filter.prefix_len >= rule.filter.prefix_len
            invariant
                self.wf(),
                self@ == old(self)@,
                idx <= self@.len(),
                forall|j: int| 0 <= j < idx ==> (#[trigger] self@[j]).filter.prefix_len >= rule.filter.prefix_len,
            decreases self@.len() - idx,
        {
            idx += 1;
        }
        let ghost before = self@;
        self.rules.insert(idx, rule);
        proof {
            assert forall|j: int| idx <= j < before.len() implies (#[trigger] before[j]).filter.prefix_len
                < rule.filter.prefix_len by {
                assert(before[idx as int].filter.prefix_len < rule.filter.prefix_len);
            }
            assert forall|a: int, b: int|
                0 <= a < b < self@.len() implies #[trigger] self@[a].filter.prefix_len
                    >= #[trigger] self@[b].filter.prefix_len by {
                if b < idx {
                } else if a < idx && b == idx {
                } else if a < idx {
                    assert(self@[b] == before[b - 1]);
                } else if a == idx {
                    assert(self@[b] == before[b - 1]);
                } else {
                    assert(self@[a] == before[a - 1]);
                    assert(self@[b] == before[b - 1]);
                }
            }
        }
    }

    /// The first rule, in table order, whose network holds `dst`.
    pub fn lookup(&self, dst: &IpAddress) -> (r: Option<&Rule>)
        requires
            self.wf(),
        ensures
            r matches Some(rule) ==> first_match(self@, *dst) matches Some(i) && *rule == self@[i],
            r is None ==> first_match(self@, *dst) is None,
    {
        let mut i: usize = 0;
        assert(self@.subrange(0, self@.len() as int) =~= self@);
        while i < self.rules.len()
            invariant
                self.wf(),
                i <= self@.len(),
                first_match(self@, *dst) == (match first_match(self@.subrange(i as int, self@.len() as int), *dst) {
                    Some(k) => Some(k + i),
                    None => None,
                }),
            decreases self@.len() - i,
        {
            let ghost rest = self@.subrange(i as int, self@.len() as int);
            assert(rest[0] == self@[i as int]);
            assert(rest.drop_first() =~= self@.subrange(i + 1, self@.len() as int));
            if cidr_contains(&self.rules[i].filter, dst) {
                return Some(&self.rules[i]);
            }
            i += 1;
        }
        None
    }

    /// What to do with a packet to `dst`: floods go to every device,
    /// others by the first rule that holds `dst`, to its gateway if it has
    /// one, else straight to `dst`.
    pub open spec fn route_of(&self, dst: IpAddress) -> RouteDecision {
        if is_flood(dst) {
            RouteDecision::AllDevices
        } else {
            match first_match(self@, dst) {
                Some(i) => RouteDecision::Device {
                    dev: self@[i].dev,
                    next_hop: match self@[i].via {
                        Some(v) => v,
                        None => dst,
                    },
                    src: self@[i].src,
                },
                None => RouteDecision::NoRoute,
            }
        }
    }

    /// What to do with a packet to `dst` (see `route_of`).
    pub fn route(&self, dst: IpAddress) -> (r: RouteDecision)
        requires
            self.wf(),
        ensures
            r == self.route_of(dst),
    {
        let flood = match dst {
            IpAddress::Ipv4(a) => a == 0xffff_ffff,
            IpAddress::Ipv6(a) => a >> 120 == 0xff,
        };
        if flood {
            return RouteDecision::AllDevices;
        }
        match self.lookup(&dst) {
            Some(rule) => RouteDecision::Device {
                dev: rule.dev,
                next_hop: match rule.via {
                    Some(v) => v,
                    None => dst,
                },
                src: rule.src,
            },
            None => RouteDecision::NoRoute,
        }
    }

    /// What to do with an outgoing IP packet held in `packet`: its source
    /// address (which a rule's source must equal), its destination, and the
    /// route for that destination; `None` for a packet that is empty, of
    /// another IP version, or whose lengths do not check.
    pub fn dispatch_decision(&self, packet: &[u8]) -> (r: Option<(IpAddress, IpAddress, RouteDecision)>)
        requires
            self.wf(),
        ensures
            r == (match packet_addrs(packet@) {
                Some((src, dst)) => Some((src, dst, self.route_of(dst))),
                None => None,
            }),
    {
        match ip_packet_addrs(packet) {
            Some((src, dst)) => Some((src, dst, self.route(dst))),
            None => None,
        }
    }

    /// The devices on which traffic of a socket bound to `endpoint` may
    /// arrive, one bit per device: all for an unspecified address, none
    /// without a route.
    pub fn device_mask_for(&self, endpoint: Option<IpAddress>) -> (r: u32)
        requires
            self.wf(),
            forall|i: int| 0 <= i < self@.len() ==> (#[trigger] self@[i]).dev < 32,
        ensures
            endpoint is None ==> r == u32::MAX,
            endpoint matches Some(a) ==> r == (match first_match(self@, a) {
                Some(i) => 1u32 << self@[i].dev as u32,
                None => 0,
            }),
    {
        proof {
            if let Some(a) = endpoint {
                lemma_first_match_holds(self@, a);
            }
        }
        match endpoint {
            Some(addr) => match self.lookup(&addr) {
                Some(rule) => 1u32 << (rule.dev as u32),
                None => 0,
            },
            None => u32::MAX,
        }
    }

    /// The source address for packets to `dst`.
    pub fn get_source_address(&self, dst: &IpAddress) -> (r: IpAddress)
        requires
            self.wf(),
            first_match(self@, *dst) is Some,
        ensures
            r == self@[first_match(self@, *dst)->0].src,
    {
        proof {
            lemma_first_match_holds(self@, *dst);
        }
        match self.lookup(dst) {
            Some(rule) => rule.src,
            None => dst.clone(),
        }
    }
}

/// The rule that routes a packet holds its destination, and no earlier
/// rule does.
pub proof fn lemma_first_match_holds(rules: Seq<Rule>, dst: IpAddress)
    ensures
        first_match(rules, dst) matches Some(i) ==> 0 <= i < rules.len() && rules[i].filter.holds(dst)
            && forall|j: int| 0 <= j < i ==> !(#[trigger] rules[j]).filter.holds(dst),
        first_match(rules, dst) is None ==> forall|j: int|
            0 <= j < rules.len() ==> !(#[trigger] rules[j]).filter.holds(dst),
    decreases rules.len(),
{
    if rules.len() > 0 {
        lemma_first_match_holds(rules.drop_first(), dst);
        assert forall|j: int| 1 <= j < rules.len() implies rules[j] == rules.drop_first()[j - 1] by {}
    }
}

/// Routing picks, of the rules that hold the destination, one with the
/// longest prefix.
pub proof fn lemma_longest_prefix(t: RouteTable, dst: IpAddress)
    requires
        t.wf(),
    ensures
        first_match(t@, dst) matches Some(i) ==> forall|j: int|
            0 <= j < t@.len() && (#[trigger] t@[j]).filter.holds(dst) ==> t@[j].filter.prefix_len
                <= t@[i].filter.prefix_len,
{
    lemma_first_match_holds(t@, dst);
    if let Some(i) = first_match(t@, dst) {
        assert forall|j: int| 0 <= j < t@.len() && (#[trigger] t@[j]).filter.holds(dst) implies t@[j].filter.prefix_len
            <= t@[i].filter.prefix_len by {
            if j < i {
            } else if j > i {
                assert(t@[i].filter.prefix_len >= t@[j].filter.prefix_len);
            }
        }
    }
}

/// The devices, of `count`, whose bit is set in `mask`, in increasing
/// order: those on which a socket waits for traffic.
pub fn masked_devices(mask: u32, count: usize) -> (r: Vec<usize>)
    requires
        count <= 32,
    ensures
        forall|i: int, j: int| 0 <= i < j < r@.len() ==> r@[i] < r@[j],
        forall|i: int| 0 <= i < r@.len() ==> r@[i] < count && mask & (1u32 << r@[i] as u32) != 0,
        forall|d: usize| d < count && mask & (1u32 << d as u32) != 0 ==> r@.contains(d),
{
    let mut r: Vec<usize> = Vec::new();
    let mut d: usize = 0;
    let n = count;
    while d < n
        invariant
            n <= 32,
            n == count,
            d <= n,
            forall|i: int, j: int| 0 <= i < j < r@.len() ==> r@[i] < r@[j],
            forall|i: int| 0 <= i < r@.len() ==> r@[i] < d && mask & (1u32 << r@[i] as u32) != 0,
            forall|e: usize| e < d && mask & (1u32 << e as u32) != 0 ==> r@.contains(e),
        decreases n - d,
    {
        if mask & (1u32 << d as u32) != 0 {
            let ghost before = r@;
            r.push(d);
            proof {
                assert forall|e: usize| e < d + 1 && mask & (1u32 << e as u32) != 0 implies r@.contains(e) by {
                    if e < d {
                        assert(before.contains(e));
                        let k = choose|k: int| 0 <= k < before.len() && before[k] == e;
                        assert(r@[k] == e);
                    } else {
                        assert(r@[r@.len() - 1] == e);
                    }
                }
            }
        }
        d += 1;
    }
    r
}

/// The loopback network, 127.0.0.1/8, as the network stack sets it up.
pub open spec fn loopback_rule() -> Rule {
    Rule {
        filter: IpCidr { address: IpAddress::Ipv4(0x7f00_0001), prefix_len: 8 },
        via: None,
        dev: 0,
        src: IpAddress::Ipv4(0x7f00_0001),
    }
}

/// The default route through `gateway` on the Ethernet device (device 1),
/// with source address `ip`.
pub open spec fn default_rule(ip: u32, gateway: u32) -> Rule {
    Rule {
        filter: IpCidr { address: IpAddress::Ipv4(0), prefix_len: 0 },
        via: Some(IpAddress::Ipv4(gateway)),
        dev: 1,
        src: IpAddress::Ipv4(ip),
    }
}

/// The routes the network stack starts with: loopback on device 0 and,
/// when there is an Ethernet device with address `ip` and gateway
/// `gateway`, a default route through it.
pub fn initial_routes(eth0: Option<(u32, u32)>) -> (r: RouteTable)
    ensures
        r.wf(),
        r@ == match eth0 {
            Some((ip, gateway)) => seq![loopback_rule(), default_rule(ip, gateway)],
            None => seq![loopback_rule()],
        },
{
    let mut t = RouteTable::new();
    let lo = IpAddress::Ipv4(0x7f00_0001);
    t.add_rule(Rule::new(IpCidr { address: lo, prefix_len: 8 }, None, 0, lo));
    proof {
        assert(t@ =~= seq![loopback_rule()]);
    }
    match eth0 {
        Some((ip, gateway)) => {
            let rule = Rule::new(
                IpCidr { address: IpAddress::Ipv4(0), prefix_len: 0 },
                Some(IpAddress::Ipv4(gateway)),
                1,
                IpAddress::Ipv4(ip),
            );
            let ghost before = t@;
            t.add_rule(rule);
            proof {
                let i = choose|i: int|
                    0 <= i <= before.len() && t@ == before.insert(i, rule) && (forall|j: int|
                        0 <= j < i ==> (#[trigger] before[j]).filter.prefix_len >= rule.filter.prefix_len) && (
                    forall|j: int|
                        i <= j < before.len() ==> (#[trigger] before[j]).filter.prefix_len
                            < rule.filter.prefix_len);
                if i == 0 {
                    assert(before[0].filter.prefix_len < rule.filter.prefix_len);
                }
                assert(i == 1);
                assert(t@ =~= seq![loopback_rule(), default_rule(ip, gateway)]);
            }
        },
        None => {},
    }
    t
}

/// Packets to the IPv4 broadcast address or to any IPv6 multicast address
/// (the whole ff00::/8 range, first octet 0xff) go out on every device,
/// whatever the routes; no other packet does.
pub proof fn lemma_floods(t: RouteTable, dst: IpAddress)
    requires
        t.wf(),
    ensures
        t.route_of(dst) == RouteDecision::AllDevices <==> (dst == IpAddress::Ipv4(0xffff_ffff) || (dst matches IpAddress::Ipv6(
            a,
        ) && 0xff00_0000_0000_0000_0000_0000_0000_0000u128 <= a)),
{
    match dst {
        IpAddress::Ipv4(a) => {},
        IpAddress::Ipv6(a) => {
            assert((a >> 120u128 == 0xffu128) <==> (0xff00_0000_0000_0000_0000_0000_0000_0000u128 <= a)) by (bit_vector);
        },
    }
}

} // verus!
