//! Internet addresses and networks.
use vstd::arithmetic::div_mod::{lemma_fundamental_div_mod, lemma_fundamental_div_mod_converse};
use vstd::arithmetic::power2::{lemma_pow2_pos, pow2};
use vstd::prelude::*;

use crate::number::decimal;

verus! {

/// An IPv4 or IPv6 address, as the number that its bytes write in network order.
#[derive(Clone, Copy, Debug, PartialEq, Eq, Hash, Structural)]
pub enum IpAddr {
    V4(u32),
    V6(u128),
}

/// The number of bits in an address of the family of `ip`.
pub open spec fn address_bits(ip: IpAddr) -> int {
    match ip {
        IpAddr::V4(_) => 32,
        IpAddr::V6(_) => 128,
    }
}

/// `a` and `b`, numbers of `width` bits, agree on their first `prefix_len` bits.
pub open spec fn same_prefix(a: int, b: int, width: int, prefix_len: int) -> bool {
    a / pow2((width - prefix_len) as nat) as int == b / pow2((width - prefix_len) as nat) as int
}

/// `ip` lies in the network of the first `prefix_len` bits of `addr`.
pub open spec fn in_network(addr: IpAddr, prefix_len: u8, ip: IpAddr) -> bool {
    match (addr, ip) {
        (IpAddr::V4(a), IpAddr::V4(b)) => same_prefix(a as int, b as int, 32, prefix_len as int),
        (IpAddr::V6(a), IpAddr::V6(b)) => same_prefix(a as int, b as int, 128, prefix_len as int),
        _ => false,
    }
}

/// The four bytes of `bits` in base ten, with dots between them.
pub open spec fn dotted_quad(bits: u32) -> Seq<char> {
    decimal((bits / 0x100_0000) as nat) + seq!['.'] + decimal((bits / 0x1_0000 % 0x100) as nat)
        + seq!['.'] + decimal((bits / 0x100 % 0x100) as nat) + seq!['.'] + decimal(
        (bits % 0x100) as nat,
    )
}

/// `s` is made of the characters of an address in text, and no longer than the longest.
pub open spec fn address_characters(s: Seq<char>) -> bool {
    &&& s.len() <= 45
    &&& forall|i: int|
        0 <= i < s.len() ==> {
            let c = #[trigger] s[i];
            '0' <= c <= '9' || 'a' <= c <= 'f' || c == ':' || c == '.'
        }
}

/// The text that the standard library writes for an address: IPv6 where `v6` holds, IPv4
/// where it does not.
pub uninterp spec fn address_text(v6: bool, bits: u128) -> Seq<char>;

/// The address that the standard library reads in a text, as its family and its bits.
pub uninterp spec fn address_read(s: Seq<char>) -> Option<(bool, u128)>;

impl IpAddr {
    /// The family and the bits of the address: two addresses are one exactly when these are.
    pub open spec fn key(self) -> (bool, u128) {
        match self {
            IpAddr::V4(bits) => (false, bits as u128),
            IpAddr::V6(bits) => (true, bits),
        }
    }

    /// The address in text.
    pub open spec fn text(self) -> Seq<char> {
        address_text(self.key().0, self.key().1)
    }
}

/// The address with the given family and bits.
pub open spec fn address_of(key: (bool, u128)) -> IpAddr {
    if key.0 {
        IpAddr::V6(key.1)
    } else {
        IpAddr::V4(key.1 as u32)
    }
}

/// `ipnet::Ipv4Net::contains` for an address: it lies between the first and the last
/// address of the network, so it has the network's first `prefix_len` bits.
#[verifier::external_body]
fn ipv4_net_contains(addr: u32, prefix_len: u8, ip: u32) -> (r: bool)
    requires
        prefix_len <= 32,
    ensures
        r == same_prefix(addr as int, ip as int, 32, prefix_len as int),
{
    let host = ipnet::Ipv4Net::new(ip.into(), prefix_len).unwrap().addr();
    ipnet::Ipv4Net::new(addr.into(), prefix_len).unwrap().contains(&host)
}

/// `ipnet::Ipv6Net::contains` for an address: it lies between the first and the last
/// address of the network, so it has the network's first `prefix_len` bits.
#[verifier::external_body]
fn ipv6_net_contains(addr: u128, prefix_len: u8, ip: u128) -> (r: bool)
    requires
        prefix_len <= 128,
    ensures
        r == same_prefix(addr as int, ip as int, 128, prefix_len as int),
{
    let host = ipnet::Ipv6Net::new(ip.into(), prefix_len).unwrap().addr();
    ipnet::Ipv6Net::new(addr.into(), prefix_len).unwrap().contains(&host)
}

/// The `Display` text of the standard library's address type: the four bytes of an IPv4
/// address in base ten with dots between them; for an IPv6 address hexadecimal groups,
/// colons and, in a mapped IPv4 address, a dotted tail. The text reads back as the address,
/// so no text stands for two addresses. It has at most eight groups of four digits with a
/// colon between them, or a dotted tail in place of two groups.
#[verifier::external_body]
fn write_address(ip: IpAddr) -> (r: String)
    ensures
        r@ == address_text(ip.key().0, ip.key().1),
        ip matches IpAddr::V4(bits) ==> r@ == dotted_quad(bits),
        address_read(r@) == Some(ip.key()),
        address_characters(r@),
        forall|other: IpAddr| other != ip ==> r@ != #[trigger] other.text(),
{
    match ip {
        IpAddr::V4(bits) => ipnet::IpNet::new(bits.to_be_bytes().into(), 0),
        IpAddr::V6(bits) => ipnet::IpNet::new(bits.to_be_bytes().into(), 0),
    }.unwrap().addr().to_string()
}

/// The standard library's reading of an address in text (`FromStr` of its address type).
/// The IPv4 dotted form and the IPv6 forms are read; anything else gives nothing.
#[verifier::external_body]
fn read_address(s: &str) -> (r: Option<IpAddr>)
    ensures
        match r {
            Some(ip) => address_read(s@) == Some(ip.key()),
            None => address_read(s@) is None,
        },
{
    match ipnet::IpNet::new(s.parse().ok()?, 0).ok()? {
        ipnet::IpNet::V4(net) => Some(IpAddr::V4(net.addr().into())),
        ipnet::IpNet::V6(net) => Some(IpAddr::V6(net.addr().into())),
    }
}

impl IpAddr {
    /// The address that `s` writes.
    pub fn parse(s: &str) -> (r: Option<IpAddr>)
        ensures
            match r {
                Some(ip) => address_read(s@) == Some(ip.key()),
                None => address_read(s@) is None,
            },
    {
        read_address(s)
    }

    /// The address in text. It reads back as the address, and no other address has it.
    pub fn to_text(self) -> (r: String)
        ensures
            r@ == self.text(),
            self matches IpAddr::V4(bits) ==> r@ == dotted_quad(bits),
            address_read(r@) == Some(self.key()),
            address_characters(r@),
            forall|other: IpAddr| other != self ==> r@ != #[trigger] other.text(),
    {
        write_address(self)
    }

    /// The family and the bits of the address.
    pub fn to_key(self) -> (r: (bool, u128))
        ensures
            r == self.key(),
            address_of(r) == self,
    {
        match self {
            IpAddr::V4(bits) => (false, bits as u128),
            IpAddr::V6(bits) => (true, bits),
        }
    }
}

/// A network: the addresses that share the first `prefix_len` bits of `addr`.
#[derive(Clone, Copy, Debug, PartialEq, Eq, Structural)]
pub struct IpNet {
    addr: IpAddr,
    prefix_len: u8,
}

impl IpNet {
    #[verifier::type_invariant]
    spec fn prefix_fits(self) -> bool {
        self.prefix_len <= address_bits(self.addr)
    }

    /// An address of the network.
    pub closed spec fn address(self) -> IpAddr {
        self.addr
    }

    /// The number of leading bits that the network fixes.
    pub closed spec fn prefix(self) -> u8 {
        self.prefix_len
    }

    /// `ip` lies in the network.
    pub open spec fn holds(self, ip: IpAddr) -> bool {
        in_network(self.address(), self.prefix(), ip)
    }

    /// The network of the first `prefix_len` bits of `addr`, if `addr` has that many.
    pub fn new(addr: IpAddr, prefix_len: u8) -> (r: Option<IpNet>)
        ensures
            r is Some <==> prefix_len <= address_bits(addr),
            r matches Some(net) ==> net.address() == addr && net.prefix() == prefix_len,
    {
        let bits: u8 = match addr {
            IpAddr::V4(_) => 32,
            IpAddr::V6(_) => 128,
        };
        if prefix_len <= bits {
            Some(IpNet { addr, prefix_len })
        } else {
            None
        }
    }

    /// Whether `ip` lies in the network.
    pub fn contains(&self, ip: IpAddr) -> (r: bool)
        ensures
            r == self.holds(ip),
    {
        proof {
            use_type_invariant(self);
        }
        match (self.addr, ip) {
            (IpAddr::V4(a), IpAddr::V4(b)) => ipv4_net_contains(a, self.prefix_len, b),
            (IpAddr::V6(a), IpAddr::V6(b)) => ipv6_net_contains(a, self.prefix_len, b),
            _ => false,
        }
    }
}

/// Whether `ip` lies in one of `nets`.
pub fn any_contains(nets: &Vec<IpNet>, ip: IpAddr) -> (r: bool)
    ensures
        r == exists|i: int| 0 <= i < nets@.len() && (#[trigger] nets@[i]).holds(ip),
{
    let mut i: usize = 0;
    while i < nets.len()
        invariant
            i <= nets@.len(),
            forall|j: int| 0 <= j < i ==> !(#[trigger] nets@[j]).holds(ip),
        decreases nets@.len() - i,
    {
        if nets[i].contains(ip) {
            assert(nets@[i as int].holds(ip));
            return true;
        }
        i = i + 1;
    }
    false
}

/// Two numbers give one quotient exactly where the second lies in the range of the divisor's
/// length that begins at the greatest multiple below the first.
proof fn lemma_same_quotient(a: int, b: int, d: int)
    requires
        d > 0,
    ensures
        a / d == b / d <==> a - a % d <= b < a - a % d + d,
{
    lemma_fundamental_div_mod(a, d);
    lemma_fundamental_div_mod(b, d);
    let base = d * (a / d);
    if base <= b < base + d {
        assert(b == (a / d) * d + (b - base)) by (nonlinear_arith)
            requires
                base == d * (a / d),
        ;
        lemma_fundamental_div_mod_converse(b, d, a / d, b - base);
    }
}

/// A network is the range of addresses of its family that begins at the address with all
/// bits behind the prefix off and has as many addresses as those bits can write.
pub proof fn law_a_network_is_a_range(a: u32, b: u32, wide: u128, other: u128, prefix_len: u8)
    ensures
        prefix_len <= 32 ==> {
            let size = pow2((32 - prefix_len) as nat) as int;
            in_network(IpAddr::V4(a), prefix_len, IpAddr::V4(b)) <==> a - a as int % size <= b < a
                - a as int % size + size
        },
        prefix_len <= 128 ==> {
            let size = pow2((128 - prefix_len) as nat) as int;
            in_network(IpAddr::V6(wide), prefix_len, IpAddr::V6(other)) <==> wide - wide as int
                % size <= other < wide - wide as int % size + size
        },
{
    if prefix_len <= 32 {
        lemma_pow2_pos((32 - prefix_len) as nat);
        lemma_same_quotient(a as int, b as int, pow2((32 - prefix_len) as nat) as int);
    }
    if prefix_len <= 128 {
        lemma_pow2_pos((128 - prefix_len) as nat);
        lemma_same_quotient(wide as int, other as int, pow2((128 - prefix_len) as nat) as int);
    }
}

/// A network holds the address it was made with, and no address of the other family.
pub proof fn law_a_network_holds_its_own_family(net: IpNet, a: u32, wide: u128)
    ensures
        net.holds(net.address()),
        net.address() == IpAddr::V4(a) ==> !net.holds(IpAddr::V6(wide)),
        net.address() == IpAddr::V6(wide) ==> !net.holds(IpAddr::V4(a)),
{
}

/// No two addresses have one key, and a key gives its address.
pub proof fn law_keys_tell_addresses_apart(one: IpAddr, other: IpAddr)
    ensures
        one.key() == other.key() <==> one == other,
        address_of(one.key()) == one,
{
}

/// An IPv4 address is written as its four bytes, the first one first.
pub proof fn law_ipv4_addresses_are_written_byte_by_byte(a: u8, b: u8, c: u8, d: u8)
    ensures
        dotted_quad((a * 0x100_0000 + b * 0x1_0000 + c * 0x100 + d) as u32) == decimal(a as nat)
            + seq!['.'] + decimal(b as nat) + seq!['.'] + decimal(c as nat) + seq!['.'] + decimal(
            d as nat,
        ),
{
    let bits = (a * 0x100_0000 + b * 0x1_0000 + c * 0x100 + d) as u32;
    assert(bits / 0x100_0000 == a && bits / 0x1_0000 % 0x100 == b && bits / 0x100 % 0x100 == c
        && bits % 0x100 == d);
}

} // verus!
