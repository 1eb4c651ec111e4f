//! IPv4 addresses of the virtual network.
use vstd::prelude::*;
use vstd::string::StringExecFns;
use crate::text::push_decimal;

verus! {

/// An IPv4 address, by its four octets.
#[derive(Clone, Copy, Debug, PartialEq, Eq, Structural, Hash)]
pub struct Ipv4Addr {
    pub a: u8,
    pub b: u8,
    pub c: u8,
    pub d: u8,
}

/// The dotted decimal text of an address.
pub open spec fn dotted(ip: Ipv4Addr) -> Seq<char> {
    crate::text::decimal(ip.a as nat) + "."@ + crate::text::decimal(ip.b as nat) + "."@ + crate::text::decimal(
        ip.c as nat,
    ) + "."@ + crate::text::decimal(ip.d as nat)
}

impl Ipv4Addr {
    /// The address `a.b.c.d`.
    pub fn new(a: u8, b: u8, c: u8, d: u8) -> (r: Self)
        ensures
            r == (Ipv4Addr { a, b, c, d }),
    {
        Ipv4Addr { a, b, c, d }
    }

    /// The four octets.
    pub fn octets(&self) -> (r: [u8; 4])
        ensures
            r@ == seq![self.a, self.b, self.c, self.d],
    {
        let r = [self.a, self.b, self.c, self.d];
        assert(r@ =~= seq![self.a, self.b, self.c, self.d]);
        r
    }

    /// The dotted decimal text.
    pub fn to_text(&self) -> (r: String)
        ensures
            r@ == dotted(*self),
    {
        let mut text = String::new();
        push_decimal(&mut text, self.a as u128);
        text.append(".");
        push_decimal(&mut text, self.b as u128);
        text.append(".");
        push_decimal(&mut text, self.c as u128);
        text.append(".");
        push_decimal(&mut text, self.d as u128);
        assert(text@ =~= dotted(*self));
        text
    }
}

/// The address whose upper half is `base` and whose lower half is `suffix`.
pub open spec fn ip_of(base: u16, suffix: u16) -> Ipv4Addr {
    Ipv4Addr {
        a: (base / 256) as u8,
        b: (base % 256) as u8,
        c: (suffix / 256) as u8,
        d: (suffix % 256) as u8,
    }
}

/// Puts a network prefix and host bits together.
pub fn build_ip(base_ip: u16, suffix: u16) -> (r: Ipv4Addr)
    ensures
        r == ip_of(base_ip, suffix),
{
    Ipv4Addr {
        a: (base_ip / 256) as u8,
        b: (base_ip % 256) as u8,
        c: (suffix / 256) as u8,
        d: (suffix % 256) as u8,
    }
}

/// Different host bits under one prefix are different addresses, and an address
/// determines its prefix and host bits.
pub proof fn build_ip_injective(base1: u16, suffix1: u16, base2: u16, suffix2: u16)
    requires
        ip_of(base1, suffix1) == ip_of(base2, suffix2),
    ensures
        base1 == base2,
        suffix1 == suffix2,
{
}

/// The prefix is the first two bytes of an address, the host bits are the other two.
pub proof fn addresses_are_prefix_and_host(base: u16, suffix: u16)
    ensures
        ip_of(base, suffix).a * 256 + ip_of(base, suffix).b == base,
        ip_of(base, suffix).c * 256 + ip_of(base, suffix).d == suffix,
{
}

} // verus!
