//! IPv6 addresses, held as their sixteen octets in network order.

use vstd::prelude::*;

verus! {

/// An IPv6 address.
#[derive(Debug, Clone, Copy, PartialEq, Eq, Hash)]
pub struct Ipv6Addr {
    pub octets: [u8; 16],
}

impl View for Ipv6Addr {
    type V = Seq<u8>;

    open spec fn view(&self) -> Seq<u8> {
        self.octets@
    }
}

/// The two octets of a 16-bit segment, high octet first.
pub open spec fn segment_octets(x: u16) -> Seq<u8> {
    seq![(x / 0x100) as u8, (x % 0x100) as u8]
}

impl Ipv6Addr {
    /// The address made of eight 16-bit segments, as written in text.
    pub fn new(a: u16, b: u16, c: u16, d: u16, e: u16, f: u16, g: u16, h: u16) -> (r: Ipv6Addr)
        ensures
            r@ == segment_octets(a) + segment_octets(b) + segment_octets(c) + segment_octets(d)
                + segment_octets(e) + segment_octets(f) + segment_octets(g) + segment_octets(h),
    {
        let r = Ipv6Addr {
            octets: [
                (a / 0x100) as u8,
                (a % 0x100) as u8,
                (b / 0x100) as u8,
                (b % 0x100) as u8,
                (c / 0x100) as u8,
                (c % 0x100) as u8,
                (d / 0x100) as u8,
                (d % 0x100) as u8,
                (e / 0x100) as u8,
                (e % 0x100) as u8,
                (f / 0x100) as u8,
                (f % 0x100) as u8,
                (g / 0x100) as u8,
                (g % 0x100) as u8,
                (h / 0x100) as u8,
                (h % 0x100) as u8,
            ],
        };
        assert(r@ =~= segment_octets(a) + segment_octets(b) + segment_octets(c) + segment_octets(d)
            + segment_octets(e) + segment_octets(f) + segment_octets(g) + segment_octets(h));
        r
    }

    /// The address whose octets are the first sixteen of `s`.
    pub fn from_slice(s: &[u8]) -> (r: Ipv6Addr)
        requires
            s@.len() >= 16,
        ensures
            r@ == s@.subrange(0, 16),
    {
        let mut octets = [0u8; 16];
        let mut i: usize = 0;
        while i < 16
            invariant
                i <= 16,
                s@.len() >= 16,
                octets@.len() == 16,
                octets@.subrange(0, i as int) == s@.subrange(0, i as int),
            decreases 16 - i,
        {
            octets[i] = s[i];
            i += 1;
            assert(octets@.subrange(0, i as int) =~= s@.subrange(0, i as int));
        }
        assert(octets@ =~= s@.subrange(0, 16));
        Ipv6Addr { octets }
    }

    /// Whether two addresses are the same.
    pub fn same(&self, other: &Ipv6Addr) -> (r: bool)
        ensures
            r == (self@ == other@),
    {
        let mut i: usize = 0;
        while i < 16
            invariant
                i <= 16,
                self@.len() == 16,
                other@.len() == 16,
                self@.subrange(0, i as int) == other@.subrange(0, i as int),
            decreases 16 - i,
        {
            if self.octets[i] != other.octets[i] {
                assert(self@[i as int] != other@[i as int]);
                return false;
            }
            i += 1;
            assert(self@.subrange(0, i as int) =~= other@.subrange(0, i as int));
        }
        assert(self@ =~= self@.subrange(0, 16));
        assert(other@ =~= other@.subrange(0, 16));
        true
    }
}

} // verus!
