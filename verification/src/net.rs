//! Transport addresses, as plain values.
use vstd::prelude::*;

verus! {

/// An IP address.
#[derive(Clone, Copy, PartialEq, Eq, Debug)]
pub enum IpAddress {
    V4([u8; 4]),
    V6([u8; 16]),
}

/// An IP address and a UDP port.
#[derive(Clone, Copy, PartialEq, Eq, Debug)]
pub struct SocketAddress {
    pub ip: IpAddress,
    pub port: u16,
}

impl IpAddress {
    /// The IPv4 address this stands for: itself, or the one inside an
    /// IPv4-mapped IPv6 address `::ffff:a.b.c.d`.
    pub open spec fn spec_ipv4(self) -> Option<Seq<u8>> {
        match self {
            IpAddress::V4(octets) => Some(octets@),
            IpAddress::V6(octets) => {
                if (forall|i: int| 0 <= i < 10 ==> octets@[i] == 0) && octets@[10] == 0xff && octets@[11]
                    == 0xff {
                    Some(octets@.subrange(12, 16))
                } else {
                    None
                }
            },
        }
    }

    pub fn ipv4(&self) -> (r: Option<[u8; 4]>)
        ensures
            match self.spec_ipv4() {
                Some(v) => r matches Some(a) && a@ == v,
                None => r is None,
            },
    {
        match self {
            IpAddress::V4(octets) => Some(*octets),
            IpAddress::V6(o) => {
                let mut i: usize = 0;
                while i < 10
                    invariant
                        i <= 10,
                        *self == IpAddress::V6(*o),
                        forall|j: int| 0 <= j < i ==> o@[j] == 0,
                    decreases 10 - i,
                {
                    if o[i] != 0 {
                        return None;
                    }
                    i += 1;
                }
                if o[10] == 0xff && o[11] == 0xff {
                    let a = [o[12], o[13], o[14], o[15]];
                    assert(a@ =~= o@.subrange(12, 16));
                    Some(a)
                } else {
                    None
                }
            },
        }
    }
}

} // verus!
