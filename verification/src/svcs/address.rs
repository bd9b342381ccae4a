//! Backend addresses, and the order in which a pool keeps them.

use vstd::prelude::*;

verus! {

/// An IP address as a number: the four bytes of a version 4 address, or the
/// sixteen of a version 6 address, most significant byte first.
#[derive(Clone, Copy, Debug, PartialEq, Eq, Structural)]
pub enum IpAddress {
    V4(u32),
    V6(u128),
}

/// One backend: an address and a port.
#[derive(Clone, Copy, Debug, PartialEq, Eq, Structural)]
pub struct BackendAddress {
    pub ip: IpAddress,
    pub port: u16,
}

impl IpAddress {
    /// 4 or 6.
    pub open spec fn family(self) -> int {
        match self {
            IpAddress::V4(_) => 4,
            IpAddress::V6(_) => 6,
        }
    }

    /// The address as a number.
    pub open spec fn number(self) -> int {
        match self {
            IpAddress::V4(bits) => bits as int,
            IpAddress::V6(bits) => bits as int,
        }
    }

    /// Version 4 addresses come first; within a family the smaller number does.
    pub open spec fn precedes(self, other: IpAddress) -> bool {
        self.family() < other.family() || (self.family() == other.family() && self.number()
            < other.number())
    }

    /// Whether `self` comes strictly before `other`.
    pub fn lt(&self, other: &IpAddress) -> (before: bool)
        ensures
            before == self.precedes(*other),
    {
        match (*self, *other) {
            (IpAddress::V4(a), IpAddress::V4(b)) => a < b,
            (IpAddress::V4(_), IpAddress::V6(_)) => true,
            (IpAddress::V6(_), IpAddress::V4(_)) => false,
            (IpAddress::V6(a), IpAddress::V6(b)) => a < b,
        }
    }
}

impl BackendAddress {
    /// The backend at `ip` on `port`.
    pub fn new(ip: IpAddress, port: u16) -> (address: BackendAddress)
        ensures
            address == (BackendAddress { ip, port }),
    {
        BackendAddress { ip, port }
    }

    /// The order of a pool: by address, then by port.
    pub open spec fn precedes(self, other: BackendAddress) -> bool {
        self.ip.precedes(other.ip) || (self.ip == other.ip && self.port < other.port)
    }

    /// Whether `self` comes strictly before `other` in a pool.
    pub fn lt(&self, other: &BackendAddress) -> (before: bool)
        ensures
            before == self.precedes(*other),
    {
        if self.ip.lt(&other.ip) {
            true
        } else if self.ip == other.ip {
            self.port < other.port
        } else {
            false
        }
    }
}

/// `precedes` is a strict total order on backend addresses: no address precedes
/// itself, of two different addresses exactly one precedes the other, and the
/// relation is transitive.
pub proof fn law_precedes_is_a_strict_total_order(
    a: BackendAddress,
    b: BackendAddress,
    c: BackendAddress,
)
    ensures
        !a.precedes(a),
        a != b ==> (a.precedes(b) <==> !b.precedes(a)),
        a == b ==> !a.precedes(b),
        a.precedes(b) && b.precedes(c) ==> a.precedes(c),
{
}

/// Whether `s` is strictly ascending: each address precedes every later one.
/// Such a sequence holds no address twice.
pub open spec fn strictly_ascending(s: Seq<BackendAddress>) -> bool {
    forall|i: int, j: int| 0 <= i < j < s.len() ==> (#[trigger] s[i]).precedes(#[trigger] s[j])
}

/// A strictly ascending sequence is fixed by its members: two of them with the same
/// members are the same sequence.
pub proof fn lemma_ascending_is_canonical(s: Seq<BackendAddress>, t: Seq<BackendAddress>)
    requires
        strictly_ascending(s),
        strictly_ascending(t),
        forall|x: BackendAddress|
            #![trigger s.contains(x)]
            #![trigger t.contains(x)]
            s.contains(x) <==> t.contains(x),
    ensures
        s == t,
    decreases s.len(),
{
    if s.len() == 0 {
        if t.len() > 0 {
            assert(t.contains(t[0]));
        }
        assert(s =~= t);
    } else {
        assert(s.contains(s[0]));
        assert(t.contains(s[0]));
        // The first member of each is the least of the common members.
        let i = choose|i: int| 0 <= i < t.len() && t[i] == s[0];
        assert(t.contains(t[0]));
        assert(s.contains(t[0]));
        let j = choose|j: int| 0 <= j < s.len() && s[j] == t[0];
        if i > 0 {
            assert(t[0].precedes(t[i]));
            if j > 0 {
                assert(s[0].precedes(s[j]));
            }
        }
        assert(s[0] == t[0]);
        let s1 = s.subrange(1, s.len() as int);
        let t1 = t.subrange(1, t.len() as int);
        assert forall|a: int, b: int| 0 <= a < b < s1.len() implies (#[trigger] s1[a]).precedes(
            #[trigger] s1[b],
        ) by {
            assert(s[a + 1].precedes(s[b + 1]));
        }
        assert forall|a: int, b: int| 0 <= a < b < t1.len() implies (#[trigger] t1[a]).precedes(
            #[trigger] t1[b],
        ) by {
            assert(t[a + 1].precedes(t[b + 1]));
        }
        assert forall|x: BackendAddress|
            #![trigger s1.contains(x)]
            #![trigger t1.contains(x)]
            s1.contains(x) <==> t1.contains(x) by {
            if s1.contains(x) {
                let a = choose|a: int| 0 <= a < s1.len() && s1[a] == x;
                assert(s[a + 1] == x);
                assert(s[0].precedes(s[a + 1]));
                assert(s.contains(x));
                let b = choose|b: int| 0 <= b < t.len() && t[b] == x;
                assert(b > 0);
                assert(t1[b - 1] == x);
            }
            if t1.contains(x) {
                let a = choose|a: int| 0 <= a < t1.len() && t1[a] == x;
                assert(t[a + 1] == x);
                assert(t[0].precedes(t[a + 1]));
                assert(t.contains(x));
                let b = choose|b: int| 0 <= b < s.len() && s[b] == x;
                assert(b > 0);
                assert(s1[b - 1] == x);
            }
        }
        lemma_ascending_is_canonical(s1, t1);
        assert(s =~= seq![s[0]] + s1);
        assert(t =~= seq![t[0]] + t1);
    }
}

} // verus!
