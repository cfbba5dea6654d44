use vstd::arithmetic::power2::*;
use vstd::prelude::*;

verus! {

/// An IP network as plain values: the address it was written with and its
/// prefix length.
#[derive(Clone, Copy, Debug, PartialEq, Eq)]
pub struct IpNet {
    pub v6: bool,
    pub addr: u128,
    pub prefix: u8,
}

impl IpNet {
    pub open spec fn total_bits(self) -> nat {
        if self.v6 { 128 } else { 32 }
    }

    /// The prefix fits the address family and the address fits its width.
    pub open spec fn wf(self) -> bool {
        &&& self.prefix <= self.total_bits()
        &&& self.addr < pow2(self.total_bits())
    }

    pub open spec fn host_bits(self) -> nat {
        (self.total_bits() - self.prefix) as nat
    }

    /// The number of addresses in the network.
    pub open spec fn size(self) -> nat {
        pow2(self.host_bits())
    }

    /// The lowest address of the network.
    pub open spec fn base(self) -> int {
        self.addr as int - (self.addr as int) % (self.size() as int)
    }

    /// Every address of the network, lowest first.
    pub open spec fn addresses(self) -> Seq<u128> {
        Seq::new(self.size(), |i: int| (self.base() + i) as u128)
    }

    /// The number of host bits, computed.
    pub fn host_bit_count(&self) -> (r: u32)
        requires
            self.wf(),
        ensures
            r == self.host_bits(),
    {
        if self.v6 {
            128 - self.prefix as u32
        } else {
            32 - self.prefix as u32
        }
    }
}

proof fn lemma_pow2_32_128()
    ensures
        pow2(32) == 0x1_0000_0000,
        pow2(128) == 0x1_0000_0000_0000_0000_0000_0000_0000_0000,
{
    lemma2_to64();
    lemma_pow2_adds(64, 64);
}

/// The network's last address stays within the address width.
proof fn lemma_base_plus_size(n: IpNet)
    requires
        n.wf(),
    ensures
        0 <= n.base(),
        n.base() + n.size() <= pow2(n.total_bits()),
        n.base() % (n.size() as int) == 0,
{
    let s = n.size() as int;
    let a = n.addr as int;
    lemma_pow2_pos(n.host_bits());
    lemma_pow2_adds(n.host_bits(), n.prefix as nat);
    let m = pow2(n.prefix as nat) as int;
    let t = pow2(n.total_bits()) as int;
    assert(s * m == t);
    let q = a / s;
    assert(a == s * q + a % s && 0 <= a % s < s) by (nonlinear_arith)
        requires
            s > 0,
            q == a / s,
    ;
    assert(n.base() == s * q);
    assert(q < m) by (nonlinear_arith)
        requires
            s * q <= a,
            a < t,
            t == s * m,
            s > 0,
    ;
    assert(s * q + s <= s * m) by (nonlinear_arith)
        requires
            q + 1 <= m,
            s > 0,
    ;
    assert(q >= 0) by (nonlinear_arith)
        requires
            a >= 0,
            s > 0,
            q == a / s,
    ;
    assert((s * q) % s == 0) by (nonlinear_arith)
        requires
            s > 0,
    ;
}

/// Every address of a network whose size fits in memory, lowest first.
pub fn network_addresses(n: &IpNet) -> (r: Vec<u128>)
    requires
        n.wf(),
        n.host_bits() < 64,
    ensures
        r@ == n.addresses(),
{
    let hb = n.host_bit_count();
    let mut size: u128 = 1;
    let mut k: u32 = 0;
    proof {
        lemma2_to64();
        lemma_pow2_32_128();
    }
    while k < hb
        invariant
            k <= hb,
            hb == n.host_bits(),
            hb < 64,
            size == pow2(k as nat),
            size > 0,
        decreases hb - k,
    {
        proof {
            lemma2_to64();
            lemma_pow2_strictly_increases(k as nat, 64);
            lemma_pow2_unfold((k + 1) as nat);
        }
        size = size * 2;
        k = k + 1;
    }
    proof {
        lemma_base_plus_size(*n);
        lemma_pow2_32_128();
    }
    let base: u128 = n.addr - n.addr % size;
    let mut out: Vec<u128> = Vec::new();
    let mut i: u128 = 0;
    while i < size
        invariant
            size == n.size(),
            base == n.base(),
            n.base() + n.size() <= pow2(n.total_bits()),
            pow2(n.total_bits()) <= 0x1_0000_0000_0000_0000_0000_0000_0000_0000,
            i <= size,
            out@.len() == i,
            forall|j: int| 0 <= j < i ==> out@[j] == n.addresses()[j],
        decreases size - i,
    {
        out.push(base + i);
        i = i + 1;
    }
    assert(out@ =~= n.addresses());
    out
}

/// The expansion of a network holds exactly its address count, and no
/// address twice.
pub proof fn lemma_addresses_count_distinct(n: IpNet)
    requires
        n.wf(),
    ensures
        n.addresses().len() == pow2(n.host_bits()),
        n.addresses().no_duplicates(),
        forall|i: int|
            0 <= i < n.addresses().len() ==> n.addresses()[i] < pow2(n.total_bits()),
{
    lemma_base_plus_size(n);
    lemma_pow2_32_128();
    assert forall|i: int, j: int|
        0 <= i < n.addresses().len() && 0 <= j < n.addresses().len() && i != j implies n.addresses()[i]
            != n.addresses()[j] by {}
}

} // verus!
