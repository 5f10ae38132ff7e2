//! Sets of CPUs.
use vstd::prelude::*;

verus! {

/// The number of CPUs that a mask can tell apart: a mask is one word of 64 bits, one for each CPU.
pub const MAX_CPUS: usize = 64;

/// A set of CPUs.
#[derive(Clone, Copy, Debug, PartialEq, Eq, Structural)]
pub struct CpuMask {
    /// Bit `i` is set if CPU `i` is in the set.
    pub bits: u64,
}

impl CpuMask {
    /// CPU `cpu` is in the set.
    pub open spec fn holds(self, cpu: int) -> bool {
        0 <= cpu < MAX_CPUS && (self.bits >> (cpu as u64)) & 1 == 1
    }

    /// No CPU is in the set.
    pub open spec fn is_void(self) -> bool {
        forall|cpu: int| !self.holds(cpu)
    }

    /// The set of the first `n` CPUs.
    pub open spec fn first(n: usize) -> CpuMask {
        CpuMask {
            bits: if n == MAX_CPUS {
                u64::MAX
            } else {
                ((1u64 << (n as u64)) - 1) as u64
            },
        }
    }

    /// The set without a CPU.
    pub fn new() -> (r: Self)
        ensures
            r.is_void(),
    {
        let r = CpuMask { bits: 0 };
        assert forall|cpu: int| !r.holds(cpu) by {
            let i = cpu as u64;
            assert((0u64 >> i) & 1 == 0) by (bit_vector);
        }
        r
    }

    /// The set of the first `n` CPUs.
    pub fn full(n: usize) -> (r: Self)
        requires
            n <= MAX_CPUS,
        ensures
            r == CpuMask::first(n),
            forall|cpu: int| #[trigger] r.holds(cpu) <==> 0 <= cpu < n,
    {
        let m: u64 = n as u64;
        let bits: u64 = if m == 64 {
            u64::MAX
        } else {
            assert((1u64 << m) >= 1) by (bit_vector)
                requires
                    m < 64,
            ;
            (1u64 << m) - 1
        };
        let r = CpuMask { bits };
        assert forall|cpu: int| #[trigger] r.holds(cpu) <==> 0 <= cpu < n by {
            lemma_first(n, cpu);
        }
        r
    }

    /// Whether CPU `cpu` is in the set.
    pub fn get(&self, cpu: usize) -> (r: bool)
        ensures
            r == self.holds(cpu as int),
    {
        if cpu < MAX_CPUS {
            (self.bits >> (cpu as u64)) & 1 == 1
        } else {
            false
        }
    }

    /// Whether no CPU is in the set.
    pub fn is_empty(&self) -> (r: bool)
        ensures
            r == self.is_void(),
    {
        let mut cpu: usize = 0;
        while cpu < MAX_CPUS
            invariant
                cpu <= MAX_CPUS,
                forall|c: int| 0 <= c < cpu ==> !self.holds(c),
            decreases MAX_CPUS - cpu,
        {
            if self.get(cpu) {
                return false;
            }
            cpu = cpu + 1;
        }
        true
    }
}

/// The first `n` CPUs are those with the numbers below `n`.
pub proof fn lemma_first(n: usize, cpu: int)
    requires
        n <= MAX_CPUS,
    ensures
        CpuMask::first(n).holds(cpu) <==> 0 <= cpu < n,
{
    let m: u64 = n as u64;
    if 0 <= cpu < MAX_CPUS {
        let i = cpu as u64;
        if m == 64 {
            assert((u64::MAX >> i) & 1 == 1) by (bit_vector)
                requires
                    i < 64,
            ;
        } else {
            assert((1u64 << m) >= 1) by (bit_vector)
                requires
                    m < 64,
            ;
            assert(((((1u64 << m) - 1) as u64 >> i) & 1 == 1) <==> i < m) by (bit_vector)
                requires
                    m < 64,
                    i < 64,
            ;
        }
    }
}

} // verus!
