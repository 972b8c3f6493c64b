use vstd::prelude::*;

verus! {

/// A participant's 32-byte public identity.
#[derive(Debug, Clone, Copy)]
pub struct Identity {
    pub bytes: [u8; 32],
}

/// Byte-wise comparison of two fixed-size arrays.
pub fn same_bytes<const N: usize>(a: &[u8; N], b: &[u8; N]) -> (r: bool)
    ensures
        r == (a@ == b@),
        r == (*a == *b),
{
    let mut i: usize = 0;
    while i < N
        invariant
            0 <= i <= N,
            a@.len() == N,
            b@.len() == N,
            forall|k: int| 0 <= k < i ==> a@[k] == b@[k],
        decreases N - i,
    {
        if a[i] != b[i] {
            return false;
        }
        i = i + 1;
    }
    proof {
        assert(a@ =~= b@);
        assert(*a == *b);
    }
    true
}

impl Identity {
    /// The all-zero identity, standing for "no owner yet".
    pub fn zero() -> (r: Identity)
        ensures
            r.bytes@ == Seq::new(32, |_i: int| 0u8),
    {
        let r = Identity { bytes: [0u8; 32] };
        proof {
            assert(r.bytes@ =~= Seq::new(32, |_i: int| 0u8));
        }
        r
    }

    /// Whether two identities are the same.
    pub fn same(&self, other: &Identity) -> (r: bool)
        ensures
            r == (*self == *other),
    {
        let r = same_bytes(&self.bytes, &other.bytes);
        proof {
            if r {
                assert(self.bytes == other.bytes);
            }
        }
        r
    }
}

} // verus!
