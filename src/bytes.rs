//! Byte-string building blocks of the arbitrating chain's wire format.
use vstd::prelude::*;

verus! {

/// Little-endian encoding of `n` on `k` bytes.
pub open spec fn le_bytes(n: nat, k: nat) -> Seq<u8>
    decreases k,
{
    if k == 0 {
        seq![]
    } else {
        seq![(n % 256) as u8] + le_bytes(n / 256, (k - 1) as nat)
    }
}

/// The variable-length integer prefix used for counts and lengths.
pub open spec fn compact_size(n: nat) -> Seq<u8> {
    if n < 0xfd {
        seq![n as u8]
    } else if n <= 0xffff {
        seq![0xfdu8] + le_bytes(n, 2)
    } else if n <= 0xffff_ffff {
        seq![0xfeu8] + le_bytes(n, 4)
    } else {
        seq![0xffu8] + le_bytes(n, 8)
    }
}

/// A byte string prefixed by its length.
pub open spec fn var_bytes(b: Seq<u8>) -> Seq<u8> {
    compact_size(b.len()) + b
}

/// Appends `src` to `dst`.
pub fn push_all(dst: &mut Vec<u8>, src: &[u8])
    ensures
        final(dst)@ == old(dst)@ + src@,
{
    let mut i: usize = 0;
    while i < src.len()
        invariant
            i <= src@.len(),
            dst@ == old(dst)@ + src@.subrange(0, i as int),
        decreases src@.len() - i,
    {
        dst.push(src[i]);
        i = i + 1;
        assert(dst@ =~= old(dst)@ + src@.subrange(0, i as int));
    }
    assert(src@.subrange(0, src@.len() as int) =~= src@);
}

/// Appends the `k` low bytes of `n`, least significant first.
pub fn push_le(dst: &mut Vec<u8>, n: u64, k: usize)
    requires
        k <= 8,
    ensures
        final(dst)@ == old(dst)@ + le_bytes(n as nat, k as nat),
{
    let mut i: usize = 0;
    let mut m: u64 = n;
    while i < k
        invariant
            i <= k,
            dst@ + le_bytes(m as nat, (k - i) as nat) == old(dst)@ + le_bytes(n as nat, k as nat),
        decreases k - i,
    {
        let ghost before = dst@;
        dst.push((m % 256) as u8);
        assert(le_bytes(m as nat, (k - i) as nat) =~= seq![(m % 256) as u8] + le_bytes(
            (m / 256) as nat,
            (k - i - 1) as nat,
        ));
        assert(dst@ + le_bytes((m / 256) as nat, (k - i - 1) as nat) =~= before + le_bytes(
            m as nat,
            (k - i) as nat,
        ));
        m = m / 256;
        i = i + 1;
    }
    assert(dst@ + le_bytes(m as nat, 0) =~= dst@);
}

/// Appends the length prefix for `n`.
pub fn push_compact_size(dst: &mut Vec<u8>, n: u64)
    ensures
        final(dst)@ == old(dst)@ + compact_size(n as nat),
{
    if n < 0xfd {
        dst.push(n as u8);
        assert(dst@ =~= old(dst)@ + compact_size(n as nat));
    } else if n <= 0xffff {
        dst.push(0xfd);
        push_le(dst, n, 2);
        assert(dst@ =~= old(dst)@ + compact_size(n as nat));
    } else if n <= 0xffff_ffff {
        dst.push(0xfe);
        push_le(dst, n, 4);
        assert(dst@ =~= old(dst)@ + compact_size(n as nat));
    } else {
        dst.push(0xff);
        push_le(dst, n, 8);
        assert(dst@ =~= old(dst)@ + compact_size(n as nat));
    }
}

/// Appends `src` with its length prefix.
pub fn push_var_bytes(dst: &mut Vec<u8>, src: &[u8])
    ensures
        final(dst)@ == old(dst)@ + var_bytes(src@),
{
    push_compact_size(dst, src.len() as u64);
    push_all(dst, src);
    assert(dst@ =~= old(dst)@ + var_bytes(src@));
}

/// Byte-wise equality of two strings.
pub fn bytes_eq(a: &[u8], b: &[u8]) -> (r: bool)
    ensures
        r == (a@ == b@),
{
    if a.len() != b.len() {
        return false;
    }
    let mut i: usize = 0;
    while i < a.len()
        invariant
            a@.len() == b@.len(),
            i <= a@.len(),
            forall|j: int| 0 <= j < i ==> a@[j] == b@[j],
        decreases a@.len() - i,
    {
        if a[i] != b[i] {
            return false;
        }
        i = i + 1;
    }
    assert(a@ =~= b@);
    true
}

} // verus!
