//! Big-endian numbers from short byte slices.
use vstd::prelude::*;

verus! {

/// The number the bytes spell, most significant first.
pub open spec fn be_num(s: Seq<u8>) -> nat
    decreases s.len(),
{
    if s.len() == 0 {
        0
    } else {
        be_num(s.drop_last()) * 256 + s.last() as nat
    }
}

/// The number the first two bytes spell, most significant first; a shorter
/// slice counts as if padded with leading zeros.
pub fn bytes_to_u16_be(bytes: &[u8]) -> (r: u16)
    ensures
        r == be_num(bytes@.take(if bytes@.len() < 2 {
            bytes@.len() as int
        } else {
            2
        })),
{
    if bytes.len() == 0 {
        proof {
            assert(bytes@.take(0).len() == 0);
        }
        0
    } else if bytes.len() == 1 {
        proof {
            let s = bytes@.take(1);
            assert(s.drop_last().len() == 0);
            assert(be_num(s.drop_last()) == 0);
            assert(be_num(s) == bytes@[0] as nat);
        }
        bytes[0] as u16
    } else {
        proof {
            let s = bytes@.take(2);
            let t = s.drop_last();
            assert(t.drop_last().len() == 0);
            assert(be_num(t.drop_last()) == 0);
            assert(t.last() == bytes@[0]);
            assert(be_num(t) == bytes@[0] as nat);
            assert(be_num(s) == bytes@[0] as nat * 256 + bytes@[1] as nat);
        }
        bytes[0] as u16 * 0x100 + bytes[1] as u16
    }
}

/// The number the first four bytes spell, most significant first; a shorter
/// slice counts as if padded with leading zeros.
pub fn bytes_to_u32_be(bytes: &[u8]) -> (r: u32)
    ensures
        r == be_num(bytes@.take(if bytes@.len() < 4 {
            bytes@.len() as int
        } else {
            4
        })),
{
    let n: usize = if bytes.len() < 4 {
        bytes.len()
    } else {
        4
    };
    let mut v: u32 = 0;
    let mut i: usize = 0;
    while i < n
        invariant
            n <= 4,
            n <= bytes@.len(),
            i <= n,
            v == be_num(bytes@.take(i as int)),
            v < pow256(i as nat),
        decreases n - i,
    {
        proof {
            let s = bytes@.take(i + 1);
            assert(s.drop_last() =~= bytes@.take(i as int));
            assert(s.last() == bytes@[i as int]);
            assert(v * 256 + bytes@[i as int] < pow256(i as nat) * 256) by (nonlinear_arith)
                requires
                    v < pow256(i as nat),
                    bytes@[i as int] < 256,
            ;
            assert(pow256((i + 1) as nat) == pow256(i as nat) * 256);
            assert(pow256(i as nat) * 256 <= 0x1_0000_0000) by {
                assert(pow256(0) == 1);
                assert(pow256(1) == 256);
                assert(pow256(2) == 65536);
                assert(pow256(3) == 16777216);
                assert(pow256(4) == 0x1_0000_0000);
            }
        }
        v = v * 256 + bytes[i] as u32;
        i = i + 1;
    }
    v
}

/// 256 to the power `n`.
pub open spec fn pow256(n: nat) -> nat
    decreases n,
{
    if n == 0 {
        1
    } else {
        pow256((n - 1) as nat) * 256
    }
}

} // verus!
