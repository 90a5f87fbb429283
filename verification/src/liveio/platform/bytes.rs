//! Numbers in raw memory, lowest byte first.

use vstd::prelude::*;

verus! {

/// The number that the bytes spell, lowest byte first.
pub open spec fn little_endian(b: Seq<u8>) -> nat
    decreases b.len(),
{
    if b.len() == 0 {
        0
    } else {
        b[0] as nat + 256 * little_endian(b.drop_first())
    }
}

/// The number of 16 bits at place `at`.
pub fn u16_at(b: &[u8], at: usize) -> (n: u16)
    requires
        at + 2 <= b@.len(),
    ensures
        n == little_endian(b@.subrange(at as int, at + 2)),
{
    proof {
        reveal_with_fuel(little_endian, 3);
    }
    b[at] as u16 + 256 * (b[at + 1] as u16)
}

/// The number of 64 bits at place `at`.
pub fn u64_at(b: &[u8], at: usize) -> (n: u64)
    requires
        at + 8 <= b@.len(),
    ensures
        n == little_endian(b@.subrange(at as int, at + 8)),
{
    let mut n: u64 = 0;
    let mut i: usize = 8;
    let end: usize = b.len();
    let ghost part = b@.subrange(at as int, at + 8);
    proof {
        assert(part.skip(8) =~= Seq::empty());
    }
    while i > 0
        invariant
            i <= 8,
            at + 8 <= end,
            end == b@.len(),
            part == b@.subrange(at as int, at + 8),
            n == little_endian(part.skip(i as int)),
            i == 8 ==> n == 0,
            i == 7 ==> n < 0x100,
            i == 6 ==> n < 0x1_0000,
            i == 5 ==> n < 0x100_0000,
            i == 4 ==> n < 0x1_0000_0000,
            i == 3 ==> n < 0x100_0000_0000,
            i == 2 ==> n < 0x1_0000_0000_0000,
            i == 1 ==> n < 0x100_0000_0000_0000,
        decreases i,
    {
        i = i - 1;
        assert(part.skip(i as int).drop_first() =~= part.skip(i + 1));
        assert(part.skip(i as int)[0] == b@[at + i]);
        n = b[at + i] as u64 + 256 * n;
    }
    assert(part.skip(0) =~= part);
    n
}

} // verus!
