//! Little-endian integers, the only integer form on the wire.
use vstd::prelude::*;

verus! {

/// The `width` low bytes of `x`, least significant first.
pub open spec fn le_bytes(x: nat, width: nat) -> Seq<u8>
    decreases width,
{
    if width == 0 {
        Seq::empty()
    } else {
        seq![(x % 256) as u8] + le_bytes(x / 256, (width - 1) as nat)
    }
}

/// The number whose little-endian bytes are `bytes`.
pub open spec fn le_value(bytes: Seq<u8>) -> nat
    decreases bytes.len(),
{
    if bytes.len() == 0 {
        0
    } else {
        bytes[0] as nat + 256 * le_value(bytes.skip(1))
    }
}

/// The first number that `width` bytes cannot hold.
pub open spec fn le_bound(width: nat) -> nat
    decreases width,
{
    if width == 0 {
        1
    } else {
        256 * le_bound((width - 1) as nat)
    }
}

pub broadcast proof fn lemma_le_bytes_len(x: nat, width: nat)
    ensures
        #[trigger] le_bytes(x, width).len() == width,
    decreases width,
{
    if width > 0 {
        lemma_le_bytes_len(x / 256, (width - 1) as nat);
    }
}

/// Reading back what was written gives the number that was written, whenever the
/// width can hold it.
pub proof fn le_bytes_round_trip(x: nat, width: nat)
    requires
        x < le_bound(width),
    ensures
        le_value(le_bytes(x, width)) == x,
    decreases width,
{
    if width > 0 {
        lemma_le_bytes_len(x, width);
        le_bytes_round_trip(x / 256, (width - 1) as nat);
        assert(le_bytes(x, width).skip(1) =~= le_bytes(x / 256, (width - 1) as nat));
    }
}

/// The widths in use hold exactly the integer types of that size.
pub proof fn lemma_le_bounds()
    ensures
        le_bound(1) == 0x100,
        le_bound(2) == 0x1_0000,
        le_bound(4) == 0x1_0000_0000,
        le_bound(8) == 0x1_0000_0000_0000_0000,
{
    reveal_with_fuel(le_bound, 9);
}

/// A 16-bit integer as its two wire bytes.
pub fn le_u16(x: u16) -> (bytes: [u8; 2])
    ensures
        bytes@ == le_bytes(x as nat, 2),
{
    let bytes: [u8; 2] = [(x % 256) as u8, (x / 256) as u8];
    proof {
        reveal_with_fuel(le_bytes, 3);
        assert(bytes@ =~= le_bytes(x as nat, 2));
    }
    bytes
}

/// A 32-bit integer as its four wire bytes.
pub fn le_u32(x: u32) -> (bytes: [u8; 4])
    ensures
        bytes@ == le_bytes(x as nat, 4),
{
    let x1: u32 = x / 256;
    let x2: u32 = x1 / 256;
    let x3: u32 = x2 / 256;
    let bytes: [u8; 4] = [(x % 256) as u8, (x1 % 256) as u8, (x2 % 256) as u8, x3 as u8];
    proof {
        reveal_with_fuel(le_bytes, 5);
        assert(bytes@ =~= le_bytes(x as nat, 4));
    }
    bytes
}

/// A 64-bit integer as its eight wire bytes.
pub fn le_u64(x: u64) -> (bytes: [u8; 8])
    ensures
        bytes@ == le_bytes(x as nat, 8),
{
    let x1: u64 = x / 256;
    let x2: u64 = x1 / 256;
    let x3: u64 = x2 / 256;
    let x4: u64 = x3 / 256;
    let x5: u64 = x4 / 256;
    let x6: u64 = x5 / 256;
    let x7: u64 = x6 / 256;
    let bytes: [u8; 8] = [
        (x % 256) as u8,
        (x1 % 256) as u8,
        (x2 % 256) as u8,
        (x3 % 256) as u8,
        (x4 % 256) as u8,
        (x5 % 256) as u8,
        (x6 % 256) as u8,
        x7 as u8,
    ];
    proof {
        reveal_with_fuel(le_bytes, 9);
        assert(bytes@ =~= le_bytes(x as nat, 8));
    }
    bytes
}

} // verus!
