//! Single bits of packed bitmaps, most significant bit first, and their text form.
use vstd::prelude::*;
use bitvec::prelude::{BitSlice, Msb0};

verus! {

/// Bit `i` of `bytes`, counting from the most significant bit of the first byte.
pub open spec fn msb0_bit(bytes: Seq<u8>, i: int) -> bool {
    (bytes[i / 8] >> ((7 - i % 8) as u8)) & 1u8 == 1u8
}

/// `BitSlice::<u8, _>::from_slice` refuses slices of this many bytes or more on
/// 32-bit targets (`BitSlice::MAX_ELTS`); 64-bit targets allow more.
pub const BITSLICE_MAX_BYTES: usize = 0x0400_0001;

/// Reads bit `idx` of `bytes[start..end]` through `bitvec`'s `BitSlice<u8, Msb0>`:
/// `BitSlice::from_slice` views the bytes as bits, most significant first, and
/// indexing returns the bit. `from_slice` panics on slices of `MAX_ELTS` bytes or
/// more (`0x0400_0001` for `u8` on 32-bit targets), and indexing panics past the end.
#[verifier::external_body]
pub(crate) fn msb0_bit_at(bytes: &[u8], start: usize, end: usize, idx: usize) -> (b: bool)
    requires
        start <= end <= bytes@.len(),
        end - start < BITSLICE_MAX_BYTES,
        idx < 8 * (end - start),
    ensures
        b == msb0_bit(bytes@.subrange(start as int, end as int), idx as int),
{
    BitSlice::<u8, Msb0>::from_slice(&bytes[start..end])[idx]
}

/// The eight binary digits of `x`, most significant first.
pub open spec fn bin8(x: u8) -> Seq<char> {
    Seq::new(8, |k: int| if (x >> ((7 - k) as u8)) & 1u8 == 1u8 { '1' } else { '0' })
}

/// The text of a row of bytes: each byte's eight binary digits, then a space.
pub open spec fn row_text(r: Seq<u8>) -> Seq<char>
    decreases r.len(),
{
    if r.len() == 0 {
        Seq::empty()
    } else {
        row_text(r.drop_last()) + bin8(r.last()) + seq![' ']
    }
}

/// The binary digits of `x` followed by a space, e.g. `"00000101 "` for 5.
pub fn get_bits(x: u8) -> (s: String)
    ensures s@ == bin8(x) + seq![' '],
{
    let mut s = String::new();
    push_bits(x, &mut s);
    s
}

fn push_bits(x: u8, s: &mut String)
    ensures final(s)@ == old(s)@ + bin8(x) + seq![' '],
{
    let ghost s0 = s@;
    let mut k: u8 = 0;
    while k < 8
        invariant
            k <= 8,
            s@ == s0 + bin8(x).take(k as int),
        decreases 8 - k,
    {
        let bit = (x >> (7 - k)) & 1u8;
        let ghost before = s@;
        proof {
            reveal_strlit("0");
            reveal_strlit("1");
        }
        if bit == 1 {
            s.append("1");
            assert(s@ == before.push('1'));
        } else {
            s.append("0");
            assert(s@ == before.push('0'));
        }
        assert(bin8(x)[k as int] == (if bit == 1 { '1' } else { '0' }));
        proof {
            assert(bin8(x).take(k + 1) =~= bin8(x).take(k as int).push(bin8(x)[k as int]));
        }
        k = k + 1;
    }
    assert(bin8(x).take(8) =~= bin8(x));
    proof {
        reveal_strlit(" ");
    }
    s.append(" ");
}

/// Takes `x` and a string by value and drops both: nothing reaches the caller.
pub fn add_bits(x: u8, s: String) {
    let mut s = s;
    push_bits(x, &mut s);
}

/// Appends the binary text of every byte of `r` to `s`.
pub fn getb_row(r: &[u8], s: &mut String)
    ensures final(s)@ == old(s)@ + row_text(r@),
{
    let ghost s0 = s@;
    let mut i: usize = 0;
    while i < r.len()
        invariant
            i <= r@.len(),
            s@ == s0 + row_text(r@.take(i as int)),
        decreases r@.len() - i,
    {
        push_bits(r[i], s);
        proof {
            assert(r@.take(i + 1).drop_last() =~= r@.take(i as int));
        }
        i = i + 1;
    }
    assert(r@.take(r@.len() as int) =~= r@);
}

} // verus!
