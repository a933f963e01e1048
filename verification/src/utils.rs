//! Small conversions used when talking to the X server.

use vstd::prelude::*;
use vstd::utf8::encode_utf8;

use crate::structs::Color;

verus! {

/// The ARGB pixel value of a colour: alpha in bits 24..32, red in 16..24,
/// green in 8..16 and blue in 0..8.
pub open spec fn pixel(c: Color) -> int {
    (c.alpha as u64) * 0x100_0000 + (c.red as u64) * 0x1_0000 + (c.green as u64) * 0x100 + (c.blue as u64)
}

/// Convert a colour to the 64-bit pixel value X11 expects.
pub fn argb_to_int(c: Color) -> (r: u64)
    ensures
        r == pixel(c),
{
    let a = c.alpha as u64;
    let r = c.red as u64;
    let g = c.green as u64;
    let b = c.blue as u64;
    let v = a << 24u64 | r << 16u64 | g << 8u64 | b;
    assert(v == a * 0x100_0000 + r * 0x1_0000 + g * 0x100 + b) by (bit_vector)
        requires
            v == a << 24u64 | r << 16u64 | g << 8u64 | b,
            a < 256,
            r < 256,
            g < 256,
            b < 256,
    ;
    v
}

/// The UTF-8 bytes of each string, each followed by a NUL byte.
pub open spec fn nul_terminated(strings: Seq<String>) -> Seq<u8>
    decreases strings.len(),
{
    if strings.len() == 0 {
        Seq::empty()
    } else {
        nul_terminated(strings.drop_last()) + encode_utf8(strings.last()@).push(0u8)
    }
}

/// None of the strings holds a NUL byte (a C string cannot).
pub open spec fn no_nul(strings: Seq<String>) -> bool {
    forall|i: int| 0 <= i < strings.len() ==> !(#[trigger] encode_utf8(strings[i]@)).contains(0u8)
}

/// Convert strings to the C layout of a list of strings: every string's
/// bytes followed by a NUL. A string holding a NUL byte cannot be a C
/// string; such input is refused.
pub fn vec_string_to_bytes(strings: Vec<String>) -> (bytes: Vec<u8>)
    requires
        no_nul(strings@),
    ensures
        bytes@ == nul_terminated(strings@),
{
    let mut bytes: Vec<u8> = Vec::new();
    let mut i: usize = 0;
    while i < strings.len()
        invariant
            i <= strings@.len(),
            bytes@ == nul_terminated(strings@.take(i as int)),
        decreases strings@.len() - i,
    {
        let b = strings[i].as_str().as_bytes();
        let mut j: usize = 0;
        let ghost start = bytes@;
        while j < b.len()
            invariant
                j <= b@.len(),
                b@ == encode_utf8(strings@[i as int]@),
                bytes@ == start + b@.take(j as int),
            decreases b@.len() - j,
        {
            bytes.push(b[j]);
            j = j + 1;
            assert(b@.take(j as int) =~= b@.take(j - 1).push(b@[j - 1]));
        }
        bytes.push(0u8);
        assert(strings@.take(i + 1).drop_last() =~= strings@.take(i as int));
        assert(b@.take(b@.len() as int) =~= b@);
        i = i + 1;
    }
    assert(strings@.take(strings@.len() as int) =~= strings@);
    bytes
}

} // verus!
