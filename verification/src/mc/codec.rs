use vstd::prelude::*;
use crate::minecraft::varint::{append_bytes, lemma_string_frame_roundtrip, mc_frame, spec_read_string, varint_bytes};
use vstd::string::StringSliceAdditionalSpecFns;

verus! {

/// Appends the `VarInt` encoding of a non-negative `value` to `buf`.
/// (For a negative value the arithmetic shift never reaches zero, so the
/// encoding would never end; such values are excluded.)
pub fn write_varint(buf: &mut Vec<u8>, value: i32)
    requires
        value >= 0,
    ensures
        final(buf)@ == old(buf)@ + varint_bytes(value as u32),
{
    let ghost start = buf@;
    let ghost whole = value as u32;
    let mut value = value;
    loop
        invariant_except_break
            value >= 0,
            start == old(buf)@,
            buf@ + varint_bytes(value as u32) == start + varint_bytes(whole),
        ensures
            buf@ == start + varint_bytes(whole),
        decreases value,
    {
        let ghost before = buf@;
        let ghost v = value as u32;
        if (value & !0x7f) == 0 {
            assert((value & !0x7fi32) == 0 && value >= 0 ==> (value as u32) >> 7u32 == 0 && (value as u8) == (value as u32) as u8) by (bit_vector);
            #[verifier::truncate]
            let byte = value as u8;
            buf.push(byte);
            assert(buf@ =~= before + varint_bytes(v));
            break;
        }
        assert((value & !0x7fi32) != 0 && value >= 0 ==> {
            &&& (value as u32) >> 7u32 != 0
            &&& (((value & 0x7fi32) | 0x80i32) as u8) == (((value as u32) & 0x7fu32) | 0x80u32) as u8
            &&& (value >> 7i32) >= 0
            &&& (value >> 7i32) as u32 == (value as u32) >> 7u32
            &&& (value >> 7i32) < value
        }) by (bit_vector);
        #[verifier::truncate]
        let byte = ((value & 0x7f) | 0x80) as u8;
        buf.push(byte);
        value = value >> 7;
        assert(buf@ + varint_bytes(value as u32) =~= before + varint_bytes(v));
    }
}

/// The byte length of `s` read as an `i32` (truncating, like an `as` cast).
pub open spec fn str_len_i32(s: &str) -> i32 {
    (s.spec_bytes().len() as usize) as i32
}

/// Appends `s` as a Minecraft string: a `VarInt` of its byte length (taken
/// as an `i32` by a truncating cast), then its UTF-8 bytes. A length whose
/// `i32` reading is negative would make the encoding never finish, so it is
/// excluded.
pub fn write_string(buf: &mut Vec<u8>, s: &str)
    requires
        str_len_i32(s) >= 0,
    ensures
        final(buf)@ == old(buf)@ + varint_bytes(str_len_i32(s) as u32) + s.spec_bytes(),
{
    #[verifier::truncate]
    let len = s.len() as i32;
    write_varint(buf, len);
    append_bytes(buf, s.as_bytes());
}


/// What `write_string` writes, `decode_string` reads back: for a string of
/// at most `i32::MAX` bytes the bytes appended are the frame of its UTF-8
/// bytes, and reading a string from that frame, whatever follows it, gives
/// the string back.
pub proof fn lemma_write_string_reads_back(s: &str, rest: Seq<u8>)
    requires
        s.spec_bytes().len() <= i32::MAX,
    ensures
        str_len_i32(s) >= 0,
        varint_bytes(str_len_i32(s) as u32) + s.spec_bytes() == mc_frame(s.spec_bytes()),
        spec_read_string(mc_frame(s.spec_bytes()) + rest, 0) == (
            Ok::<Seq<char>, Seq<char>>(s@),
            mc_frame(s.spec_bytes()).len() as int,
        ),
{
    let n = s.spec_bytes().len();
    let u = n as usize;
    assert(u == n);
    assert(u <= 0x7fff_ffffusize ==> (u as i32) >= 0 && (u as i32) as u32 == u as u32) by (bit_vector);
    assert(n as u32 == u as u32);
    lemma_string_frame_roundtrip(s@, rest);
}

} // verus!
