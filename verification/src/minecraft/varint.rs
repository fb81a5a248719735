use vstd::prelude::*;
use crate::errors::EnderError;
use vstd::slice::slice_to_vec;
use vstd::string::StringExecFns;
use vstd::utf8::{decode_utf8, encode_utf8, encode_utf8_decode_utf8, encode_utf8_valid_utf8, valid_utf8};

verus! {

/// The `VarInt` encoding of a 32-bit pattern: seven bits per byte, least
/// significant group first, the high bit set on every byte but the last.
pub open spec fn varint_bytes(x: u32) -> Seq<u8>
    decreases x,
{
    if x >> 7u32 == 0 {
        seq![x as u8]
    } else {
        proof {
            assert(x >> 7u32 != 0 ==> x >> 7u32 < x) by (bit_vector);
        }
        seq![((x & 0x7fu32) | 0x80u32) as u8] + varint_bytes(x >> 7u32)
    }
}

/// Encodes an `i32` as a Minecraft `VarInt` (its two's complement bit pattern,
/// so negative values take five bytes).
pub fn encode_varint(value: i32) -> (buf: Vec<u8>)
    ensures
        buf@ == varint_bytes(value as u32),
{
    let mut v: u32 = value as u32;
    let mut buf: Vec<u8> = Vec::with_capacity(5);
    loop
        invariant_except_break
            buf@ + varint_bytes(v) == varint_bytes(value as u32),
        ensures
            buf@ == varint_bytes(value as u32),
        decreases v,
    {
        let ghost before = buf@;
        let ghost old_v = v;
        let mut byte: u8 = #[verifier::truncate] ((v & 0x7f) as u8);
        v = v >> 7;
        if v != 0 {
            byte = byte | 0x80;
            assert(((old_v & 0x7fu32) as u8) | 0x80u8 == ((old_v & 0x7fu32) | 0x80u32) as u8) by (bit_vector);
            assert(old_v >> 7u32 != 0 ==> old_v >> 7u32 < old_v) by (bit_vector);
        } else {
            assert(old_v >> 7u32 == 0 ==> (old_v & 0x7fu32) as u8 == old_v as u8) by (bit_vector);
        }
        buf.push(byte);
        if v == 0 {
            assert(buf@ =~= varint_bytes(value as u32));
            break;
        }
        assert(buf@ + varint_bytes(v) =~= before + varint_bytes(old_v));
    }
    buf
}


/// Why a `VarInt` could not be read.
#[derive(Debug, Clone, Copy, PartialEq, Eq)]
pub enum VarIntFault {
    /// The data ended before the last byte of the `VarInt`.
    Truncated,
    /// Five bytes were read and the fifth still announced more.
    TooLarge,
}

/// The bits that byte number `k` of a `VarInt` contributes.
pub open spec fn varint_group(byte: u8, k: nat) -> u32 {
    ((byte & 0x7fu8) as u32) << ((7 * k) as u32)
}

/// Reading a `VarInt` whose first byte sits at `start`, after `k` bytes
/// (accumulating `acc`) have been read: the outcome, and the position
/// reached, which is where the reader stops on success and on failure alike.
pub open spec fn varint_scan(data: Seq<u8>, start: int, k: nat, acc: u32) -> (Result<i32, VarIntFault>, int)
    decreases 5 - k,
{
    let i = start + k;
    if k >= 5 || i >= data.len() {
        (Err(VarIntFault::Truncated), i)
    } else {
        let b = data[i];
        let next = acc | varint_group(b, k);
        if b & 0x80u8 == 0 {
            (Ok(next as i32), i + 1)
        } else if k + 1 >= 5 {
            (Err(VarIntFault::TooLarge), i + 1)
        } else {
            varint_scan(data, start, k + 1, next)
        }
    }
}

/// Reading a `VarInt` that starts at `offset` in `data`.
pub open spec fn spec_decode_varint(data: Seq<u8>, offset: int) -> (Result<i32, VarIntFault>, int) {
    varint_scan(data, offset, 0, 0)
}

/// The message carried by the error for a truncated `VarInt`.
pub open spec fn msg_varint_truncated() -> Seq<char> {
    "Unexpected end of data while decoding VarInt"@
}

/// The message carried by the error for a `VarInt` longer than five bytes.
pub open spec fn msg_varint_too_large() -> Seq<char> {
    "VarInt too large (exceeds 32 bits)"@
}

/// The message of the error that `decode_varint` reports for a fault.
pub open spec fn varint_fault_text(f: VarIntFault) -> Seq<char> {
    match f {
        VarIntFault::Truncated => msg_varint_truncated(),
        VarIntFault::TooLarge => msg_varint_too_large(),
    }
}

/// `e` is the error that `decode_varint` reports for fault `f`.
pub open spec fn is_varint_error(e: EnderError, f: VarIntFault) -> bool {
    e matches EnderError::PacketParse(m) && m@ == varint_fault_text(f)
}

/// `r` is what `decode_varint` returns when the scan ends in `outcome`.
pub open spec fn varint_result_matches(r: Result<i32, EnderError>, outcome: Result<i32, VarIntFault>) -> bool {
    match outcome {
        Ok(v) => r == Ok::<i32, EnderError>(v),
        Err(f) => r matches Err(e) && is_varint_error(e, f),
    }
}

/// Decodes a Minecraft `VarInt` from `data`, starting at `*offset` and moving
/// `*offset` past every byte it reads (also when it fails).
pub fn decode_varint(data: &[u8], offset: &mut usize) -> (r: Result<i32, EnderError>)
    ensures
        varint_result_matches(r, spec_decode_varint(data@, *old(offset) as int).0),
        *final(offset) as int == spec_decode_varint(data@, *old(offset) as int).1,
{
    let ghost start = *offset as int;
    let mut result: u32 = 0;
    let mut position: u32 = 0;
    let ghost mut k: nat = 0;
    loop
        invariant
            k < 5,
            start == *old(offset) as int,
            position == 7 * k,
            *offset as int == start + k,
            spec_decode_varint(data@, start) == varint_scan(data@, start, k, result),
        decreases 5 - k,
    {
        if *offset >= data.len() {
            return Err(EnderError::PacketParse("Unexpected end of data while decoding VarInt".to_owned()));
        }
        let byte = data[*offset];
        *offset = *offset + 1;
        let ghost old_result = result;
        assert(position < 32);
        result = result | (((byte & 0x7f) as u32) << position);
        assert(result == old_result | varint_group(byte, k));
        if byte & 0x80 == 0 {
            #[verifier::truncate]
            let value = result as i32;
            return Ok(value);
        }
        position = position + 7;
        if position >= 32 {
            return Err(EnderError::PacketParse("VarInt too large (exceeds 32 bits)".to_owned()));
        }
        proof {
            k = k + 1;
        }
    }
}


proof fn lemma_last_group(acc: u32, y: u32, b: u8, kk: u32)
    by (bit_vector)
    requires
        kk <= 28,
        y >> 7u32 == 0,
        b == y as u8,
    ensures
        b & 0x80u8 == 0,
        acc | (((b & 0x7fu8) as u32) << kk) == acc | (y << kk),
{
}

proof fn lemma_more_groups(acc: u32, y: u32, b: u8, kk: u32)
    by (bit_vector)
    requires
        kk <= 28,
        acc >> kk == 0,
        (y << kk) >> kk == y,
        y >> 7u32 != 0,
        b == ((y & 0x7fu32) | 0x80u32) as u8,
    ensures
        b & 0x80u8 != 0,
        kk <= 24,
        (acc | (((b & 0x7fu8) as u32) << kk)) >> ((kk + 7) as u32) == 0,
        acc | (y << kk) == (acc | (((b & 0x7fu8) as u32) << kk)) | ((y >> 7u32) << ((kk + 7) as u32)),
        ((y >> 7u32) << ((kk + 7) as u32)) >> ((kk + 7) as u32) == y >> 7u32,
{
}

/// Scanning from group `k`, where the bytes ahead are the encoding of the
/// remaining high bits `y` and `acc` holds the groups already read, yields
/// the whole value and stops right after the encoding.
proof fn lemma_scan_encoding(data: Seq<u8>, start: int, k: nat, acc: u32, y: u32, rest: Seq<u8>)
    requires
        0 <= start,
        k <= 4,
        start + k <= data.len(),
        data.skip(start + k) == varint_bytes(y) + rest,
        acc >> ((7 * k) as u32) == 0,
        (y << ((7 * k) as u32)) >> ((7 * k) as u32) == y,
    ensures
        varint_scan(data, start, k, acc) == (
            Ok::<i32, VarIntFault>((acc | (y << ((7 * k) as u32))) as i32),
            start + k + varint_bytes(y).len(),
        ),
    decreases 5 - k,
{
    let kk = (7 * k) as u32;
    let i = start + k;
    let enc = varint_bytes(y);
    assert(enc.len() >= 1);
    assert(data.skip(i).len() == data.len() - i);
    assert(i < data.len());
    assert(data.skip(i)[0] == data[i]);
    assert(data[i] == (enc + rest)[0]);
    assert(data[i] == enc[0]);
    let b = data[i];
    if y >> 7u32 == 0 {
        lemma_last_group(acc, y, b, kk);
        assert(enc.len() == 1);
    } else {
        lemma_more_groups(acc, y, b, kk);
        assert(k <= 3);
        let next = acc | varint_group(b, k);
        let tail = varint_bytes(y >> 7u32);
        assert(enc == seq![((y & 0x7fu32) | 0x80u32) as u8] + tail);
        assert(data.skip(start + k + 1) =~= tail + rest) by {
            assert(data.skip(start + k + 1) =~= data.skip(start + k).drop_first());
            assert((enc + rest).drop_first() =~= tail + rest);
        }
        assert((7 * (k + 1)) as u32 == (kk + 7) as u32);
        lemma_scan_encoding(data, start, k + 1, next, y >> 7u32, rest);
    }
}

/// Decoding the encoding of any `i32`, whatever bytes follow it, gives the
/// value back and stops exactly at the end of the encoding.
pub proof fn lemma_varint_roundtrip(value: i32, rest: Seq<u8>)
    ensures
        spec_decode_varint(varint_bytes(value as u32) + rest, 0) == (
            Ok::<i32, VarIntFault>(value),
            varint_bytes(value as u32).len() as int,
        ),
{
    let x = value as u32;
    let data = varint_bytes(x) + rest;
    assert(data.skip(0) =~= data);
    assert(0u32 >> 0u32 == 0 && (x << 0u32) >> 0u32 == x && (0u32 | (x << 0u32)) == x) by (bit_vector);
    lemma_scan_encoding(data, 0, 0, 0, x, rest);
    assert(((value as u32) as i32) == value) by (bit_vector);
}

/// The same, anywhere in the data: where the bytes from `start` on are an
/// encoding followed by anything, decoding there gives the value back and
/// stops at the end of the encoding.
pub proof fn lemma_varint_at(data: Seq<u8>, start: int, value: i32, rest: Seq<u8>)
    requires
        0 <= start <= data.len(),
        data.skip(start) == varint_bytes(value as u32) + rest,
    ensures
        spec_decode_varint(data, start) == (
            Ok::<i32, VarIntFault>(value),
            start + varint_bytes(value as u32).len(),
        ),
{
    let x = value as u32;
    assert(0u32 >> 0u32 == 0 && (x << 0u32) >> 0u32 == x && (0u32 | (x << 0u32)) == x) by (bit_vector);
    lemma_scan_encoding(data, start, 0, 0, x, rest);
    assert(((value as u32) as i32) == value) by (bit_vector);
}

/// Every byte of an encoding but the last announces more; the last does not.
pub proof fn lemma_varint_continuation(x: u32)
    ensures
        forall|j: int| 0 <= j < varint_bytes(x).len() - 1 ==> #[trigger] varint_bytes(x)[j] & 0x80u8 != 0,
        varint_bytes(x).last() & 0x80u8 == 0,
    decreases x,
{
    if x >> 7u32 == 0 {
        assert(x >> 7u32 == 0 ==> (x as u8) & 0x80u8 == 0) by (bit_vector);
    } else {
        assert(x >> 7u32 != 0 ==> x >> 7u32 < x) by (bit_vector);
        assert(((((x & 0x7fu32) | 0x80u32) as u8) & 0x80u8) != 0) by (bit_vector);
        lemma_varint_continuation(x >> 7u32);
        let tail = varint_bytes(x >> 7u32);
        assert forall|j: int| 0 <= j < varint_bytes(x).len() - 1 implies #[trigger] varint_bytes(x)[j] & 0x80u8 != 0 by {
            if j > 0 {
                assert(varint_bytes(x)[j] == tail[j - 1]);
            }
        }
        assert(varint_bytes(x).last() == tail.last());
    }
}

proof fn lemma_scan_truncated(data: Seq<u8>, k: nat, acc: u32)
    requires
        data.len() <= 4,
        k <= data.len(),
        forall|j: int| 0 <= j < data.len() ==> #[trigger] data[j] & 0x80u8 != 0,
    ensures
        varint_scan(data, 0, k, acc) == (Err::<i32, VarIntFault>(VarIntFault::Truncated), data.len() as int),
    decreases data.len() - k,
{
    if k < data.len() {
        let b = data[k as int];
        lemma_scan_truncated(data, k + 1, acc | varint_group(b, k));
    }
}

/// Reading an encoding byte by byte: every proper prefix decodes as
/// truncated (more is needed) and the whole encoding gives the value. This
/// is what a `VarIntReader` fed the bytes of `encode_varint(value)` answers.
pub proof fn lemma_varint_prefixes(value: i32, k: int)
    requires
        1 <= k <= varint_bytes(value as u32).len(),
    ensures
        k < varint_bytes(value as u32).len() ==> spec_decode_varint(varint_bytes(value as u32).take(k), 0) == (
            Err::<i32, VarIntFault>(VarIntFault::Truncated),
            k,
        ),
        k == varint_bytes(value as u32).len() ==> spec_decode_varint(varint_bytes(value as u32).take(k), 0) == (
            Ok::<i32, VarIntFault>(value),
            k,
        ),
{
    let enc = varint_bytes(value as u32);
    lemma_varint_len(value as u32);
    lemma_varint_continuation(value as u32);
    if k < enc.len() {
        let pre = enc.take(k);
        assert forall|j: int| 0 <= j < pre.len() implies #[trigger] pre[j] & 0x80u8 != 0 by {
            assert(pre[j] == enc[j]);
        }
        lemma_scan_truncated(pre, 0, 0);
    } else {
        assert(enc.take(k) =~= enc + Seq::<u8>::empty());
        lemma_varint_roundtrip(value, Seq::<u8>::empty());
    }
}

/// The bits accumulated from the bytes of a `VarInt` read so far.
pub open spec fn varint_acc(fed: Seq<u8>) -> u32
    decreases fed.len(),
{
    if fed.len() == 0 {
        0
    } else {
        varint_acc(fed.drop_last()) | varint_group(fed.last(), (fed.len() - 1) as nat)
    }
}

/// Skipping ahead over bytes that all announce more: scanning from the
/// start equals scanning from group `k` with the groups before it gathered.
proof fn lemma_scan_skip(data: Seq<u8>, j: nat, k: nat)
    requires
        j <= k <= 4,
        k <= data.len(),
        forall|i: int| 0 <= i < k ==> #[trigger] data[i] & 0x80u8 != 0,
    ensures
        varint_scan(data, 0, j, varint_acc(data.take(j as int))) == varint_scan(
            data,
            0,
            k,
            varint_acc(data.take(k as int)),
        ),
    decreases k - j,
{
    if j < k {
        assert(data.take(j as int + 1).drop_last() =~= data.take(j as int));
        assert(data.take(j as int + 1).last() == data[j as int]);
        lemma_scan_skip(data, j + 1, k);
    }
}

/// What a `VarIntReader` answers after a byte.
#[derive(Debug, Clone, Copy, PartialEq, Eq)]
pub enum VarIntStep {
    /// The byte ended the `VarInt`, whose value this is.
    Done(i32),
    /// More bytes are needed.
    NeedMore,
    /// The fifth byte still announced more.
    TooLarge,
}

/// Reads a `VarInt` one byte at a time, as bytes come off a stream. After a
/// `Done` or a `TooLarge` it is ready for the next `VarInt`.
pub struct VarIntReader {
    value: u32,
    count: u32,
    fed: Ghost<Seq<u8>>,
}

impl VarIntReader {
    /// The bytes of the current `VarInt` taken so far.
    pub closed spec fn fed(&self) -> Seq<u8> {
        self.fed@
    }

    #[verifier::type_invariant]
    spec fn well_formed(&self) -> bool {
        &&& self.count == self.fed@.len()
        &&& self.count <= 4
        &&& forall|i: int| 0 <= i < self.fed@.len() ==> #[trigger] self.fed@[i] & 0x80u8 != 0
        &&& self.value == varint_acc(self.fed@)
    }

    /// A reader that has taken no byte.
    pub fn new() -> (r: Self)
        ensures
            r.fed() == Seq::<u8>::empty(),
    {
        VarIntReader { value: 0, count: 0, fed: Ghost(Seq::empty()) }
    }

    /// Takes the next byte. The answer is what decoding the bytes taken so
    /// far, this one last, gives: the value, a need for more, or too large.
    pub fn push(&mut self, byte: u8) -> (step: VarIntStep)
        ensures
            step == answer_for(spec_decode_varint(old(self).fed().push(byte), 0).0),
            ({
                let data = old(self).fed().push(byte);
                match spec_decode_varint(data, 0).0 {
                    Ok(v) => step == VarIntStep::Done(v) && final(self).fed() == Seq::<u8>::empty(),
                    Err(VarIntFault::Truncated) => step == VarIntStep::NeedMore && final(self).fed() == data,
                    Err(VarIntFault::TooLarge) => step == VarIntStep::TooLarge && final(self).fed()
                        == Seq::<u8>::empty(),
                }
            }),
    {
        proof {
            use_type_invariant(&*self);
        }
        let ghost fed = self.fed@;
        let ghost data = fed.push(byte);
        let count = self.count;
        proof {
            assert(data.take(count as int) =~= fed);
            assert(data.take(0) =~= Seq::<u8>::empty());
            assert forall|i: int| 0 <= i < count implies #[trigger] data[i] & 0x80u8 != 0 by {
                assert(data[i] == fed[i]);
            }
            lemma_scan_skip(data, 0, count as nat);
            assert(data[count as int] == byte);
            assert(data.take(count + 1).drop_last() =~= fed);
            assert(data.take(count + 1).last() == byte);
        }
        let next = self.value | (((byte & 0x7f) as u32) << (7 * count));
        assert(next == self.value | varint_group(byte, count as nat));
        assert(spec_decode_varint(data, 0) == varint_scan(data, 0, count as nat, self.value));
        assert(data.len() == count + 1);
        if byte & 0x80 == 0 {
            *self = VarIntReader { value: 0, count: 0, fed: Ghost(Seq::empty()) };
            #[verifier::truncate]
            let v = next as i32;
            assert(spec_decode_varint(data, 0).0 == Ok::<i32, VarIntFault>(v));
            VarIntStep::Done(v)
        } else if count + 1 >= 5 {
            *self = VarIntReader { value: 0, count: 0, fed: Ghost(Seq::empty()) };
            assert(spec_decode_varint(data, 0).0 == Err::<i32, VarIntFault>(VarIntFault::TooLarge));
            VarIntStep::TooLarge
        } else {
            proof {
                assert(data.take(count + 1) =~= data);
                assert forall|i: int| 0 <= i < data.len() implies #[trigger] data[i] & 0x80u8 != 0 by {
                    if i < count {
                        assert(data[i] == fed[i]);
                    }
                }
            }
            *self = VarIntReader { value: next, count: count + 1, fed: Ghost(data) };
            assert(varint_scan(data, 0, (count + 1) as nat, next).0 == Err::<i32, VarIntFault>(VarIntFault::Truncated));
            assert(spec_decode_varint(data, 0).0 == Err::<i32, VarIntFault>(VarIntFault::Truncated));
            VarIntStep::NeedMore
        }
    }
}

/// Scanning the first `m` bytes agrees with scanning all of them up to
/// byte `m`: where the full scan stops within them the two agree, and where
/// it reads past them the short scan finds the data truncated at `m`.
proof fn lemma_scan_take(data: Seq<u8>, m: int, i: nat, acc: u32)
    requires
        i <= m <= data.len(),
    ensures
        varint_scan(data, 0, i, acc).1 <= m ==> varint_scan(data.take(m), 0, i, acc) == varint_scan(data, 0, i, acc),
        varint_scan(data, 0, i, acc).1 > m ==> varint_scan(data.take(m), 0, i, acc) == (
            Err::<i32, VarIntFault>(VarIntFault::Truncated),
            m,
        ),
    decreases 5 - i,
{
    let t = data.take(m);
    if i >= 5 || i >= data.len() {
    } else if i == m {
        let b = data[i as int];
        let next = acc | varint_group(b, i);
        if b & 0x80u8 != 0 && i + 1 < 5 {
            lemma_scan_within_from(data, 0, i + 1, next);
        }
    } else {
        assert(t[i as int] == data[i as int]);
        let next = acc | varint_group(data[i as int], i);
        lemma_scan_take(data, m, i + 1, next);
    }
}

proof fn lemma_scan_truncated_at_end(data: Seq<u8>, i: nat, acc: u32)
    requires
        i <= 4,
        i <= data.len(),
    ensures
        varint_scan(data, 0, i, acc).0 == Err::<i32, VarIntFault>(VarIntFault::Truncated) ==> varint_scan(
            data,
            0,
            i,
            acc,
        ).1 == data.len(),
    decreases 5 - i,
{
    if i < data.len() {
        let b = data[i as int];
        if b & 0x80u8 != 0 && i + 1 < 5 {
            lemma_scan_truncated_at_end(data, i + 1, acc | varint_group(b, i));
        }
    }
}

/// A reader fed a stream does what `decode_varint` does on it. Let `n` be
/// the number of bytes `decode_varint` reads from the stream `b`: a reader
/// fed `b` one byte at a time from fresh keeps the bytes and answers
/// `NeedMore` for each of the first `n - 1` (their prefixes decode as
/// truncated), and at byte `n` answers with `decode_varint`'s result. When
/// that result is "truncated", `n` is the whole stream: the stream ends
/// while the reader still waits for more.
pub proof fn lemma_reader_follows_stream(b: Seq<u8>, k: int)
    requires
        1 <= k <= b.len(),
    ensures
        spec_decode_varint(b, 0).1 <= b.len(),
        spec_decode_varint(b, 0).0 == Err::<i32, VarIntFault>(VarIntFault::Truncated) ==> spec_decode_varint(b, 0).1
            == b.len(),
        k < spec_decode_varint(b, 0).1 ==> spec_decode_varint(b.take(k), 0) == (
            Err::<i32, VarIntFault>(VarIntFault::Truncated),
            k,
        ) && answer_for(spec_decode_varint(b.take(k), 0).0) == VarIntStep::NeedMore,
        k == spec_decode_varint(b, 0).1 ==> spec_decode_varint(b.take(k), 0) == spec_decode_varint(b, 0)
            && answer_for(spec_decode_varint(b.take(k), 0).0) == answer_for(spec_decode_varint(b, 0).0),
{
    lemma_scan_within(b, 0);
    lemma_scan_truncated_at_end(b, 0, 0);
    lemma_scan_take(b, k, 0, 0);
}

/// What a `VarIntReader` answers when decoding what it was fed gives `r`.
pub open spec fn answer_for(r: Result<i32, VarIntFault>) -> VarIntStep {
    match r {
        Ok(v) => VarIntStep::Done(v),
        Err(VarIntFault::Truncated) => VarIntStep::NeedMore,
        Err(VarIntFault::TooLarge) => VarIntStep::TooLarge,
    }
}


/// Appends `other` to `buf`.
pub fn append_bytes(buf: &mut Vec<u8>, other: &[u8])
    ensures
        final(buf)@ == old(buf)@ + other@,
{
    buf.extend_from_slice(other);
    assert(final(buf)@ =~= old(buf)@ + other@);
}

/// The message of the error for a payload too long to frame.
pub open spec fn msg_payload_too_long() -> Seq<char> {
    "Minecraft packet payload exceeds i32::MAX"@
}

/// A Minecraft frame: the `VarInt` length of the payload, then the payload.
pub open spec fn mc_frame(payload: Seq<u8>) -> Seq<u8> {
    varint_bytes(payload.len() as u32) + payload
}

/// Encodes a Minecraft packet from a payload: `VarInt`(length) + payload.
/// Fails exactly when the payload is longer than `i32::MAX` bytes.
pub fn encode_mc_packet(payload: &[u8]) -> (r: Result<Vec<u8>, EnderError>)
    ensures
        payload@.len() <= i32::MAX ==> (r matches Ok(p) && p@ == mc_frame(payload@)),
        payload@.len() > i32::MAX ==> (r matches Err(EnderError::PacketParse(m)) && m@ == msg_payload_too_long()),
{
    if payload.len() > 0x7fff_ffff {
        return Err(EnderError::PacketParse("Minecraft packet payload exceeds i32::MAX".to_owned()));
    }
    let len: i32 = payload.len() as i32;
    let mut packet = encode_varint(len);
    append_bytes(&mut packet, payload);
    assert(len as u32 == payload@.len() as u32);
    Ok(packet)
}

/// The text that `String::from_utf8` gives for the error it returns on
/// `bytes`, which are not valid UTF-8.
pub uninterp spec fn utf8_error_text(bytes: Seq<u8>) -> Seq<char>;

/// Calls `String::from_utf8`. Claims: it succeeds exactly when the bytes are
/// valid UTF-8 (vstd's `valid_utf8`); the string then holds their decoding
/// (vstd's `decode_utf8`); on failure the error's display text, which the
/// standard library derives from the bytes alone, is `utf8_error_text`.
#[verifier::external_body]
fn string_from_utf8(bytes: Vec<u8>) -> (r: Result<String, String>)
    ensures
        r is Ok <==> valid_utf8(bytes@),
        r matches Ok(s) ==> s@ == decode_utf8(bytes@),
        r matches Err(m) ==> m@ == utf8_error_text(bytes@),
{
    match String::from_utf8(bytes) {
        Ok(s) => Ok(s),
        Err(e) => Err(e.to_string()),
    }
}

/// The message of the error for a negative string length.
pub open spec fn msg_negative_string_len() -> Seq<char> {
    "Negative VarInt length for string"@
}

/// The message of the error for a string running past the data.
pub open spec fn msg_string_too_long() -> Seq<char> {
    "String length exceeds remaining data"@
}

/// The message of the error for string bytes that are not UTF-8.
pub open spec fn msg_invalid_utf8(bytes: Seq<u8>) -> Seq<char> {
    "Invalid UTF-8 in string: "@ + utf8_error_text(bytes)
}

/// Reading a length-prefixed string at `offset`: its characters, or the
/// message of the error, and the offset reached.
pub open spec fn spec_read_string(data: Seq<u8>, offset: int) -> (Result<Seq<char>, Seq<char>>, int) {
    let (len_res, p) = spec_decode_varint(data, offset);
    match len_res {
        Err(f) => (Err(varint_fault_text(f)), p),
        Ok(len) => if len < 0 {
            (Err(msg_negative_string_len()), p)
        } else if p + len > data.len() {
            (Err(msg_string_too_long()), p)
        } else {
            let bytes = data.subrange(p, p + len);
            if valid_utf8(bytes) {
                (Ok(decode_utf8(bytes)), p + len)
            } else {
                (Err(msg_invalid_utf8(bytes)), p)
            }
        },
    }
}

/// `r` is the string result that stands for `outcome`: the string with those
/// characters, or a packet-parse error with that message.
pub open spec fn string_result_matches(r: Result<String, EnderError>, outcome: Result<Seq<char>, Seq<char>>) -> bool {
    match outcome {
        Ok(chars) => r matches Ok(s) && s@ == chars,
        Err(msg) => r matches Err(EnderError::PacketParse(m)) && m@ == msg,
    }
}

/// Decodes a length-prefixed UTF-8 string (a `VarInt` length, then that many
/// bytes) from `data` at `*offset`, moving `*offset` past what it read.
pub fn decode_string(data: &[u8], offset: &mut usize) -> (r: Result<String, EnderError>)
    ensures
        string_result_matches(r, spec_read_string(data@, *old(offset) as int).0),
        *final(offset) as int == spec_read_string(data@, *old(offset) as int).1,
{
    let raw = decode_varint(data, offset);
    let raw_len = match raw {
        Ok(v) => v,
        Err(e) => return Err(e),
    };
    if raw_len < 0 {
        return Err(EnderError::PacketParse("Negative VarInt length for string".to_owned()));
    }
    let len = raw_len as usize;
    if *offset > data.len() || len > data.len() - *offset {
        return Err(EnderError::PacketParse("String length exceeds remaining data".to_owned()));
    }
    let start = *offset;
    let bytes = slice_to_vec(&data[start..start + len]);
    match string_from_utf8(bytes) {
        Ok(s) => {
            *offset = start + len;
            Ok(s)
        },
        Err(detail) => {
            let mut msg = "Invalid UTF-8 in string: ".to_owned();
            msg.append(detail.as_str());
            Err(EnderError::PacketParse(msg))
        },
    }
}


/// Values below 128 take one byte, the value itself.
pub proof fn lemma_varint_small(x: u32)
    requires
        x < 128,
    ensures
        varint_bytes(x) == seq![x as u8],
{
    assert(x < 128 ==> x >> 7u32 == 0) by (bit_vector);
}

/// An encoding takes one to five bytes; a negative `i32` (bit 31 set)
/// always takes five.
pub proof fn lemma_varint_len(x: u32)
    ensures
        1 <= varint_bytes(x).len() <= 5,
        x >= 0x8000_0000 ==> varint_bytes(x).len() == 5,
{
    assert((x << 0u32) >> 0u32 == x) by (bit_vector);
    lemma_varint_len_from(x, 0);
    if x >= 0x8000_0000 {
        assert(x >= 0x8000_0000u32 ==> {
            &&& x >> 7u32 != 0
            &&& (x >> 7u32) >> 7u32 != 0
            &&& ((x >> 7u32) >> 7u32) >> 7u32 != 0
            &&& (((x >> 7u32) >> 7u32) >> 7u32) >> 7u32 != 0
            &&& ((((x >> 7u32) >> 7u32) >> 7u32) >> 7u32) >> 7u32 == 0
        }) by (bit_vector);
        let x1 = x >> 7u32;
        let x2 = x1 >> 7u32;
        let x3 = x2 >> 7u32;
        let x4 = x3 >> 7u32;
        assert(varint_bytes(x4).len() == 1);
        assert(varint_bytes(x3).len() == 2);
        assert(varint_bytes(x2).len() == 3);
        assert(varint_bytes(x1).len() == 4);
    }
}

proof fn lemma_varint_len_from(y: u32, k: u32)
    requires
        k <= 4,
        (y << ((7 * k) as u32)) >> ((7 * k) as u32) == y,
    ensures
        1 <= varint_bytes(y).len() <= 5 - k,
    decreases 5 - k,
{
    if y >> 7u32 != 0 {
        let kk = (7 * k) as u32;
        assert(0u32 >> kk == 0) by (bit_vector);
        lemma_more_groups(0, y, ((y & 0x7fu32) | 0x80u32) as u8, (7 * k) as u32);
        assert(k <= 3);
        assert((7 * (k + 1)) as u32 == ((7 * k) as u32 + 7) as u32);
        lemma_varint_len_from(y >> 7u32, (k + 1) as u32);
    }
}

/// A scan from inside the data ends inside the data, at most five bytes on.
pub proof fn lemma_scan_within(data: Seq<u8>, start: int)
    requires
        0 <= start <= data.len(),
    ensures
        start <= spec_decode_varint(data, start).1 <= data.len(),
        spec_decode_varint(data, start).1 <= start + 5,
{
    lemma_scan_within_from(data, start, 0, 0);
}

proof fn lemma_scan_within_from(data: Seq<u8>, start: int, k: nat, acc: u32)
    requires
        0 <= start,
        k <= 4,
        start + k <= data.len(),
    ensures
        start + k <= varint_scan(data, start, k, acc).1 <= data.len(),
        varint_scan(data, start, k, acc).1 <= start + 5,
    decreases 5 - k,
{
    if start + k < data.len() {
        let b = data[start + k];
        if b & 0x80u8 != 0 && k + 1 < 5 {
            lemma_scan_within_from(data, start, k + 1, acc | varint_group(b, k));
        }
    }
}

/// A framed string reads back: wherever the frame of valid UTF-8 bytes
/// stands, whatever follows it, reading a string there yields their
/// characters and stops at the frame's end.
pub proof fn lemma_string_frame_at(data: Seq<u8>, start: int, bytes: Seq<u8>, rest: Seq<u8>)
    requires
        0 <= start <= data.len(),
        bytes.len() <= i32::MAX,
        valid_utf8(bytes),
        data.skip(start) == mc_frame(bytes) + rest,
    ensures
        spec_read_string(data, start) == (
            Ok::<Seq<char>, Seq<char>>(decode_utf8(bytes)),
            start + mc_frame(bytes).len(),
        ),
{
    let len = bytes.len();
    let lv = len as u32;
    assert(lv == len);
    assert(lv <= 0x7fff_ffffu32 ==> lv as i32 >= 0 && (lv as i32) as int == lv as int && ((lv as i32) as u32) == lv) by (bit_vector);
    let enc = varint_bytes(lv);
    assert(data.skip(start) =~= varint_bytes((lv as i32) as u32) + (bytes + rest));
    lemma_varint_at(data, start, lv as i32, bytes + rest);
    let p = start + enc.len();
    assert(data.subrange(p, p + len) =~= bytes) by {
        assert forall|j: int| 0 <= j < len implies data.subrange(p, p + len)[j] == bytes[j] by {
            assert(data[p + j] == data.skip(start)[enc.len() + j]);
        }
    }
}

/// A framed string reads back: decoding the frame of any string's UTF-8
/// bytes, whatever follows it, yields that string and stops at the frame's end.
pub proof fn lemma_string_frame_roundtrip(chars: Seq<char>, rest: Seq<u8>)
    requires
        encode_utf8(chars).len() <= i32::MAX,
    ensures
        spec_read_string(mc_frame(encode_utf8(chars)) + rest, 0) == (
            Ok::<Seq<char>, Seq<char>>(chars),
            mc_frame(encode_utf8(chars)).len() as int,
        ),
{
    let bytes = encode_utf8(chars);
    let data = mc_frame(bytes) + rest;
    assert(data.skip(0) =~= data);
    encode_utf8_valid_utf8(chars);
    encode_utf8_decode_utf8(chars);
    lemma_string_frame_at(data, 0, bytes, rest);
}

} // verus!





