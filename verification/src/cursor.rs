//! Position-tracking reader/writer over two bounded byte buffers: a code
//! buffer (at most 65,536 bytes) holding the instruction stream, and a data
//! buffer (at most 16,777,216 bytes) acting as a content-addressed heap for
//! out-of-line constants.
//!
//! Bit-level fields (widths 1-7) are packed into single bytes and must not
//! straddle a byte boundary: grouping fields so that at most 8 bits land in
//! each byte is the encoder's obligation, expressed here as preconditions.
//! Byte-level operations require the bit offset to be zero.

use vstd::prelude::*;

verus! {

/// Errors of cursor-based operations.
#[derive(Clone, Copy, PartialEq, Eq, Hash, Debug)]
pub enum CursorError {
    /// Attempt to read or write after the end of the addressable space.
    Eof,

    /// Attempt to read or write at a position outside of the data boundaries
    /// (the offending offset is carried along).
    OutOfBoundaries(usize),
}

/// The powers of two that bound the admissible bit-level field values.
pub proof fn lemma_bit_bounds()
    ensures
        1u8 << 1 == 2,
        1u8 << 2 == 4,
        1u8 << 3 == 8,
        1u8 << 4 == 16,
        1u8 << 5 == 32,
        1u8 << 6 == 64,
        1u8 << 7 == 128,
{
    assert(1u8 << 1 == 2 && 1u8 << 2 == 4 && 1u8 << 3 == 8 && 1u8 << 4 == 16 && 1u8 << 5 == 32
        && 1u8 << 6 == 64 && 1u8 << 7 == 128) by (bit_vector);
}

/// The mask selecting the low `w` bits of a byte.
pub open spec fn mask_of(w: u8) -> u8
    recommends
        w <= 7,
{
    ((1u8 << w) - 1) as u8
}

/// The value of the `w`-bit field of `byte` that starts at bit `lo`.
pub open spec fn field_of(byte: u8, lo: u8, w: u8) -> u8
    recommends
        lo < 8,
        1 <= w <= 7,
        lo + w <= 8,
{
    (byte >> lo) & mask_of(w)
}

/// `byte` with the value `v` merged into the `w`-bit field starting at bit
/// `lo`; bits already set in that field stay set, as writes only or.
pub open spec fn merged(byte: u8, lo: u8, w: u8, v: u8) -> u8
    recommends
        lo < 8,
        1 <= w <= 7,
        lo + w <= 8,
        v < (1u8 << w),
{
    byte | (v << lo)
}

/// Whether advancing the byte offset `pos` by `k` bytes is representable:
/// either the target offset still fits, or the advance is the single-byte
/// step that consumes the maximum offset and raises the end flag.
pub open spec fn can_advance(pos: u16, k: nat) -> bool {
    pos + k <= 65535 || (k == 1 && pos == 65535)
}

/// Byte offset, bit offset and end flag after a bit-level advance of `w`
/// bits from byte offset `pos` and bit offset `bit`.
pub open spec fn bit_step(pos: u16, bit: u8, w: u8) -> (u16, u8, bool)
    recommends
        bit + w <= 8,
{
    if bit + w < 8 {
        (pos, (bit + w) as u8, false)
    } else if pos == 65535 {
        (pos, 0u8, true)
    } else {
        ((pos + 1) as u16, 0u8, false)
    }
}

/// Byte offset and end flag after a byte-level advance of `k` bytes from
/// offset `pos`, assuming `can_advance(pos, k)`.
pub open spec fn byte_step(pos: u16, k: nat) -> (u16, bool)
    recommends
        can_advance(pos, k),
{
    if k == 1 && pos == 65535 {
        (pos, true)
    } else {
        ((pos + k) as u16, false)
    }
}

/// The little-endian value of two bytes.
pub open spec fn u16_le(b0: u8, b1: u8) -> u16 {
    (b0 + b1 * 256) as u16
}

/// The little-endian value of two bytes, reinterpreted as a signed word.
pub open spec fn i16_le(b0: u8, b1: u8) -> i16 {
    u16_le(b0, b1) as i16
}

/// The little-endian value of three bytes.
pub open spec fn u24_le(b0: u8, b1: u8, b2: u8) -> u32 {
    (b0 + b1 * 256 + b2 * 65536) as u32
}

/// `code` with the three little-endian bytes of `v` placed at `pos`.
pub open spec fn with_u24_at(code: Seq<u8>, pos: int, v: u32) -> Seq<u8>
    recommends
        v < 16777216,
{
    code.update(pos, (v & 0xff) as u8).update(pos + 1, ((v >> 8) & 0xff) as u8).update(
        pos + 2,
        ((v >> 16) & 0xff) as u8,
    )
}

/// `code` with the two little-endian bytes of `v` placed at `pos`.
pub open spec fn with_u16_at(code: Seq<u8>, pos: int, v: u16) -> Seq<u8> {
    code.update(pos, (v & 0xff) as u8).update(pos + 1, (v >> 8) as u8)
}

/// A two-byte word splits back into the little-endian bytes it was read
/// from.
pub proof fn lemma_u16_le_bytes(b0: u8, b1: u8)
    ensures
        ((u16_le(b0, b1) & 0xff) as u8) == b0,
        ((u16_le(b0, b1) >> 8) as u8) == b1,
{
    let v: u16 = (b0 + b1 * 256) as u16;
    assert(u16_le(b0, b1) == v);
    assert(((v & 0xff) as u8) == b0 && ((v >> 8) as u8) == b1) by (bit_vector)
        requires
            v == ((b0 as u16) + (b1 as u16) * 256) as u16,
    ;
}

/// Whether `bytes` occurs as a contiguous subsequence of `data` at offset `i`.
pub open spec fn match_at(data: Seq<u8>, bytes: Seq<u8>, i: int) -> bool {
    &&& 0 <= i
    &&& i + bytes.len() <= data.len()
    &&& data.subrange(i, i + bytes.len() as int) == bytes
}

/// Whether `i` is the first offset at which `bytes` occurs in `data`.
pub open spec fn first_match_at(data: Seq<u8>, bytes: Seq<u8>, i: int) -> bool {
    &&& match_at(data, bytes, i)
    &&& forall|j: int| 0 <= j < i ==> !match_at(data, bytes, j)
}

/// The first offset at which `bytes` occurs in `data`, where one exists.
pub open spec fn first_match_index(data: Seq<u8>, bytes: Seq<u8>) -> int {
    choose|i: int| first_match_at(data, bytes, i)
}

/// Deduplication: once a byte sequence has been appended to the data
/// buffer, it occurs there, so a following store of the same bytes through
/// the allocator finds an occurrence to reuse and appends nothing.
pub proof fn lemma_dedup_after_append(data: Seq<u8>, bytes: Seq<u8>)
    ensures
        match_at(data.add(bytes), bytes, data.len() as int),
        exists|i: int| match_at(data.add(bytes), bytes, i),
{
    assert(data.add(bytes).subrange(data.len() as int, data.len() + bytes.len() as int) =~= bytes);
}

/// At most one offset is the first occurrence of `bytes` in `data`, so the
/// offset the allocator reuses is determined by the buffer contents alone.
pub proof fn lemma_first_match_unique(data: Seq<u8>, bytes: Seq<u8>, i1: int, i2: int)
    requires
        first_match_at(data, bytes, i1),
        first_match_at(data, bytes, i2),
    ensures
        i1 == i2,
{
    if i1 < i2 {
        assert(!match_at(data, bytes, i1));
    }
    if i2 < i1 {
        assert(!match_at(data, bytes, i2));
    }
}

/// Well-formedness of a group of bit-level fields, each a width paired with
/// a value: widths lie between 1 and 7 and every value fits its width.
pub open spec fn fields_wf(fields: Seq<(u8, u8)>) -> bool {
    forall|k: int|
        0 <= k < fields.len() ==> 1 <= #[trigger] fields[k].0 <= 7 && fields[k].1 < (1u8
            << fields[k].0)
}

/// The total width in bits of a group of bit-level fields.
pub open spec fn widths_sum(fields: Seq<(u8, u8)>) -> int
    decreases fields.len(),
{
    if fields.len() == 0 {
        0
    } else {
        widths_sum(fields.drop_last()) + fields.last().0
    }
}

/// The byte assembled by writing a group of bit-level fields in order into a
/// fresh (all-zero) byte, each at the bit offset left by its predecessors.
pub open spec fn packed_byte(fields: Seq<(u8, u8)>) -> u8
    recommends
        fields_wf(fields),
        widths_sum(fields) <= 8,
    decreases fields.len(),
{
    if fields.len() == 0 {
        0u8
    } else {
        merged(
            packed_byte(fields.drop_last()),
            widths_sum(fields.drop_last()) as u8,
            fields.last().0,
            fields.last().1,
        )
    }
}

/// Total width of a prefix one field longer: the prefix's width plus the
/// width of the added field.
pub proof fn lemma_widths_sum_take_succ(fields: Seq<(u8, u8)>, k: int)
    requires
        0 <= k < fields.len(),
    ensures
        widths_sum(fields.take(k + 1)) == widths_sum(fields.take(k)) + fields[k].0,
{
    assert(fields.take(k + 1).drop_last() =~= fields.take(k));
    assert(fields.take(k + 1).last() == fields[k]);
}

/// Total widths of prefixes grow with the prefix.
pub proof fn lemma_widths_sum_monotone(fields: Seq<(u8, u8)>, a: int, b: int)
    requires
        fields_wf(fields),
        0 <= a <= b <= fields.len(),
    ensures
        widths_sum(fields.take(a)) <= widths_sum(fields.take(b)),
    decreases b - a,
{
    if a < b {
        lemma_widths_sum_monotone(fields, a, b - 1);
        lemma_widths_sum_take_succ(fields, b - 1);
    }
}

/// A packed byte keeps every bit at or above its total width clear.
proof fn lemma_packed_byte_below(fields: Seq<(u8, u8)>)
    requires
        fields_wf(fields),
        widths_sum(fields) <= 8,
    ensures
        (packed_byte(fields) as u16) < (1u16 << (widths_sum(fields) as u16)),
        0 <= widths_sum(fields),
    decreases fields.len(),
{
    if fields.len() == 0 {
        assert((0u8 as u16) < (1u16 << 0u16)) by (bit_vector);
    } else {
        let prev = fields.drop_last();
        assert(fields_wf(prev)) by {
            assert(forall|k: int| 0 <= k < prev.len() ==> prev[k] == fields[k]);
        }
        assert(fields.last() == fields[fields.len() - 1]);
        lemma_packed_byte_below(prev);
        let p = packed_byte(prev);
        let lo = widths_sum(prev) as u16;
        let w = fields.last().0;
        let v = fields.last().1;
        assert(((p | (v << (lo as u8))) as u16) < (1u16 << ((lo + w) as u16)) && (lo as u8) + w <= 8
            ==> ((lo as u8) + w) as u16 == lo + w) by (bit_vector);
        assert(((p | (v << (lo as u8))) as u16) < (1u16 << (lo + (w as u16)))) by (bit_vector)
            requires
                (p as u16) < (1u16 << lo),
                v < (1u8 << w),
                1 <= w <= 7,
                lo + w <= 8,
        ;
    }
}

/// Bit-field composition: writing a group of fields whose widths total at
/// most one byte into a fresh byte, and reading them back in the same order
/// and with the same widths, reproduces every field value.
pub proof fn lemma_bit_field_composition(fields: Seq<(u8, u8)>, k: int)
    requires
        fields_wf(fields),
        widths_sum(fields) <= 8,
        0 <= k < fields.len(),
    ensures
        field_of(packed_byte(fields), widths_sum(fields.take(k)) as u8, fields[k].0)
            == fields[k].1,
    decreases fields.len(),
{
    let prev = fields.drop_last();
    assert(fields_wf(prev)) by {
        assert(forall|j: int| 0 <= j < prev.len() ==> prev[j] == fields[j]);
    }
    lemma_packed_byte_below(prev);
    lemma_widths_sum_monotone(fields, 0, k);
    lemma_widths_sum_monotone(fields, k, fields.len() as int);
    let p = packed_byte(prev);
    let lo2 = widths_sum(prev) as u8;
    let wl = fields.last().0;
    let vl = fields.last().1;
    assert(fields.take(fields.len() as int) =~= fields);
    if k == fields.len() - 1 {
        assert(fields.take(k) =~= prev);
        let lo = widths_sum(prev) as u16;
        assert(field_of(p | (vl << (lo as u8)), lo as u8, wl) == vl) by (bit_vector)
            requires
                (p as u16) < (1u16 << lo),
                vl < (1u8 << wl),
                1 <= wl <= 7,
                lo + wl <= 8,
        ;
    } else {
        lemma_bit_field_composition(prev, k);
        assert(prev.take(k) =~= fields.take(k));
        assert(prev[k] == fields[k]);
        let lo = widths_sum(fields.take(k)) as u8;
        let w = fields[k].0;
        lemma_widths_sum_take_succ(fields, k);
        lemma_widths_sum_monotone(fields, k + 1, fields.len() - 1);
        assert(fields.take(fields.len() - 1) =~= prev);
        assert(lo + w <= lo2);
        assert(field_of(p | (vl << lo2), lo, w) == field_of(p, lo, w)) by (bit_vector)
            requires
                lo + w <= lo2,
                lo2 + wl <= 8,
                1 <= w <= 7,
                1 <= wl <= 7,
                vl < (1u8 << wl),
        ;
    }
}

/// Cursor over a code buffer and a data buffer, tracking a byte offset, a
/// sub-byte bit offset and an explicit end-of-addressable-space flag.
///
/// The flag is distinct from "offset equals buffer length": it marks that the
/// maximum representable offset (65,535) has been consumed by the most recent
/// one-byte advance, since offsets cannot represent 65,536.
pub struct Cursor {
    /// The instruction stream.
    pub code: Vec<u8>,
    /// Current byte offset within the code buffer.
    pub byte_pos: u16,
    /// Current bit offset within the byte at `byte_pos`; always below 8.
    pub bit_pos: u8,
    /// End-of-addressable-space flag.
    pub eof: bool,
    /// The content-addressed constant heap.
    pub data: Vec<u8>,
}

impl Cursor {
    /// Well-formedness: the bit offset stays inside one byte and both buffers
    /// stay inside their segment bounds.
    pub open spec fn inv(self) -> bool {
        &&& self.bit_pos < 8
        &&& self.code@.len() <= crate::CODE_SEGMENT_MAX_LEN
        &&& self.data@.len() <= crate::DATA_SEGMENT_MAX_LEN
    }

    /// Creates a cursor at position zero over the provided buffers.
    pub fn with(code: Vec<u8>, data: Vec<u8>) -> (c: Cursor)
        requires
            code@.len() <= crate::CODE_SEGMENT_MAX_LEN,
            data@.len() <= crate::DATA_SEGMENT_MAX_LEN,
        ensures
            c.inv(),
            c.code@ == code@,
            c.data@ == data@,
            c.byte_pos == 0,
            c.bit_pos == 0,
            !c.eof,
    {
        Cursor { code, byte_pos: 0, bit_pos: 0, eof: false, data }
    }

    /// Returns whether the cursor has consumed the upper boundary of the
    /// addressable byte range.
    pub fn is_eof(&self) -> (r: bool)
        ensures
            r == self.eof,
    {
        self.eof
    }

    /// Returns the current byte offset of the cursor; bits are not accounted.
    pub fn pos(&self) -> (r: u16)
        ensures
            r == self.byte_pos,
    {
        self.byte_pos
    }

    /// Returns the length of the code buffer.
    pub fn code_len(&self) -> (r: usize)
        ensures
            r == self.code@.len(),
    {
        self.code.len()
    }

    /// Sets the current byte offset to the provided value.
    pub fn seek(&mut self, byte_pos: u16)
        ensures
            *final(self) == (Cursor { byte_pos, ..*old(self) }),
    {
        self.byte_pos = byte_pos;
    }

    /// Consumes the cursor, yielding the data accumulated by its writes
    /// (that is, the data segment).
    pub fn into_data(self) -> (r: Vec<u8>)
        ensures
            r@ == self.data@,
    {
        self.data
    }

    /// Returns whether the byte offset has reached the end of the code buffer.
    pub fn is_end(&self) -> (r: bool)
        ensures
            r == (self.byte_pos >= self.code@.len()),
    {
        self.byte_pos as usize >= self.code.len()
    }

    /// Advances the bit offset by `bit_count` bits, rolling over into the
    /// next byte when the current byte is exhausted.
    fn inc_bits(&mut self, bit_count: u8)
        requires
            old(self).inv(),
            !old(self).eof,
            1 <= bit_count <= 7,
            old(self).bit_pos + bit_count <= 8,
        ensures
            final(self).inv(),
            final(self).code@ == old(self).code@,
            final(self).data@ == old(self).data@,
            (final(self).byte_pos, final(self).bit_pos, final(self).eof) == bit_step(
                old(self).byte_pos,
                old(self).bit_pos,
                bit_count,
            ),
    {
        let pos = self.bit_pos + bit_count;
        self.bit_pos = pos % 8;
        if pos >= 8 {
            if self.byte_pos == 65535 {
                self.eof = true;
            } else {
                self.byte_pos = self.byte_pos + 1;
            }
        }
    }

    /// Advances the byte offset by `byte_count` bytes; consuming the maximum
    /// offset with a single-byte step raises the end flag, while any farther
    /// advance past it is refused as out of boundaries.
    fn inc_bytes(&mut self, byte_count: u16) -> (r: Result<(), CursorError>)
        requires
            old(self).inv(),
            !old(self).eof,
            old(self).bit_pos == 0,
        ensures
            final(self).inv(),
            final(self).code@ == old(self).code@,
            final(self).data@ == old(self).data@,
            final(self).bit_pos == 0,
            can_advance(old(self).byte_pos, byte_count as nat) ==> r == Ok::<(), CursorError>(())
                && (final(self).byte_pos, final(self).eof) == byte_step(
                old(self).byte_pos,
                byte_count as nat,
            ),
            !can_advance(old(self).byte_pos, byte_count as nat) ==> r == Err::<(), CursorError>(
                CursorError::OutOfBoundaries((old(self).byte_pos + byte_count) as usize),
            ) && *final(self) == *old(self),
    {
        if byte_count == 1 && self.byte_pos == 65535 {
            self.eof = true;
            Ok(())
        } else {
            let sum: u32 = self.byte_pos as u32 + byte_count as u32;
            if sum > 65535 {
                Err(CursorError::OutOfBoundaries(sum as usize))
            } else {
                self.byte_pos = sum as u16;
                Ok(())
            }
        }
    }

    /// Reads a bit-level field of `width` bits (1-7) from the current byte at
    /// the current bit offset and advances past it.
    fn extract(&mut self, width: u8) -> (r: Result<u8, CursorError>)
        requires
            old(self).inv(),
            1 <= width <= 7,
            !old(self).eof ==> old(self).byte_pos < old(self).code@.len(),
            !old(self).eof ==> old(self).bit_pos + width <= 8,
        ensures
            final(self).inv(),
            final(self).code@ == old(self).code@,
            final(self).data@ == old(self).data@,
            old(self).eof ==> r == Err::<u8, CursorError>(CursorError::Eof) && *final(self) == *old(
                self,
            ),
            !old(self).eof ==> r == Ok::<u8, CursorError>(
                field_of(old(self).code@[old(self).byte_pos as int], old(self).bit_pos, width),
            ) && (final(self).byte_pos, final(self).bit_pos, final(self).eof) == bit_step(
                old(self).byte_pos,
                old(self).bit_pos,
                width,
            ),
            r matches Ok(v) ==> v < (1u8 << width),
    {
        if self.eof {
            return Err(CursorError::Eof);
        }
        let byte = self.code[self.byte_pos as usize];
        proof {
            assert(1u8 << width >= 1) by (bit_vector)
                requires
                    width <= 7,
            ;
        }
        let mask: u8 = ((1u8 << width) - 1) << self.bit_pos;
        let val = (byte & mask) >> self.bit_pos;
        proof {
            let b = self.bit_pos;
            assert((byte & ((((1u8 << width) - 1) as u8) << b)) >> b == (byte >> b) & (((1u8
                << width) - 1) as u8)) by (bit_vector)
                requires
                    b + width <= 8,
                    1 <= width <= 7,
            ;
            assert(((byte >> b) & (((1u8 << width) - 1) as u8)) < (1u8 << width)) by (bit_vector)
                requires
                    1 <= width <= 7,
            ;
        }
        self.inc_bits(width);
        Ok(val)
    }

    /// Writes the low `width` bits (1-7) of `v` into the current byte at the
    /// current bit offset by oring them in, and advances past the field.
    fn put_bits(&mut self, width: u8, v: u8) -> (r: Result<(), CursorError>)
        requires
            old(self).inv(),
            1 <= width <= 7,
            v < (1u8 << width),
            !old(self).eof ==> old(self).byte_pos < old(self).code@.len(),
            !old(self).eof ==> old(self).bit_pos + width <= 8,
        ensures
            final(self).inv(),
            final(self).data@ == old(self).data@,
            final(self).code@.len() == old(self).code@.len(),
            old(self).eof ==> r == Err::<(), CursorError>(CursorError::Eof) && *final(self) == *old(
                self,
            ),
            !old(self).eof ==> r == Ok::<(), CursorError>(()) && final(self).code@ == old(
                self,
            ).code@.update(
                old(self).byte_pos as int,
                merged(
                    old(self).code@[old(self).byte_pos as int],
                    old(self).bit_pos,
                    width,
                    v,
                ),
            ) && (final(self).byte_pos, final(self).bit_pos, final(self).eof) == bit_step(
                old(self).byte_pos,
                old(self).bit_pos,
                width,
            ),
    {
        if self.eof {
            return Err(CursorError::Eof);
        }
        let pos = self.byte_pos as usize;
        let merged_byte = self.code[pos] | (v << self.bit_pos);
        self.code.set(pos, merged_byte);
        self.inc_bits(width);
        Ok(())
    }

    /// Reads a single bit as a flag: the bit value 1 reads as `true`.
    pub fn read_bool(&mut self) -> (r: Result<bool, CursorError>)
        requires
            old(self).inv(),
            !old(self).eof ==> old(self).byte_pos < old(self).code@.len(),
            !old(self).eof ==> old(self).bit_pos + 1 <= 8,
        ensures
            final(self).inv(),
            final(self).code@ == old(self).code@,
            final(self).data@ == old(self).data@,
            old(self).eof ==> r == Err::<bool, CursorError>(CursorError::Eof) && *final(self)
                == *old(self),
            !old(self).eof ==> r == Ok::<bool, CursorError>(
                field_of(old(self).code@[old(self).byte_pos as int], old(self).bit_pos, 1) == 1,
            ) && (final(self).byte_pos, final(self).bit_pos, final(self).eof) == bit_step(
                old(self).byte_pos,
                old(self).bit_pos,
                1,
            ),
    {
        proof { lemma_bit_bounds(); }
        match self.extract(1) {
            Ok(b) => Ok(b == 1),
            Err(e) => Err(e),
        }
    }

    /// Reads a 1-bit unsigned field.
    pub fn read_u1(&mut self) -> (r: Result<u8, CursorError>)
        requires
            old(self).inv(),
            !old(self).eof ==> old(self).byte_pos < old(self).code@.len(),
            !old(self).eof ==> old(self).bit_pos + 1 <= 8,
        ensures
            final(self).inv(),
            final(self).code@ == old(self).code@,
            final(self).data@ == old(self).data@,
            old(self).eof ==> r == Err::<u8, CursorError>(CursorError::Eof) && *final(self) == *old(
                self,
            ),
            !old(self).eof ==> r == Ok::<u8, CursorError>(
                field_of(old(self).code@[old(self).byte_pos as int], old(self).bit_pos, 1),
            ) && (final(self).byte_pos, final(self).bit_pos, final(self).eof) == bit_step(
                old(self).byte_pos,
                old(self).bit_pos,
                1,
            ),
            r matches Ok(v) ==> v < 2,
    {
        proof { lemma_bit_bounds(); }
        self.extract(1)
    }

    /// Reads a 2-bit unsigned field.
    pub fn read_u2(&mut self) -> (r: Result<u8, CursorError>)
        requires
            old(self).inv(),
            !old(self).eof ==> old(self).byte_pos < old(self).code@.len(),
            !old(self).eof ==> old(self).bit_pos + 2 <= 8,
        ensures
            final(self).inv(),
            final(self).code@ == old(self).code@,
            final(self).data@ == old(self).data@,
            old(self).eof ==> r == Err::<u8, CursorError>(CursorError::Eof) && *final(self) == *old(
                self,
            ),
            !old(self).eof ==> r == Ok::<u8, CursorError>(
                field_of(old(self).code@[old(self).byte_pos as int], old(self).bit_pos, 2),
            ) && (final(self).byte_pos, final(self).bit_pos, final(self).eof) == bit_step(
                old(self).byte_pos,
                old(self).bit_pos,
                2,
            ),
            r matches Ok(v) ==> v < 4,
    {
        proof { lemma_bit_bounds(); }
        self.extract(2)
    }

    /// Reads a 3-bit unsigned field.
    pub fn read_u3(&mut self) -> (r: Result<u8, CursorError>)
        requires
            old(self).inv(),
            !old(self).eof ==> old(self).byte_pos < old(self).code@.len(),
            !old(self).eof ==> old(self).bit_pos + 3 <= 8,
        ensures
            final(self).inv(),
            final(self).code@ == old(self).code@,
            final(self).data@ == old(self).data@,
            old(self).eof ==> r == Err::<u8, CursorError>(CursorError::Eof) && *final(self) == *old(
                self,
            ),
            !old(self).eof ==> r == Ok::<u8, CursorError>(
                field_of(old(self).code@[old(self).byte_pos as int], old(self).bit_pos, 3),
            ) && (final(self).byte_pos, final(self).bit_pos, final(self).eof) == bit_step(
                old(self).byte_pos,
                old(self).bit_pos,
                3,
            ),
            r matches Ok(v) ==> v < 8,
    {
        proof { lemma_bit_bounds(); }
        self.extract(3)
    }

    /// Reads a 4-bit unsigned field.
    pub fn read_u4(&mut self) -> (r: Result<u8, CursorError>)
        requires
            old(self).inv(),
            !old(self).eof ==> old(self).byte_pos < old(self).code@.len(),
            !old(self).eof ==> old(self).bit_pos + 4 <= 8,
        ensures
            final(self).inv(),
            final(self).code@ == old(self).code@,
            final(self).data@ == old(self).data@,
            old(self).eof ==> r == Err::<u8, CursorError>(CursorError::Eof) && *final(self) == *old(
                self,
            ),
            !old(self).eof ==> r == Ok::<u8, CursorError>(
                field_of(old(self).code@[old(self).byte_pos as int], old(self).bit_pos, 4),
            ) && (final(self).byte_pos, final(self).bit_pos, final(self).eof) == bit_step(
                old(self).byte_pos,
                old(self).bit_pos,
                4,
            ),
            r matches Ok(v) ==> v < 16,
    {
        proof { lemma_bit_bounds(); }
        self.extract(4)
    }

    /// Reads a 5-bit unsigned field.
    pub fn read_u5(&mut self) -> (r: Result<u8, CursorError>)
        requires
            old(self).inv(),
            !old(self).eof ==> old(self).byte_pos < old(self).code@.len(),
            !old(self).eof ==> old(self).bit_pos + 5 <= 8,
        ensures
            final(self).inv(),
            final(self).code@ == old(self).code@,
            final(self).data@ == old(self).data@,
            old(self).eof ==> r == Err::<u8, CursorError>(CursorError::Eof) && *final(self) == *old(
                self,
            ),
            !old(self).eof ==> r == Ok::<u8, CursorError>(
                field_of(old(self).code@[old(self).byte_pos as int], old(self).bit_pos, 5),
            ) && (final(self).byte_pos, final(self).bit_pos, final(self).eof) == bit_step(
                old(self).byte_pos,
                old(self).bit_pos,
                5,
            ),
            r matches Ok(v) ==> v < 32,
    {
        proof { lemma_bit_bounds(); }
        self.extract(5)
    }

    /// Reads a 6-bit unsigned field.
    pub fn read_u6(&mut self) -> (r: Result<u8, CursorError>)
        requires
            old(self).inv(),
            !old(self).eof ==> old(self).byte_pos < old(self).code@.len(),
            !old(self).eof ==> old(self).bit_pos + 6 <= 8,
        ensures
            final(self).inv(),
            final(self).code@ == old(self).code@,
            final(self).data@ == old(self).data@,
            old(self).eof ==> r == Err::<u8, CursorError>(CursorError::Eof) && *final(self) == *old(
                self,
            ),
            !old(self).eof ==> r == Ok::<u8, CursorError>(
                field_of(old(self).code@[old(self).byte_pos as int], old(self).bit_pos, 6),
            ) && (final(self).byte_pos, final(self).bit_pos, final(self).eof) == bit_step(
                old(self).byte_pos,
                old(self).bit_pos,
                6,
            ),
            r matches Ok(v) ==> v < 64,
    {
        proof { lemma_bit_bounds(); }
        self.extract(6)
    }

    /// Reads a 7-bit unsigned field.
    pub fn read_u7(&mut self) -> (r: Result<u8, CursorError>)
        requires
            old(self).inv(),
            !old(self).eof ==> old(self).byte_pos < old(self).code@.len(),
            !old(self).eof ==> old(self).bit_pos + 7 <= 8,
        ensures
            final(self).inv(),
            final(self).code@ == old(self).code@,
            final(self).data@ == old(self).data@,
            old(self).eof ==> r == Err::<u8, CursorError>(CursorError::Eof) && *final(self) == *old(
                self,
            ),
            !old(self).eof ==> r == Ok::<u8, CursorError>(
                field_of(old(self).code@[old(self).byte_pos as int], old(self).bit_pos, 7),
            ) && (final(self).byte_pos, final(self).bit_pos, final(self).eof) == bit_step(
                old(self).byte_pos,
                old(self).bit_pos,
                7,
            ),
            r matches Ok(v) ==> v < 128,
    {
        proof { lemma_bit_bounds(); }
        self.extract(7)
    }

    /// Writes a flag as a single bit: `true` writes the bit value 1.
    pub fn write_bool(&mut self, v: bool) -> (r: Result<(), CursorError>)
        requires
            old(self).inv(),
            !old(self).eof ==> old(self).byte_pos < old(self).code@.len(),
            !old(self).eof ==> old(self).bit_pos + 1 <= 8,
        ensures
            final(self).inv(),
            final(self).data@ == old(self).data@,
            final(self).code@.len() == old(self).code@.len(),
            old(self).eof ==> r == Err::<(), CursorError>(CursorError::Eof) && *final(self) == *old(
                self,
            ),
            !old(self).eof ==> r == Ok::<(), CursorError>(()) && final(self).code@ == old(
                self,
            ).code@.update(
                old(self).byte_pos as int,
                merged(
                    old(self).code@[old(self).byte_pos as int],
                    old(self).bit_pos,
                    1,
                    if v {
                        1
                    } else {
                        0
                    },
                ),
            ) && (final(self).byte_pos, final(self).bit_pos, final(self).eof) == bit_step(
                old(self).byte_pos,
                old(self).bit_pos,
                1,
            ),
    {
        proof { lemma_bit_bounds(); }
        self.put_bits(1, if v { 1 } else { 0 })
    }

    /// Writes a 1-bit unsigned field.
    pub fn write_u1(&mut self, v: u8) -> (r: Result<(), CursorError>)
        requires
            old(self).inv(),
            v < 2,
            !old(self).eof ==> old(self).byte_pos < old(self).code@.len(),
            !old(self).eof ==> old(self).bit_pos + 1 <= 8,
        ensures
            final(self).inv(),
            final(self).data@ == old(self).data@,
            final(self).code@.len() == old(self).code@.len(),
            old(self).eof ==> r == Err::<(), CursorError>(CursorError::Eof) && *final(self) == *old(
                self,
            ),
            !old(self).eof ==> r == Ok::<(), CursorError>(()) && final(self).code@ == old(
                self,
            ).code@.update(
                old(self).byte_pos as int,
                merged(old(self).code@[old(self).byte_pos as int], old(self).bit_pos, 1, v),
            ) && (final(self).byte_pos, final(self).bit_pos, final(self).eof) == bit_step(
                old(self).byte_pos,
                old(self).bit_pos,
                1,
            ),
    {
        proof { lemma_bit_bounds(); }
        self.put_bits(1, v)
    }

    /// Writes a 2-bit unsigned field.
    pub fn write_u2(&mut self, v: u8) -> (r: Result<(), CursorError>)
        requires
            old(self).inv(),
            v < 4,
            !old(self).eof ==> old(self).byte_pos < old(self).code@.len(),
            !old(self).eof ==> old(self).bit_pos + 2 <= 8,
        ensures
            final(self).inv(),
            final(self).data@ == old(self).data@,
            final(self).code@.len() == old(self).code@.len(),
            old(self).eof ==> r == Err::<(), CursorError>(CursorError::Eof) && *final(self) == *old(
                self,
            ),
            !old(self).eof ==> r == Ok::<(), CursorError>(()) && final(self).code@ == old(
                self,
            ).code@.update(
                old(self).byte_pos as int,
                merged(old(self).code@[old(self).byte_pos as int], old(self).bit_pos, 2, v),
            ) && (final(self).byte_pos, final(self).bit_pos, final(self).eof) == bit_step(
                old(self).byte_pos,
                old(self).bit_pos,
                2,
            ),
    {
        proof { lemma_bit_bounds(); }
        self.put_bits(2, v)
    }

    /// Writes a 3-bit unsigned field.
    pub fn write_u3(&mut self, v: u8) -> (r: Result<(), CursorError>)
        requires
            old(self).inv(),
            v < 8,
            !old(self).eof ==> old(self).byte_pos < old(self).code@.len(),
            !old(self).eof ==> old(self).bit_pos + 3 <= 8,
        ensures
            final(self).inv(),
            final(self).data@ == old(self).data@,
            final(self).code@.len() == old(self).code@.len(),
            old(self).eof ==> r == Err::<(), CursorError>(CursorError::Eof) && *final(self) == *old(
                self,
            ),
            !old(self).eof ==> r == Ok::<(), CursorError>(()) && final(self).code@ == old(
                self,
            ).code@.update(
                old(self).byte_pos as int,
                merged(old(self).code@[old(self).byte_pos as int], old(self).bit_pos, 3, v),
            ) && (final(self).byte_pos, final(self).bit_pos, final(self).eof) == bit_step(
                old(self).byte_pos,
                old(self).bit_pos,
                3,
            ),
    {
        proof { lemma_bit_bounds(); }
        self.put_bits(3, v)
    }

    /// Writes a 4-bit unsigned field.
    pub fn write_u4(&mut self, v: u8) -> (r: Result<(), CursorError>)
        requires
            old(self).inv(),
            v < 16,
            !old(self).eof ==> old(self).byte_pos < old(self).code@.len(),
            !old(self).eof ==> old(self).bit_pos + 4 <= 8,
        ensures
            final(self).inv(),
            final(self).data@ == old(self).data@,
            final(self).code@.len() == old(self).code@.len(),
            old(self).eof ==> r == Err::<(), CursorError>(CursorError::Eof) && *final(self) == *old(
                self,
            ),
            !old(self).eof ==> r == Ok::<(), CursorError>(()) && final(self).code@ == old(
                self,
            ).code@.update(
                old(self).byte_pos as int,
                merged(old(self).code@[old(self).byte_pos as int], old(self).bit_pos, 4, v),
            ) && (final(self).byte_pos, final(self).bit_pos, final(self).eof) == bit_step(
                old(self).byte_pos,
                old(self).bit_pos,
                4,
            ),
    {
        proof { lemma_bit_bounds(); }
        self.put_bits(4, v)
    }

    /// Writes a 5-bit unsigned field.
    pub fn write_u5(&mut self, v: u8) -> (r: Result<(), CursorError>)
        requires
            old(self).inv(),
            v < 32,
            !old(self).eof ==> old(self).byte_pos < old(self).code@.len(),
            !old(self).eof ==> old(self).bit_pos + 5 <= 8,
        ensures
            final(self).inv(),
            final(self).data@ == old(self).data@,
            final(self).code@.len() == old(self).code@.len(),
            old(self).eof ==> r == Err::<(), CursorError>(CursorError::Eof) && *final(self) == *old(
                self,
            ),
            !old(self).eof ==> r == Ok::<(), CursorError>(()) && final(self).code@ == old(
                self,
            ).code@.update(
                old(self).byte_pos as int,
                merged(old(self).code@[old(self).byte_pos as int], old(self).bit_pos, 5, v),
            ) && (final(self).byte_pos, final(self).bit_pos, final(self).eof) == bit_step(
                old(self).byte_pos,
                old(self).bit_pos,
                5,
            ),
    {
        proof { lemma_bit_bounds(); }
        self.put_bits(5, v)
    }

    /// Writes a 6-bit unsigned field.
    pub fn write_u6(&mut self, v: u8) -> (r: Result<(), CursorError>)
        requires
            old(self).inv(),
            v < 64,
            !old(self).eof ==> old(self).byte_pos < old(self).code@.len(),
            !old(self).eof ==> old(self).bit_pos + 6 <= 8,
        ensures
            final(self).inv(),
            final(self).data@ == old(self).data@,
            final(self).code@.len() == old(self).code@.len(),
            old(self).eof ==> r == Err::<(), CursorError>(CursorError::Eof) && *final(self) == *old(
                self,
            ),
            !old(self).eof ==> r == Ok::<(), CursorError>(()) && final(self).code@ == old(
                self,
            ).code@.update(
                old(self).byte_pos as int,
                merged(old(self).code@[old(self).byte_pos as int], old(self).bit_pos, 6, v),
            ) && (final(self).byte_pos, final(self).bit_pos, final(self).eof) == bit_step(
                old(self).byte_pos,
                old(self).bit_pos,
                6,
            ),
    {
        proof { lemma_bit_bounds(); }
        self.put_bits(6, v)
    }

    /// Writes a 7-bit unsigned field.
    pub fn write_u7(&mut self, v: u8) -> (r: Result<(), CursorError>)
        requires
            old(self).inv(),
            v < 128,
            !old(self).eof ==> old(self).byte_pos < old(self).code@.len(),
            !old(self).eof ==> old(self).bit_pos + 7 <= 8,
        ensures
            final(self).inv(),
            final(self).data@ == old(self).data@,
            final(self).code@.len() == old(self).code@.len(),
            old(self).eof ==> r == Err::<(), CursorError>(CursorError::Eof) && *final(self) == *old(
                self,
            ),
            !old(self).eof ==> r == Ok::<(), CursorError>(()) && final(self).code@ == old(
                self,
            ).code@.update(
                old(self).byte_pos as int,
                merged(old(self).code@[old(self).byte_pos as int], old(self).bit_pos, 7, v),
            ) && (final(self).byte_pos, final(self).bit_pos, final(self).eof) == bit_step(
                old(self).byte_pos,
                old(self).bit_pos,
                7,
            ),
    {
        proof { lemma_bit_bounds(); }
        self.put_bits(7, v)
    }

    /// Returns the byte at the current offset without advancing.
    pub fn peek_u8(&self) -> (r: Result<u8, CursorError>)
        requires
            self.inv(),
            !self.eof ==> self.byte_pos < self.code@.len(),
        ensures
            self.eof ==> r == Err::<u8, CursorError>(CursorError::Eof),
            !self.eof ==> r == Ok::<u8, CursorError>(self.code@[self.byte_pos as int]),
    {
        if self.eof {
            return Err(CursorError::Eof);
        }
        Ok(self.code[self.byte_pos as usize])
    }

    /// Reads one byte and advances past it.
    pub fn read_u8(&mut self) -> (r: Result<u8, CursorError>)
        requires
            old(self).inv(),
            old(self).bit_pos == 0,
            !old(self).eof ==> old(self).byte_pos < old(self).code@.len(),
        ensures
            final(self).inv(),
            final(self).code@ == old(self).code@,
            final(self).data@ == old(self).data@,
            final(self).bit_pos == 0,
            old(self).eof ==> r == Err::<u8, CursorError>(CursorError::Eof) && *final(self) == *old(
                self,
            ),
            !old(self).eof ==> r == Ok::<u8, CursorError>(
                old(self).code@[old(self).byte_pos as int],
            ) && (final(self).byte_pos, final(self).eof) == byte_step(old(self).byte_pos, 1),
    {
        if self.eof {
            return Err(CursorError::Eof);
        }
        let byte = self.code[self.byte_pos as usize];
        match self.inc_bytes(1) {
            Ok(()) => Ok(byte),
            Err(e) => Err(e),
        }
    }

    /// Reads a little-endian unsigned two-byte word and advances past it.
    pub fn read_u16(&mut self) -> (r: Result<u16, CursorError>)
        requires
            old(self).inv(),
            old(self).bit_pos == 0,
            !old(self).eof ==> old(self).byte_pos + 2 <= old(self).code@.len(),
        ensures
            final(self).inv(),
            final(self).code@ == old(self).code@,
            final(self).data@ == old(self).data@,
            final(self).bit_pos == 0,
            old(self).eof ==> r == Err::<u16, CursorError>(CursorError::Eof) && *final(self)
                == *old(self),
            !old(self).eof && !can_advance(old(self).byte_pos, 2) ==> r == Err::<u16, CursorError>(
                CursorError::OutOfBoundaries((old(self).byte_pos + 2) as usize),
            ) && *final(self) == *old(self),
            !old(self).eof && can_advance(old(self).byte_pos, 2) ==> r == Ok::<u16, CursorError>(
                u16_le(
                    old(self).code@[old(self).byte_pos as int],
                    old(self).code@[old(self).byte_pos + 1],
                ),
            ) && (final(self).byte_pos, final(self).eof) == byte_step(old(self).byte_pos, 2),
    {
        if self.eof {
            return Err(CursorError::Eof);
        }
        let p = self.byte_pos as usize;
        let b0 = self.code[p];
        let b1 = self.code[p + 1];
        let word: u16 = b0 as u16 + (b1 as u16) * 256;
        match self.inc_bytes(2) {
            Ok(()) => Ok(word),
            Err(e) => Err(e),
        }
    }

    /// Reads a little-endian signed two-byte word and advances past it.
    pub fn read_i16(&mut self) -> (r: Result<i16, CursorError>)
        requires
            old(self).inv(),
            old(self).bit_pos == 0,
            !old(self).eof ==> old(self).byte_pos + 2 <= old(self).code@.len(),
        ensures
            final(self).inv(),
            final(self).code@ == old(self).code@,
            final(self).data@ == old(self).data@,
            final(self).bit_pos == 0,
            old(self).eof ==> r == Err::<i16, CursorError>(CursorError::Eof) && *final(self)
                == *old(self),
            !old(self).eof && !can_advance(old(self).byte_pos, 2) ==> r == Err::<i16, CursorError>(
                CursorError::OutOfBoundaries((old(self).byte_pos + 2) as usize),
            ) && *final(self) == *old(self),
            !old(self).eof && can_advance(old(self).byte_pos, 2) ==> r == Ok::<i16, CursorError>(
                i16_le(
                    old(self).code@[old(self).byte_pos as int],
                    old(self).code@[old(self).byte_pos + 1],
                ),
            ) && (final(self).byte_pos, final(self).eof) == byte_step(old(self).byte_pos, 2),
    {
        if self.eof {
            return Err(CursorError::Eof);
        }
        let p = self.byte_pos as usize;
        let b0 = self.code[p];
        let b1 = self.code[p + 1];
        let word: u16 = b0 as u16 + (b1 as u16) * 256;
        match self.inc_bytes(2) {
            Ok(()) => Ok(word as i16),
            Err(e) => Err(e),
        }
    }

    /// Reads a little-endian unsigned three-byte word and advances past it.
    pub fn read_u24(&mut self) -> (r: Result<u32, CursorError>)
        requires
            old(self).inv(),
            old(self).bit_pos == 0,
            !old(self).eof ==> old(self).byte_pos + 3 <= old(self).code@.len(),
        ensures
            final(self).inv(),
            final(self).code@ == old(self).code@,
            final(self).data@ == old(self).data@,
            final(self).bit_pos == 0,
            old(self).eof ==> r == Err::<u32, CursorError>(CursorError::Eof) && *final(self)
                == *old(self),
            !old(self).eof && !can_advance(old(self).byte_pos, 3) ==> r == Err::<u32, CursorError>(
                CursorError::OutOfBoundaries((old(self).byte_pos + 3) as usize),
            ) && *final(self) == *old(self),
            !old(self).eof && can_advance(old(self).byte_pos, 3) ==> r == Ok::<u32, CursorError>(
                u24_le(
                    old(self).code@[old(self).byte_pos as int],
                    old(self).code@[old(self).byte_pos + 1],
                    old(self).code@[old(self).byte_pos + 2],
                ),
            ) && (final(self).byte_pos, final(self).eof) == byte_step(old(self).byte_pos, 3),
            r matches Ok(v) ==> v < 16777216,
    {
        if self.eof {
            return Err(CursorError::Eof);
        }
        let p = self.byte_pos as usize;
        let b0 = self.code[p];
        let b1 = self.code[p + 1];
        let b2 = self.code[p + 2];
        let word: u32 = b0 as u32 + (b1 as u32) * 256 + (b2 as u32) * 65536;
        match self.inc_bytes(3) {
            Ok(()) => Ok(word),
            Err(e) => Err(e),
        }
    }

    /// Reads 32 raw bytes and advances past them.
    pub fn read_bytes32(&mut self) -> (r: Result<Vec<u8>, CursorError>)
        requires
            old(self).inv(),
            old(self).bit_pos == 0,
            !old(self).eof ==> old(self).byte_pos + 32 <= old(self).code@.len(),
        ensures
            final(self).inv(),
            final(self).code@ == old(self).code@,
            final(self).data@ == old(self).data@,
            final(self).bit_pos == 0,
            old(self).eof ==> (r matches Err(e) && e == CursorError::Eof && *final(self) == *old(
                self,
            )),
            !old(self).eof && !can_advance(old(self).byte_pos, 32) ==> (r matches Err(e) && e
                == CursorError::OutOfBoundaries((old(self).byte_pos + 32) as usize) && *final(self)
                == *old(self)),
            !old(self).eof && can_advance(old(self).byte_pos, 32) ==> (r matches Ok(v) && v@ == old(
                self,
            ).code@.subrange(old(self).byte_pos as int, old(self).byte_pos + 32) && (
            final(self).byte_pos,
            final(self).eof,
            ) == byte_step(old(self).byte_pos, 32)),
    {
        if self.eof {
            return Err(CursorError::Eof);
        }
        if self.byte_pos > 65535 - 32 {
            return Err(CursorError::OutOfBoundaries(self.byte_pos as usize + 32));
        }
        let p = self.byte_pos as usize;
        let mut buf: Vec<u8> = Vec::new();
        let mut i: usize = 0;
        while i < 32
            invariant
                self.inv(),
                p + 32 <= self.code@.len(),
                i <= 32,
                buf@.len() == i,
                forall|j: int| 0 <= j < i ==> buf@[j] == self.code@[p + j],
            decreases 32 - i,
        {
            buf.push(self.code[p + i]);
            i = i + 1;
        }
        proof {
            assert(buf@ =~= self.code@.subrange(p as int, p + 32));
        }
        match self.inc_bytes(32) {
            Ok(()) => Ok(buf),
            Err(e) => Err(e),
        }
    }

    /// Writes one byte and advances past it.
    pub fn write_u8(&mut self, v: u8) -> (r: Result<(), CursorError>)
        requires
            old(self).inv(),
            old(self).bit_pos == 0,
            !old(self).eof ==> old(self).byte_pos < old(self).code@.len(),
        ensures
            final(self).inv(),
            final(self).data@ == old(self).data@,
            final(self).code@.len() == old(self).code@.len(),
            final(self).bit_pos == 0,
            old(self).eof ==> r == Err::<(), CursorError>(CursorError::Eof) && *final(self) == *old(
                self,
            ),
            !old(self).eof ==> r == Ok::<(), CursorError>(()) && final(self).code@ == old(
                self,
            ).code@.update(old(self).byte_pos as int, v) && (
            final(self).byte_pos,
            final(self).eof,
            ) == byte_step(old(self).byte_pos, 1),
    {
        if self.eof {
            return Err(CursorError::Eof);
        }
        let p = self.byte_pos as usize;
        self.code.set(p, v);
        match self.inc_bytes(1) {
            Ok(()) => Ok(()),
            Err(e) => Err(e),
        }
    }

    /// Writes a little-endian unsigned two-byte word and advances past it.
    pub fn write_u16(&mut self, v: u16) -> (r: Result<(), CursorError>)
        requires
            old(self).inv(),
            old(self).bit_pos == 0,
            !old(self).eof ==> old(self).byte_pos + 2 <= old(self).code@.len(),
        ensures
            final(self).inv(),
            final(self).data@ == old(self).data@,
            final(self).code@.len() == old(self).code@.len(),
            final(self).bit_pos == 0,
            old(self).eof ==> r == Err::<(), CursorError>(CursorError::Eof) && *final(self) == *old(
                self,
            ),
            !old(self).eof && !can_advance(old(self).byte_pos, 2) ==> r == Err::<(), CursorError>(
                CursorError::OutOfBoundaries((old(self).byte_pos + 2) as usize),
            ) && *final(self) == *old(self),
            !old(self).eof && can_advance(old(self).byte_pos, 2) ==> r == Ok::<(), CursorError>(())
                && final(self).code@ == old(self).code@.update(
                old(self).byte_pos as int,
                (v & 0xff) as u8,
            ).update(old(self).byte_pos + 1, (v >> 8) as u8) && (
            final(self).byte_pos,
            final(self).eof,
            ) == byte_step(old(self).byte_pos, 2),
    {
        if self.eof {
            return Err(CursorError::Eof);
        }
        if self.byte_pos > 65535 - 2 {
            return Err(CursorError::OutOfBoundaries(self.byte_pos as usize + 2));
        }
        let p = self.byte_pos as usize;
        self.code.set(p, (v & 0xff) as u8);
        self.code.set(p + 1, (v >> 8) as u8);
        match self.inc_bytes(2) {
            Ok(()) => Ok(()),
            Err(e) => Err(e),
        }
    }

    /// Writes a little-endian signed two-byte word and advances past it.
    pub fn write_i16(&mut self, v: i16) -> (r: Result<(), CursorError>)
        requires
            old(self).inv(),
            old(self).bit_pos == 0,
            !old(self).eof ==> old(self).byte_pos + 2 <= old(self).code@.len(),
        ensures
            final(self).inv(),
            final(self).data@ == old(self).data@,
            final(self).code@.len() == old(self).code@.len(),
            final(self).bit_pos == 0,
            old(self).eof ==> r == Err::<(), CursorError>(CursorError::Eof) && *final(self) == *old(
                self,
            ),
            !old(self).eof && !can_advance(old(self).byte_pos, 2) ==> r == Err::<(), CursorError>(
                CursorError::OutOfBoundaries((old(self).byte_pos + 2) as usize),
            ) && *final(self) == *old(self),
            !old(self).eof && can_advance(old(self).byte_pos, 2) ==> r == Ok::<(), CursorError>(())
                && final(self).code@ == old(self).code@.update(
                old(self).byte_pos as int,
                ((v as u16) & 0xff) as u8,
            ).update(old(self).byte_pos + 1, ((v as u16) >> 8) as u8) && (
            final(self).byte_pos,
            final(self).eof,
            ) == byte_step(old(self).byte_pos, 2),
    {
        self.write_u16(v as u16)
    }

    /// Writes a little-endian unsigned three-byte word and advances past it.
    pub fn write_u24(&mut self, v: u32) -> (r: Result<(), CursorError>)
        requires
            old(self).inv(),
            old(self).bit_pos == 0,
            v < 16777216,
            !old(self).eof ==> old(self).byte_pos + 3 <= old(self).code@.len(),
        ensures
            final(self).inv(),
            final(self).data@ == old(self).data@,
            final(self).code@.len() == old(self).code@.len(),
            final(self).bit_pos == 0,
            old(self).eof ==> r == Err::<(), CursorError>(CursorError::Eof) && *final(self) == *old(
                self,
            ),
            !old(self).eof && !can_advance(old(self).byte_pos, 3) ==> r == Err::<(), CursorError>(
                CursorError::OutOfBoundaries((old(self).byte_pos + 3) as usize),
            ) && *final(self) == *old(self),
            !old(self).eof && can_advance(old(self).byte_pos, 3) ==> r == Ok::<(), CursorError>(())
                && final(self).code@ == old(self).code@.update(
                old(self).byte_pos as int,
                (v & 0xff) as u8,
            ).update(old(self).byte_pos + 1, ((v >> 8) & 0xff) as u8).update(
                old(self).byte_pos + 2,
                ((v >> 16) & 0xff) as u8,
            ) && (final(self).byte_pos, final(self).eof) == byte_step(old(self).byte_pos, 3),
    {
        if self.eof {
            return Err(CursorError::Eof);
        }
        if self.byte_pos > 65535 - 3 {
            return Err(CursorError::OutOfBoundaries(self.byte_pos as usize + 3));
        }
        let p = self.byte_pos as usize;
        self.code.set(p, (v & 0xff) as u8);
        self.code.set(p + 1, ((v >> 8) & 0xff) as u8);
        self.code.set(p + 2, ((v >> 16) & 0xff) as u8);
        match self.inc_bytes(3) {
            Ok(()) => Ok(()),
            Err(e) => Err(e),
        }
    }

    /// Writes 32 raw bytes and advances past them.
    pub fn write_bytes32(&mut self, bytes: &Vec<u8>) -> (r: Result<(), CursorError>)
        requires
            old(self).inv(),
            old(self).bit_pos == 0,
            bytes@.len() == 32,
            !old(self).eof ==> old(self).byte_pos + 32 <= old(self).code@.len(),
        ensures
            final(self).inv(),
            final(self).data@ == old(self).data@,
            final(self).code@.len() == old(self).code@.len(),
            final(self).bit_pos == 0,
            old(self).eof ==> r == Err::<(), CursorError>(CursorError::Eof) && *final(self) == *old(
                self,
            ),
            !old(self).eof && !can_advance(old(self).byte_pos, 32) ==> r == Err::<(), CursorError>(
                CursorError::OutOfBoundaries((old(self).byte_pos + 32) as usize),
            ) && *final(self) == *old(self),
            !old(self).eof && can_advance(old(self).byte_pos, 32) ==> r == Ok::<(), CursorError>(())
                && final(self).code@ == old(self).code@.take(old(self).byte_pos as int).add(
                bytes@,
            ).add(old(self).code@.skip(old(self).byte_pos + 32)) && (
            final(self).byte_pos,
            final(self).eof,
            ) == byte_step(old(self).byte_pos, 32),
    {
        if self.eof {
            return Err(CursorError::Eof);
        }
        if self.byte_pos > 65535 - 32 {
            return Err(CursorError::OutOfBoundaries(self.byte_pos as usize + 32));
        }
        let p = self.byte_pos as usize;
        let mut i: usize = 0;
        while i < 32
            invariant
                self.inv(),
                self.byte_pos == old(self).byte_pos,
                self.bit_pos == 0,
                self.eof == old(self).eof,
                p == old(self).byte_pos as int,
                p + 32 <= self.code@.len(),
                bytes@.len() == 32,
                i <= 32,
                self.data@ == old(self).data@,
                self.code@.len() == old(self).code@.len(),
                forall|j: int| 0 <= j < i ==> self.code@[p + j] == bytes@[j],
                forall|j: int|
                    0 <= j < self.code@.len() && !(p <= j < p + i) ==> self.code@[j] == old(
                        self,
                    ).code@[j],
            decreases 32 - i,
        {
            let b = bytes[i];
            self.code.set(p + i, b);
            i = i + 1;
        }
        proof {
            assert(self.code@ =~= old(self).code@.take(p as int).add(bytes@).add(
                old(self).code@.skip(p + 32),
            ));
        }
        match self.inc_bytes(32) {
            Ok(()) => Ok(()),
            Err(e) => Err(e),
        }
    }

    /// Returns whether `bytes` occurs in the data buffer at offset `i`.
    fn data_matches_at(&self, bytes: &Vec<u8>, i: usize) -> (r: bool)
        requires
            i + bytes@.len() <= self.data@.len(),
        ensures
            r == match_at(self.data@, bytes@, i as int),
    {
        let dl = self.data.len();
        let mut j: usize = 0;
        while j < bytes.len()
            invariant
                j <= bytes@.len(),
                dl == self.data@.len(),
                i + bytes@.len() <= dl,
                forall|t: int| 0 <= t < j ==> self.data@[i + t] == bytes@[t],
            decreases bytes@.len() - j,
        {
            if self.data[i + j] != bytes[j] {
                proof {
                    if match_at(self.data@, bytes@, i as int) {
                        assert(self.data@.subrange(i as int, i + bytes@.len())[j as int]
                            == self.data@[i + j]);
                    }
                }
                return false;
            }
            j = j + 1;
        }
        proof {
            assert(self.data@.subrange(i as int, i + bytes@.len()) =~= bytes@);
        }
        true
    }

    /// The content-addressed allocator: scans the data buffer for an existing
    /// occurrence of `bytes`; reuses the first such offset, or appends the
    /// bytes at the end, refusing an append that would exceed the data
    /// segment bound. The code buffer and the position are untouched.
    fn write_unique(&mut self, bytes: &Vec<u8>) -> (r: Result<u32, CursorError>)
        requires
            old(self).inv(),
            1 <= bytes@.len(),
            old(self).data@.len() + bytes@.len() <= usize::MAX,
        ensures
            final(self).inv(),
            final(self).code@ == old(self).code@,
            final(self).byte_pos == old(self).byte_pos,
            final(self).bit_pos == old(self).bit_pos,
            final(self).eof == old(self).eof,
            (exists|i: int| match_at(old(self).data@, bytes@, i)) ==> (r matches Ok(off)
                && first_match_at(old(self).data@, bytes@, off as int) && *final(self) == *old(
                self,
            )),
            !(exists|i: int| match_at(old(self).data@, bytes@, i)) && old(self).data@.len()
                + bytes@.len() > crate::DATA_SEGMENT_MAX_LEN ==> (r matches Err(e) && e
                == CursorError::OutOfBoundaries((old(self).data@.len() + bytes@.len()) as usize)
                && *final(self) == *old(self)),
            !(exists|i: int| match_at(old(self).data@, bytes@, i)) && old(self).data@.len()
                + bytes@.len() <= crate::DATA_SEGMENT_MAX_LEN ==> (r matches Ok(off) && off == old(
                self,
            ).data@.len() && final(self).data@ == old(self).data@.add(bytes@)),
            r matches Ok(off) ==> off < 16777216 && match_at(final(self).data@, bytes@, off as int),
    {
        let len = bytes.len();
        let dlen = self.data.len();
        if len <= dlen {
            let mut i: usize = 0;
            while i + len <= dlen
                invariant
                    old(self).inv(),
                    *self == *old(self),
                    len == bytes@.len(),
                    dlen == self.data@.len(),
                    1 <= len <= dlen,
                    i <= dlen,
                    forall|j: int| 0 <= j < i ==> !match_at(self.data@, bytes@, j),
                decreases dlen - i,
            {
                if self.data_matches_at(bytes, i) {
                    return Ok(i as u32);
                }
                i = i + 1;
            }
        }
        proof {
            assert forall|j: int| !match_at(old(self).data@, bytes@, j) by {
                if match_at(old(self).data@, bytes@, j) {
                    assert(j + bytes@.len() <= old(self).data@.len());
                }
            }
        }
        if dlen + len > crate::DATA_SEGMENT_MAX_LEN {
            return Err(CursorError::OutOfBoundaries(dlen + len));
        }
        let mut k: usize = 0;
        while k < len
            invariant
                old(self).inv(),
                self.code@ == old(self).code@,
                self.byte_pos == old(self).byte_pos,
                self.bit_pos == old(self).bit_pos,
                self.eof == old(self).eof,
                len == bytes@.len(),
                dlen == old(self).data@.len(),
                dlen + len <= crate::DATA_SEGMENT_MAX_LEN,
                k <= len,
                self.data@ == old(self).data@.add(bytes@.take(k as int)),
            decreases len - k,
        {
            let b = bytes[k];
            self.data.push(b);
            proof {
                assert(self.data@ =~= old(self).data@.add(bytes@.take(k + 1)));
            }
            k = k + 1;
        }
        proof {
            assert(bytes@.take(len as int) =~= bytes@);
            assert(self.data@.subrange(dlen as int, dlen + bytes@.len()) =~= bytes@);
        }
        Ok(dlen as u32)
    }

    /// Reads a 24-bit offset and a 16-bit length from the code buffer and
    /// returns the addressed slice of the data buffer, clamped to the data
    /// buffer's actual bounds, together with a flag that is raised exactly
    /// when the requested range exceeded those bounds. The overflow is a soft
    /// condition for the caller to consume, never a hard failure.
    pub fn read_data(&mut self) -> (r: Result<(Vec<u8>, bool), CursorError>)
        requires
            old(self).inv(),
            old(self).bit_pos == 0,
            !old(self).eof ==> old(self).byte_pos + 5 <= old(self).code@.len(),
        ensures
            final(self).inv(),
            final(self).code@ == old(self).code@,
            final(self).data@ == old(self).data@,
            final(self).bit_pos == 0,
            old(self).eof ==> (r matches Err(e) && e == CursorError::Eof && *final(self) == *old(
                self,
            )),
            !old(self).eof && old(self).byte_pos + 3 > 65535 ==> (r matches Err(e) && e
                == CursorError::OutOfBoundaries((old(self).byte_pos + 3) as usize) && *final(self)
                == *old(self)),
            !old(self).eof && old(self).byte_pos + 3 <= 65535 && old(self).byte_pos + 5 > 65535 ==> (
            r matches Err(e) && e == CursorError::OutOfBoundaries(
                (old(self).byte_pos + 5) as usize,
            )),
            !old(self).eof && old(self).byte_pos + 5 <= 65535 ==> (r matches Ok(v) && ({
                let offset = u24_le(
                    old(self).code@[old(self).byte_pos as int],
                    old(self).code@[old(self).byte_pos + 1],
                    old(self).code@[old(self).byte_pos + 2],
                ) as int;
                let l = u16_le(
                    old(self).code@[old(self).byte_pos + 3],
                    old(self).code@[old(self).byte_pos + 4],
                ) as int;
                let dl = old(self).data@.len() as int;
                &&& v.1 == (offset + l > dl)
                &&& v.0@ == old(self).data@.subrange(
                    if offset < dl {
                        offset
                    } else {
                        dl
                    },
                    if offset + l < dl {
                        offset + l
                    } else {
                        dl
                    },
                )
                &&& final(self).byte_pos == old(self).byte_pos + 5
                &&& !final(self).eof
            })),
    {
        let offset_word = self.read_u24()?;
        let len_word = self.read_u16()?;
        let offset = offset_word as usize;
        let end = offset + len_word as usize;
        let dl = self.data.len();
        let st0 = end > dl;
        let lo = if offset < dl {
            offset
        } else {
            dl
        };
        let hi = if end < dl {
            end
        } else {
            dl
        };
        let mut out: Vec<u8> = Vec::new();
        let mut i: usize = lo;
        while i < hi
            invariant
                lo <= i <= hi <= self.data@.len(),
                out@.len() == i - lo,
                forall|t: int| 0 <= t < i - lo ==> out@[t] == self.data@[lo + t],
            decreases hi - i,
        {
            let b = self.data[i];
            out.push(b);
            i = i + 1;
        }
        proof {
            assert(out@ =~= self.data@.subrange(lo as int, hi as int));
        }
        Ok((out, st0))
    }

    /// Reads a 24-bit offset from the code buffer and returns exactly `width`
    /// bytes of the data buffer starting there; a range that does not lie
    /// fully within the data buffer fails hard as an end-of-stream condition,
    /// because numeric reads must be exact.
    pub fn read_number(&mut self, width: u16) -> (r: Result<Vec<u8>, CursorError>)
        requires
            old(self).inv(),
            old(self).bit_pos == 0,
            !old(self).eof ==> old(self).byte_pos + 3 <= old(self).code@.len(),
        ensures
            final(self).inv(),
            final(self).code@ == old(self).code@,
            final(self).data@ == old(self).data@,
            final(self).bit_pos == 0,
            old(self).eof ==> (r matches Err(e) && e == CursorError::Eof && *final(self) == *old(
                self,
            )),
            !old(self).eof && old(self).byte_pos + 3 > 65535 ==> (r matches Err(e) && e
                == CursorError::OutOfBoundaries((old(self).byte_pos + 3) as usize) && *final(self)
                == *old(self)),
            !old(self).eof && old(self).byte_pos + 3 <= 65535 ==> ({
                let offset = u24_le(
                    old(self).code@[old(self).byte_pos as int],
                    old(self).code@[old(self).byte_pos + 1],
                    old(self).code@[old(self).byte_pos + 2],
                ) as int;
                &&& final(self).byte_pos == old(self).byte_pos + 3
                &&& !final(self).eof
                &&& (offset + width > old(self).data@.len() ==> (r matches Err(e) && e
                    == CursorError::Eof))
                &&& (offset + width <= old(self).data@.len() ==> (r matches Ok(v) && v@ == old(
                    self,
                ).data@.subrange(offset, offset + width)))
            }),
    {
        let offset_word = self.read_u24()?;
        let offset = offset_word as usize;
        let end = offset + width as usize;
        if end > self.data.len() {
            return Err(CursorError::Eof);
        }
        let mut out: Vec<u8> = Vec::new();
        let mut i: usize = offset;
        while i < end
            invariant
                offset <= i <= end <= self.data@.len(),
                out@.len() == i - offset,
                forall|t: int| 0 <= t < i - offset ==> out@[t] == self.data@[offset + t],
            decreases end - i,
        {
            let b = self.data[i];
            out.push(b);
            i = i + 1;
        }
        proof {
            assert(out@ =~= self.data@.subrange(offset as int, end as int));
        }
        Ok(out)
    }

    /// Stores `bytes` in the data buffer through the content-addressed
    /// allocator and writes the resulting 24-bit offset followed by the
    /// 16-bit length into the code buffer.
    pub fn write_data(&mut self, bytes: &Vec<u8>) -> (r: Result<(), CursorError>)
        requires
            old(self).inv(),
            old(self).bit_pos == 0,
            1 <= bytes@.len(),
            !old(self).eof ==> old(self).byte_pos + 5 <= old(self).code@.len(),
        ensures
            final(self).inv(),
            final(self).code@.len() == old(self).code@.len(),
            final(self).bit_pos == 0,
            old(self).eof ==> (r matches Err(e) && e == CursorError::Eof && *final(self) == *old(
                self,
            )),
            !old(self).eof && bytes@.len() > 65535 ==> (r matches Err(e) && e
                == CursorError::OutOfBoundaries(bytes@.len() as usize) && *final(self) == *old(
                self,
            )),
            !old(self).eof && bytes@.len() <= 65535 && old(self).byte_pos + 5 > 65535 ==> (
            r matches Err(e) && e == CursorError::OutOfBoundaries(
                if old(self).byte_pos + 3 > 65535 {
                    (old(self).byte_pos + 3) as usize
                } else {
                    (old(self).byte_pos + 5) as usize
                },
            ) && *final(self) == *old(self)),
            !old(self).eof && bytes@.len() <= 65535 && old(self).byte_pos + 5 <= 65535 ==> ({
                let found = exists|i: int| match_at(old(self).data@, bytes@, i);
                let off: u32 = if found {
                    first_match_index(old(self).data@, bytes@) as u32
                } else {
                    old(self).data@.len() as u32
                };
                &&& (found ==> (r matches Ok(u) && final(self).data@ == old(self).data@ && final(self).code@ == with_u16_at(
                    with_u24_at(old(self).code@, old(self).byte_pos as int, off),
                    old(self).byte_pos + 3,
                    bytes@.len() as u16,
                ) && final(self).byte_pos == old(self).byte_pos + 5 && !final(self).eof))
                &&& (!found && old(self).data@.len() + bytes@.len() > crate::DATA_SEGMENT_MAX_LEN
                    ==> (r matches Err(e) && e == CursorError::OutOfBoundaries(
                    (old(self).data@.len() + bytes@.len()) as usize,
                ) && *final(self) == *old(self)))
                &&& (!found && old(self).data@.len() + bytes@.len() <= crate::DATA_SEGMENT_MAX_LEN
                    ==> (r matches Ok(u) && final(self).data@ == old(self).data@.add(bytes@)
                    && final(self).code@ == with_u16_at(
                    with_u24_at(old(self).code@, old(self).byte_pos as int, off),
                    old(self).byte_pos + 3,
                    bytes@.len() as u16,
                ) && final(self).byte_pos == old(self).byte_pos + 5 && !final(self).eof))
            }),
    {
        if self.eof {
            return Err(CursorError::Eof);
        }
        let len = bytes.len();
        if len > 65535 {
            return Err(CursorError::OutOfBoundaries(len));
        }
        if self.byte_pos > 65535 - 3 {
            return Err(CursorError::OutOfBoundaries(self.byte_pos as usize + 3));
        }
        if self.byte_pos > 65535 - 5 {
            return Err(CursorError::OutOfBoundaries(self.byte_pos as usize + 5));
        }
        let off = match self.write_unique(bytes) {
            Ok(off) => off,
            Err(e) => {
                return Err(e);
            },
        };
        proof {
            if exists|i: int| match_at(old(self).data@, bytes@, i) {
                lemma_first_match_unique(
                    old(self).data@,
                    bytes@,
                    off as int,
                    first_match_index(old(self).data@, bytes@),
                );
            }
        }
        let r24 = self.write_u24(off);
        proof {
            assert(r24 matches Ok(u));
        }
        let r16 = self.write_u16(len as u16);
        proof {
            assert(r16 matches Ok(u));
        }
        Ok(())
    }

    /// Stores an already-shaped numeric value in the data buffer through the
    /// content-addressed allocator and writes the resulting 24-bit offset
    /// into the code buffer; the register file shapes the value to its
    /// register width before it reaches the codec.
    pub fn write_number(&mut self, value: &Vec<u8>) -> (r: Result<(), CursorError>)
        requires
            old(self).inv(),
            old(self).bit_pos == 0,
            1 <= value@.len(),
            old(self).data@.len() + value@.len() <= usize::MAX,
            !old(self).eof ==> old(self).byte_pos + 3 <= old(self).code@.len(),
        ensures
            final(self).inv(),
            final(self).code@.len() == old(self).code@.len(),
            final(self).bit_pos == 0,
            old(self).eof ==> (r matches Err(e) && e == CursorError::Eof && *final(self) == *old(
                self,
            )),
            !old(self).eof && old(self).byte_pos + 3 > 65535 ==> (r matches Err(e) && e
                == CursorError::OutOfBoundaries((old(self).byte_pos + 3) as usize) && *final(self)
                == *old(self)),
            !old(self).eof && old(self).byte_pos + 3 <= 65535 ==> ({
                let found = exists|i: int| match_at(old(self).data@, value@, i);
                let off: u32 = if found {
                    first_match_index(old(self).data@, value@) as u32
                } else {
                    old(self).data@.len() as u32
                };
                &&& (found ==> (r matches Ok(u) && final(self).data@ == old(self).data@ && final(self).code@ == with_u24_at(old(self).code@, old(self).byte_pos as int, off) && final(self).byte_pos == old(self).byte_pos + 3 && !final(self).eof))
                &&& (!found && old(self).data@.len() + value@.len() > crate::DATA_SEGMENT_MAX_LEN
                    ==> (r matches Err(e) && e == CursorError::OutOfBoundaries(
                    (old(self).data@.len() + value@.len()) as usize,
                ) && *final(self) == *old(self)))
                &&& (!found && old(self).data@.len() + value@.len() <= crate::DATA_SEGMENT_MAX_LEN
                    ==> (r matches Ok(u) && final(self).data@ == old(self).data@.add(value@)
                    && final(self).code@ == with_u24_at(
                    old(self).code@,
                    old(self).byte_pos as int,
                    off,
                ) && final(self).byte_pos == old(self).byte_pos + 3 && !final(self).eof))
            }),
    {
        if self.eof {
            return Err(CursorError::Eof);
        }
        if self.byte_pos > 65535 - 3 {
            return Err(CursorError::OutOfBoundaries(self.byte_pos as usize + 3));
        }
        let off = match self.write_unique(value) {
            Ok(off) => off,
            Err(e) => {
                return Err(e);
            },
        };
        proof {
            if exists|i: int| match_at(old(self).data@, value@, i) {
                lemma_first_match_unique(
                    old(self).data@,
                    value@,
                    off as int,
                    first_match_index(old(self).data@, value@),
                );
            }
        }
        let r24 = self.write_u24(off);
        proof {
            assert(r24 matches Ok(u));
        }
        Ok(())
    }
}

} // verus!
