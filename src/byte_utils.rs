//! Casting byte spans to values, and decoding one field at a cursor.

use crate::schema::{BufferValue, DType};
use crate::value::{DecodeError, FieldValue, ValueModel};
use vstd::arithmetic::power2::{lemma2_to64, lemma_pow2_unfold, pow2};
use vstd::bits::lemma_u8_shr_is_div;
use vstd::prelude::*;

verus! {

/// 256 to the power `n`.
pub open spec fn pow256(n: nat) -> nat
    decreases n,
{
    if n == 0 {
        1
    } else {
        256 * pow256((n - 1) as nat)
    }
}

/// The unsigned number whose big-endian bytes are `s`.
pub open spec fn be_value(s: Seq<u8>) -> nat
    decreases s.len(),
{
    if s.len() == 0 {
        0
    } else {
        (be_value(s.drop_last()) * 256 + s.last()) as nat
    }
}

/// The two's-complement reading of an unsigned number of `width` bits.
pub open spec fn twos_complement(v: nat, width: nat) -> int {
    if v >= pow2((width - 1) as nat) {
        v - pow2(width)
    } else {
        v as int
    }
}

/// Whether an IEEE-754 double bit pattern is finite (not an infinity, not a NaN).
pub open spec fn is_finite_double(bits: u64) -> bool {
    (bits >> 52u64) & 0x7ffu64 != 0x7ffu64
}

/// The number that eight bit-bytes spell, most significant first, each read by its lowest bit.
pub open spec fn bits_value(s: Seq<u8>) -> nat
    decreases s.len(),
{
    if s.len() == 0 {
        0
    } else {
        (bits_value(s.drop_last()) * 2 + s.last() % 2) as nat
    }
}

/// Bit `k` of `byte`, counting from the most significant bit at 0.
pub open spec fn bit_at(byte: u8, k: nat) -> u8 {
    ((byte as nat / pow2((7 - k) as nat)) % 2) as u8
}

/// The `len` bits of `byte` that start `off` bits after its most significant bit, right-justified.
pub open spec fn bit_field(byte: u8, off: nat, len: nat) -> nat {
    (byte as nat / pow2((8 - off - len) as nat)) % pow2(len)
}

/// The lossy UTF-8 decoding of a byte sequence.
pub uninterp spec fn utf8_lossy(bytes: Seq<u8>) -> Seq<char>;

/// The model of a decode result.
pub open spec fn outcome_view(r: Result<FieldValue, DecodeError>) -> Result<ValueModel, DecodeError> {
    match r {
        Ok(v) => Ok(v@),
        Err(e) => Err(e),
    }
}

/// What a byte span of one kind casts to.
pub open spec fn cast_spec(span: Seq<u8>, dtype: DType) -> Result<ValueModel, DecodeError> {
    match dtype {
        DType::Byte => if span.len() == 1 {
            Ok(ValueModel::Unsigned(span[0] as u64))
        } else {
            Err(DecodeError::Conversion)
        },
        DType::Char => Ok(ValueModel::Text(utf8_lossy(span))),
        DType::Bool => if span.len() == 1 {
            Ok(ValueModel::Bool(span[0] != 0))
        } else {
            Err(DecodeError::Conversion)
        },
        DType::UInt => if span.len() == 4 {
            Ok(ValueModel::Unsigned(be_value(span) as u64))
        } else {
            Err(DecodeError::Conversion)
        },
        DType::Short => if span.len() == 2 {
            Ok(ValueModel::Signed(twos_complement(be_value(span), 16) as i64))
        } else {
            Err(DecodeError::Conversion)
        },
        DType::SInt => if span.len() == 4 {
            Ok(ValueModel::Signed(twos_complement(be_value(span), 32) as i64))
        } else {
            Err(DecodeError::Conversion)
        },
        DType::Float => if span.len() == 8 && is_finite_double(be_value(span) as u64) {
            Ok(ValueModel::Float(be_value(span) as u64))
        } else {
            Err(DecodeError::Conversion)
        },
        DType::Bit => if span.len() == 8 {
            Ok(ValueModel::Unsigned(bits_value(span) as u64))
        } else {
            Err(DecodeError::Conversion)
        },
        DType::Pad => Ok(ValueModel::Null),
    }
}

proof fn lemma_pow256_le(i: nat, j: nat)
    requires
        i <= j,
    ensures
        1 <= pow256(i) <= pow256(j),
    decreases j,
{
    if i < j {
        lemma_pow256_le(i, (j - 1) as nat);
    } else if j > 0 {
        lemma_pow256_le((j - 1) as nat, (j - 1) as nat);
    }
}

proof fn lemma_pow256_seven()
    ensures
        pow256(2) == 65536,
        pow256(4) == 4294967296,
        pow256(7) == 72057594037927936,
{
    reveal_with_fuel(pow256, 8);
}

proof fn lemma_be_value_bound(s: Seq<u8>)
    ensures
        be_value(s) < pow256(s.len()),
    decreases s.len(),
{
    if s.len() > 0 {
        lemma_be_value_bound(s.drop_last());
    }
}

/// The big-endian number held in at most eight bytes.
fn be_number(span: &[u8]) -> (r: u64)
    requires
        span@.len() <= 8,
    ensures
        r as nat == be_value(span@),
{
    let mut acc: u64 = 0;
    let mut i: usize = 0;
    proof {
        assert(span@.subrange(0, 0) =~= Seq::<u8>::empty());
    }
    while i < span.len()
        invariant
            i <= span@.len() <= 8,
            acc as nat == be_value(span@.subrange(0, i as int)),
        decreases span@.len() - i,
    {
        proof {
            lemma_be_value_bound(span@.subrange(0, i as int));
            lemma_pow256_le(i as nat, 7);
            lemma_pow256_seven();
            assert(span@.subrange(0, i + 1).drop_last() =~= span@.subrange(0, i as int));
        }
        acc = acc * 256 + span[i] as u64;
        i += 1;
    }
    proof {
        assert(span@.subrange(0, i as int) =~= span@);
    }
    acc
}

/// Relies on `String::from_utf8_lossy`: invalid sequences become replacement characters,
/// and the text depends on the bytes alone.
#[verifier::external_body]
fn lossy_text(bytes: &[u8]) -> (r: String)
    ensures
        r@ == utf8_lossy(bytes@),
{
    String::from_utf8_lossy(bytes).into_owned()
}

/// Packs eight bit-bytes, most significant first, into one byte.
pub fn bits_to_u8(bits: [u8; 8]) -> (r: u8)
    ensures
        r as nat == bits_value(bits@),
{
    let mut acc: u8 = 0;
    let mut i: usize = 0;
    proof {
        lemma2_to64();
        assert(bits@.subrange(0, 0) =~= Seq::<u8>::empty());
    }
    while i < 8
        invariant
            i <= 8,
            bits@.len() == 8,
            acc as nat == bits_value(bits@.subrange(0, i as int)),
            (acc as nat) < pow2(i as nat),
        decreases 8 - i,
    {
        proof {
            lemma2_to64();
            lemma_pow2_unfold((i + 1) as nat);
            assert(bits@.subrange(0, i + 1).drop_last() =~= bits@.subrange(0, i as int));
        }
        acc = acc * 2 + bits[i] % 2;
        i += 1;
    }
    proof {
        assert(bits@.subrange(0, 8) =~= bits@);
    }
    acc
}

/// Casts a byte span to a value of the given kind.
pub fn cast_bytes(buf: &[u8], dtype: &DType) -> (r: Result<FieldValue, DecodeError>)
    ensures
        outcome_view(r) == cast_spec(buf@, *dtype),
{
    match dtype {
        DType::Byte => {
            if buf.len() == 1 {
                Ok(FieldValue::Unsigned(buf[0] as u64))
            } else {
                Err(DecodeError::Conversion)
            }
        },
        DType::Char => Ok(FieldValue::Text(lossy_text(buf))),
        DType::Bool => {
            if buf.len() == 1 {
                Ok(FieldValue::Bool(buf[0] != 0))
            } else {
                Err(DecodeError::Conversion)
            }
        },
        DType::UInt => {
            if buf.len() == 4 {
                Ok(FieldValue::Unsigned(be_number(buf)))
            } else {
                Err(DecodeError::Conversion)
            }
        },
        DType::Short => {
            if buf.len() == 2 {
                let v = be_number(buf);
                proof {
                    lemma_be_value_bound(buf@);
                    lemma_pow256_seven();
                    lemma2_to64();
                }
                if v >= 32768 {
                    Ok(FieldValue::Signed(v as i64 - 65536))
                } else {
                    Ok(FieldValue::Signed(v as i64))
                }
            } else {
                Err(DecodeError::Conversion)
            }
        },
        DType::SInt => {
            if buf.len() == 4 {
                let v = be_number(buf);
                proof {
                    lemma_be_value_bound(buf@);
                    lemma_pow256_seven();
                    lemma2_to64();
                }
                if v >= 2147483648 {
                    Ok(FieldValue::Signed(v as i64 - 4294967296))
                } else {
                    Ok(FieldValue::Signed(v as i64))
                }
            } else {
                Err(DecodeError::Conversion)
            }
        },
        DType::Float => {
            if buf.len() == 8 {
                let v = be_number(buf);
                if (v >> 52u64) & 0x7ffu64 != 0x7ffu64 {
                    Ok(FieldValue::Float(v))
                } else {
                    Err(DecodeError::Conversion)
                }
            } else {
                Err(DecodeError::Conversion)
            }
        },
        DType::Bit => {
            if buf.len() == 8 {
                let bits: [u8; 8] = [buf[0], buf[1], buf[2], buf[3], buf[4], buf[5], buf[6], buf[7]];
                proof {
                    assert(bits@ =~= buf@);
                }
                Ok(FieldValue::Unsigned(bits_to_u8(bits) as u64))
            } else {
                Err(DecodeError::Conversion)
            }
        },
        DType::Pad => Ok(FieldValue::Null),
    }
}

/// Where a field's bytes start, given the cursor before it (steps: flush a partly read
/// byte, round up to the next multiple of the packing unit when the field's length is a
/// multiple of it, let a fixed offset override).
pub open spec fn field_start(c: BufferValue, off: int, bit: int, packing: int) -> int {
    let o1 = if c.dtype != DType::Bit && bit != 0 {
        off + 1
    } else {
        off
    };
    let o2 = if c.dtype != DType::Bit && packing > 0 && (c.length as int) % packing == 0 && o1 % packing
        != 0 {
        o1 + (packing - o1 % packing)
    } else {
        o1
    };
    match c.offset {
        Some(x) => x as int,
        None => o2,
    }
}

/// The bit offset a field starts at: bit fields continue, other fields start on a byte.
pub open spec fn field_start_bit(c: BufferValue, bit: int) -> int {
    if c.dtype == DType::Bit {
        bit
    } else {
        0
    }
}

/// The byte width that a kind of fixed width requires.
pub open spec fn fixed_width(d: DType) -> Option<int> {
    match d {
        DType::Byte | DType::Bool => Some(1),
        DType::Short => Some(2),
        DType::UInt | DType::SInt => Some(4),
        DType::Float => Some(8),
        _ => None,
    }
}

/// Whether a field's length agrees with its kind (bit fields are checked as they are read).
pub open spec fn width_consistent(d: DType, length: int) -> bool {
    match fixed_width(d) {
        Some(w) => length == w,
        None => true,
    }
}

fn width_ok(d: &DType, length: usize) -> (r: bool)
    ensures
        r == width_consistent(*d, length as int),
{
    match d {
        DType::Byte | DType::Bool => length == 1,
        DType::Short => length == 2,
        DType::UInt | DType::SInt => length == 4,
        DType::Float => length == 8,
        _ => true,
    }
}

/// What one field decodes to, from the cursor `(off, bit)` in `buf`. A field whose length
/// disagrees with its fixed-width kind is a configuration error.
pub open spec fn field_spec(c: BufferValue, buf: Seq<u8>, off: int, bit: int, packing: int) -> Result<
    ValueModel,
    DecodeError,
> {
    let s = field_start(c, off, bit, packing);
    let b = field_start_bit(c, bit);
    if !width_consistent(c.dtype, c.length as int) {
        Err(DecodeError::Config)
    } else if c.dtype == DType::Bit {
        if 1 <= c.length && 0 <= b && b + c.length <= 8 && 0 <= s < buf.len() {
            Ok(ValueModel::Unsigned(bit_field(buf[s], b as nat, c.length as nat) as u64))
        } else {
            Err(DecodeError::Conversion)
        }
    } else if 0 <= s && s + c.length <= buf.len() {
        cast_spec(buf.subrange(s, s + c.length), c.dtype)
    } else {
        Err(DecodeError::Conversion)
    }
}

/// The cursor after one field was decoded from `(off, bit)`.
pub open spec fn field_next(c: BufferValue, off: int, bit: int, packing: int) -> (int, int) {
    let s = field_start(c, off, bit, packing);
    let b = field_start_bit(c, bit);
    if c.dtype == DType::Bit {
        if b + c.length == 8 {
            (s + 1, 0)
        } else {
            (s, b + c.length)
        }
    } else {
        (s + c.length, 0)
    }
}

/// 2 to the power `n`, for small `n`.
fn small_pow2(n: usize) -> (r: u16)
    requires
        n <= 8,
    ensures
        r as nat == pow2(n as nat),
{
    let mut r: u16 = 1;
    let mut k: usize = 0;
    proof {
        lemma2_to64();
    }
    while k < n
        invariant
            k <= n <= 8,
            r as nat == pow2(k as nat),
        decreases n - k,
    {
        proof {
            lemma2_to64();
            lemma_pow2_unfold((k + 1) as nat);
        }
        r = r * 2;
        k += 1;
    }
    r
}

/// The `len` bits of `byte` after its first `off` bits, right-justified.
fn extract_bits(byte: u8, off: usize, len: usize) -> (r: u8)
    requires
        off + len <= 8,
    ensures
        r as nat == bit_field(byte, off as nat, len as nat),
{
    let d = small_pow2(8 - off - len);
    let m = small_pow2(len);
    proof {
        lemma2_to64();
        vstd::arithmetic::power2::lemma_pow2_pos((8 - off - len) as nat);
        vstd::arithmetic::power2::lemma_pow2_pos(len as nat);
    }
    let v = (byte as u16 / d) % m;
    proof {
        assert(v < 256) by (nonlinear_arith)
            requires
                v == (byte as u16 / d) % m,
                d >= 1,
                m >= 1,
                byte < 256,
        ;
    }
    v as u8
}

/// Writes the `length` bits of `byte` that follow its first `bit_offset` bits, one per byte,
/// into the front of `out_buf`.
pub fn get_bit_slice(byte: u8, bit_offset: usize, length: usize, out_buf: &mut [u8])
    requires
        bit_offset + length <= 8,
        length <= old(out_buf)@.len(),
    ensures
        final(out_buf)@.len() == old(out_buf)@.len(),
        forall|i: int|
            0 <= i < length ==> #[trigger] final(out_buf)@[i] == bit_at(byte, (bit_offset + i) as nat),
        forall|i: int|
            length <= i < old(out_buf)@.len() ==> #[trigger] final(out_buf)@[i] == old(out_buf)@[i],
{
    let mut i: usize = 0;
    while i < length
        invariant
            bit_offset + length <= 8,
            i <= length <= out_buf@.len(),
            out_buf@.len() == old(out_buf)@.len(),
            forall|j: int| 0 <= j < i ==> #[trigger] out_buf@[j] == bit_at(byte, (bit_offset + j) as nat),
            forall|j: int| i <= j < out_buf@.len() ==> #[trigger] out_buf@[j] == old(out_buf)@[j],
        decreases length - i,
    {
        let shift: u8 = (7 - bit_offset - i) as u8;
        let shifted = byte >> shift;
        let bit = shifted & 0x01;
        proof {
            lemma_u8_shr_is_div(byte, shift);
            assert(shifted & 0x01 == shifted % 2) by (bit_vector);
        }
        out_buf[i] = bit;
        i += 1;
    }
}

/// Takes `length` bytes of `buf` at `*offset` and moves the offset past them.
pub fn get_buffer_slice<'a>(buf: &'a [u8], length: usize, offset: &mut usize) -> (r: &'a [u8])
    requires
        *old(offset) + length <= buf@.len(),
    ensures
        r@ == buf@.subrange(*old(offset) as int, *old(offset) + length),
        *final(offset) == *old(offset) + length,
{
    let start: usize = *offset;
    proof {
        assert(buf@.len() == buf.len());
    }
    let slice = &buf[start..start + length];
    *offset = start + length;
    slice
}

/// Decodes one field at the cursor `(*offset, *bit_offset)` and advances the cursor past it.
/// On failure the cursor is left as it was.
pub fn col_from_buf(
    column: &BufferValue,
    buf: &[u8],
    offset: &mut usize,
    bit_offset: &mut usize,
    packing: usize,
) -> (r: Result<FieldValue, DecodeError>)
    ensures
        outcome_view(r) == field_spec(*column, buf@, *old(offset) as int, *old(bit_offset) as int, packing as int),
        r is Ok ==> (*final(offset) as int, *final(bit_offset) as int) == field_next(
            *column,
            *old(offset) as int,
            *old(bit_offset) as int,
            packing as int,
        ),
        r is Err ==> *final(offset) == *old(offset) && *final(bit_offset) == *old(bit_offset),
{
    if !width_ok(&column.dtype, column.length) {
        return Err(DecodeError::Config);
    }
    let is_bit = match column.dtype {
        DType::Bit => true,
        _ => false,
    };
    let start: usize = match column.offset {
        Some(x) => x,
        None => {
            let mut o = *offset;
            if !is_bit && *bit_offset != 0 {
                if o >= buf.len() {
                    return Err(DecodeError::Conversion);
                }
                o = o + 1;
            }
            if !is_bit && packing > 0 && column.length % packing == 0 && o % packing != 0 {
                let pad = packing - o % packing;
                if o > buf.len() || pad > buf.len() - o {
                    return Err(DecodeError::Conversion);
                }
                o = o + pad;
            }
            o
        },
    };
    if is_bit {
        let b = *bit_offset;
        if column.length < 1 || column.length > 8 || b > 8 - column.length || start >= buf.len() {
            return Err(DecodeError::Conversion);
        }
        let v = extract_bits(buf[start], b, column.length);
        if b + column.length == 8 {
            *offset = start + 1;
            *bit_offset = 0;
        } else {
            *offset = start;
            *bit_offset = b + column.length;
        }
        Ok(FieldValue::Unsigned(v as u64))
    } else {
        if column.length > buf.len() || start > buf.len() - column.length {
            return Err(DecodeError::Conversion);
        }
        let r = cast_bytes(&buf[start..start + column.length], &column.dtype);
        if r.is_ok() {
            *offset = start + column.length;
            *bit_offset = 0;
        }
        r
    }
}

} // verus!
