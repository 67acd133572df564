//! The integer readers behind the loading of Stockfish network files: the
//! compressed 16-bit blocks, the raw 8-bit arrays and the skipping of blocks.
//! The conversion of the numbers into the engine's floating-point weights is
//! not part of the library.

use vstd::prelude::*;
use vstd::string::StringExecFns;
use crate::nnue::sf_probe::{SF_LEB128_MAGIC, le_u32, leb_decode, leb_samples};

verus! {

/// Whether decoding one number from `curr` with this reader stays inside the
/// data and never shifts a word by 32 bits or more: the number ends, or the
/// block ends, before a sixth byte would be taken in.
pub open spec fn leb_safe(d: Seq<u8>, curr: int, end: int, k: nat) -> bool
    decreases end - curr,
{
    if curr >= end || curr < 0 {
        true
    } else if curr >= d.len() || k >= 5 {
        false
    } else if d[curr] & 0x80 == 0 {
        true
    } else {
        leb_safe(d, curr + 1, end, k + 1)
    }
}

/// Whether reading up to `n` numbers from `curr` to `end` decodes each of them safely.
pub open spec fn i16_array_safe(d: Seq<u8>, curr: int, end: int, n: nat) -> bool
    decreases n,
{
    if n == 0 || curr >= end {
        true
    } else {
        leb_safe(d, curr, end, 0) && match leb_decode(d, curr, end, 0, 0) {
            None => true,
            Some((_, next)) => i16_array_safe(d, next, end, (n - 1) as nat),
        }
    }
}

/// Where a compressed block at `o` ends, as its tag and length give it.
pub open spec fn block_payload_end(d: Seq<u8>, o: int) -> int {
    o + 21 + le_u32(d, o + 17)
}

/// Whether a compressed block at `o` has its tag and length word inside the data.
pub open spec fn block_head_ok(d: Seq<u8>, o: int) -> bool {
    o + 17 <= d.len() && d.subrange(o, o + 17) == SF_LEB128_MAGIC@
}

/// Whether the number at `curr` decodes safely (see `leb_safe`).
fn leb_safe_at(data: &[u8], curr: usize, end: usize) -> (r: bool)
    ensures
        r == leb_safe(data@, curr as int, end as int, 0),
{
    let ghost d = data@;
    let mut k: usize = 0;
    while k < 5
        invariant
            k <= 5,
            d == data@,
            leb_safe(d, curr as int, end as int, 0) == leb_safe(d, curr + k, end as int, k as nat),
            curr + k <= usize::MAX,
            k > 0 ==> curr + k <= end,
        decreases 5 - k,
    {
        let c = curr + k;
        if c >= end {
            return true;
        }
        if c >= data.len() {
            return false;
        }
        if data[c] & 0x80 == 0 {
            return true;
        }
        k = k + 1;
    }
    if curr + k >= end {
        return true;
    }
    false
}

/// The length word of the compressed block at `offset`, when the block's head
/// lies inside the data.
fn block_length(data: &[u8], offset: usize) -> (r: u32)
    requires
        offset + 21 <= data@.len(),
    ensures
        r == le_u32(data@, offset + 17),
{
    assert(offset + 21 <= data.len());
    let o = offset + 17;
    data[o] as u32 + data[o + 1] as u32 * 0x100 + data[o + 2] as u32 * 0x10000 + data[o + 3] as u32 * 0x1000000
}

/// Whether the compressed block at `offset` can be read for `count` numbers
/// without leaving the data or overflowing a shift: the condition
/// `SFNNUELoader::read_leb128_i16_array` asks of its input.
pub fn leb_block_readable(data: &[u8], offset: usize, count: usize) -> (r: bool)
    requires
        offset <= data@.len(),
    ensures
        r == (block_head_ok(data@, offset as int) ==> {
            &&& offset + 21 <= data@.len()
            &&& block_payload_end(data@, offset as int) <= usize::MAX
            &&& i16_array_safe(data@, offset + 21, block_payload_end(data@, offset as int), count as nat)
        }),
{
    let ghost d = data@;
    if data.len() - offset < 17 {
        return true;
    }
    let mut k: usize = 0;
    while k < 17
        invariant
            k <= 17,
            d == data@,
            offset + 17 <= d.len(),
            d.len() == data.len(),
            forall|j: int| 0 <= j < k ==> d[offset + j] == SF_LEB128_MAGIC@[j],
        decreases 17 - k,
    {
        if data[offset + k] != SF_LEB128_MAGIC[k] {
            assert(d.subrange(offset as int, offset + 17)[k as int] != SF_LEB128_MAGIC@[k as int]);
            return true;
        }
        k = k + 1;
    }
    assert(d.subrange(offset as int, offset + 17) =~= SF_LEB128_MAGIC@);
    if data.len() - offset < 21 {
        return false;
    }
    let len = block_length(data, offset);
    if (offset as u128) + 21 + (len as u128) > usize::MAX as u128 {
        return false;
    }
    let end: usize = offset + 21 + len as usize;
    let start: usize = offset + 21;
    let mut curr: usize = start;
    let mut n: usize = count;
    while n > 0 && curr < end
        invariant
            d == data@,
            start <= curr,
            start == offset + 21,
            offset + 21 <= d.len(),
            block_head_ok(d, offset as int),
            end == block_payload_end(d, offset as int),
            i16_array_safe(d, start as int, end as int, count as nat) == i16_array_safe(d, curr as int, end as int, n as nat),
        decreases n,
    {
        if !leb_safe_at(data, curr, end) {
            assert(!i16_array_safe(d, curr as int, end as int, n as nat));
            return false;
        }
        match SFNNUELoader::decode_signed_leb128(data, curr, end) {
            Ok((_, next)) => {
                assert(i16_array_safe(d, curr as int, end as int, n as nat) == i16_array_safe(d, next as int, end as int, (n - 1) as nat));
                curr = next;
                n = n - 1;
            },
            Err(_) => {
                assert(i16_array_safe(d, curr as int, end as int, n as nat));
                return true;
            },
        }
    }
    assert(i16_array_safe(d, curr as int, end as int, n as nat));
    true
}

/// Whether the length word of a block at `offset` lies inside the data and the
/// end of the block fits in an offset, when the tag does: the condition
/// `SFNNUELoader::skip_leb128_block` asks of its input.
pub fn block_skippable(data: &[u8], offset: usize) -> (r: bool)
    ensures
        r == (offset + 17 <= data@.len() ==> offset + 21 <= data@.len()
            && block_payload_end(data@, offset as int) <= usize::MAX),
{
    if offset > data.len() || data.len() - offset < 17 {
        return true;
    }
    if data.len() - offset < 21 {
        return false;
    }
    let len = block_length(data, offset);
    (offset as u128) + 21 + (len as u128) <= usize::MAX as u128
}

/// Reads Stockfish network files into the engine's weight format.
pub struct SFNNUELoader;

impl SFNNUELoader {
    /// Up to `count` 16-bit numbers of the compressed block at the offset,
    /// which moves behind the block. An error when the tag is missing or a
    /// number is cut short by the end of the block.
    pub fn read_leb128_i16_array(data: &[u8], offset: &mut usize, count: usize) -> (r: Result<Vec<i16>, String>)
        requires
            *old(offset) <= data@.len(),
            block_head_ok(data@, *old(offset) as int) ==> {
                &&& *old(offset) + 21 <= data@.len()
                &&& block_payload_end(data@, *old(offset) as int) <= usize::MAX
                &&& i16_array_safe(data@, *old(offset) + 21, block_payload_end(data@, *old(offset) as int), count as nat)
            },
        ensures
            !block_head_ok(data@, *old(offset) as int) ==> r is Err,
            block_head_ok(data@, *old(offset) as int) ==> {
                &&& (r is Err <==> leb_samples(data@, *old(offset) + 21, block_payload_end(data@, *old(offset) as int), count as nat) is None)
                &&& (r matches Ok(v) ==> Some(v@) == leb_samples(data@, *old(offset) + 21, block_payload_end(data@, *old(offset) as int), count as nat)
                    && *final(offset) == block_payload_end(data@, *old(offset) as int))
            },
    {
        let ghost d = data@;
        let ghost o0 = *offset as int;
        let magic_len: usize = 17;
        if data.len() - *offset < magic_len {
            return Err(String::from_str("Unexpected EOF reading LEB128 magic"));
        }
        let mut k: usize = 0;
        while k < magic_len
            invariant
                magic_len == 17,
                k <= 17,
                *offset == o0,
                o0 + 17 <= d.len(),
                d == data@,
                data.len() == d.len(),
                forall|j: int| 0 <= j < k ==> d[o0 + j] == SF_LEB128_MAGIC@[j],
            decreases 17 - k,
        {
            if data[*offset + k] != SF_LEB128_MAGIC[k] {
                assert(d.subrange(o0, o0 + 17)[k as int] != SF_LEB128_MAGIC@[k as int]);
                return Err(String::from_str("Invalid LEB128 magic"));
            }
            k = k + 1;
        }
        assert(d.subrange(o0, o0 + 17) =~= SF_LEB128_MAGIC@);
        let o = *offset + magic_len;
        let byte_count = (data[o] as u32 + data[o + 1] as u32 * 0x100 + data[o + 2] as u32 * 0x10000
            + data[o + 3] as u32 * 0x1000000) as usize;
        assert(byte_count == le_u32(d, o0 + 17));
        let start = o + 4;
        let payload_end = start + byte_count;
        let mut result: Vec<i16> = Vec::new();
        let mut curr = start;
        while result.len() < count && curr < payload_end
            invariant
                result.len() <= count,
                start <= curr,
                o0 == *old(offset),
                start == o0 + 21,
                payload_end == block_payload_end(d, o0),
                block_head_ok(d, o0),
                d == data@,
                i16_array_safe(d, curr as int, payload_end as int, (count - result.len()) as nat),
                leb_samples(d, start as int, payload_end as int, count as nat) == match leb_samples(d, curr as int, payload_end as int, (count - result.len()) as nat) {
                    None => None,
                    Some(rest) => Some(result@ + rest),
                },
            decreases payload_end - curr,
        {
            let decoded = Self::decode_signed_leb128(data, curr, payload_end);
            let (val, next) = match decoded {
                Ok(p) => p,
                Err(e) => {
                    assert(leb_samples(d, curr as int, payload_end as int, (count - result.len()) as nat) is None);
                    return Err(e);
                },
            };
            let ghost before = result@;
            result.push(#[verifier::truncate] (val as i16));
            proof {
                let tail = leb_samples(d, next as int, payload_end as int, (count - result.len()) as nat);
                if let Some(rest) = tail {
                    assert(before + (seq![val as i16] + rest) =~= result@ + rest);
                }
            }
            curr = next;
        }
        proof {
            assert(result@ + Seq::<i16>::empty() =~= result@);
        }
        *offset = payload_end;
        Ok(result)
    }

    /// The offset behind the compressed block at `offset`, read from its length
    /// word without checking the tag; an error when the tag would run past the
    /// end of the data.
    pub fn skip_leb128_block(data: &[u8], offset: usize) -> (r: Result<usize, String>)
        requires
            offset + 17 <= data@.len() ==> offset + 21 <= data@.len()
                && block_payload_end(data@, offset as int) <= usize::MAX,
        ensures
            r is Err <==> offset + 17 > data@.len(),
            r matches Ok(e) ==> e == block_payload_end(data@, offset as int),
    {
        if offset > data.len() || data.len() - offset < 17 {
            return Err(String::from_str("EOF in skip_leb128"));
        }
        let o = offset + 17;
        let byte_count = (data[o] as u32 + data[o + 1] as u32 * 0x100 + data[o + 2] as u32 * 0x10000
            + data[o + 3] as u32 * 0x1000000) as usize;
        Ok(o + 4 + byte_count)
    }

    /// `count` raw bytes at the offset as signed 8-bit numbers; the offset moves
    /// past them. An error when fewer are left.
    pub fn read_i8_array(data: &[u8], offset: &mut usize, count: usize) -> (r: Result<Vec<i8>, String>)
        requires
            *old(offset) + count <= usize::MAX,
        ensures
            r is Err <==> *old(offset) + count > data@.len(),
            r is Err ==> *final(offset) == *old(offset),
            r matches Ok(v) ==> v@ == data@.subrange(*old(offset) as int, *old(offset) + count).map_values(|b: u8| b as i8)
                && *final(offset) == *old(offset) + count,
    {
        if *offset + count > data.len() {
            return Err(String::from_str("EOF reading i8 array"));
        }
        let o = *offset;
        let mut result: Vec<i8> = Vec::new();
        let mut k: usize = 0;
        while k < count
            invariant
                o + count <= data@.len(),
                data.len() == data@.len(),
                k <= count,
                result@ == data@.subrange(o as int, o + k).map_values(|b: u8| b as i8),
            decreases count - k,
        {
            result.push(#[verifier::truncate] (data[o + k] as i8));
            k = k + 1;
            assert(result@ =~= data@.subrange(o as int, o + k).map_values(|b: u8| b as i8));
        }
        *offset = o + count;
        Ok(result)
    }

    /// One signed LEB128 number from `curr`, which must end before `end`: its
    /// value and the offset behind it.
    pub fn decode_signed_leb128(data: &[u8], curr: usize, end: usize) -> (r: Result<(i32, usize), String>)
        requires
            leb_safe(data@, curr as int, end as int, 0),
        ensures
            r is Err <==> leb_decode(data@, curr as int, end as int, 0, 0) is None,
            r matches Ok((v, next)) ==> leb_decode(data@, curr as int, end as int, 0, 0) == Some((v, next as int))
                && curr < next <= end,
    {
        let ghost d = data@;
        let mut result: u32 = 0;
        let mut shift: u32 = 0;
        let mut c = curr;
        loop
            invariant
                d == data@,
                curr <= c,
                shift <= 35,
                leb_safe(d, c as int, end as int, (shift / 7) as nat),
                shift % 7 == 0,
                leb_decode(d, curr as int, end as int, 0, 0) == leb_decode(d, c as int, end as int, result, shift as nat),
            decreases end - c,
        {
            if c >= end {
                return Err(String::from_str("LEB128 stream terminated"));
            }
            let byte = data[c];
            c = c + 1;
            result = result | (((byte & 0x7f) as u32) << shift);
            if (byte & 0x80) == 0 {
                let signed: i32 = if shift < 25 && (byte & 0x40) != 0 {
                    (result | (!0u32 << (shift + 7))) as i32
                } else {
                    result as i32
                };
                return Ok((signed, c));
            }
            shift = shift + 7;
        }
    }
}

} // verus!
