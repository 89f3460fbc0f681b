//! Protobuf varints, field skipping and tag lookup.

use vstd::prelude::*;

verus! {

/// The low seven bits of a byte, widened to `u64`.
pub open spec fn low7(b: u8) -> u64 {
    (b & 0x7f) as u64
}

/// The value carried by the 7-bit groups of `bytes`, least significant group
/// first, as the bits of a `u64` (groups shifted past bit 63 are lost).
pub open spec fn varint_groups(bytes: Seq<u8>) -> u64
    decreases bytes.len(),
{
    if bytes.len() == 0 {
        0
    } else {
        varint_groups(bytes.drop_last()) | (low7(bytes.last()) << ((7 * (bytes.len() - 1)) as u64))
    }
}

/// Searching from byte `k`: one past the first byte without the continuation
/// bit, looking at no more than the first ten bytes; 0 if there is none.
pub open spec fn varint_len_from(data: Seq<u8>, k: int) -> int
    decreases 10 - k,
{
    if k < 0 || k >= data.len() || k >= 10 {
        0
    } else if data[k] < 0x80 {
        k + 1
    } else {
        varint_len_from(data, k + 1)
    }
}

/// The number of bytes of the varint at the start of `data`, or 0 when the
/// varint is not complete within the data (or within ten bytes).
pub open spec fn varint_len(data: Seq<u8>) -> int {
    varint_len_from(data, 0)
}

/// The value of the varint at the start of `data`, or 0 when it is incomplete.
pub open spec fn varint_value(data: Seq<u8>) -> u64 {
    if varint_len(data) == 0 {
        0
    } else {
        varint_groups(data.take(varint_len(data)))
    }
}

/// How many bytes a field of the given wire type occupies after its tag
/// (unbounded: it may point past the end of `data`).
pub open spec fn skip_len(wire_type: u8, data: Seq<u8>) -> int {
    if wire_type == 0 {
        varint_len(data)
    } else if wire_type == 1 {
        8
    } else if wire_type == 2 {
        varint_len(data) + varint_value(data)
    } else if wire_type == 5 {
        4
    } else {
        1
    }
}

/// How far a field's value reaches after its tag, by Protobuf wire type: a
/// fixed64 (wire type 1) takes 8 bytes and a fixed32 (wire type 5) 4,
/// whatever follows; a varint (0) takes its own bytes; a length-delimited
/// field (2) takes its length varint and the bytes it counts; the unused
/// wire types (3, 4, 6, 7) take one byte.
pub proof fn law_field_widths(data: Seq<u8>)
    ensures
        skip_len(1, data) == 8,
        skip_len(5, data) == 4,
        skip_len(0, data) == varint_len(data),
        skip_len(2, data) == varint_len(data) + varint_value(data),
        skip_len(3, data) == 1 && skip_len(4, data) == 1 && skip_len(6, data) == 1 && skip_len(7, data) == 1,
{
}

/// The smaller of two integers.
pub open spec fn min_int(a: int, b: int) -> int {
    if a <= b {
        a
    } else {
        b
    }
}

pub proof fn lemma_varint_len_bounds(data: Seq<u8>, k: int)
    requires
        0 <= k,
    ensures
        varint_len_from(data, k) == 0 || (k < varint_len_from(data, k) <= data.len()
            && varint_len_from(data, k) <= 10),
    decreases 10 - k,
{
    if k < data.len() && k < 10 && data[k] >= 0x80 {
        lemma_varint_len_bounds(data, k + 1);
    }
}

/// Facts about the varint length: it is 0 or between 1 and ten bytes, the
/// byte that ends it has no continuation bit and all bytes before it have one.
pub proof fn lemma_varint_len(data: Seq<u8>)
    ensures
        0 <= varint_len(data) <= 10,
        varint_len(data) <= data.len(),
        varint_len(data) > 0 ==> data[varint_len(data) - 1] < 0x80,
        forall|j: int| 0 <= j < varint_len(data) - 1 ==> data[j] >= 0x80,
{
    lemma_varint_len_bounds(data, 0);
    lemma_varint_len_shape(data, 0);
}

proof fn lemma_varint_len_shape(data: Seq<u8>, k: int)
    requires
        0 <= k,
    ensures
        varint_len_from(data, k) > 0 ==> data[varint_len_from(data, k) - 1] < 0x80,
        forall|j: int| k <= j < varint_len_from(data, k) - 1 ==> data[j] >= 0x80,
    decreases 10 - k,
{
    if k < data.len() && k < 10 && data[k] >= 0x80 {
        lemma_varint_len_shape(data, k + 1);
    }
}

/// Safely reads a Protobuf varint from a byte slice.
/// Returns (value, bytes read); (0, 0) when the varint is incomplete
/// (the data ends, or ten bytes pass, before a byte without the continuation bit).
pub fn read_varint(data: &[u8]) -> (r: (u64, usize))
    ensures
        r.1 as int == varint_len(data@),
        r.0 == varint_value(data@),
        r.1 <= 10,
        r.1 <= data@.len(),
{
    let mut value: u64 = 0;
    let mut shift: u64 = 0;
    let mut pos: usize = 0;
    while pos < data.len() && pos < 10
        invariant
            pos <= data@.len(),
            pos <= 10,
            shift == 7 * pos,
            value == varint_groups(data@.take(pos as int)),
            varint_len(data@) == varint_len_from(data@, pos as int),
        decreases data@.len() - pos,
    {
        let byte = data[pos];
        let ghost old_pos = pos as int;
        assert(data@.take(old_pos + 1).drop_last() == data@.take(old_pos));
        value = value | (((byte & 0x7f) as u64) << shift);
        pos = pos + 1;
        if byte & 0x80 == 0 {
            assert(byte < 0x80) by (bit_vector)
                requires
                    byte & 0x80 == 0,
            ;
            return (value, pos);
        }
        assert(byte >= 0x80) by (bit_vector)
            requires
                byte & 0x80 != 0,
        ;
        shift = shift + 7;
    }
    proof {
        lemma_varint_len_bounds(data@, pos as int);
    }
    (0, 0)
}

/// Calculates how many bytes to skip after a tag, based on the Protobuf wire
/// type. A length-delimited field whose length passes `usize::MAX` gives
/// `usize::MAX`.
pub fn skip_field(wire_type: u8, data: &[u8]) -> (r: usize)
    ensures
        r as int == min_int(skip_len(wire_type, data@), usize::MAX as int),
{
    match wire_type {
        0 => read_varint(data).1,
        1 => 8,
        2 => {
            let (len, read) = read_varint(data);
            if len > (usize::MAX - read) as u64 {
                usize::MAX
            } else {
                read + len as usize
            }
        },
        5 => 4,
        _ => 1,
    }
}

} // verus!

verus! {

/// The end of a block that starts at `base` and claims `amount` bytes, capped
/// at `limit`.
pub fn clamp_add(base: usize, amount: u64, limit: usize) -> (r: usize)
    requires
        base <= limit,
    ensures
        r as int == min_int(base + amount, limit as int),
{
    if amount >= (limit - base) as u64 {
        limit
    } else {
        base + amount as usize
    }
}

/// The position after the tag at `i` and the field that follows it.
pub open spec fn next_field_pos(data: Seq<u8>, i: int) -> int {
    i + 1 + skip_len(data[i] & 0x07, data.skip(i + 1))
}

pub proof fn lemma_skip_len_nonneg(wire_type: u8, data: Seq<u8>)
    ensures
        skip_len(wire_type, data) >= 0,
{
    lemma_varint_len(data);
}

/// Scanning from position `i`: the text of the first field tagged `target`
/// whose length-delimited payload is not empty, decoded lossily; fields with
/// other tags are skipped by their wire type.
pub open spec fn find_string_from(data: Seq<u8>, target: u8, i: int) -> Option<Seq<char>>
    decreases data.len() - i,
{
    if i < 0 || i >= data.len() {
        None
    } else {
        let rest = data.skip(i + 1);
        let start = i + 1 + varint_len(rest);
        let end = min_int(start + varint_value(rest), data.len() as int);
        if data[i] == target && start < end && start <= data.len() {
            Some(crate::text::utf8_lossy(data.subrange(start, end)))
        } else {
            proof {
                lemma_skip_len_nonneg(data[i] & 0x07, rest);
            }
            if next_field_pos(data, i) >= data.len() {
                None
            } else {
                find_string_from(data, target, next_field_pos(data, i))
            }
        }
    }
}

/// Scanning from position `i`: the varint after the first tag equal to
/// `target`; fields with other tags are skipped by their wire type.
pub open spec fn find_int_from(data: Seq<u8>, target: u8, i: int) -> Option<u64>
    decreases data.len() - i,
{
    if i < 0 || i >= data.len() {
        None
    } else if data[i] == target {
        Some(varint_value(data.skip(i + 1)))
    } else {
        proof {
            lemma_skip_len_nonneg(data[i] & 0x07, data.skip(i + 1));
        }
        if next_field_pos(data, i) >= data.len() {
            None
        } else {
            find_int_from(data, target, next_field_pos(data, i))
        }
    }
}

/// The position after field `i`, computed without overflow and capped at the
/// end of `data` (the scan stops there either way).
fn next_field(data: &[u8], i: usize) -> (r: usize)
    requires
        i < data@.len(),
    ensures
        r as int == min_int(next_field_pos(data@, i as int), data@.len() as int),
        r > i,
{
    let skipped = skip_field(data[i] & 0x07, &data[i + 1..data.len()]);
    proof {
        assert(data@.subrange(i + 1, data@.len() as int) == data@.skip(i + 1));
        lemma_skip_len_nonneg(data@[i as int] & 0x07, data@.skip(i + 1));
    }
    clamp_add(i + 1, skipped as u64, data.len())
}

/// Scans a byte slice to find and extract the text of a specific tag.
pub fn find_string_by_tag(data: &[u8], target_tag: u8) -> (r: Option<String>)
    ensures
        match r {
            Some(s) => find_string_from(data@, target_tag, 0) == Some(s@),
            None => find_string_from(data@, target_tag, 0) is None,
        },
        r matches Some(s) ==> s@.len() > 0,
{
    let mut i: usize = 0;
    while i < data.len()
        invariant
            i <= data@.len(),
            find_string_from(data@, target_tag, i as int) == find_string_from(
                data@,
                target_tag,
                0,
            ),
        decreases data@.len() - i,
    {
        let tag = data[i];
        let rest = &data[i + 1..data.len()];
        let (len, read) = read_varint(rest);
        let start = i + 1 + read;
        let end = clamp_add(start, len, data.len());
        proof {
            assert(rest@ == data@.skip(i + 1));
            lemma_varint_len(rest@);
        }
        if tag == target_tag && start < end {
            let s = crate::text::decode_utf8_lossy(&data[start..end]);
            return Some(s);
        }
        let next = next_field(data, i);
        proof {
            if next_field_pos(data@, i as int) >= data@.len() {
                lemma_find_string_past_end(data@, target_tag, next_field_pos(data@, i as int));
            }
        }
        i = next;
    }
    None
}

proof fn lemma_find_string_past_end(data: Seq<u8>, target: u8, i: int)
    requires
        i >= data.len(),
    ensures
        find_string_from(data, target, i) is None,
        find_int_from(data, target, i) is None,
{
}

/// Scans a byte slice to find and extract the varint of a specific tag.
pub fn find_int_by_tag(data: &[u8], target_tag: u8) -> (r: Option<u64>)
    ensures
        r == find_int_from(data@, target_tag, 0),
{
    let mut i: usize = 0;
    while i < data.len()
        invariant
            i <= data@.len(),
            find_int_from(data@, target_tag, i as int) == find_int_from(data@, target_tag, 0),
        decreases data@.len() - i,
    {
        let tag = data[i];
        if tag == target_tag {
            let (val, _) = read_varint(&data[i + 1..data.len()]);
            proof {
                assert(data@.subrange(i + 1, data@.len() as int) == data@.skip(i + 1));
            }
            return Some(val);
        }
        let next = next_field(data, i);
        proof {
            if next_field_pos(data@, i as int) >= data@.len() {
                lemma_find_string_past_end(data@, target_tag, next_field_pos(data@, i as int));
            }
        }
        i = next;
    }
    None
}

} // verus!

verus! {

/// Where the varint that starts at `p` ends (`p` itself when it is incomplete).
pub open spec fn varint_end(data: Seq<u8>, p: int) -> int {
    p + varint_len(data.skip(p))
}

/// Where the payload of the length-delimited field whose length varint starts
/// at `p` begins.
pub open spec fn block_start(data: Seq<u8>, p: int) -> int {
    varint_end(data, p)
}

/// Where that payload ends, capped at the end of `data`.
pub open spec fn block_end(data: Seq<u8>, p: int) -> int {
    min_int(block_start(data, p) + varint_value(data.skip(p)), data.len() as int)
}

/// Where a field of the given wire type whose body starts at `p` ends, capped
/// at the end of `data`.
pub open spec fn skip_end(data: Seq<u8>, p: int, wire_type: u8) -> int {
    min_int(p + skip_len(wire_type, data.skip(p)), data.len() as int)
}

/// The positions computed by the field helpers never go backwards nor past
/// the end of the data.
pub proof fn lemma_field_bounds(data: Seq<u8>, p: int, wire_type: u8)
    requires
        0 <= p <= data.len(),
    ensures
        p <= varint_end(data, p) <= data.len(),
        p <= block_start(data, p) <= block_end(data, p) <= data.len(),
        p <= skip_end(data, p, wire_type) <= data.len(),
{
    lemma_varint_len(data.skip(p));
    lemma_skip_len_nonneg(wire_type, data.skip(p));
}

/// Reads the varint that starts at `p`: its value and the position after it.
pub fn varint_at(data: &[u8], p: usize) -> (r: (u64, usize))
    requires
        p <= data@.len(),
    ensures
        r.0 == varint_value(data@.skip(p as int)),
        r.1 as int == varint_end(data@, p as int),
        p <= r.1 <= data@.len(),
{
    let rest = &data[p..data.len()];
    assert(rest@ == data@.skip(p as int));
    let (v, n) = read_varint(rest);
    (v, p + n)
}

/// The bounds of the payload of the length-delimited field at `p`.
pub fn block_at(data: &[u8], p: usize) -> (r: (usize, usize))
    requires
        p <= data@.len(),
    ensures
        r.0 as int == block_start(data@, p as int),
        r.1 as int == block_end(data@, p as int),
        p <= r.0 <= r.1 <= data@.len(),
{
    let rest = &data[p..data.len()];
    assert(rest@ == data@.skip(p as int));
    let (len, n) = read_varint(rest);
    let start = p + n;
    let end = clamp_add(start, len, data.len());
    (start, end)
}

/// The end of the field of the given wire type whose body starts at `p`.
pub fn skip_at(data: &[u8], p: usize, wire_type: u8) -> (r: usize)
    requires
        p <= data@.len(),
    ensures
        r as int == skip_end(data@, p as int, wire_type),
        p <= r <= data@.len(),
{
    let rest = &data[p..data.len()];
    assert(rest@ == data@.skip(p as int));
    let skipped = skip_field(wire_type, rest);
    proof {
        lemma_skip_len_nonneg(wire_type, rest@);
    }
    clamp_add(p, skipped as u64, data.len())
}

} // verus!
