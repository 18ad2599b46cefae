//! Byte-level encoders: big-endian integers, ASCII strings with even-length
//! padding, and the length-prefixed record frame every GDSII record uses.

use vstd::prelude::*;
use crate::gds_model::points::Points;

verus! {

/// The two big-endian bytes of an unsigned 16-bit value.
pub open spec fn spec_u16_bytes(v: int) -> Seq<u8>
    recommends
        0 <= v < 0x10000,
{
    seq![((v / 256) % 256) as u8, (v % 256) as u8]
}

/// A signed 16-bit value as its two's-complement unsigned image.
pub open spec fn spec_u16_of_i16(x: int) -> int
    recommends
        -0x8000 <= x < 0x8000,
{
    if x < 0 {
        x + 0x10000
    } else {
        x
    }
}

/// The two big-endian bytes of a signed 16-bit value.
pub open spec fn spec_i16_bytes(x: int) -> Seq<u8>
    recommends
        -0x8000 <= x < 0x8000,
{
    spec_u16_bytes(spec_u16_of_i16(x))
}

/// A signed 32-bit value as its two's-complement unsigned image.
pub open spec fn spec_u32_of_i32(x: int) -> int
    recommends
        -0x8000_0000 <= x < 0x8000_0000,
{
    if x < 0 {
        x + 0x1_0000_0000
    } else {
        x
    }
}

/// The four big-endian bytes of a signed 32-bit value.
pub open spec fn spec_i32_bytes(x: int) -> Seq<u8> {
    let u = spec_u32_of_i32(x);
    seq![
        ((u / 0x100_0000) % 256) as u8,
        ((u / 0x1_0000) % 256) as u8,
        ((u / 0x100) % 256) as u8,
        (u % 256) as u8,
    ]
}

/// A byte string padded with one trailing zero when its length is odd, so
/// that every record length stays even.
pub open spec fn spec_pad_even(s: Seq<u8>) -> Seq<u8> {
    if s.len() % 2 == 1 {
        s + seq![0u8]
    } else {
        s
    }
}

/// A whole record on the wire: total length (header included) as a
/// big-endian 16-bit value, the tag byte and data-type byte (packed as one
/// 16-bit value), then the payload.
pub open spec fn spec_record_bytes(tagdt: u16, payload: Seq<u8>) -> Seq<u8>
    recommends
        payload.len() + 4 <= 0xFFFF,
{
    spec_u16_bytes(payload.len() as int + 4) + spec_u16_bytes(tagdt as int) + payload
}

/// Append the two big-endian bytes of an unsigned 16-bit value.
pub fn push_u16_be(out: &mut Vec<u8>, v: u16)
    ensures
        final(out)@ == old(out)@ + spec_u16_bytes(v as int),
{
    out.push((v / 256) as u8);
    out.push((v % 256) as u8);
    assert(out@ =~= old(out)@ + spec_u16_bytes(v as int));
}

/// Append the two big-endian bytes of a signed 16-bit value.
pub fn push_i16_be(out: &mut Vec<u8>, x: i16)
    ensures
        final(out)@ == old(out)@ + spec_i16_bytes(x as int),
{
    let u: u16 = if x >= 0 {
        x as u16
    } else {
        ((x as i32) + 0x10000) as u16
    };
    push_u16_be(out, u);
}

/// Append the four big-endian bytes of a signed 32-bit value.
pub fn push_i32_be(out: &mut Vec<u8>, x: i32)
    ensures
        final(out)@ == old(out)@ + spec_i32_bytes(x as int),
{
    let u: u32 = if x >= 0 {
        x as u32
    } else {
        ((x as i64) + 0x1_0000_0000) as u32
    };
    out.push((u / 0x100_0000) as u8);
    out.push(((u / 0x1_0000) % 256) as u8);
    out.push(((u / 0x100) % 256) as u8);
    out.push((u % 256) as u8);
    assert(out@ =~= old(out)@ + spec_i32_bytes(x as int));
}

/// Append one whole record: length prefix, tag and data type, payload.
pub fn emit_record(out: &mut Vec<u8>, tagdt: u16, payload: &[u8])
    requires
        payload@.len() + 4 <= 0xFFFF,
    ensures
        final(out)@ == old(out)@ + spec_record_bytes(tagdt, payload@),
{
    push_u16_be(out, (payload.len() + 4) as u16);
    push_u16_be(out, tagdt);
    out.extend_from_slice(payload);
    assert(out@ =~= old(out)@ + spec_record_bytes(tagdt, payload@));
}

/// The bytes of the first `i` vertices of a list: for each vertex its two
/// coordinates as big-endian 32-bit values.
pub open spec fn spec_points_bytes_upto(pts: Seq<Points>, i: int) -> Seq<u8>
    decreases i,
{
    if i <= 0 {
        Seq::empty()
    } else {
        spec_points_bytes_upto(pts, i - 1) + spec_i32_bytes(pts[i - 1].x as int) + spec_i32_bytes(
            pts[i - 1].y as int,
        )
    }
}

/// The bytes of a whole vertex list.
pub open spec fn spec_points_bytes(pts: Seq<Points>) -> Seq<u8> {
    spec_points_bytes_upto(pts, pts.len() as int)
}

/// Append the coordinates of a vertex list, eight bytes per vertex.
pub fn push_points(out: &mut Vec<u8>, pts: &Vec<Points>)
    ensures
        final(out)@ == old(out)@ + spec_points_bytes(pts@),
        final(out)@.len() == old(out)@.len() + 8 * pts@.len(),
{
    let mut i: usize = 0;
    let n = pts.len();
    while i < n
        invariant
            n == pts@.len(),
            i <= n,
            out@ == old(out)@ + spec_points_bytes_upto(pts@, i as int),
            out@.len() == old(out)@.len() + 8 * i,
        decreases n - i,
    {
        let ghost before = out@;
        push_i32_be(out, pts[i].x);
        push_i32_be(out, pts[i].y);
        proof {
            assert(out@ =~= old(out)@ + spec_points_bytes_upto(pts@, i as int + 1));
        }
        i = i + 1;
    }
    proof {
        assert(out@ =~= old(out)@ + spec_points_bytes(pts@));
    }
}

/// Pad a byte string to even length with one trailing zero.
pub fn pad_even(v: &mut Vec<u8>)
    requires
        old(v)@.len() + 1 <= usize::MAX,
    ensures
        final(v)@ == spec_pad_even(old(v)@),
{
    if v.len() % 2 == 1 {
        v.push(0u8);
    }
}

/// The bytes of an ASCII string, one byte per character.
pub fn ascii_string_to_be_bytes(s: &str) -> (r: Vec<u8>)
    requires
        s.is_ascii(),
    ensures
        r@.len() == s@.len(),
        forall|i: int| 0 <= i < r@.len() ==> r@[i] == s@[i] as u8,
        forall|i: int| 0 <= i < r@.len() ==> r@[i] < 128,
{
    proof {
        vstd::utf8::is_ascii_chars_encode_utf8(s@);
        vstd::utf8::is_ascii_chars_nat_bound(s@);
    }
    s.as_bytes_vec()
}

/// Encoding an unsigned 16-bit value and reading the two bytes back
/// gives the value.
pub proof fn lemma_u16_round_trip(v: int)
    requires
        0 <= v < 0x10000,
    ensures
        crate::gds_reader::spec_u16_be(spec_u16_bytes(v)) == v,
{
}

/// Encoding a signed 16-bit value and reading the two bytes back gives
/// the value: the integer codec loses nothing.
pub proof fn lemma_i16_round_trip(x: int)
    requires
        -0x8000 <= x < 0x8000,
    ensures
        crate::gds_reader::spec_i16_be(spec_i16_bytes(x)) == x,
{
}

/// Encoding a signed 32-bit value and reading the four bytes back gives
/// the value.
pub proof fn lemma_i32_round_trip(x: int)
    requires
        -0x8000_0000 <= x < 0x8000_0000,
    ensures
        crate::gds_reader::spec_i32_be(spec_i32_bytes(x)) == x,
{
    let u = spec_u32_of_i32(x);
    assert(crate::gds_reader::spec_u32_be(spec_i32_bytes(x)) == u) by {
        assert(((u / 0x100_0000) % 256) * 0x100_0000 + ((u / 0x1_0000) % 256) * 0x1_0000 + ((u
            / 0x100) % 256) * 0x100 + (u % 256) == u) by (nonlinear_arith)
            requires
                0 <= u < 0x1_0000_0000,
        ;
    }
}

/// A vertex list's bytes are eight per vertex.
pub proof fn lemma_points_bytes_len(pts: Seq<Points>, i: int)
    requires
        0 <= i <= pts.len(),
    ensures
        spec_points_bytes_upto(pts, i).len() == 8 * i,
    decreases i,
{
    if i > 0 {
        lemma_points_bytes_len(pts, i - 1);
    }
}

/// Each vertex's coordinates stand at their own eight bytes of the
/// vertex list.
pub proof fn lemma_points_bytes_index(pts: Seq<Points>, i: int, j: int)
    requires
        0 <= j < i <= pts.len(),
    ensures
        spec_points_bytes_upto(pts, i).subrange(8 * j, 8 * j + 4) == spec_i32_bytes(
            pts[j].x as int,
        ),
        spec_points_bytes_upto(pts, i).subrange(8 * j + 4, 8 * j + 8) == spec_i32_bytes(
            pts[j].y as int,
        ),
    decreases i,
{
    lemma_points_bytes_len(pts, i);
    lemma_points_bytes_len(pts, i - 1);
    if j == i - 1 {
        assert(spec_points_bytes_upto(pts, i).subrange(8 * j, 8 * j + 4) =~= spec_i32_bytes(
            pts[j].x as int,
        ));
        assert(spec_points_bytes_upto(pts, i).subrange(8 * j + 4, 8 * j + 8) =~= spec_i32_bytes(
            pts[j].y as int,
        ));
    } else {
        lemma_points_bytes_index(pts, i - 1, j);
        assert(spec_points_bytes_upto(pts, i).subrange(8 * j, 8 * j + 4) =~= spec_points_bytes_upto(
            pts,
            i - 1,
        ).subrange(8 * j, 8 * j + 4));
        assert(spec_points_bytes_upto(pts, i).subrange(8 * j + 4, 8 * j + 8)
            =~= spec_points_bytes_upto(pts, i - 1).subrange(8 * j + 4, 8 * j + 8));
    }
}

/// Stripping the padding a writer added gives the string back, for
/// strings that never end in a zero byte (as ASCII names and values
/// written by this library do not).
pub proof fn lemma_pad_strip_round_trip(s: Seq<u8>)
    requires
        s.len() > 0 ==> s.last() != 0,
    ensures
        crate::gds_reader::spec_strip_pad(spec_pad_even(s)) == s,
{
    let p = spec_pad_even(s);
    if s.len() % 2 == 1 {
        assert(p.last() == 0);
        assert(p.drop_last() =~= s);
    }
}

} // verus!
