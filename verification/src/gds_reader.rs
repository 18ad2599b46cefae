//! Byte-level decoders: big-endian integers, ASCII strings, bulk payload
//! splitting, and the record framing pass that cuts a whole byte buffer
//! into length-prefixed record slices.

use vstd::prelude::*;
use crate::gds_error::{GDSIIError, GdsErrorKind};
use crate::gds_model::points::Points;
use crate::gds_real::{spec_decode_real, GdsReal};
use crate::gds_record::{spec_xy_points, Record};

verus! {

/// The unsigned 16-bit value two big-endian bytes stand for.
pub open spec fn spec_u16_be(s: Seq<u8>) -> int
    recommends
        s.len() == 2,
{
    s[0] * 256 + s[1]
}

/// The signed 16-bit value two big-endian bytes stand for.
pub open spec fn spec_i16_be(s: Seq<u8>) -> int
    recommends
        s.len() == 2,
{
    if spec_u16_be(s) < 0x8000 {
        spec_u16_be(s)
    } else {
        spec_u16_be(s) - 0x10000
    }
}

/// The unsigned 32-bit value four big-endian bytes stand for.
pub open spec fn spec_u32_be(s: Seq<u8>) -> int
    recommends
        s.len() == 4,
{
    s[0] * 0x100_0000 + s[1] * 0x1_0000 + s[2] * 0x100 + s[3]
}

/// The signed 32-bit value four big-endian bytes stand for.
pub open spec fn spec_i32_be(s: Seq<u8>) -> int
    recommends
        s.len() == 4,
{
    if spec_u32_be(s) < 0x8000_0000 {
        spec_u32_be(s)
    } else {
        spec_u32_be(s) - 0x1_0000_0000
    }
}

/// A string payload with its one optional trailing padding zero removed.
pub open spec fn spec_strip_pad(s: Seq<u8>) -> Seq<u8> {
    if s.len() > 0 && s.last() == 0 {
        s.drop_last()
    } else {
        s
    }
}

/// Split a payload into big-endian signed 16-bit values.  Fails exactly
/// when the payload length is not a multiple of two.
pub fn two_byte_int(byte: &[u8]) -> (r: Result<Vec<i16>, GDSIIError>)
    ensures
        r is Ok <==> byte@.len() % 2 == 0,
        r is Ok ==> r->Ok_0@.len() == byte@.len() / 2,
        r is Ok ==> forall|j: int|
            0 <= j < r->Ok_0@.len() ==> r->Ok_0@[j] == spec_i16_be(
                byte@.subrange(2 * j, 2 * j + 2),
            ),
        r is Err ==> r->Err_0.kind == GdsErrorKind::MalformedRecord,
{
    let byte_len = byte.len();
    if byte_len % 2 != 0 {
        return Err(GDSIIError::new("transfer two byte int failed: byte length % 2 != 0"));
    }
    let mut value: Vec<i16> = Vec::new();
    let mut i: usize = 0;
    while i < byte_len / 2
        invariant
            byte_len == byte@.len(),
            byte_len % 2 == 0,
            i <= byte_len / 2,
            value@.len() == i,
            forall|j: int|
                0 <= j < i ==> value@[j] == spec_i16_be(byte@.subrange(2 * j, 2 * j + 2)),
        decreases byte_len / 2 - i,
    {
        let hi = byte[2 * i];
        let lo = byte[2 * i + 1];
        let u: u16 = (hi as u16) * 256 + (lo as u16);
        let v: i16 = if u < 0x8000 {
            u as i16
        } else {
            ((u as i32) - 0x10000) as i16
        };
        proof {
            let s = byte@.subrange(2 * i as int, 2 * i as int + 2);
            assert(s[0] == hi && s[1] == lo);
            assert(v == spec_i16_be(s));
        }
        value.push(v);
        i = i + 1;
    }
    Ok(value)
}

/// Split a payload into big-endian signed 32-bit values.  Fails exactly
/// when the payload length is not a multiple of four.
pub fn four_byte_int(byte: &[u8]) -> (r: Result<Vec<i32>, GDSIIError>)
    ensures
        r is Ok <==> byte@.len() % 4 == 0,
        r is Ok ==> r->Ok_0@.len() == byte@.len() / 4,
        r is Ok ==> forall|j: int|
            0 <= j < r->Ok_0@.len() ==> r->Ok_0@[j] == spec_i32_be(
                byte@.subrange(4 * j, 4 * j + 4),
            ),
        r is Err ==> r->Err_0.kind == GdsErrorKind::MalformedRecord,
{
    let byte_len = byte.len();
    if byte_len % 4 != 0 {
        return Err(GDSIIError::new("transfer four byte int failed: byte length % 4 != 0"));
    }
    let mut value: Vec<i32> = Vec::new();
    let mut i: usize = 0;
    while i < byte_len / 4
        invariant
            byte_len == byte@.len(),
            byte_len % 4 == 0,
            i <= byte_len / 4,
            value@.len() == i,
            forall|j: int|
                0 <= j < i ==> value@[j] == spec_i32_be(byte@.subrange(4 * j, 4 * j + 4)),
        decreases byte_len / 4 - i,
    {
        let b0 = byte[4 * i];
        let b1 = byte[4 * i + 1];
        let b2 = byte[4 * i + 2];
        let b3 = byte[4 * i + 3];
        let u: u32 = (b0 as u32) * 0x100_0000 + (b1 as u32) * 0x1_0000 + (b2 as u32) * 0x100 + (
        b3 as u32);
        let v: i32 = if u < 0x8000_0000 {
            u as i32
        } else {
            ((u as i64) - 0x1_0000_0000) as i32
        };
        proof {
            let s = byte@.subrange(4 * i as int, 4 * i as int + 4);
            assert(s[0] == b0 && s[1] == b1 && s[2] == b2 && s[3] == b3);
            assert(v == spec_i32_be(s));
        }
        value.push(v);
        i = i + 1;
    }
    Ok(value)
}

/// Split a payload into eight-byte reals.  Fails exactly when the payload
/// length is not a multiple of eight.
pub fn eight_byte_real(byte: &[u8]) -> (r: Result<Vec<GdsReal>, GDSIIError>)
    ensures
        r is Ok <==> byte@.len() % 8 == 0,
        r is Ok ==> r->Ok_0@.len() == byte@.len() / 8,
        r is Ok ==> forall|j: int|
            0 <= j < r->Ok_0@.len() ==> r->Ok_0@[j] == spec_decode_real(
                byte@.subrange(8 * j, 8 * j + 8),
            ) && r->Ok_0@[j].wf(),
        r is Err ==> r->Err_0.kind == GdsErrorKind::InvalidFloat,
{
    let byte_len = byte.len();
    if byte_len % 8 != 0 {
        return Err(
            GDSIIError::of_kind(
                GdsErrorKind::InvalidFloat,
                "transfer eight byte real failed: byte length % 8 != 0",
            ),
        );
    }
    let mut value: Vec<GdsReal> = Vec::new();
    let mut i: usize = 0;
    while i < byte_len / 8
        invariant
            byte_len == byte@.len(),
            byte_len % 8 == 0,
            i <= byte_len / 8,
            value@.len() == i,
            forall|j: int|
                0 <= j < i ==> value@[j] == spec_decode_real(byte@.subrange(8 * j, 8 * j + 8))
                    && value@[j].wf(),
        decreases byte_len / 8 - i,
    {
        let part = vstd::slice::slice_subrange(byte, 8 * i, 8 * i + 8);
        let rv = match crate::gds_real::gdsii_eight_byte_real(part) {
            Ok(v) => v,
            Err(e) => {
                return Err(e);
            },
        };
        value.push(rv);
        i = i + 1;
    }
    Ok(value)
}

/// Decode a string payload: drop one trailing padding zero, then accept
/// the bytes exactly when they are all ASCII.
pub fn ascii_string(byte: &[u8]) -> (r: Result<Vec<u8>, GDSIIError>)
    ensures
        r is Ok <==> (forall|i: int|
            0 <= i < spec_strip_pad(byte@).len() ==> spec_strip_pad(byte@)[i] < 128),
        r is Ok ==> r->Ok_0@ == spec_strip_pad(byte@),
        r is Err ==> r->Err_0.kind == GdsErrorKind::NonAscii,
{
    let len = byte.len();
    let keep: usize = if len > 0 && byte[len - 1] == 0 {
        len - 1
    } else {
        len
    };
    assert(byte@.subrange(0, keep as int) =~= spec_strip_pad(byte@));
    let mut out: Vec<u8> = Vec::new();
    let mut i: usize = 0;
    while i < keep
        invariant
            keep <= byte@.len(),
            byte@.subrange(0, keep as int) == spec_strip_pad(byte@),
            i <= keep,
            out@ =~= byte@.subrange(0, i as int),
            forall|j: int| 0 <= j < i ==> byte@[j] < 128,
        decreases keep - i,
    {
        let b = byte[i];
        if b >= 128 {
            proof {
                assert(spec_strip_pad(byte@)[i as int] == byte@[i as int]);
            }
            return Err(
                GDSIIError::of_kind(
                    GdsErrorKind::NonAscii,
                    "string contains char not in ascii charset",
                ),
            );
        }
        out.push(b);
        i = i + 1;
        assert(out@ =~= byte@.subrange(0, i as int));
    }
    Ok(out)
}

/// Where framing of a buffer can run from a position: the list of
/// `[start, end)` record slices, or nothing where a length prefix is
/// missing, zero, or runs past the end.
#[verifier::opaque]
pub open spec fn spec_frames(s: Seq<u8>, pos: int) -> Option<Seq<(int, int)>>
    decreases s.len() - pos when 0 <= pos <= s.len()
{
    if pos == s.len() {
        Some(Seq::empty())
    } else if pos + 2 > s.len() {
        None
    } else {
        let l = spec_u16_be(s.subrange(pos, pos + 2));
        if l == 0 {
            None
        } else if pos + l > s.len() {
            None
        } else {
            match spec_frames(s, pos + l) {
                Some(rest) => Some(seq![(pos, pos + l)] + rest),
                None => None,
            }
        }
    }
}

/// Where framing sticks, walking from a position: the first position
/// the walk cannot leave, or the buffer's length when it walks through.
#[verifier::opaque]
pub open spec fn spec_frames_stuck(s: Seq<u8>, pos: int) -> int
    decreases s.len() - pos when 0 <= pos <= s.len()
{
    if pos == s.len() {
        pos
    } else if pos + 2 > s.len() {
        pos
    } else {
        let l = spec_u16_be(s.subrange(pos, pos + 2));
        if l == 0 {
            pos
        } else if pos + l > s.len() {
            pos
        } else {
            spec_frames_stuck(s, pos + l)
        }
    }
}

/// The frame list of an exec pass, as mathematical pairs.
pub open spec fn frames_view(s: Seq<(usize, usize)>) -> Seq<(int, int)> {
    s.map_values(|p: (usize, usize)| (p.0 as int, p.1 as int))
}

/// The tiling facts of an exec frame list carry over to its mathematical
/// view.
proof fn lemma_frames_tiling(s: Seq<u8>, f: Seq<(usize, usize)>, pos: int)
    requires
        f.len() > 0 ==> f[0].0 == 0 && f[f.len() - 1].1 == pos,
        f.len() == 0 ==> pos == 0,
        forall|i: int| 0 <= i < f.len() ==> (#[trigger] f[i]).0 < f[i].1 <= s.len(),
        forall|i: int| 0 <= i < f.len() ==> (#[trigger] f[i]).1 <= pos,
        forall|i: int| 0 <= i < f.len() ==> (#[trigger] f[i]).0 + 2 <= s.len(),
        forall|i: int| #![trigger f[i], f[i + 1]] 0 <= i < f.len() - 1 ==> f[i].1 == f[i + 1].0,
        forall|i: int|
            0 <= i < f.len() ==> (#[trigger] f[i]).1 - f[i].0 == spec_u16_be(
                s.subrange(f[i].0 as int, f[i].0 + 2),
            ),
    ensures
        frames_view(f).len() == f.len(),
        frames_view(f).len() > 0 ==> frames_view(f)[0].0 == 0 && frames_view(f)[frames_view(
            f,
        ).len() - 1].1 == pos,
        frames_view(f).len() == 0 ==> pos == 0,
        forall|i: int|
            0 <= i < frames_view(f).len() ==> (#[trigger] frames_view(f)[i]).0 < frames_view(
                f,
            )[i].1 <= s.len(),
        forall|i: int|
            0 <= i < frames_view(f).len() ==> (#[trigger] frames_view(f)[i]).1 <= pos,
        forall|i: int|
            0 <= i < frames_view(f).len() ==> (#[trigger] frames_view(f)[i]).0 + 2 <= s.len(),
        forall|i: int|
            #![trigger frames_view(f)[i], frames_view(f)[i + 1]]
            0 <= i < frames_view(f).len() - 1 ==> frames_view(f)[i].1 == frames_view(f)[i + 1].0,
        forall|i: int|
            0 <= i < frames_view(f).len() ==> (#[trigger] frames_view(f)[i]).1 - frames_view(
                f,
            )[i].0 == spec_u16_be(s.subrange(frames_view(f)[i].0, frames_view(f)[i].0 + 2)),
{
    let fv = frames_view(f);
    assert forall|i: int| 0 <= i < f.len() implies #[trigger] fv[i] == (
        f[i].0 as int,
        f[i].1 as int,
    ) by {
        assert(fv[i] == ((f[i].0 as int, f[i].1 as int)));
    }
}

/// Framing is deterministic: a frame list that tiles `[lo, pos)`, each
/// slice as wide as its own length prefix claims, composes with whatever
/// framing finds from `pos` on.
#[verifier::rlimit(50)]
proof fn lemma_frames_compose(s: Seq<u8>, f: Seq<(int, int)>, lo: int, pos: int)
    requires
        0 <= lo <= pos <= s.len(),
        f.len() == 0 ==> lo == pos,
        f.len() > 0 ==> f[0].0 == lo && f[f.len() - 1].1 == pos,
        forall|i: int| 0 <= i < f.len() ==> (#[trigger] f[i]).0 < f[i].1 <= s.len(),
        forall|i: int| 0 <= i < f.len() ==> (#[trigger] f[i]).1 <= pos,
        forall|i: int| 0 <= i < f.len() ==> (#[trigger] f[i]).0 + 2 <= s.len(),
        forall|i: int| #![trigger f[i], f[i + 1]] 0 <= i < f.len() - 1 ==> f[i].1 == f[i + 1].0,
        forall|i: int|
            0 <= i < f.len() ==> (#[trigger] f[i]).1 - f[i].0 == spec_u16_be(
                s.subrange(f[i].0, f[i].0 + 2),
            ),
    ensures
        spec_frames(s, lo) == (match spec_frames(s, pos) {
            Some(rest) => Some(f + rest),
            None => None::<Seq<(int, int)>>,
        }),
    decreases f.len(),
{
    if f.len() == 0 {
        match spec_frames(s, pos) {
            Some(rest) => {
                assert(f + rest =~= rest);
            },
            None => {},
        }
    } else {
        let head = f[0];
        let l = head.1 - head.0;
        let g = f.drop_first();
        assert forall|i: int| 0 <= i < g.len() implies #[trigger] g[i] == f[i + 1] by {}
        assert(g.len() > 0 ==> g[0].0 == head.1 && g[g.len() - 1].1 == pos);
        lemma_frames_compose(s, g, head.1, pos);
        assert(l == spec_u16_be(s.subrange(lo, lo + 2)));
        let step = spec_frames(s, head.1);
        assert(spec_frames(s, lo) == (match step {
            Some(rest2) => Some(seq![(lo, head.1)] + rest2),
            None => None::<Seq<(int, int)>>,
        })) by {
            reveal_with_fuel(spec_frames, 1);
        }
        assert(head == (lo, head.1));
        match spec_frames(s, pos) {
            Some(rest) => {
                assert(step == Some(g + rest));
                assert(seq![(lo, head.1)] + (g + rest) =~= f + rest);
            },
            None => {},
        }
    }
}

/// Cut a byte buffer into its length-prefixed record slices.
///
/// On success the slices tile the buffer exactly: the first starts at
/// offset zero, each ends where the next begins, the last ends at the
/// buffer's end, and each slice's width is the big-endian length its own
/// first two bytes claim.
#[verifier::rlimit(50)]
pub fn frame_records(buff: &[u8]) -> (r: Result<Vec<(usize, usize)>, GDSIIError>)
    ensures
        r is Ok <==> spec_frames(buff@, 0) is Some,
        r is Ok ==> Some(frames_view(r->Ok_0@)) == spec_frames(buff@, 0),
        r is Ok ==> {
            let f = r->Ok_0@;
            &&& (f.len() == 0 <==> buff@.len() == 0)
            &&& (f.len() > 0 ==> f[0].0 == 0 && f[f.len() - 1].1 == buff@.len())
            &&& (forall|i: int| 0 <= i < f.len() ==> (#[trigger] f[i]).0 < f[i].1 <= buff@.len())
            &&& (forall|i: int|
                #![trigger f[i], f[i + 1]]
                0 <= i < f.len() - 1 ==> f[i].1 == f[i + 1].0)
            &&& (forall|i: int|
                0 <= i < f.len() ==> (#[trigger] f[i]).1 - f[i].0 == spec_u16_be(
                    buff@.subrange(f[i].0 as int, f[i].0 + 2),
                ))
        },
        r is Err ==> (r->Err_0.kind == GdsErrorKind::TruncatedBuffer || r->Err_0.kind
            == GdsErrorKind::ZeroLengthRecord) && r->Err_0.offset is Some,
        r is Err ==> r->Err_0.offset->Some_0 as int == spec_frames_stuck(buff@, 0),
        (r is Err && r->Err_0.kind == GdsErrorKind::ZeroLengthRecord) ==> {
            let o = r->Err_0.offset->Some_0 as int;
            o + 2 <= buff@.len() && spec_u16_be(buff@.subrange(o, o + 2)) == 0
        },
        (r is Err && r->Err_0.kind == GdsErrorKind::TruncatedBuffer) ==> {
            let o = r->Err_0.offset->Some_0 as int;
            buff@.len() - o < 2 || (o + 2 <= buff@.len() && spec_u16_be(buff@.subrange(o, o + 2))
                > buff@.len() - o)
        },
        r is Err ==> spec_frames(buff@, 0) is None,
{
    let len = buff.len();
    let mut frames: Vec<(usize, usize)> = Vec::new();
    let mut pos: usize = 0;
    while pos < len
        invariant
            len == buff@.len(),
            pos <= len,
            frames@.len() > 0 ==> frames@[0].0 == 0 && frames@[frames@.len() - 1].1 == pos,
            frames@.len() == 0 ==> pos == 0,
            forall|i: int|
                0 <= i < frames@.len() ==> (#[trigger] frames@[i]).0 < frames@[i].1 <= len,
            forall|i: int| 0 <= i < frames@.len() ==> (#[trigger] frames@[i]).1 <= pos,
            forall|i: int| 0 <= i < frames@.len() ==> (#[trigger] frames@[i]).0 + 2 <= len,
            forall|i: int|
                #![trigger frames@[i], frames@[i + 1]]
                0 <= i < frames@.len() - 1 ==> frames@[i].1 == frames@[i + 1].0,
            forall|i: int|
                0 <= i < frames@.len() ==> (#[trigger] frames@[i]).1 - frames@[i].0 == spec_u16_be(
                    buff@.subrange(frames@[i].0 as int, frames@[i].0 + 2),
                ),
            spec_frames_stuck(buff@, 0) == spec_frames_stuck(buff@, pos as int),
        decreases len - pos,
    {
        proof {
            lemma_frames_tiling(buff@, frames@, pos as int);
        }
        if len - pos < 2 {
            proof {
                lemma_frames_compose(buff@, frames_view(frames@), 0, pos as int);
                assert(spec_frames(buff@, pos as int) is None) by {
                    reveal_with_fuel(spec_frames, 1);
                }
                assert(spec_frames_stuck(buff@, pos as int) == pos as int) by {
                    reveal_with_fuel(spec_frames_stuck, 1);
                }
            }
            return Err(
                GDSIIError::at_offset(
                    GdsErrorKind::TruncatedBuffer,
                    "transfer gds record failed: record length prefix truncated",
                    pos,
                ),
            );
        }
        let record_len: usize = (buff[pos] as usize) * 256 + (buff[pos + 1] as usize);
        proof {
            assert(buff@.subrange(pos as int, pos as int + 2)[0] == buff@[pos as int]);
            assert(buff@.subrange(pos as int, pos as int + 2)[1] == buff@[pos as int + 1]);
        }
        if record_len == 0 {
            proof {
                lemma_frames_compose(buff@, frames_view(frames@), 0, pos as int);
                assert(spec_frames(buff@, pos as int) is None) by {
                    reveal_with_fuel(spec_frames, 1);
                    assert(buff@.subrange(pos as int, pos as int + 2)[0] == buff@[pos as int]);
                    assert(buff@.subrange(pos as int, pos as int + 2)[1] == buff@[pos as int + 1]);
                }
                assert(spec_frames_stuck(buff@, pos as int) == pos as int) by {
                    reveal_with_fuel(spec_frames_stuck, 1);
                    assert(buff@.subrange(pos as int, pos as int + 2)[0] == buff@[pos as int]);
                    assert(buff@.subrange(pos as int, pos as int + 2)[1] == buff@[pos as int + 1]);
                }
            }
            return Err(
                GDSIIError::at_offset(
                    GdsErrorKind::ZeroLengthRecord,
                    "not valid gds record length, zero length",
                    pos,
                ),
            );
        }
        if record_len > len - pos {
            proof {
                lemma_frames_compose(buff@, frames_view(frames@), 0, pos as int);
                assert(spec_frames(buff@, pos as int) is None) by {
                    reveal_with_fuel(spec_frames, 1);
                    assert(buff@.subrange(pos as int, pos as int + 2)[0] == buff@[pos as int]);
                    assert(buff@.subrange(pos as int, pos as int + 2)[1] == buff@[pos as int + 1]);
                }
                assert(spec_frames_stuck(buff@, pos as int) == pos as int) by {
                    reveal_with_fuel(spec_frames_stuck, 1);
                    assert(buff@.subrange(pos as int, pos as int + 2)[0] == buff@[pos as int]);
                    assert(buff@.subrange(pos as int, pos as int + 2)[1] == buff@[pos as int + 1]);
                }
            }
            return Err(
                GDSIIError::at_offset(
                    GdsErrorKind::TruncatedBuffer,
                    "not valid gds record length, record runs past end of buffer",
                    pos,
                ),
            );
        }
        frames.push((pos, pos + record_len));
        proof {
            assert(spec_frames_stuck(buff@, pos as int) == spec_frames_stuck(
                buff@,
                pos as int + record_len,
            )) by {
                reveal_with_fuel(spec_frames_stuck, 1);
                assert(buff@.subrange(pos as int, pos as int + 2)[0] == buff@[pos as int]);
                assert(buff@.subrange(pos as int, pos as int + 2)[1] == buff@[pos as int + 1]);
            }
        }
        pos = pos + record_len;
    }
    proof {
        lemma_frames_tiling(buff@, frames@, pos as int);
        lemma_frames_compose(buff@, frames_view(frames@), 0, pos as int);
        assert(spec_frames(buff@, pos as int) == Some(Seq::<(int, int)>::empty())) by {
            reveal_with_fuel(spec_frames, 1);
        }
        assert(frames_view(frames@) + Seq::<(int, int)>::empty() =~= frames_view(frames@));
    }
    Ok(frames)
}

/// Decode one whole record slice (header included) into a typed record.
///
/// Fails exactly where the record table has no entry: an unsupported
/// tag, or a payload whose length or content does not fit the tag.
#[verifier::rlimit(100)]
#[verifier::spinoff_prover]
pub fn record_type(bytes: &[u8]) -> (r: Result<crate::gds_record::Record, GDSIIError>)
    ensures
        r is Ok <==> crate::gds_record::spec_parse_record(bytes@) is Some,
        r is Ok ==> Some(r->Ok_0@) == crate::gds_record::spec_parse_record(bytes@),
        r is Err ==> r->Err_0.kind == GdsErrorKind::MalformedRecord || r->Err_0.kind
            == GdsErrorKind::NonAscii || r->Err_0.kind == GdsErrorKind::InvalidFloat
            || r->Err_0.kind == GdsErrorKind::NameConstraint || r->Err_0.kind
            == GdsErrorKind::UnsupportedRecord,
        (r is Err && r->Err_0.kind == GdsErrorKind::UnsupportedRecord) <==> (bytes@.len() >= 4
            && !crate::gds_record::spec_tag_supported(spec_u16_be(bytes@.subrange(2, 4)))),
{
    if bytes.len() < 4 {
        return Err(GDSIIError::new("gds record length less than 4 bytes"));
    }
    let tagdt: u16 = (bytes[2] as u16) * 256 + (bytes[3] as u16);
    let data = vstd::slice::slice_subrange(bytes, 4, bytes.len());
    proof {
        assert(bytes@.subrange(2, 4)[0] == bytes@[2] && bytes@.subrange(2, 4)[1] == bytes@[3]);
        assert(tagdt as int == spec_u16_be(bytes@.subrange(2, 4)));
        assert(data@ =~= bytes@.skip(4));
    }
    if tagdt == crate::gds_record::HEADER {
        let vals = two_byte_int(data)?;
        if vals.len() < 1 {
            return Err(GDSIIError::new("gds header record payload is empty"));
        }
        proof {
            assert(data@.subrange((2 * 0) as int, (2 * 0 + 2) as int) =~= data@.subrange(0, 2));
        }
        Ok(Record::Header { version: vals[0] })
    } else if tagdt == crate::gds_record::BGNLIB {
        let vals = two_byte_int(data)?;
        let date = crate::gds_model::date::Date::from_i16_array(vals.as_slice())?;
        proof {
            lemma_date_fields_agree(data@, vals@, date);
        }
        Ok(Record::BgnLib(date))
    } else if tagdt == crate::gds_record::LIBNAME {
        let name = ascii_string(data)?;
        Ok(Record::LibName(name))
    } else if tagdt == crate::gds_record::UNITS {
        let vals = eight_byte_real(data)?;
        if vals.len() < 2 {
            return Err(
                GDSIIError::of_kind(
                    GdsErrorKind::InvalidFloat,
                    "gds units record needs two eight byte reals",
                ),
            );
        }
        proof {
            assert(data@.subrange((8 * 0) as int, (8 * 0 + 8) as int) =~= data@.subrange(0, 8));
            assert(data@.subrange((8 * 1) as int, (8 * 1 + 8) as int) =~= data@.subrange(8, 16));
        }
        Ok(Record::Units { dbu_in_user: vals[0], dbu_in_meter: vals[1] })
    } else if tagdt == crate::gds_record::ENDLIB {
        Ok(Record::EndLib)
    } else if tagdt == crate::gds_record::BGNSTR {
        let vals = two_byte_int(data)?;
        let date = crate::gds_model::date::Date::from_i16_array(vals.as_slice())?;
        proof {
            lemma_date_fields_agree(data@, vals@, date);
        }
        Ok(Record::BgnStr(date))
    } else if tagdt == crate::gds_record::STRNAME {
        let name = ascii_string(data)?;
        Ok(Record::StrName(name))
    } else if tagdt == crate::gds_record::ENDSTR {
        Ok(Record::EndStr)
    } else if tagdt == crate::gds_record::BOUNDARY {
        Ok(Record::Boundary)
    } else if tagdt == crate::gds_record::PATH {
        Ok(Record::Path)
    } else if tagdt == crate::gds_record::SREF {
        Ok(Record::StrRef)
    } else if tagdt == crate::gds_record::AREF {
        Ok(Record::AryRef)
    } else if tagdt == crate::gds_record::TEXT {
        Ok(Record::Text)
    } else if tagdt == crate::gds_record::LAYER {
        let vals = two_byte_int(data)?;
        if vals.len() < 1 {
            return Err(GDSIIError::new("gds layer record payload is empty"));
        }
        proof {
            assert(data@.subrange((2 * 0) as int, (2 * 0 + 2) as int) =~= data@.subrange(0, 2));
        }
        Ok(Record::Layer(vals[0]))
    } else if tagdt == crate::gds_record::DATATYPE {
        let vals = two_byte_int(data)?;
        if vals.len() < 1 {
            return Err(GDSIIError::new("gds datatype record payload is empty"));
        }
        proof {
            assert(data@.subrange((2 * 0) as int, (2 * 0 + 2) as int) =~= data@.subrange(0, 2));
        }
        Ok(Record::DataType(vals[0]))
    } else if tagdt == crate::gds_record::WIDTH {
        let vals = four_byte_int(data)?;
        if vals.len() < 1 {
            return Err(GDSIIError::new("gds width record payload is empty"));
        }
        proof {
            assert(data@.subrange((4 * 0) as int, (4 * 0 + 4) as int) =~= data@.subrange(0, 4));
        }
        Ok(Record::Width(vals[0]))
    } else if tagdt == crate::gds_record::XY {
        let vals = four_byte_int(data)?;
        if vals.len() % 2 != 0 {
            return Err(GDSIIError::new("gds xy record holds an odd number of coordinates"));
        }
        let vl = vals.len();
        let m = vl / 2;
        let mut points: Vec<Points> = Vec::new();
        let mut j: usize = 0;
        while j < m
            invariant
                vl == vals@.len(),
                m == vals@.len() / 2,
                vals@.len() % 2 == 0,
                data@.len() % 4 == 0,
                vals@.len() == data@.len() / 4,
                forall|l: int|
                    0 <= l < vals@.len() ==> vals@[l] == spec_i32_be(
                        data@.subrange(4 * l, 4 * l + 4),
                    ),
                j <= m,
                points@.len() == j,
                forall|l: int|
                    0 <= l < j ==> (#[trigger] points@[l]) == (Points {
                        x: vals@[2 * l] as i32,
                        y: vals@[2 * l + 1] as i32,
                    }),
            decreases m - j,
        {
            points.push(Points { x: vals[2 * j], y: vals[2 * j + 1] });
            j = j + 1;
        }
        proof {
            assert(data@.len() % 8 == 0) by {
                assert(data@.len() == 4 * vals@.len());
            }
            assert(points@ =~= spec_xy_points(data@)) by {
                assert forall|l: int| 0 <= l < points@.len() implies (#[trigger] points@[l])
                    == spec_xy_points(data@)[l] by {
                    assert(data@.subrange(4 * (2 * l), 4 * (2 * l) + 4) =~= data@.subrange(
                        8 * l,
                        8 * l + 4,
                    ));
                    assert(data@.subrange(4 * (2 * l + 1), 4 * (2 * l + 1) + 4) =~= data@.subrange(
                        8 * l + 4,
                        8 * l + 8,
                    ));
                    assert(vals@[2 * l] == spec_i32_be(
                        data@.subrange(4 * (2 * l), 4 * (2 * l) + 4),
                    ));
                    assert(vals@[2 * l + 1] == spec_i32_be(
                        data@.subrange(4 * (2 * l + 1), 4 * (2 * l + 1) + 4),
                    ));
                }
            }
        }
        Ok(Record::Points(points))
    } else if tagdt == crate::gds_record::ENDEL {
        Ok(Record::EndElem)
    } else if tagdt == crate::gds_record::SNAME {
        let name = ascii_string(data)?;
        Ok(Record::StrRefName(name))
    } else if tagdt == crate::gds_record::COLROW {
        let vals = two_byte_int(data)?;
        if vals.len() < 2 {
            return Err(GDSIIError::new("gds colrow record needs two values"));
        }
        proof {
            assert(data@.subrange((2 * 0) as int, (2 * 0 + 2) as int) =~= data@.subrange(0, 2));
            assert(data@.subrange((2 * 1) as int, (2 * 1 + 2) as int) =~= data@.subrange(2, 4));
        }
        Ok(Record::ColRow { column: vals[0], row: vals[1] })
    } else if tagdt == crate::gds_record::TEXTTYPE {
        let vals = two_byte_int(data)?;
        if vals.len() < 1 {
            return Err(GDSIIError::new("gds texttype record payload is empty"));
        }
        proof {
            assert(data@.subrange((2 * 0) as int, (2 * 0 + 2) as int) =~= data@.subrange(0, 2));
        }
        Ok(Record::TextType(vals[0]))
    } else if tagdt == crate::gds_record::PRESENTATION {
        if data.len() < 2 {
            return Err(GDSIIError::new("gds presentation record needs two bytes"));
        }
        let font_tag = (data[1] / 16) % 4;
        let ver_tag = (data[1] / 4) % 4;
        let hor_tag = data[1] % 4;
        let font_num = if font_tag == 0 {
            crate::gds_record::PresentationFont::Fonts0
        } else if font_tag == 1 {
            crate::gds_record::PresentationFont::Fonts1
        } else if font_tag == 2 {
            crate::gds_record::PresentationFont::Fonts2
        } else {
            crate::gds_record::PresentationFont::Fonts3
        };
        let vertical_justification = if ver_tag == 0 {
            crate::gds_record::PresentationVerticalPos::Top
        } else if ver_tag == 1 {
            crate::gds_record::PresentationVerticalPos::Middle
        } else if ver_tag == 2 {
            crate::gds_record::PresentationVerticalPos::Bottom
        } else {
            return Err(GDSIIError::new("Unknown vertical type"));
        };
        let horizontal_justification = if hor_tag == 0 {
            crate::gds_record::PresentationHorizontalPos::Left
        } else if hor_tag == 1 {
            crate::gds_record::PresentationHorizontalPos::Center
        } else if hor_tag == 2 {
            crate::gds_record::PresentationHorizontalPos::Right
        } else {
            return Err(GDSIIError::new("Unknown horizontal type"));
        };
        Ok(Record::Presentation { font_num, vertical_justification, horizontal_justification })
    } else if tagdt == crate::gds_record::STRING {
        let text = ascii_string(data)?;
        if text.len() > 512 {
            return Err(
                GDSIIError::of_kind(GdsErrorKind::NameConstraint, "Lib string exceed 512 chars"),
            );
        }
        Ok(Record::StringData(text))
    } else if tagdt == crate::gds_record::STRANS {
        if data.len() < 2 {
            return Err(GDSIIError::new("gds strans record needs two bytes"));
        }
        Ok(
            Record::RefTrans {
                reflection_x: data[0] >= 128,
                absolute_magnification: (data[1] / 4) % 2 == 1,
                absolute_angle: (data[1] / 2) % 2 == 1,
            },
        )
    } else if tagdt == crate::gds_record::MAG {
        let vals = eight_byte_real(data)?;
        if vals.len() < 1 {
            return Err(
                GDSIIError::of_kind(
                    GdsErrorKind::InvalidFloat,
                    "gds mag record needs an eight byte real",
                ),
            );
        }
        proof {
            assert(data@.subrange((8 * 0) as int, (8 * 0 + 8) as int) =~= data@.subrange(0, 8));
        }
        Ok(Record::Mag(vals[0]))
    } else if tagdt == crate::gds_record::ANGLE {
        let vals = eight_byte_real(data)?;
        if vals.len() < 1 {
            return Err(
                GDSIIError::of_kind(
                    GdsErrorKind::InvalidFloat,
                    "gds angle record needs an eight byte real",
                ),
            );
        }
        proof {
            assert(data@.subrange((8 * 0) as int, (8 * 0 + 8) as int) =~= data@.subrange(0, 8));
        }
        Ok(Record::Angle(vals[0]))
    } else if tagdt == crate::gds_record::PATHTYPE {
        let vals = two_byte_int(data)?;
        if vals.len() < 1 {
            return Err(GDSIIError::new("gds pathtype record payload is empty"));
        }
        proof {
            assert(data@.subrange((2 * 0) as int, (2 * 0 + 2) as int) =~= data@.subrange(0, 2));
        }
        Ok(Record::PathType(vals[0]))
    } else if tagdt == crate::gds_record::PROPATTR {
        let vals = two_byte_int(data)?;
        if vals.len() < 1 {
            return Err(GDSIIError::new("gds propattr record payload is empty"));
        }
        proof {
            assert(data@.subrange((2 * 0) as int, (2 * 0 + 2) as int) =~= data@.subrange(0, 2));
        }
        Ok(Record::PropAttr(vals[0]))
    } else if tagdt == crate::gds_record::PROPVALUE {
        let value = ascii_string(data)?;
        if value.len() > 126 {
            return Err(
                GDSIIError::of_kind(
                    GdsErrorKind::NameConstraint,
                    "Property value record exceed 126 chars",
                ),
            );
        }
        Ok(Record::PropValue(value))
    } else if tagdt == crate::gds_record::BOX {
        Ok(Record::Box)
    } else if tagdt == crate::gds_record::BOXTYPE {
        let vals = two_byte_int(data)?;
        if vals.len() < 1 {
            return Err(GDSIIError::new("gds boxtype record payload is empty"));
        }
        proof {
            assert(data@.subrange((2 * 0) as int, (2 * 0 + 2) as int) =~= data@.subrange(0, 2));
        }
        Ok(Record::BoxType(vals[0]))
    } else if tagdt == crate::gds_record::BGNEXTN {
        let vals = four_byte_int(data)?;
        if vals.len() < 1 {
            return Err(GDSIIError::new("gds bgnextn record payload is empty"));
        }
        proof {
            assert(data@.subrange((4 * 0) as int, (4 * 0 + 4) as int) =~= data@.subrange(0, 4));
        }
        Ok(Record::BgnExtn(vals[0]))
    } else if tagdt == crate::gds_record::ENDEXTN {
        let vals = four_byte_int(data)?;
        if vals.len() < 1 {
            return Err(GDSIIError::new("gds endextn record payload is empty"));
        }
        proof {
            assert(data@.subrange((4 * 0) as int, (4 * 0 + 4) as int) =~= data@.subrange(0, 4));
        }
        Ok(Record::EndExtn(vals[0]))
    } else {
        Err(GDSIIError::of_kind(GdsErrorKind::UnsupportedRecord, "unknown gds record tag"))
    }
}

/// Twelve decoded values starting a payload make the date tuple the
/// record table describes.
proof fn lemma_date_fields_agree(data: Seq<u8>, vals: Seq<i16>, date: crate::gds_model::date::Date)
    requires
        data.len() % 2 == 0,
        vals.len() == data.len() / 2,
        forall|l: int| 0 <= l < vals.len() ==> vals[l] == spec_i16_be(data.subrange(2 * l, 2 * l + 2)),
        vals.len() >= 12,
        crate::gds_model::date::spec_date_fields(date) =~= vals.subrange(0, 12),
    ensures
        data.len() >= 24,
        date == crate::gds_record::spec_date_of(data),
{
    let f = crate::gds_model::date::spec_date_fields(date);
    assert forall|l: int| 0 <= l < 12 implies f[l] == spec_i16_be(
        data.subrange(2 * l, 2 * l + 2),
    ) by {
        assert(f[l] == vals.subrange(0, 12)[l]);
        assert(vals.subrange(0, 12)[l] == vals[l]);
    }
    assert(data.subrange((2 * 0) as int, (2 * 0 + 2) as int) =~= data.subrange(0, 2));
    assert(data.subrange((2 * 1) as int, (2 * 1 + 2) as int) =~= data.subrange(2, 4));
    assert(data.subrange((2 * 2) as int, (2 * 2 + 2) as int) =~= data.subrange(4, 6));
    assert(data.subrange((2 * 3) as int, (2 * 3 + 2) as int) =~= data.subrange(6, 8));
    assert(data.subrange((2 * 4) as int, (2 * 4 + 2) as int) =~= data.subrange(8, 10));
    assert(data.subrange((2 * 5) as int, (2 * 5 + 2) as int) =~= data.subrange(10, 12));
    assert(data.subrange((2 * 6) as int, (2 * 6 + 2) as int) =~= data.subrange(12, 14));
    assert(data.subrange((2 * 7) as int, (2 * 7 + 2) as int) =~= data.subrange(14, 16));
    assert(data.subrange((2 * 8) as int, (2 * 8 + 2) as int) =~= data.subrange(16, 18));
    assert(data.subrange((2 * 9) as int, (2 * 9 + 2) as int) =~= data.subrange(18, 20));
    assert(data.subrange((2 * 10) as int, (2 * 10 + 2) as int) =~= data.subrange(20, 22));
    assert(data.subrange((2 * 11) as int, (2 * 11 + 2) as int) =~= data.subrange(22, 24));
}

} // verus!

