//! The GDSII record grammar: the supported tags, the typed record they
//! each decode to, and the exact meaning of each payload.
//!
//! A record on the wire is `[len: u16 BE][tag: u8][datatype: u8][payload]`,
//! with `len` counting the whole record.  The tag and datatype byte are
//! kept packed as one 16-bit value.

use vstd::prelude::*;
use crate::gds_model::date::Date;
use crate::gds_model::points::Points;
use crate::gds_real::GdsReal;
use crate::gds_reader::{spec_i16_be, spec_i32_be, spec_strip_pad, spec_u16_be};
use crate::gds_real::spec_decode_real;
use crate::gds_writer::spec_record_bytes;

verus! {

pub const HEADER: u16 = 0x0002;

pub const BGNLIB: u16 = 0x0102;

pub const LIBNAME: u16 = 0x0206;

pub const UNITS: u16 = 0x0305;

pub const ENDLIB: u16 = 0x0400;

pub const BGNSTR: u16 = 0x0502;

pub const STRNAME: u16 = 0x0606;

pub const ENDSTR: u16 = 0x0700;

pub const BOUNDARY: u16 = 0x0800;

pub const PATH: u16 = 0x0900;

pub const SREF: u16 = 0x0A00;

pub const AREF: u16 = 0x0B00;

pub const TEXT: u16 = 0x0C00;

pub const LAYER: u16 = 0x0D02;

pub const DATATYPE: u16 = 0x0E02;

pub const WIDTH: u16 = 0x0F03;

pub const XY: u16 = 0x1003;

pub const ENDEL: u16 = 0x1100;

pub const SNAME: u16 = 0x1206;

pub const COLROW: u16 = 0x1302;

pub const TEXTTYPE: u16 = 0x1602;

pub const PRESENTATION: u16 = 0x1701;

pub const STRING: u16 = 0x1906;

pub const STRANS: u16 = 0x1A01;

pub const MAG: u16 = 0x1B05;

pub const ANGLE: u16 = 0x1C05;

pub const PATHTYPE: u16 = 0x2102;

pub const PROPATTR: u16 = 0x2B02;

pub const PROPVALUE: u16 = 0x2C06;

pub const BOX: u16 = 0x2D00;

pub const BOXTYPE: u16 = 0x2E02;

pub const BGNEXTN: u16 = 0x3003;

pub const ENDEXTN: u16 = 0x3103;

/// A packed tag/datatype value the record table has an entry for.
pub open spec fn spec_tag_supported(tagdt: int) -> bool {
    ||| tagdt == HEADER
    ||| tagdt == BGNLIB
    ||| tagdt == LIBNAME
    ||| tagdt == UNITS
    ||| tagdt == ENDLIB
    ||| tagdt == BGNSTR
    ||| tagdt == STRNAME
    ||| tagdt == ENDSTR
    ||| tagdt == BOUNDARY
    ||| tagdt == PATH
    ||| tagdt == SREF
    ||| tagdt == AREF
    ||| tagdt == TEXT
    ||| tagdt == LAYER
    ||| tagdt == DATATYPE
    ||| tagdt == WIDTH
    ||| tagdt == XY
    ||| tagdt == ENDEL
    ||| tagdt == SNAME
    ||| tagdt == COLROW
    ||| tagdt == TEXTTYPE
    ||| tagdt == PRESENTATION
    ||| tagdt == STRING
    ||| tagdt == STRANS
    ||| tagdt == MAG
    ||| tagdt == ANGLE
    ||| tagdt == PATHTYPE
    ||| tagdt == PROPATTR
    ||| tagdt == PROPVALUE
    ||| tagdt == BOX
    ||| tagdt == BOXTYPE
    ||| tagdt == BGNEXTN
    ||| tagdt == ENDEXTN
}

/// The text font a PRESENTATION record selects (bits 4 and 5).
#[derive(Clone, Copy, Debug, PartialEq, Eq, Structural)]
pub enum PresentationFont {
    Fonts0,
    Fonts1,
    Fonts2,
    Fonts3,
}

/// The vertical anchor a PRESENTATION record selects (bits 2 and 3).
#[derive(Clone, Copy, Debug, PartialEq, Eq, Structural)]
pub enum PresentationVerticalPos {
    Top,
    Middle,
    Bottom,
}

/// The horizontal anchor a PRESENTATION record selects (bits 0 and 1).
#[derive(Clone, Copy, Debug, PartialEq, Eq, Structural)]
pub enum PresentationHorizontalPos {
    Left,
    Center,
    Right,
}

/// A typed GDSII record.
#[derive(Clone, Debug)]
pub enum Record {
    Header { version: i16 },
    BgnLib(Date),
    LibName(Vec<u8>),
    Units { dbu_in_user: GdsReal, dbu_in_meter: GdsReal },
    EndLib,
    BgnStr(Date),
    StrName(Vec<u8>),
    EndStr,
    Boundary,
    Path,
    StrRef,
    AryRef,
    Text,
    Layer(i16),
    DataType(i16),
    Width(i32),
    Points(Vec<Points>),
    EndElem,
    StrRefName(Vec<u8>),
    ColRow { column: i16, row: i16 },
    TextType(i16),
    Presentation {
        font_num: PresentationFont,
        vertical_justification: PresentationVerticalPos,
        horizontal_justification: PresentationHorizontalPos,
    },
    StringData(Vec<u8>),
    RefTrans { reflection_x: bool, absolute_magnification: bool, absolute_angle: bool },
    Mag(GdsReal),
    Angle(GdsReal),
    PathType(i16),
    PropAttr(i16),
    PropValue(Vec<u8>),
    Box,
    BoxType(i16),
    BgnExtn(i32),
    EndExtn(i32),
}

/// The mathematical image of a typed record: byte strings as sequences.
pub enum RecordV {
    Header { version: i16 },
    BgnLib(Date),
    LibName(Seq<u8>),
    Units { dbu_in_user: GdsReal, dbu_in_meter: GdsReal },
    EndLib,
    BgnStr(Date),
    StrName(Seq<u8>),
    EndStr,
    Boundary,
    Path,
    StrRef,
    AryRef,
    Text,
    Layer(i16),
    DataType(i16),
    Width(i32),
    Points(Seq<Points>),
    EndElem,
    StrRefName(Seq<u8>),
    ColRow { column: i16, row: i16 },
    TextType(i16),
    Presentation {
        font_num: PresentationFont,
        vertical_justification: PresentationVerticalPos,
        horizontal_justification: PresentationHorizontalPos,
    },
    StringData(Seq<u8>),
    RefTrans { reflection_x: bool, absolute_magnification: bool, absolute_angle: bool },
    Mag(GdsReal),
    Angle(GdsReal),
    PathType(i16),
    PropAttr(i16),
    PropValue(Seq<u8>),
    Box,
    BoxType(i16),
    BgnExtn(i32),
    EndExtn(i32),
}

impl View for Record {
    type V = RecordV;

    open spec fn view(&self) -> RecordV {
        match self {
            Record::Header { version } => RecordV::Header { version: *version },
            Record::BgnLib(d) => RecordV::BgnLib(*d),
            Record::LibName(s) => RecordV::LibName(s@),
            Record::Units { dbu_in_user, dbu_in_meter } => RecordV::Units {
                dbu_in_user: *dbu_in_user,
                dbu_in_meter: *dbu_in_meter,
            },
            Record::EndLib => RecordV::EndLib,
            Record::BgnStr(d) => RecordV::BgnStr(*d),
            Record::StrName(s) => RecordV::StrName(s@),
            Record::EndStr => RecordV::EndStr,
            Record::Boundary => RecordV::Boundary,
            Record::Path => RecordV::Path,
            Record::StrRef => RecordV::StrRef,
            Record::AryRef => RecordV::AryRef,
            Record::Text => RecordV::Text,
            Record::Layer(l) => RecordV::Layer(*l),
            Record::DataType(d) => RecordV::DataType(*d),
            Record::Width(w) => RecordV::Width(*w),
            Record::Points(p) => RecordV::Points(p@),
            Record::EndElem => RecordV::EndElem,
            Record::StrRefName(s) => RecordV::StrRefName(s@),
            Record::ColRow { column, row } => RecordV::ColRow { column: *column, row: *row },
            Record::TextType(t) => RecordV::TextType(*t),
            Record::Presentation { font_num, vertical_justification, horizontal_justification } => {
                RecordV::Presentation {
                    font_num: *font_num,
                    vertical_justification: *vertical_justification,
                    horizontal_justification: *horizontal_justification,
                }
            },
            Record::StringData(s) => RecordV::StringData(s@),
            Record::RefTrans { reflection_x, absolute_magnification, absolute_angle } => {
                RecordV::RefTrans {
                    reflection_x: *reflection_x,
                    absolute_magnification: *absolute_magnification,
                    absolute_angle: *absolute_angle,
                }
            },
            Record::Mag(m) => RecordV::Mag(*m),
            Record::Angle(a) => RecordV::Angle(*a),
            Record::PathType(t) => RecordV::PathType(*t),
            Record::PropAttr(k) => RecordV::PropAttr(*k),
            Record::PropValue(v) => RecordV::PropValue(v@),
            Record::Box => RecordV::Box,
            Record::BoxType(t) => RecordV::BoxType(*t),
            Record::BgnExtn(e) => RecordV::BgnExtn(*e),
            Record::EndExtn(e) => RecordV::EndExtn(*e),
        }
    }
}

/// The date tuple a 24-byte (or longer) payload starts with.
pub open spec fn spec_date_of(s: Seq<u8>) -> Date
    recommends
        s.len() >= 24,
{
    Date {
        mod_year: spec_i16_be(s.subrange(0, 2)) as i16,
        mod_month: spec_i16_be(s.subrange(2, 4)) as i16,
        mod_day: spec_i16_be(s.subrange(4, 6)) as i16,
        mod_hour: spec_i16_be(s.subrange(6, 8)) as i16,
        mod_minute: spec_i16_be(s.subrange(8, 10)) as i16,
        mod_second: spec_i16_be(s.subrange(10, 12)) as i16,
        acc_year: spec_i16_be(s.subrange(12, 14)) as i16,
        acc_month: spec_i16_be(s.subrange(14, 16)) as i16,
        acc_day: spec_i16_be(s.subrange(16, 18)) as i16,
        acc_hour: spec_i16_be(s.subrange(18, 20)) as i16,
        acc_minute: spec_i16_be(s.subrange(20, 22)) as i16,
        acc_second: spec_i16_be(s.subrange(22, 24)) as i16,
    }
}

/// The vertex list an XY payload carries: pairs of big-endian 32-bit
/// coordinates.
pub open spec fn spec_xy_points(s: Seq<u8>) -> Seq<Points>
    recommends
        s.len() % 8 == 0,
{
    Seq::new(
        (s.len() / 8) as nat,
        |j: int|
            Points {
                x: spec_i32_be(s.subrange(8 * j, 8 * j + 4)) as i32,
                y: spec_i32_be(s.subrange(8 * j + 4, 8 * j + 8)) as i32,
            },
    )
}

/// All bytes of a string payload, padding stripped, are ASCII.
pub open spec fn spec_payload_ascii(s: Seq<u8>) -> bool {
    forall|i: int| 0 <= i < spec_strip_pad(s).len() ==> spec_strip_pad(s)[i] < 128
}

/// What a whole record slice decodes to, or nothing where the tag is
/// unsupported or the payload does not fit it.  This is the record table
/// of the format, one case per supported tag.
pub open spec fn spec_parse_record(s: Seq<u8>) -> Option<RecordV> {
    if s.len() < 4 {
        None
    } else {
        let tagdt = spec_u16_be(s.subrange(2, 4));
        let data = s.skip(4);
        if tagdt == HEADER {
            if data.len() % 2 == 0 && data.len() >= 2 {
                Some(RecordV::Header { version: spec_i16_be(data.subrange(0, 2)) as i16 })
            } else {
                None
            }
        } else if tagdt == BGNLIB {
            if data.len() % 2 == 0 && data.len() >= 24 {
                Some(RecordV::BgnLib(spec_date_of(data)))
            } else {
                None
            }
        } else if tagdt == LIBNAME {
            if spec_payload_ascii(data) {
                Some(RecordV::LibName(spec_strip_pad(data)))
            } else {
                None
            }
        } else if tagdt == UNITS {
            if data.len() % 8 == 0 && data.len() >= 16 {
                Some(
                    RecordV::Units {
                        dbu_in_user: spec_decode_real(data.subrange(0, 8)),
                        dbu_in_meter: spec_decode_real(data.subrange(8, 16)),
                    },
                )
            } else {
                None
            }
        } else if tagdt == ENDLIB {
            Some(RecordV::EndLib)
        } else if tagdt == BGNSTR {
            if data.len() % 2 == 0 && data.len() >= 24 {
                Some(RecordV::BgnStr(spec_date_of(data)))
            } else {
                None
            }
        } else if tagdt == STRNAME {
            if spec_payload_ascii(data) {
                Some(RecordV::StrName(spec_strip_pad(data)))
            } else {
                None
            }
        } else if tagdt == ENDSTR {
            Some(RecordV::EndStr)
        } else if tagdt == BOUNDARY {
            Some(RecordV::Boundary)
        } else if tagdt == PATH {
            Some(RecordV::Path)
        } else if tagdt == SREF {
            Some(RecordV::StrRef)
        } else if tagdt == AREF {
            Some(RecordV::AryRef)
        } else if tagdt == TEXT {
            Some(RecordV::Text)
        } else if tagdt == LAYER {
            if data.len() % 2 == 0 && data.len() >= 2 {
                Some(RecordV::Layer(spec_i16_be(data.subrange(0, 2)) as i16))
            } else {
                None
            }
        } else if tagdt == DATATYPE {
            if data.len() % 2 == 0 && data.len() >= 2 {
                Some(RecordV::DataType(spec_i16_be(data.subrange(0, 2)) as i16))
            } else {
                None
            }
        } else if tagdt == WIDTH {
            if data.len() % 4 == 0 && data.len() >= 4 {
                Some(RecordV::Width(spec_i32_be(data.subrange(0, 4)) as i32))
            } else {
                None
            }
        } else if tagdt == XY {
            if data.len() % 8 == 0 {
                Some(RecordV::Points(spec_xy_points(data)))
            } else {
                None
            }
        } else if tagdt == ENDEL {
            Some(RecordV::EndElem)
        } else if tagdt == SNAME {
            if spec_payload_ascii(data) {
                Some(RecordV::StrRefName(spec_strip_pad(data)))
            } else {
                None
            }
        } else if tagdt == COLROW {
            if data.len() % 2 == 0 && data.len() >= 4 {
                Some(
                    RecordV::ColRow {
                        column: spec_i16_be(data.subrange(0, 2)) as i16,
                        row: spec_i16_be(data.subrange(2, 4)) as i16,
                    },
                )
            } else {
                None
            }
        } else if tagdt == TEXTTYPE {
            if data.len() % 2 == 0 && data.len() >= 2 {
                Some(RecordV::TextType(spec_i16_be(data.subrange(0, 2)) as i16))
            } else {
                None
            }
        } else if tagdt == PRESENTATION {
            if data.len() >= 2 && (data[1] / 4) % 4 != 3 && data[1] % 4 != 3 {
                Some(
                    RecordV::Presentation {
                        font_num: spec_font_of((data[1] / 16) as int % 4),
                        vertical_justification: spec_vpos_of((data[1] / 4) as int % 4),
                        horizontal_justification: spec_hpos_of(data[1] as int % 4),
                    },
                )
            } else {
                None
            }
        } else if tagdt == STRING {
            if spec_payload_ascii(data) && spec_strip_pad(data).len() <= 512 {
                Some(RecordV::StringData(spec_strip_pad(data)))
            } else {
                None
            }
        } else if tagdt == STRANS {
            if data.len() >= 2 {
                Some(
                    RecordV::RefTrans {
                        reflection_x: data[0] >= 128,
                        absolute_magnification: (data[1] / 4) % 2 == 1,
                        absolute_angle: (data[1] / 2) % 2 == 1,
                    },
                )
            } else {
                None
            }
        } else if tagdt == MAG {
            if data.len() % 8 == 0 && data.len() >= 8 {
                Some(RecordV::Mag(spec_decode_real(data.subrange(0, 8))))
            } else {
                None
            }
        } else if tagdt == ANGLE {
            if data.len() % 8 == 0 && data.len() >= 8 {
                Some(RecordV::Angle(spec_decode_real(data.subrange(0, 8))))
            } else {
                None
            }
        } else if tagdt == PATHTYPE {
            if data.len() % 2 == 0 && data.len() >= 2 {
                Some(RecordV::PathType(spec_i16_be(data.subrange(0, 2)) as i16))
            } else {
                None
            }
        } else if tagdt == PROPATTR {
            if data.len() % 2 == 0 && data.len() >= 2 {
                Some(RecordV::PropAttr(spec_i16_be(data.subrange(0, 2)) as i16))
            } else {
                None
            }
        } else if tagdt == PROPVALUE {
            if spec_payload_ascii(data) && spec_strip_pad(data).len() <= 126 {
                Some(RecordV::PropValue(spec_strip_pad(data)))
            } else {
                None
            }
        } else if tagdt == BOX {
            Some(RecordV::Box)
        } else if tagdt == BOXTYPE {
            if data.len() % 2 == 0 && data.len() >= 2 {
                Some(RecordV::BoxType(spec_i16_be(data.subrange(0, 2)) as i16))
            } else {
                None
            }
        } else if tagdt == BGNEXTN {
            if data.len() % 4 == 0 && data.len() >= 4 {
                Some(RecordV::BgnExtn(spec_i32_be(data.subrange(0, 4)) as i32))
            } else {
                None
            }
        } else if tagdt == ENDEXTN {
            if data.len() % 4 == 0 && data.len() >= 4 {
                Some(RecordV::EndExtn(spec_i32_be(data.subrange(0, 4)) as i32))
            } else {
                None
            }
        } else {
            None
        }
    }
}

/// The font the two font bits select.
pub open spec fn spec_font_of(bits: int) -> PresentationFont {
    if bits == 0 {
        PresentationFont::Fonts0
    } else if bits == 1 {
        PresentationFont::Fonts1
    } else if bits == 2 {
        PresentationFont::Fonts2
    } else {
        PresentationFont::Fonts3
    }
}

/// The vertical anchor the two vertical bits select.
pub open spec fn spec_vpos_of(bits: int) -> PresentationVerticalPos {
    if bits == 0 {
        PresentationVerticalPos::Top
    } else if bits == 1 {
        PresentationVerticalPos::Middle
    } else {
        PresentationVerticalPos::Bottom
    }
}

/// The horizontal anchor the two horizontal bits select.
pub open spec fn spec_hpos_of(bits: int) -> PresentationHorizontalPos {
    if bits == 0 {
        PresentationHorizontalPos::Left
    } else if bits == 1 {
        PresentationHorizontalPos::Center
    } else {
        PresentationHorizontalPos::Right
    }
}

/// The frame every record writer emits dissects back into its tag and
/// payload.
proof fn lemma_record_frame(tagdt: u16, payload: Seq<u8>)
    requires
        payload.len() + 4 <= 0xFFFF,
    ensures
        spec_record_bytes(tagdt, payload).len() == payload.len() + 4,
        spec_u16_be(spec_record_bytes(tagdt, payload).subrange(2, 4)) == tagdt,
        spec_record_bytes(tagdt, payload).skip(4) == payload,
{
    let s = spec_record_bytes(tagdt, payload);
    assert(s.subrange(2, 4) =~= crate::gds_writer::spec_u16_bytes(tagdt as int));
    crate::gds_writer::lemma_u16_round_trip(tagdt as int);
    assert(s.skip(4) =~= payload);
}

/// Decoding the LAYER record the writer emits gives the layer back.
/// The DATATYPE, TEXTTYPE, BOXTYPE, PATHTYPE and PROPATTR records
/// follow the same two-byte payload shape.
pub proof fn lemma_layer_record_round_trip(x: i16)
    ensures
        spec_parse_record(spec_record_bytes(LAYER, crate::gds_writer::spec_i16_bytes(x as int)))
            == Some(RecordV::Layer(x)),
{
    let payload = crate::gds_writer::spec_i16_bytes(x as int);
    lemma_record_frame(LAYER, payload);
    let s = spec_record_bytes(LAYER, payload);
    assert(s.skip(4).subrange(0, 2) =~= payload);
    crate::gds_writer::lemma_i16_round_trip(x as int);
}

/// Decoding the HEADER record the writer emits gives the version back.
pub proof fn lemma_header_record_round_trip(x: i16)
    ensures
        spec_parse_record(spec_record_bytes(HEADER, crate::gds_writer::spec_i16_bytes(x as int)))
            == Some(RecordV::Header { version: x }),
{
    let payload = crate::gds_writer::spec_i16_bytes(x as int);
    lemma_record_frame(HEADER, payload);
    let s = spec_record_bytes(HEADER, payload);
    assert(s.skip(4).subrange(0, 2) =~= payload);
    crate::gds_writer::lemma_i16_round_trip(x as int);
}

/// Decoding the WIDTH record the writer emits gives the width back.
/// The BGNEXTN and ENDEXTN records follow the same four-byte shape.
pub proof fn lemma_width_record_round_trip(x: i32)
    ensures
        spec_parse_record(spec_record_bytes(WIDTH, crate::gds_writer::spec_i32_bytes(x as int)))
            == Some(RecordV::Width(x)),
{
    let payload = crate::gds_writer::spec_i32_bytes(x as int);
    lemma_record_frame(WIDTH, payload);
    let s = spec_record_bytes(WIDTH, payload);
    assert(s.skip(4).subrange(0, 4) =~= payload);
    crate::gds_writer::lemma_i32_round_trip(x as int);
}

/// Decoding the STRNAME record the writer emits gives the name back:
/// the even-length padding is stripped again.  The LIBNAME, SNAME and
/// PROPVALUE records follow the same ASCII string shape.
pub proof fn lemma_strname_record_round_trip(name: Seq<u8>)
    requires
        crate::gds_model::spec_ascii_ok(name),
        name.len() > 0 ==> name.last() != 0,
        name.len() + 5 <= 0xFFFF,
    ensures
        spec_parse_record(spec_record_bytes(STRNAME, crate::gds_writer::spec_pad_even(name)))
            == Some(RecordV::StrName(name)),
{
    let payload = crate::gds_writer::spec_pad_even(name);
    lemma_record_frame(STRNAME, payload);
    crate::gds_writer::lemma_pad_strip_round_trip(name);
    let s = spec_record_bytes(STRNAME, payload);
    assert(crate::gds_reader::spec_strip_pad(s.skip(4)) == name);
    assert(spec_payload_ascii(s.skip(4)));
}

/// Decoding the MAG record the writer emits gives the real back.  The
/// ANGLE record follows the same eight-byte real shape.
pub proof fn lemma_mag_record_round_trip(r: crate::gds_real::GdsReal)
    requires
        r.wf(),
    ensures
        spec_parse_record(spec_record_bytes(MAG, crate::gds_real::spec_real_bytes(r))) == Some(
            RecordV::Mag(r),
        ),
{
    let payload = crate::gds_real::spec_real_bytes(r);
    lemma_record_frame(MAG, payload);
    let s = spec_record_bytes(MAG, payload);
    assert(s.skip(4).subrange(0, 8) =~= payload);
    crate::gds_real::lemma_real_round_trip(r);
}

/// Decoding the BGNSTR record the writer emits gives the date tuple
/// back.  The BGNLIB record follows the same shape.
pub proof fn lemma_bgnstr_record_round_trip(d: Date)
    ensures
        spec_parse_record(
            spec_record_bytes(BGNSTR, crate::gds_model::date::spec_date_bytes(d)),
        ) == Some(RecordV::BgnStr(d)),
{
    let payload = crate::gds_model::date::spec_date_bytes(d);
    lemma_record_frame(BGNSTR, payload);
    let s = spec_record_bytes(BGNSTR, payload);
    let data = s.skip(4);
    assert(payload.len() == 24);
    crate::gds_writer::lemma_i16_round_trip(d.mod_year as int);
    crate::gds_writer::lemma_i16_round_trip(d.mod_month as int);
    crate::gds_writer::lemma_i16_round_trip(d.mod_day as int);
    crate::gds_writer::lemma_i16_round_trip(d.mod_hour as int);
    crate::gds_writer::lemma_i16_round_trip(d.mod_minute as int);
    crate::gds_writer::lemma_i16_round_trip(d.mod_second as int);
    crate::gds_writer::lemma_i16_round_trip(d.acc_year as int);
    crate::gds_writer::lemma_i16_round_trip(d.acc_month as int);
    crate::gds_writer::lemma_i16_round_trip(d.acc_day as int);
    crate::gds_writer::lemma_i16_round_trip(d.acc_minute as int);
    crate::gds_writer::lemma_i16_round_trip(d.acc_hour as int);
    crate::gds_writer::lemma_i16_round_trip(d.acc_second as int);
    assert(data.subrange(0, 2) =~= crate::gds_writer::spec_i16_bytes(d.mod_year as int));
    assert(data.subrange(2, 4) =~= crate::gds_writer::spec_i16_bytes(d.mod_month as int));
    assert(data.subrange(4, 6) =~= crate::gds_writer::spec_i16_bytes(d.mod_day as int));
    assert(data.subrange(6, 8) =~= crate::gds_writer::spec_i16_bytes(d.mod_hour as int));
    assert(data.subrange(8, 10) =~= crate::gds_writer::spec_i16_bytes(d.mod_minute as int));
    assert(data.subrange(10, 12) =~= crate::gds_writer::spec_i16_bytes(d.mod_second as int));
    assert(data.subrange(12, 14) =~= crate::gds_writer::spec_i16_bytes(d.acc_year as int));
    assert(data.subrange(14, 16) =~= crate::gds_writer::spec_i16_bytes(d.acc_month as int));
    assert(data.subrange(16, 18) =~= crate::gds_writer::spec_i16_bytes(d.acc_day as int));
    assert(data.subrange(18, 20) =~= crate::gds_writer::spec_i16_bytes(d.acc_hour as int));
    assert(data.subrange(20, 22) =~= crate::gds_writer::spec_i16_bytes(d.acc_minute as int));
    assert(data.subrange(22, 24) =~= crate::gds_writer::spec_i16_bytes(d.acc_second as int));
    assert(spec_date_of(data) == d);
}

/// Decoding the XY record the writer emits for a vertex list gives the
/// vertices back.
pub proof fn lemma_xy_record_round_trip(pts: Seq<Points>)
    requires
        8 * pts.len() + 4 <= 0xFFFF,
    ensures
        spec_parse_record(spec_record_bytes(XY, crate::gds_writer::spec_points_bytes(pts)))
            == Some(RecordV::Points(pts)),
{
    let payload = crate::gds_writer::spec_points_bytes(pts);
    crate::gds_writer::lemma_points_bytes_len(pts, pts.len() as int);
    lemma_record_frame(XY, payload);
    let s = spec_record_bytes(XY, payload);
    let data = s.skip(4);
    assert(data =~= payload);
    assert forall|j: int| 0 <= j < pts.len() implies spec_xy_points(data)[j] == pts[j] by {
        crate::gds_writer::lemma_points_bytes_index(pts, pts.len() as int, j);
        crate::gds_writer::lemma_i32_round_trip(pts[j].x as int);
        crate::gds_writer::lemma_i32_round_trip(pts[j].y as int);
    }
    assert(spec_xy_points(data) =~= pts);
}

/// Decoding the UNITS record the writer emits gives both reals back.
pub proof fn lemma_units_record_round_trip(a: crate::gds_real::GdsReal, b: crate::gds_real::GdsReal)
    requires
        a.wf(),
        b.wf(),
    ensures
        spec_parse_record(
            spec_record_bytes(
                UNITS,
                crate::gds_real::spec_real_bytes(a) + crate::gds_real::spec_real_bytes(b),
            ),
        ) == Some(RecordV::Units { dbu_in_user: a, dbu_in_meter: b }),
{
    let payload = crate::gds_real::spec_real_bytes(a) + crate::gds_real::spec_real_bytes(b);
    lemma_record_frame(UNITS, payload);
    let data = spec_record_bytes(UNITS, payload).skip(4);
    assert(data.subrange(0, 8) =~= crate::gds_real::spec_real_bytes(a));
    assert(data.subrange(8, 16) =~= crate::gds_real::spec_real_bytes(b));
    crate::gds_real::lemma_real_round_trip(a);
    crate::gds_real::lemma_real_round_trip(b);
}

/// Decoding the COLROW record the writer emits gives both counts back.
pub proof fn lemma_colrow_record_round_trip(column: i16, row: i16)
    ensures
        spec_parse_record(
            spec_record_bytes(
                COLROW,
                crate::gds_writer::spec_i16_bytes(column as int) + crate::gds_writer::spec_i16_bytes(
                    row as int,
                ),
            ),
        ) == Some(RecordV::ColRow { column, row }),
{
    let payload = crate::gds_writer::spec_i16_bytes(column as int)
        + crate::gds_writer::spec_i16_bytes(row as int);
    lemma_record_frame(COLROW, payload);
    let data = spec_record_bytes(COLROW, payload).skip(4);
    assert(data.subrange(0, 2) =~= crate::gds_writer::spec_i16_bytes(column as int));
    assert(data.subrange(2, 4) =~= crate::gds_writer::spec_i16_bytes(row as int));
    crate::gds_writer::lemma_i16_round_trip(column as int);
    crate::gds_writer::lemma_i16_round_trip(row as int);
}

/// Decoding the PRESENTATION record the text writer emits gives the
/// same font bits and the same justification bits back.
pub proof fn lemma_presentation_record_round_trip(
    font: crate::gds_model::text::TextFont,
    anchor: crate::gds_model::text::TextAnchor,
)
    ensures
        spec_parse_record(
            spec_record_bytes(
                PRESENTATION,
                crate::gds_writer::spec_u16_bytes(
                    font.spec_gds_num() * 16 + anchor.spec_gds_num(),
                ),
            ),
        ) == Some(
            RecordV::Presentation {
                font_num: spec_font_of(font.spec_gds_num() as int),
                vertical_justification: spec_vpos_of((anchor.spec_gds_num() / 4) as int),
                horizontal_justification: spec_hpos_of((anchor.spec_gds_num() % 4) as int),
            },
        ),
{
    let v = font.spec_gds_num() * 16 + anchor.spec_gds_num();
    let payload = crate::gds_writer::spec_u16_bytes(v as int);
    lemma_record_frame(PRESENTATION, payload);
    let data = spec_record_bytes(PRESENTATION, payload).skip(4);
    assert(anchor.spec_gds_num() == 0 || anchor.spec_gds_num() == 1 || anchor.spec_gds_num() == 2
        || anchor.spec_gds_num() == 4 || anchor.spec_gds_num() == 5 || anchor.spec_gds_num() == 6
        || anchor.spec_gds_num() == 8 || anchor.spec_gds_num() == 9 || anchor.spec_gds_num()
        == 10);
    assert(data[1] == v);
    assert((data[1] / 16) as int % 4 == font.spec_gds_num() as int);
    assert((data[1] / 4) as int % 4 == (anchor.spec_gds_num() / 4) as int);
    assert(data[1] as int % 4 == (anchor.spec_gds_num() % 4) as int);
}

/// Decoding the STRANS record the writer emits gives the reflection
/// flag back, with both absolute flags clear.
pub proof fn lemma_strans_record_round_trip(reflection_x: bool)
    ensures
        spec_parse_record(
            spec_record_bytes(
                STRANS,
                crate::gds_writer::spec_u16_bytes(
                    if reflection_x {
                        0x8000int
                    } else {
                        0int
                    },
                ),
            ),
        ) == Some(
            RecordV::RefTrans {
                reflection_x,
                absolute_magnification: false,
                absolute_angle: false,
            },
        ),
{
    let payload = crate::gds_writer::spec_u16_bytes(
        if reflection_x {
            0x8000int
        } else {
            0int
        },
    );
    lemma_record_frame(STRANS, payload);
}

/// Decoding the STRING record the writer emits gives the label text
/// back.
pub proof fn lemma_string_record_round_trip(text: Seq<u8>)
    requires
        crate::gds_model::spec_ascii_ok(text),
        text.len() > 0 ==> text.last() != 0,
        text.len() <= 512,
    ensures
        spec_parse_record(spec_record_bytes(STRING, crate::gds_writer::spec_pad_even(text)))
            == Some(RecordV::StringData(text)),
{
    let payload = crate::gds_writer::spec_pad_even(text);
    lemma_record_frame(STRING, payload);
    crate::gds_writer::lemma_pad_strip_round_trip(text);
    let data = spec_record_bytes(STRING, payload).skip(4);
    assert(crate::gds_reader::spec_strip_pad(data) == text);
    assert(spec_payload_ascii(data));
}

/// Decoding the PROPVALUE record the writer emits gives the property
/// value back.
pub proof fn lemma_propvalue_record_round_trip(value: Seq<u8>)
    requires
        crate::gds_model::spec_ascii_ok(value),
        value.len() > 0 ==> value.last() != 0,
        value.len() <= 126,
    ensures
        spec_parse_record(spec_record_bytes(PROPVALUE, crate::gds_writer::spec_pad_even(value)))
            == Some(RecordV::PropValue(value)),
{
    let payload = crate::gds_writer::spec_pad_even(value);
    lemma_record_frame(PROPVALUE, payload);
    crate::gds_writer::lemma_pad_strip_round_trip(value);
    let data = spec_record_bytes(PROPVALUE, payload).skip(4);
    assert(crate::gds_reader::spec_strip_pad(data) == value);
    assert(spec_payload_ascii(data));
}

/// Decoding the BOUNDARY marker record gives the marker back; the
/// other empty-payload markers decode the same way.
pub proof fn lemma_marker_record_round_trip()
    ensures
        spec_parse_record(spec_record_bytes(BOUNDARY, Seq::empty())) == Some(RecordV::Boundary),
        spec_parse_record(spec_record_bytes(ENDEL, Seq::empty())) == Some(RecordV::EndElem),
        spec_parse_record(spec_record_bytes(ENDSTR, Seq::empty())) == Some(RecordV::EndStr),
        spec_parse_record(spec_record_bytes(ENDLIB, Seq::empty())) == Some(RecordV::EndLib),
{
    lemma_record_frame(BOUNDARY, Seq::empty());
    lemma_record_frame(ENDEL, Seq::empty());
    lemma_record_frame(ENDSTR, Seq::empty());
    lemma_record_frame(ENDLIB, Seq::empty());
}

} // verus!
