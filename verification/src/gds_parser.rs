//! The structural parse: turn an ordered record stream into a library.
//!
//! Cells are gathered first with their references held by target name
//! only; after every cell is known, the names are resolved to stable
//! slot identifiers and the reference graph is rebuilt, rejecting
//! missing targets and cycles.  Each record carries the byte offset it
//! was framed at, so failures can name their origin.

use vstd::prelude::*;
use crate::gds_error::{GDSIIError, GdsErrorKind};
use crate::gds_model::date::Date;
use crate::gds_model::library::{names_equal, Lib};
use crate::gds_model::path::{Path, PathEndType};
use crate::gds_model::points::Points;
use crate::gds_model::polygon::Polygon;
use crate::gds_model::sref::FakeRef;
use crate::gds_model::struc::Struc;
use crate::gds_model::text::{Text, TextAnchor, TextFont};
use crate::gds_model::vector::Vector;
use crate::gds_real::GdsReal;
use crate::gds_record::{
    PresentationHorizontalPos, PresentationVerticalPos, Record, RecordV,
};

verus! {

/// One decoded record together with the byte offset of its frame.
pub type PosRecord = (Record, usize);

/// A decoded record image together with its frame's byte offset.
pub type PosRecordV = (RecordV, int);

/// The images of a decoded record stream.
pub open spec fn spec_records_view(records: Seq<PosRecord>) -> Seq<PosRecordV> {
    records.map_values(|pr: PosRecord| (pr.0@, pr.1 as int))
}

/// How many BGNSTR records stand among the first `i` of a stream: the
/// number of cells the stream declares.
pub open spec fn spec_count_bgnstr(records: Seq<PosRecordV>, i: int) -> int
    decreases i,
{
    if i <= 0 {
        0
    } else {
        spec_count_bgnstr(records, i - 1) + if records[i - 1].0 is BgnStr {
            1int
        } else {
            0int
        }
    }
}

/// The quotient a spacing component is recovered by: the coordinate
/// difference over the count, rounded toward zero.
pub open spec fn spec_spacing(corner: int, origin: int, count: int) -> int
    recommends
        count >= 1,
{
    let d = corner - origin;
    if d >= 0 {
        d / count
    } else {
        -((-d) / count)
    }
}

/// A vertex list with its closing vertex stripped: the last vertex is
/// dropped when it repeats the first.
pub open spec fn spec_strip_closure(pts: Seq<Points>) -> Seq<Points> {
    if pts.len() >= 2 && pts[0] == pts[pts.len() - 1] {
        pts.drop_last()
    } else {
        pts
    }
}

/// The image of a parsed boundary element.
pub struct PolygonV {
    pub layer: i16,
    pub datatype: i16,
    pub points: Seq<Points>,
    pub props: Seq<(i16, Seq<u8>)>,
}

/// What a boundary element's records build, walked from `i` with the
/// fields gathered so far and the pending property key: the finished
/// element image and the index past ENDEL, or nothing where a record
/// does not belong or an ENDEL is missing.
pub open spec fn spec_parse_polygon(
    records: Seq<PosRecordV>,
    i: int,
    acc: PolygonV,
    cur: Option<i16>,
) -> Option<(PolygonV, int)>
    decreases records.len() - i,
{
    if i < 0 || i >= records.len() {
        None
    } else {
        match records[i].0 {
            RecordV::Layer(l) => spec_parse_polygon(
                records,
                i + 1,
                PolygonV { layer: l, ..acc },
                cur,
            ),
            RecordV::DataType(d) => spec_parse_polygon(
                records,
                i + 1,
                PolygonV { datatype: d, ..acc },
                cur,
            ),
            RecordV::BoxType(d) => spec_parse_polygon(
                records,
                i + 1,
                PolygonV { datatype: d, ..acc },
                cur,
            ),
            RecordV::Points(points) => spec_parse_polygon(
                records,
                i + 1,
                PolygonV { points: spec_strip_closure(points), ..acc },
                cur,
            ),
            RecordV::PropAttr(key) => spec_parse_polygon(records, i + 1, acc, Some(key)),
            RecordV::PropValue(value) => match cur {
                Some(key) => spec_parse_polygon(
                    records,
                    i + 1,
                    PolygonV {
                        props: crate::gds_model::property::spec_props_insert(
                            acc.props,
                            key,
                            value,
                        ),
                        ..acc
                    },
                    cur,
                ),
                None => None,
            },
            RecordV::EndElem => Some((acc, i + 1)),
            _ => None,
        }
    }
}

/// The image an element walk starts from: a fresh polygon.
pub open spec fn spec_polygon_init() -> PolygonV {
    PolygonV { layer: 0, datatype: 0, points: Seq::empty(), props: Seq::empty() }
}

/// The image of a parsed path element.
pub struct PathV {
    pub layer: i16,
    pub datatype: i16,
    pub width: i32,
    pub end_type: PathEndType,
    pub points: Seq<Points>,
    pub props: Seq<(i16, Seq<u8>)>,
    pub extend_begin: i32,
    pub extend_end: i32,
}

/// The end style a valid PATHTYPE value names.
pub open spec fn spec_end_type_of(t: i16) -> PathEndType
    recommends
        t == 0 || t == 1 || t == 2 || t == 4,
{
    if t == 0 {
        PathEndType::Square
    } else if t == 1 {
        PathEndType::Round
    } else if t == 2 {
        PathEndType::SquareHalfWidth
    } else {
        PathEndType::SquareExtend
    }
}

/// What a path element's records build; nothing where a record does
/// not belong, a PATHTYPE value names no end style, or an ENDEL is
/// missing.
pub open spec fn spec_parse_path(
    records: Seq<PosRecordV>,
    i: int,
    acc: PathV,
    cur: Option<i16>,
) -> Option<(PathV, int)>
    decreases records.len() - i,
{
    if i < 0 || i >= records.len() {
        None
    } else {
        match records[i].0 {
            RecordV::Layer(l) => spec_parse_path(records, i + 1, PathV { layer: l, ..acc }, cur),
            RecordV::DataType(d) => spec_parse_path(
                records,
                i + 1,
                PathV { datatype: d, ..acc },
                cur,
            ),
            RecordV::Width(w) => spec_parse_path(records, i + 1, PathV { width: w, ..acc }, cur),
            RecordV::PathType(t) => if t == 0 || t == 1 || t == 2 || t == 4 {
                spec_parse_path(records, i + 1, PathV { end_type: spec_end_type_of(t), ..acc }, cur)
            } else {
                None
            },
            RecordV::BgnExtn(e) => spec_parse_path(
                records,
                i + 1,
                PathV { extend_begin: e, ..acc },
                cur,
            ),
            RecordV::EndExtn(e) => spec_parse_path(
                records,
                i + 1,
                PathV { extend_end: e, ..acc },
                cur,
            ),
            RecordV::Points(points) => spec_parse_path(
                records,
                i + 1,
                PathV { points, ..acc },
                cur,
            ),
            RecordV::PropAttr(key) => spec_parse_path(records, i + 1, acc, Some(key)),
            RecordV::PropValue(value) => match cur {
                Some(key) => spec_parse_path(
                    records,
                    i + 1,
                    PathV {
                        props: crate::gds_model::property::spec_props_insert(
                            acc.props,
                            key,
                            value,
                        ),
                        ..acc
                    },
                    cur,
                ),
                None => None,
            },
            RecordV::EndElem => Some((acc, i + 1)),
            _ => None,
        }
    }
}

/// The image a path walk starts from: a fresh path with flush ends.
pub open spec fn spec_path_init() -> PathV {
    PathV {
        layer: 0,
        datatype: 0,
        width: 0,
        end_type: PathEndType::Square,
        points: Seq::empty(),
        props: Seq::empty(),
        extend_begin: 0,
        extend_end: 0,
    }
}

/// The image of a parsed text element.
pub struct TextV {
    pub layer: i16,
    pub datatype: i16,
    pub font: TextFont,
    pub text: Seq<u8>,
    pub position: Points,
    pub anchor: TextAnchor,
    pub rotation: GdsReal,
    pub magnification: GdsReal,
    pub x_reflection: bool,
    pub props: Seq<(i16, Seq<u8>)>,
}

/// The model font a PRESENTATION font stands for.
pub open spec fn spec_font_model(f: crate::gds_record::PresentationFont) -> TextFont {
    match f {
        crate::gds_record::PresentationFont::Fonts0 => TextFont::Fonts0,
        crate::gds_record::PresentationFont::Fonts1 => TextFont::Fonts1,
        crate::gds_record::PresentationFont::Fonts2 => TextFont::Fonts2,
        crate::gds_record::PresentationFont::Fonts3 => TextFont::Fonts3,
    }
}

/// The anchor a PRESENTATION justification pair stands for.
pub open spec fn spec_anchor_model(
    v: PresentationVerticalPos,
    h: PresentationHorizontalPos,
) -> TextAnchor {
    match v {
        PresentationVerticalPos::Top => match h {
            PresentationHorizontalPos::Left => TextAnchor::NW,
            PresentationHorizontalPos::Center => TextAnchor::N,
            PresentationHorizontalPos::Right => TextAnchor::NE,
        },
        PresentationVerticalPos::Middle => match h {
            PresentationHorizontalPos::Left => TextAnchor::W,
            PresentationHorizontalPos::Center => TextAnchor::O,
            PresentationHorizontalPos::Right => TextAnchor::E,
        },
        PresentationVerticalPos::Bottom => match h {
            PresentationHorizontalPos::Left => TextAnchor::SW,
            PresentationHorizontalPos::Center => TextAnchor::S,
            PresentationHorizontalPos::Right => TextAnchor::SE,
        },
    }
}

/// What a text element's records build; nothing where a record does
/// not belong, an XY record holds no point, or an ENDEL is missing.
pub open spec fn spec_parse_text(
    records: Seq<PosRecordV>,
    i: int,
    acc: TextV,
    cur: Option<i16>,
) -> Option<(TextV, int)>
    decreases records.len() - i,
{
    if i < 0 || i >= records.len() {
        None
    } else {
        match records[i].0 {
            RecordV::Layer(l) => spec_parse_text(records, i + 1, TextV { layer: l, ..acc }, cur),
            RecordV::TextType(d) => spec_parse_text(
                records,
                i + 1,
                TextV { datatype: d, ..acc },
                cur,
            ),
            RecordV::Presentation { font_num, vertical_justification, horizontal_justification } => {
                spec_parse_text(
                    records,
                    i + 1,
                    TextV {
                        font: spec_font_model(font_num),
                        anchor: spec_anchor_model(
                            vertical_justification,
                            horizontal_justification,
                        ),
                        ..acc
                    },
                    cur,
                )
            },
            RecordV::StringData(content) => spec_parse_text(
                records,
                i + 1,
                TextV { text: content, ..acc },
                cur,
            ),
            RecordV::Mag(mag) => spec_parse_text(
                records,
                i + 1,
                TextV { magnification: mag, ..acc },
                cur,
            ),
            RecordV::Angle(angle) => spec_parse_text(
                records,
                i + 1,
                TextV { rotation: angle, ..acc },
                cur,
            ),
            RecordV::RefTrans { reflection_x, absolute_magnification, absolute_angle } => {
                spec_parse_text(records, i + 1, TextV { x_reflection: reflection_x, ..acc }, cur)
            },
            RecordV::Points(points) => if points.len() >= 1 {
                spec_parse_text(records, i + 1, TextV { position: points[0], ..acc }, cur)
            } else {
                None
            },
            RecordV::PropAttr(key) => spec_parse_text(records, i + 1, acc, Some(key)),
            RecordV::PropValue(value) => match cur {
                Some(key) => spec_parse_text(
                    records,
                    i + 1,
                    TextV {
                        props: crate::gds_model::property::spec_props_insert(
                            acc.props,
                            key,
                            value,
                        ),
                        ..acc
                    },
                    cur,
                ),
                None => None,
            },
            RecordV::EndElem => Some((acc, i + 1)),
            _ => None,
        }
    }
}

/// The image a text walk starts from: a fresh label.
pub open spec fn spec_text_init() -> TextV {
    TextV {
        layer: 0,
        datatype: 0,
        font: TextFont::Fonts0,
        text: Seq::empty(),
        position: Points { x: 0, y: 0 },
        anchor: TextAnchor::O,
        rotation: crate::gds_model::text::spec_real_zero(),
        magnification: crate::gds_model::text::spec_real_one(),
        x_reflection: false,
        props: Seq::empty(),
    }
}

/// The image of a parsed reference, its target still a name.
pub struct RefV {
    pub name: Seq<u8>,
    pub reflection_x: bool,
    pub magnific: GdsReal,
    pub angle: GdsReal,
    pub origin: Points,
    pub row: i16,
    pub column: i16,
    pub spaceing_row: Vector,
    pub spaceing_col: Vector,
    pub props: Seq<(i16, Seq<u8>)>,
}

/// The image a reference walk starts from: a fresh single placement.
pub open spec fn spec_ref_init() -> RefV {
    RefV {
        name: Seq::empty(),
        reflection_x: false,
        magnific: crate::gds_model::text::spec_real_one(),
        angle: crate::gds_model::text::spec_real_zero(),
        origin: Points { x: 0, y: 0 },
        row: 0,
        column: 0,
        spaceing_row: Vector { x: 0, y: 0 },
        spaceing_col: Vector { x: 0, y: 0 },
        props: Seq::empty(),
    }
}

/// What a single structure reference's records build; nothing where a
/// record does not belong, an XY record holds no point, or an ENDEL is
/// missing.
pub open spec fn spec_parse_sref(
    records: Seq<PosRecordV>,
    i: int,
    acc: RefV,
    cur: Option<i16>,
) -> Option<(RefV, int)>
    decreases records.len() - i,
{
    if i < 0 || i >= records.len() {
        None
    } else {
        match records[i].0 {
            RecordV::StrRefName(nm) => spec_parse_sref(
                records,
                i + 1,
                RefV { name: nm, ..acc },
                cur,
            ),
            RecordV::RefTrans { reflection_x, absolute_magnification, absolute_angle } => {
                spec_parse_sref(records, i + 1, RefV { reflection_x, ..acc }, cur)
            },
            RecordV::Mag(mag) => spec_parse_sref(records, i + 1, RefV { magnific: mag, ..acc }, cur),
            RecordV::Angle(angle) => spec_parse_sref(
                records,
                i + 1,
                RefV { angle, ..acc },
                cur,
            ),
            RecordV::Points(points) => if points.len() >= 1 {
                spec_parse_sref(records, i + 1, RefV { origin: points[0], ..acc }, cur)
            } else {
                None
            },
            RecordV::PropAttr(key) => spec_parse_sref(records, i + 1, acc, Some(key)),
            RecordV::PropValue(value) => match cur {
                Some(key) => spec_parse_sref(
                    records,
                    i + 1,
                    RefV {
                        props: crate::gds_model::property::spec_props_insert(
                            acc.props,
                            key,
                            value,
                        ),
                        ..acc
                    },
                    cur,
                ),
                None => None,
            },
            RecordV::EndElem => Some((acc, i + 1)),
            _ => None,
        }
    }
}

/// What an array reference's records build: as a single reference, but
/// with COLROW counts, and an XY of three points whose displaced
/// corners give the spacing vectors back by division.  Nothing where
/// the XY comes before positive counts, holds fewer than three points,
/// or a recovered spacing leaves the 32-bit range.
pub open spec fn spec_parse_aref(
    records: Seq<PosRecordV>,
    i: int,
    acc: RefV,
    cur: Option<i16>,
) -> Option<(RefV, int)>
    decreases records.len() - i,
{
    if i < 0 || i >= records.len() {
        None
    } else {
        match records[i].0 {
            RecordV::StrRefName(nm) => spec_parse_aref(
                records,
                i + 1,
                RefV { name: nm, ..acc },
                cur,
            ),
            RecordV::RefTrans { reflection_x, absolute_magnification, absolute_angle } => {
                spec_parse_aref(records, i + 1, RefV { reflection_x, ..acc }, cur)
            },
            RecordV::Mag(mag) => spec_parse_aref(records, i + 1, RefV { magnific: mag, ..acc }, cur),
            RecordV::Angle(angle) => spec_parse_aref(
                records,
                i + 1,
                RefV { angle, ..acc },
                cur,
            ),
            RecordV::ColRow { column, row } => spec_parse_aref(
                records,
                i + 1,
                RefV { column, row, ..acc },
                cur,
            ),
            RecordV::Points(points) => if points.len() < 3 || acc.row < 1 || acc.column < 1 {
                None
            } else {
                let pts = points;
                let scx = spec_spacing(pts[1].x as int, pts[0].x as int, acc.column as int);
                let scy = spec_spacing(pts[1].y as int, pts[0].y as int, acc.column as int);
                let srx = spec_spacing(pts[2].x as int, pts[0].x as int, acc.row as int);
                let sry = spec_spacing(pts[2].y as int, pts[0].y as int, acc.row as int);
                if -0x8000_0000 <= scx <= 0x7FFF_FFFF && -0x8000_0000 <= scy <= 0x7FFF_FFFF
                    && -0x8000_0000 <= srx <= 0x7FFF_FFFF && -0x8000_0000 <= sry <= 0x7FFF_FFFF {
                    spec_parse_aref(
                        records,
                        i + 1,
                        RefV {
                            origin: pts[0],
                            spaceing_col: Vector { x: scx as i32, y: scy as i32 },
                            spaceing_row: Vector { x: srx as i32, y: sry as i32 },
                            ..acc
                        },
                        cur,
                    )
                } else {
                    None
                }
            },
            RecordV::PropAttr(key) => spec_parse_aref(records, i + 1, acc, Some(key)),
            RecordV::PropValue(value) => match cur {
                Some(key) => spec_parse_aref(
                    records,
                    i + 1,
                    RefV {
                        props: crate::gds_model::property::spec_props_insert(
                            acc.props,
                            key,
                            value,
                        ),
                        ..acc
                    },
                    cur,
                ),
                None => None,
            },
            RecordV::EndElem => Some((acc, i + 1)),
            _ => None,
        }
    }
}

/// Recover a spacing component from a displaced corner coordinate: the
/// difference divided by the count, computed on the magnitude so the
/// rounding of negative values matches the writer.
fn spacing_component(corner: i32, origin: i32, count: i16) -> (r: Result<i32, GDSIIError>)
    requires
        count >= 1,
    ensures
        r is Ok <==> -0x8000_0000 <= spec_spacing(corner as int, origin as int, count as int)
            <= 0x7FFF_FFFF,
        r is Ok ==> r->Ok_0 == spec_spacing(corner as int, origin as int, count as int),
        r is Err ==> r->Err_0.kind == GdsErrorKind::CoordinateOverflow,
{
    let diff: i64 = corner as i64 - origin as i64;
    let c: u64 = count as u64;
    let q: i64 = if diff >= 0 {
        ((diff as u64) / c) as i64
    } else {
        -((((-diff) as u64) / c) as i64)
    };
    if q < -0x8000_0000i64 || q > 0x7FFF_FFFFi64 {
        return Err(
            GDSIIError::of_kind(
                GdsErrorKind::CoordinateOverflow,
                "gds array spacing leaves the 32-bit coordinate range",
            ),
        );
    }
    Ok(q as i32)
}

/// Parse one boundary (or box) element after its begin marker.
///
/// Succeeds exactly where the element walk does, and then returns the
/// element it builds: layer and datatype from their records, the
/// vertex list with its closing vertex stripped, the properties from
/// the PROPATTR/PROPVALUE pairs.
fn parse_polygon(records: &[PosRecord], start: usize) -> (r: Result<(Polygon, usize), GDSIIError>)
    requires
        start <= records@.len(),
    ensures
        r is Ok ==> start < r->Ok_0.1 <= records@.len(),
        r is Ok ==> spec_count_bgnstr(spec_records_view(records@), r->Ok_0.1 as int) == spec_count_bgnstr(
            spec_records_view(records@),
            start as int,
        ),
        r is Ok <==> spec_parse_polygon(spec_records_view(records@), start as int, spec_polygon_init(), None) is Some,
        r is Ok ==> {
            let (pv, next) = spec_parse_polygon(
                spec_records_view(records@),
                start as int,
                spec_polygon_init(),
                None,
            )->Some_0;
            &&& r->Ok_0.1 == next
            &&& r->Ok_0.0.layer == pv.layer
            &&& r->Ok_0.0.datatype == pv.datatype
            &&& r->Ok_0.0.points@ == pv.points
            &&& r->Ok_0.0.property@ == pv.props
        },
        r is Err && r->Err_0.kind == GdsErrorKind::OrphanProperty ==> r->Err_0.offset is Some && (
        exists|k: int|
            0 <= k < records@.len() && (#[trigger] records@[k]).0 is PropValue && records@[k].1
                == r->Err_0.offset->Some_0),
        r is Err ==> r->Err_0.kind == GdsErrorKind::MalformedRecord || r->Err_0.kind
            == GdsErrorKind::OrphanProperty || r->Err_0.kind == GdsErrorKind::CoordinateOverflow,
{
    let n = records.len();
    let mut polygon = Polygon::new();
    let mut cur_prokey: Option<i16> = None;
    let mut i = start;
    proof {
        assert(polygon.points@ =~= Seq::<Points>::empty());
        assert(polygon.property@ =~= Seq::<(i16, Seq<u8>)>::empty());
    }
    while i < n
        invariant
            n == records@.len(),
            start <= i <= n,
            spec_count_bgnstr(spec_records_view(records@), i as int) == spec_count_bgnstr(spec_records_view(records@), start as int),
            spec_parse_polygon(spec_records_view(records@), start as int, spec_polygon_init(), None)
                == spec_parse_polygon(
                spec_records_view(records@),
                i as int,
                PolygonV {
                    layer: polygon.layer,
                    datatype: polygon.datatype,
                    points: polygon.points@,
                    props: polygon.property@,
                },
                cur_prokey,
            ),
        decreases n - i,
    {
        match &records[i].0 {
            Record::Layer(l) => {
                polygon.layer = *l;
            },
            Record::DataType(d) => {
                polygon.datatype = *d;
            },
            Record::BoxType(d) => {
                polygon.datatype = *d;
            },
            Record::Points(points) => {
                let mut pts = points.clone();
                // the closing vertex repeats the first one; strip it
                if pts.len() >= 2 {
                    let first = pts[0];
                    let last = pts[pts.len() - 1];
                    if first == last {
                        pts.pop();
                    }
                }
                proof {
                    assert(pts@ == spec_strip_closure(points@));
                }
                polygon.points = pts;
            },
            Record::PropAttr(key) => {
                cur_prokey = Some(*key);
            },
            Record::PropValue(value) => {
                match cur_prokey {
                    Some(key) => {
                        polygon.property.insert(key, value.clone());
                    },
                    None => {
                        proof {
                            assert(records@[i as int].0 is PropValue);
                        }
                        return Err(
                            GDSIIError::at_offset(
                                GdsErrorKind::OrphanProperty,
                                "Polygon Property value have no key",
                                records[i].1,
                            ),
                        );
                    },
                }
            },
            Record::EndElem => {
                return Ok((polygon, i + 1));
            },
            _ => {
                return Err(
                    GDSIIError::at_offset(
                        GdsErrorKind::MalformedRecord,
                        "unexpected record in boundary element",
                        records[i].1,
                    ),
                );
            },
        }
        i = i + 1;
    }
    Err(GDSIIError::of_kind(GdsErrorKind::MalformedRecord, "boundary element not terminated"))
}

/// Parse one path element after its begin marker.
///
/// Succeeds exactly where the element walk does, and then returns the
/// element it builds: in particular the end style named by PATHTYPE
/// and the extension distances from BGNEXTN/ENDEXTN.
fn parse_path(records: &[PosRecord], start: usize) -> (r: Result<(Path, usize), GDSIIError>)
    requires
        start <= records@.len(),
    ensures
        r is Ok ==> start < r->Ok_0.1 <= records@.len(),
        r is Ok ==> spec_count_bgnstr(spec_records_view(records@), r->Ok_0.1 as int) == spec_count_bgnstr(
            spec_records_view(records@),
            start as int,
        ),
        r is Ok <==> spec_parse_path(spec_records_view(records@), start as int, spec_path_init(), None) is Some,
        r is Ok ==> {
            let (pv, next) = spec_parse_path(spec_records_view(records@), start as int, spec_path_init(), None)->Some_0;
            &&& r->Ok_0.1 == next
            &&& r->Ok_0.0.layer == pv.layer
            &&& r->Ok_0.0.datatype == pv.datatype
            &&& r->Ok_0.0.width == pv.width
            &&& r->Ok_0.0.end_type == pv.end_type
            &&& r->Ok_0.0.points@ == pv.points
            &&& r->Ok_0.0.property@ == pv.props
            &&& r->Ok_0.0.extend_begin == pv.extend_begin
            &&& r->Ok_0.0.extend_end == pv.extend_end
        },
        r is Err && r->Err_0.kind == GdsErrorKind::OrphanProperty ==> r->Err_0.offset is Some && (
        exists|k: int|
            0 <= k < records@.len() && (#[trigger] records@[k]).0 is PropValue && records@[k].1
                == r->Err_0.offset->Some_0),
        r is Err ==> r->Err_0.kind == GdsErrorKind::MalformedRecord || r->Err_0.kind
            == GdsErrorKind::OrphanProperty || r->Err_0.kind == GdsErrorKind::CoordinateOverflow,
{
    let n = records.len();
    let mut path = Path::new();
    let mut cur_prokey: Option<i16> = None;
    let mut i = start;
    proof {
        assert(path.points@ =~= Seq::<Points>::empty());
        assert(path.property@ =~= Seq::<(i16, Seq<u8>)>::empty());
    }
    while i < n
        invariant
            n == records@.len(),
            start <= i <= n,
            spec_count_bgnstr(spec_records_view(records@), i as int) == spec_count_bgnstr(spec_records_view(records@), start as int),
            spec_parse_path(spec_records_view(records@), start as int, spec_path_init(), None) == spec_parse_path(
                spec_records_view(records@),
                i as int,
                PathV {
                    layer: path.layer,
                    datatype: path.datatype,
                    width: path.width,
                    end_type: path.end_type,
                    points: path.points@,
                    props: path.property@,
                    extend_begin: path.extend_begin,
                    extend_end: path.extend_end,
                },
                cur_prokey,
            ),
        decreases n - i,
    {
        match &records[i].0 {
            Record::Layer(l) => {
                path.layer = *l;
            },
            Record::DataType(d) => {
                path.datatype = *d;
            },
            Record::Width(w) => {
                path.width = *w;
            },
            Record::PathType(t) => {
                let et = PathEndType::from_i16(*t)?;
                proof {
                    assert(et == spec_end_type_of(*t));
                }
                path.end_type = et;
            },
            Record::BgnExtn(e) => {
                path.extend_begin = *e;
            },
            Record::EndExtn(e) => {
                path.extend_end = *e;
            },
            Record::Points(points) => {
                path.points = points.clone();
            },
            Record::PropAttr(key) => {
                cur_prokey = Some(*key);
            },
            Record::PropValue(value) => {
                match cur_prokey {
                    Some(key) => {
                        path.property.insert(key, value.clone());
                    },
                    None => {
                        proof {
                            assert(records@[i as int].0 is PropValue);
                        }
                        return Err(
                            GDSIIError::at_offset(
                                GdsErrorKind::OrphanProperty,
                                "Path Property value have no key",
                                records[i].1,
                            ),
                        );
                    },
                }
            },
            Record::EndElem => {
                return Ok((path, i + 1));
            },
            _ => {
                return Err(
                    GDSIIError::at_offset(
                        GdsErrorKind::MalformedRecord,
                        "unexpected record in path element",
                        records[i].1,
                    ),
                );
            },
        }
        i = i + 1;
    }
    Err(GDSIIError::of_kind(GdsErrorKind::MalformedRecord, "path element not terminated"))
}

/// Parse one text element after its begin marker.
///
/// Succeeds exactly where the element walk does, and then returns the
/// element it builds: the label string, position, anchor, font and
/// transform from their records.
fn parse_text(records: &[PosRecord], start: usize) -> (r: Result<(Text, usize), GDSIIError>)
    requires
        start <= records@.len(),
    ensures
        r is Ok ==> start < r->Ok_0.1 <= records@.len(),
        r is Ok ==> spec_count_bgnstr(spec_records_view(records@), r->Ok_0.1 as int) == spec_count_bgnstr(
            spec_records_view(records@),
            start as int,
        ),
        r is Ok <==> spec_parse_text(spec_records_view(records@), start as int, spec_text_init(), None) is Some,
        r is Ok ==> {
            let (tv, next) = spec_parse_text(spec_records_view(records@), start as int, spec_text_init(), None)->Some_0;
            &&& r->Ok_0.1 == next
            &&& r->Ok_0.0.layer == tv.layer
            &&& r->Ok_0.0.datatype == tv.datatype
            &&& r->Ok_0.0.font == tv.font
            &&& r->Ok_0.0.text@ == tv.text
            &&& r->Ok_0.0.position == tv.position
            &&& r->Ok_0.0.anchor == tv.anchor
            &&& r->Ok_0.0.rotation == tv.rotation
            &&& r->Ok_0.0.magnification == tv.magnification
            &&& r->Ok_0.0.x_reflection == tv.x_reflection
            &&& r->Ok_0.0.property@ == tv.props
        },
        r is Err && r->Err_0.kind == GdsErrorKind::OrphanProperty ==> r->Err_0.offset is Some && (
        exists|k: int|
            0 <= k < records@.len() && (#[trigger] records@[k]).0 is PropValue && records@[k].1
                == r->Err_0.offset->Some_0),
        r is Err ==> r->Err_0.kind == GdsErrorKind::MalformedRecord || r->Err_0.kind
            == GdsErrorKind::OrphanProperty || r->Err_0.kind == GdsErrorKind::CoordinateOverflow,
{
    let n = records.len();
    let mut text = Text::new();
    let mut cur_prokey: Option<i16> = None;
    let mut i = start;
    proof {
        assert(text.text@ =~= Seq::<u8>::empty());
        assert(text.property@ =~= Seq::<(i16, Seq<u8>)>::empty());
    }
    while i < n
        invariant
            n == records@.len(),
            start <= i <= n,
            spec_count_bgnstr(spec_records_view(records@), i as int) == spec_count_bgnstr(spec_records_view(records@), start as int),
            spec_parse_text(spec_records_view(records@), start as int, spec_text_init(), None) == spec_parse_text(
                spec_records_view(records@),
                i as int,
                TextV {
                    layer: text.layer,
                    datatype: text.datatype,
                    font: text.font,
                    text: text.text@,
                    position: text.position,
                    anchor: text.anchor,
                    rotation: text.rotation,
                    magnification: text.magnification,
                    x_reflection: text.x_reflection,
                    props: text.property@,
                },
                cur_prokey,
            ),
        decreases n - i,
    {
        match &records[i].0 {
            Record::Layer(l) => {
                text.layer = *l;
            },
            Record::TextType(d) => {
                text.datatype = *d;
            },
            Record::Presentation { font_num, vertical_justification, horizontal_justification } => {
                text.font = match font_num {
                    crate::gds_record::PresentationFont::Fonts0 => TextFont::Fonts0,
                    crate::gds_record::PresentationFont::Fonts1 => TextFont::Fonts1,
                    crate::gds_record::PresentationFont::Fonts2 => TextFont::Fonts2,
                    crate::gds_record::PresentationFont::Fonts3 => TextFont::Fonts3,
                };
                text.anchor = match vertical_justification {
                    PresentationVerticalPos::Top => match horizontal_justification {
                        PresentationHorizontalPos::Left => TextAnchor::NW,
                        PresentationHorizontalPos::Center => TextAnchor::N,
                        PresentationHorizontalPos::Right => TextAnchor::NE,
                    },
                    PresentationVerticalPos::Middle => match horizontal_justification {
                        PresentationHorizontalPos::Left => TextAnchor::W,
                        PresentationHorizontalPos::Center => TextAnchor::O,
                        PresentationHorizontalPos::Right => TextAnchor::E,
                    },
                    PresentationVerticalPos::Bottom => match horizontal_justification {
                        PresentationHorizontalPos::Left => TextAnchor::SW,
                        PresentationHorizontalPos::Center => TextAnchor::S,
                        PresentationHorizontalPos::Right => TextAnchor::SE,
                    },
                };
            },
            Record::StringData(content) => {
                text.text = content.clone();
            },
            Record::Mag(mag) => {
                text.magnification = *mag;
            },
            Record::Angle(angle) => {
                text.rotation = *angle;
            },
            Record::RefTrans { reflection_x, .. } => {
                text.x_reflection = *reflection_x;
            },
            Record::Points(points) => {
                if points.len() < 1 {
                    return Err(
                        GDSIIError::at_offset(
                            GdsErrorKind::MalformedRecord,
                            "text element xy record holds no point",
                            records[i].1,
                        ),
                    );
                }
                text.position = points[0];
            },
            Record::PropAttr(key) => {
                cur_prokey = Some(*key);
            },
            Record::PropValue(value) => {
                match cur_prokey {
                    Some(key) => {
                        text.property.insert(key, value.clone());
                    },
                    None => {
                        proof {
                            assert(records@[i as int].0 is PropValue);
                        }
                        return Err(
                            GDSIIError::at_offset(
                                GdsErrorKind::OrphanProperty,
                                "Text Property value have no key",
                                records[i].1,
                            ),
                        );
                    },
                }
            },
            Record::EndElem => {
                return Ok((text, i + 1));
            },
            _ => {
                return Err(
                    GDSIIError::at_offset(
                        GdsErrorKind::MalformedRecord,
                        "unexpected record in text element",
                        records[i].1,
                    ),
                );
            },
        }
        i = i + 1;
    }
    Err(GDSIIError::of_kind(GdsErrorKind::MalformedRecord, "text element not terminated"))
}

/// Parse one single structure reference after its begin marker.
///
/// Succeeds exactly where the element walk does, and then returns the
/// pending reference it builds: the target name from SNAME, the
/// transform and the origin from their records.
fn parse_sref(records: &[PosRecord], start: usize) -> (r: Result<(FakeRef, usize), GDSIIError>)
    requires
        start <= records@.len(),
    ensures
        r is Ok ==> start < r->Ok_0.1 <= records@.len(),
        r is Ok ==> spec_count_bgnstr(spec_records_view(records@), r->Ok_0.1 as int) == spec_count_bgnstr(
            spec_records_view(records@),
            start as int,
        ),
        r is Ok <==> spec_parse_sref(spec_records_view(records@), start as int, spec_ref_init(), None) is Some,
        r is Ok ==> {
            let (rv, next) = spec_parse_sref(spec_records_view(records@), start as int, spec_ref_init(), None)->Some_0;
            &&& r->Ok_0.1 == next
            &&& r->Ok_0.0.refed_struc_name@ == rv.name
            &&& r->Ok_0.0.reflection_x == rv.reflection_x
            &&& r->Ok_0.0.magnific == rv.magnific
            &&& r->Ok_0.0.angle == rv.angle
            &&& r->Ok_0.0.origin == rv.origin
            &&& r->Ok_0.0.row == rv.row
            &&& r->Ok_0.0.column == rv.column
            &&& r->Ok_0.0.spaceing_row == rv.spaceing_row
            &&& r->Ok_0.0.spaceing_col == rv.spaceing_col
            &&& r->Ok_0.0.property@ == rv.props
        },
        r is Err && r->Err_0.kind == GdsErrorKind::OrphanProperty ==> r->Err_0.offset is Some && (
        exists|k: int|
            0 <= k < records@.len() && (#[trigger] records@[k]).0 is PropValue && records@[k].1
                == r->Err_0.offset->Some_0),
        r is Err ==> r->Err_0.kind == GdsErrorKind::MalformedRecord || r->Err_0.kind
            == GdsErrorKind::OrphanProperty || r->Err_0.kind == GdsErrorKind::CoordinateOverflow,
{
    let n = records.len();
    let mut sref = FakeRef::new();
    let mut cur_prokey: Option<i16> = None;
    let mut i = start;
    proof {
        assert(sref.refed_struc_name@ =~= Seq::<u8>::empty());
        assert(sref.property@ =~= Seq::<(i16, Seq<u8>)>::empty());
    }
    while i < n
        invariant
            n == records@.len(),
            start <= i <= n,
            spec_count_bgnstr(spec_records_view(records@), i as int) == spec_count_bgnstr(spec_records_view(records@), start as int),
            spec_parse_sref(spec_records_view(records@), start as int, spec_ref_init(), None) == spec_parse_sref(
                spec_records_view(records@),
                i as int,
                RefV {
                    name: sref.refed_struc_name@,
                    reflection_x: sref.reflection_x,
                    magnific: sref.magnific,
                    angle: sref.angle,
                    origin: sref.origin,
                    row: sref.row,
                    column: sref.column,
                    spaceing_row: sref.spaceing_row,
                    spaceing_col: sref.spaceing_col,
                    props: sref.property@,
                },
                cur_prokey,
            ),
        decreases n - i,
    {
        match &records[i].0 {
            Record::StrRefName(s) => {
                sref.refed_struc_name = s.clone();
            },
            Record::RefTrans { reflection_x, .. } => {
                sref.reflection_x = *reflection_x;
            },
            Record::Mag(mag) => {
                sref.magnific = *mag;
            },
            Record::Angle(angle) => {
                sref.angle = *angle;
            },
            Record::Points(points) => {
                if points.len() < 1 {
                    return Err(
                        GDSIIError::at_offset(
                            GdsErrorKind::MalformedRecord,
                            "sref element xy record holds no point",
                            records[i].1,
                        ),
                    );
                }
                sref.origin = points[0];
            },
            Record::PropAttr(key) => {
                cur_prokey = Some(*key);
            },
            Record::PropValue(value) => {
                match cur_prokey {
                    Some(key) => {
                        sref.property.insert(key, value.clone());
                    },
                    None => {
                        proof {
                            assert(records@[i as int].0 is PropValue);
                        }
                        return Err(
                            GDSIIError::at_offset(
                                GdsErrorKind::OrphanProperty,
                                "Ref Property value have no key",
                                records[i].1,
                            ),
                        );
                    },
                }
            },
            Record::EndElem => {
                return Ok((sref, i + 1));
            },
            _ => {
                return Err(
                    GDSIIError::at_offset(
                        GdsErrorKind::MalformedRecord,
                        "unexpected record in sref element",
                        records[i].1,
                    ),
                );
            },
        }
        i = i + 1;
    }
    Err(GDSIIError::of_kind(GdsErrorKind::MalformedRecord, "sref element not terminated"))
}

/// Parse one array reference after its begin marker.  The three XY
/// points carry the origin and the displaced corners; the spacing
/// vectors are recovered by dividing by the counts.
fn parse_aref(records: &[PosRecord], start: usize) -> (r: Result<(FakeRef, usize), GDSIIError>)
    requires
        start <= records@.len(),
    ensures
        r is Ok ==> start < r->Ok_0.1 <= records@.len(),
        r is Ok ==> spec_count_bgnstr(spec_records_view(records@), r->Ok_0.1 as int) == spec_count_bgnstr(
            spec_records_view(records@),
            start as int,
        ),
        r is Ok <==> spec_parse_aref(spec_records_view(records@), start as int, spec_ref_init(), None) is Some,
        r is Ok ==> {
            let (rv, next) = spec_parse_aref(spec_records_view(records@), start as int, spec_ref_init(), None)->Some_0;
            &&& r->Ok_0.1 == next
            &&& r->Ok_0.0.refed_struc_name@ == rv.name
            &&& r->Ok_0.0.reflection_x == rv.reflection_x
            &&& r->Ok_0.0.magnific == rv.magnific
            &&& r->Ok_0.0.angle == rv.angle
            &&& r->Ok_0.0.origin == rv.origin
            &&& r->Ok_0.0.row == rv.row
            &&& r->Ok_0.0.column == rv.column
            &&& r->Ok_0.0.spaceing_row == rv.spaceing_row
            &&& r->Ok_0.0.spaceing_col == rv.spaceing_col
            &&& r->Ok_0.0.property@ == rv.props
        },
        r is Err && r->Err_0.kind == GdsErrorKind::OrphanProperty ==> r->Err_0.offset is Some && (
        exists|k: int|
            0 <= k < records@.len() && (#[trigger] records@[k]).0 is PropValue && records@[k].1
                == r->Err_0.offset->Some_0),
        r is Err ==> r->Err_0.kind == GdsErrorKind::MalformedRecord || r->Err_0.kind
            == GdsErrorKind::OrphanProperty || r->Err_0.kind == GdsErrorKind::CoordinateOverflow,
{
    let n = records.len();
    let mut aref = FakeRef::new();
    let mut cur_prokey: Option<i16> = None;
    let mut i = start;
    proof {
        assert(aref.refed_struc_name@ =~= Seq::<u8>::empty());
        assert(aref.property@ =~= Seq::<(i16, Seq<u8>)>::empty());
    }
    while i < n
        invariant
            n == records@.len(),
            start <= i <= n,
            spec_count_bgnstr(spec_records_view(records@), i as int) == spec_count_bgnstr(spec_records_view(records@), start as int),
            spec_parse_aref(spec_records_view(records@), start as int, spec_ref_init(), None) == spec_parse_aref(
                spec_records_view(records@),
                i as int,
                RefV {
                    name: aref.refed_struc_name@,
                    reflection_x: aref.reflection_x,
                    magnific: aref.magnific,
                    angle: aref.angle,
                    origin: aref.origin,
                    row: aref.row,
                    column: aref.column,
                    spaceing_row: aref.spaceing_row,
                    spaceing_col: aref.spaceing_col,
                    props: aref.property@,
                },
                cur_prokey,
            ),
        decreases n - i,
    {
        match &records[i].0 {
            Record::StrRefName(s) => {
                aref.refed_struc_name = s.clone();
            },
            Record::RefTrans { reflection_x, .. } => {
                aref.reflection_x = *reflection_x;
            },
            Record::Mag(mag) => {
                aref.magnific = *mag;
            },
            Record::Angle(angle) => {
                aref.angle = *angle;
            },
            Record::ColRow { column, row } => {
                aref.column = *column;
                aref.row = *row;
            },
            Record::Points(points) => {
                if points.len() < 3 {
                    return Err(
                        GDSIIError::at_offset(
                            GdsErrorKind::MalformedRecord,
                            "aref element xy record needs three points",
                            records[i].1,
                        ),
                    );
                }
                if aref.row < 1 || aref.column < 1 {
                    return Err(
                        GDSIIError::at_offset(
                            GdsErrorKind::MalformedRecord,
                            "aref element xy record before positive colrow counts",
                            records[i].1,
                        ),
                    );
                }
                aref.origin = points[0];
                aref.spaceing_col = Vector {
                    x: spacing_component(points[1].x, aref.origin.x, aref.column)?,
                    y: spacing_component(points[1].y, aref.origin.y, aref.column)?,
                };
                aref.spaceing_row = Vector {
                    x: spacing_component(points[2].x, aref.origin.x, aref.row)?,
                    y: spacing_component(points[2].y, aref.origin.y, aref.row)?,
                };
            },
            Record::PropAttr(key) => {
                cur_prokey = Some(*key);
            },
            Record::PropValue(value) => {
                match cur_prokey {
                    Some(key) => {
                        aref.property.insert(key, value.clone());
                    },
                    None => {
                        proof {
                            assert(records@[i as int].0 is PropValue);
                        }
                        return Err(
                            GDSIIError::at_offset(
                                GdsErrorKind::OrphanProperty,
                                "Ref Property value have no key",
                                records[i].1,
                            ),
                        );
                    },
                }
            },
            Record::EndElem => {
                return Ok((aref, i + 1));
            },
            _ => {
                return Err(
                    GDSIIError::at_offset(
                        GdsErrorKind::MalformedRecord,
                        "unexpected record in aref element",
                        records[i].1,
                    ),
                );
            },
        }
        i = i + 1;
    }
    Err(GDSIIError::of_kind(GdsErrorKind::MalformedRecord, "aref element not terminated"))
}

/// The image of a parsed cell: its name, its elements, and its
/// references still held by target name.
pub struct StrucV {
    pub name: Seq<u8>,
    pub polygons: Seq<PolygonV>,
    pub paths: Seq<PathV>,
    pub refs: Seq<RefV>,
    pub labels: Seq<TextV>,
}

/// The image a cell walk starts from: an empty cell.
pub open spec fn spec_struc_init() -> StrucV {
    StrucV {
        name: Seq::empty(),
        polygons: Seq::empty(),
        paths: Seq::empty(),
        refs: Seq::empty(),
        labels: Seq::empty(),
    }
}

/// The image of a built polygon, for relating parsed cells to their
/// records.
pub open spec fn spec_polygon_view(p: Polygon) -> PolygonV {
    PolygonV { layer: p.layer, datatype: p.datatype, points: p.points@, props: p.property@ }
}

/// The image of a built path.
pub open spec fn spec_path_view(p: Path) -> PathV {
    PathV {
        layer: p.layer,
        datatype: p.datatype,
        width: p.width,
        end_type: p.end_type,
        points: p.points@,
        props: p.property@,
        extend_begin: p.extend_begin,
        extend_end: p.extend_end,
    }
}

/// The image of a built label.
pub open spec fn spec_text_view(t: Text) -> TextV {
    TextV {
        layer: t.layer,
        datatype: t.datatype,
        font: t.font,
        text: t.text@,
        position: t.position,
        anchor: t.anchor,
        rotation: t.rotation,
        magnification: t.magnification,
        x_reflection: t.x_reflection,
        props: t.property@,
    }
}

/// The image of a pending reference.
pub open spec fn spec_fakeref_view(f: FakeRef) -> RefV {
    RefV {
        name: f.refed_struc_name@,
        reflection_x: f.reflection_x,
        magnific: f.magnific,
        angle: f.angle,
        origin: f.origin,
        row: f.row,
        column: f.column,
        spaceing_row: f.spaceing_row,
        spaceing_col: f.spaceing_col,
        props: f.property@,
    }
}

/// What a cell's records build, walked from `i`: the cell image and
/// the index past ENDSTR, or nothing where a record does not belong,
/// an element walk fails, or an ENDSTR is missing.  An element walk
/// that succeeds always lands past where it started, so the range
/// guards on its result never cut anything.
pub open spec fn spec_parse_struc(records: Seq<PosRecordV>, i: int, acc: StrucV) -> Option<
    (StrucV, int),
>
    decreases records.len() - i,
{
    if i < 0 || i >= records.len() {
        None
    } else {
        match records[i].0 {
            RecordV::StrName(nm) => spec_parse_struc(records, i + 1, StrucV { name: nm, ..acc }),
            RecordV::Boundary => match spec_parse_polygon(records, i + 1, spec_polygon_init(), None) {
                Some((pv, next)) => if i < next <= records.len() {
                    spec_parse_struc(records, next, StrucV { polygons: acc.polygons.push(pv), ..acc })
                } else {
                    None
                },
                None => None,
            },
            RecordV::Box => match spec_parse_polygon(records, i + 1, spec_polygon_init(), None) {
                Some((pv, next)) => if i < next <= records.len() {
                    spec_parse_struc(records, next, StrucV { polygons: acc.polygons.push(pv), ..acc })
                } else {
                    None
                },
                None => None,
            },
            RecordV::Path => match spec_parse_path(records, i + 1, spec_path_init(), None) {
                Some((pv, next)) => if i < next <= records.len() {
                    spec_parse_struc(records, next, StrucV { paths: acc.paths.push(pv), ..acc })
                } else {
                    None
                },
                None => None,
            },
            RecordV::StrRef => match spec_parse_sref(records, i + 1, spec_ref_init(), None) {
                Some((rv, next)) => if i < next <= records.len() {
                    spec_parse_struc(records, next, StrucV { refs: acc.refs.push(rv), ..acc })
                } else {
                    None
                },
                None => None,
            },
            RecordV::AryRef => match spec_parse_aref(records, i + 1, spec_ref_init(), None) {
                Some((rv, next)) => if i < next <= records.len() {
                    spec_parse_struc(records, next, StrucV { refs: acc.refs.push(rv), ..acc })
                } else {
                    None
                },
                None => None,
            },
            RecordV::Text => match spec_parse_text(records, i + 1, spec_text_init(), None) {
                Some((tv, next)) => if i < next <= records.len() {
                    spec_parse_struc(records, next, StrucV { labels: acc.labels.push(tv), ..acc })
                } else {
                    None
                },
                None => None,
            },
            RecordV::EndStr => Some((acc, i + 1)),
            _ => None,
        }
    }
}

/// Parse one cell after its BGNSTR record, whose date tuple is handed
/// in.  References come back separately, still holding target names.
///
/// Succeeds exactly where the cell walk does, and then returns the
/// cell it builds: its name from STRNAME and its elements in record
/// order, with the walk's reference images in the pending list.
fn parse_struc(records: &[PosRecord], start: usize, date: &Date) -> (r: Result<
    (Struc, Vec<FakeRef>, usize),
    GDSIIError,
>)
    requires
        start <= records@.len(),
    ensures
        r is Ok ==> start < r->Ok_0.2 <= records@.len(),
        r is Ok ==> spec_count_bgnstr(spec_records_view(records@), r->Ok_0.2 as int) == spec_count_bgnstr(
            spec_records_view(records@),
            start as int,
        ),
        r is Ok <==> spec_parse_struc(spec_records_view(records@), start as int, spec_struc_init()) is Some,
        r is Ok ==> r->Ok_0.0.date == *date && r->Ok_0.0.refs@.len() == 0,
        r is Ok ==> {
            let (sv, next) = spec_parse_struc(spec_records_view(records@), start as int, spec_struc_init())->Some_0;
            &&& r->Ok_0.2 == next
            &&& r->Ok_0.0.name@ == sv.name
            &&& r->Ok_0.0.polygons@.map_values(|p: Polygon| spec_polygon_view(p)) == sv.polygons
            &&& r->Ok_0.0.paths@.map_values(|p: Path| spec_path_view(p)) == sv.paths
            &&& r->Ok_0.0.label@.map_values(|t: Text| spec_text_view(t)) == sv.labels
            &&& r->Ok_0.1@.map_values(|f: FakeRef| spec_fakeref_view(f)) == sv.refs
        },
        r is Err && r->Err_0.kind == GdsErrorKind::OrphanProperty ==> r->Err_0.offset is Some && (
        exists|k: int|
            0 <= k < records@.len() && (#[trigger] records@[k]).0 is PropValue && records@[k].1
                == r->Err_0.offset->Some_0),
        r is Err ==> r->Err_0.kind == GdsErrorKind::MalformedRecord || r->Err_0.kind
            == GdsErrorKind::OrphanProperty || r->Err_0.kind == GdsErrorKind::CoordinateOverflow,
{
    let n = records.len();
    let mut struc = Struc {
        name: Vec::new(),
        polygons: Vec::new(),
        paths: Vec::new(),
        refs: Vec::new(),
        label: Vec::new(),
        date: *date,
    };
    let mut fakerefs: Vec<FakeRef> = Vec::new();
    let mut i = start;
    proof {
        assert(struc.name@ =~= Seq::<u8>::empty());
        assert(struc.polygons@.map_values(|p: Polygon| spec_polygon_view(p)) =~= Seq::<
            PolygonV,
        >::empty());
        assert(struc.paths@.map_values(|p: Path| spec_path_view(p)) =~= Seq::<PathV>::empty());
        assert(struc.label@.map_values(|t: Text| spec_text_view(t)) =~= Seq::<TextV>::empty());
        assert(fakerefs@.map_values(|f: FakeRef| spec_fakeref_view(f)) =~= Seq::<RefV>::empty());
    }
    while i < n
        invariant
            n == records@.len(),
            start <= i <= n,
            spec_count_bgnstr(spec_records_view(records@), i as int) == spec_count_bgnstr(spec_records_view(records@), start as int),
            struc.date == *date,
            struc.refs@.len() == 0,
            spec_parse_struc(spec_records_view(records@), start as int, spec_struc_init()) == spec_parse_struc(
                spec_records_view(records@),
                i as int,
                StrucV {
                    name: struc.name@,
                    polygons: struc.polygons@.map_values(|p: Polygon| spec_polygon_view(p)),
                    paths: struc.paths@.map_values(|p: Path| spec_path_view(p)),
                    refs: fakerefs@.map_values(|f: FakeRef| spec_fakeref_view(f)),
                    labels: struc.label@.map_values(|t: Text| spec_text_view(t)),
                },
            ),
        decreases n - i,
    {
        match &records[i].0 {
            Record::StrName(s) => {
                struc.name = s.clone();
                i = i + 1;
            },
            Record::Boundary => {
                let ghost before = struc.polygons@;
                let (polygon, next) = parse_polygon(records, i + 1)?;
                struc.polygons.push(polygon);
                proof {
                    assert(struc.polygons@.map_values(|p: Polygon| spec_polygon_view(p))
                        =~= before.map_values(|p: Polygon| spec_polygon_view(p)).push(
                        spec_polygon_view(polygon),
                    ));
                }
                i = next;
            },
            Record::Box => {
                let ghost before = struc.polygons@;
                let (polygon, next) = parse_polygon(records, i + 1)?;
                struc.polygons.push(polygon);
                proof {
                    assert(struc.polygons@.map_values(|p: Polygon| spec_polygon_view(p))
                        =~= before.map_values(|p: Polygon| spec_polygon_view(p)).push(
                        spec_polygon_view(polygon),
                    ));
                }
                i = next;
            },
            Record::Path => {
                let ghost before = struc.paths@;
                let (path, next) = parse_path(records, i + 1)?;
                struc.paths.push(path);
                proof {
                    assert(struc.paths@.map_values(|p: Path| spec_path_view(p)) =~= before
                        .map_values(|p: Path| spec_path_view(p)).push(spec_path_view(path)));
                }
                i = next;
            },
            Record::StrRef => {
                let ghost before = fakerefs@;
                let (sref, next) = parse_sref(records, i + 1)?;
                fakerefs.push(sref);
                proof {
                    assert(fakerefs@.map_values(|f: FakeRef| spec_fakeref_view(f)) =~= before
                        .map_values(|f: FakeRef| spec_fakeref_view(f)).push(
                        spec_fakeref_view(sref),
                    ));
                }
                i = next;
            },
            Record::AryRef => {
                let ghost before = fakerefs@;
                let (aref, next) = parse_aref(records, i + 1)?;
                fakerefs.push(aref);
                proof {
                    assert(fakerefs@.map_values(|f: FakeRef| spec_fakeref_view(f)) =~= before
                        .map_values(|f: FakeRef| spec_fakeref_view(f)).push(
                        spec_fakeref_view(aref),
                    ));
                }
                i = next;
            },
            Record::Text => {
                let ghost before = struc.label@;
                let (text, next) = parse_text(records, i + 1)?;
                struc.label.push(text);
                proof {
                    assert(struc.label@.map_values(|t: Text| spec_text_view(t)) =~= before
                        .map_values(|t: Text| spec_text_view(t)).push(spec_text_view(text)));
                }
                i = next;
            },
            Record::EndStr => {
                return Ok((struc, fakerefs, i + 1));
            },
            _ => {
                return Err(
                    GDSIIError::at_offset(
                        GdsErrorKind::MalformedRecord,
                        "unexpected record in structure",
                        records[i].1,
                    ),
                );
            },
        }
    }
    Err(GDSIIError::of_kind(GdsErrorKind::MalformedRecord, "structure not terminated"))
}

/// The image of a parsed library: its attributes and the cell images
/// in stream order, each with the date its BGNSTR carries.
pub struct LibV {
    pub name: Seq<u8>,
    pub dbu_in_user: GdsReal,
    pub precision: GdsReal,
    pub cells: Seq<(Date, StrucV)>,
}

/// The image a library walk starts from: empty name, the default
/// micron-over-nanometre units, no cells.
pub open spec fn spec_lib_init() -> LibV {
    LibV {
        name: Seq::empty(),
        dbu_in_user: GdsReal { neg: false, exp: 0x3E, mant: 0x41_89_37_4B_C6_A7_F0 },
        precision: GdsReal { neg: false, exp: 0x39, mant: 0x44_B8_2F_A0_9B_5A_54 },
        cells: Seq::empty(),
    }
}

/// What the library-level records build, walked from `i` after HEADER
/// and BGNLIB: the attribute and cell images, accepted only when the
/// stream's last record is the terminating ENDLIB.
pub open spec fn spec_parse_lib(records: Seq<PosRecordV>, i: int, acc: LibV) -> Option<LibV>
    decreases records.len() - i,
{
    if i < 0 || i >= records.len() {
        None
    } else {
        match records[i].0 {
            RecordV::LibName(nm) => spec_parse_lib(records, i + 1, LibV { name: nm, ..acc }),
            RecordV::Units { dbu_in_user, dbu_in_meter } => spec_parse_lib(
                records,
                i + 1,
                LibV { dbu_in_user, precision: dbu_in_meter, ..acc },
            ),
            RecordV::BgnStr(d) => match spec_parse_struc(records, i + 1, spec_struc_init()) {
                Some((sv, next)) => if i < next <= records.len() {
                    spec_parse_lib(records, next, LibV { cells: acc.cells.push((d, sv)), ..acc })
                } else {
                    None
                },
                None => None,
            },
            RecordV::EndLib => if i == records.len() - 1 {
                Some(acc)
            } else {
                None
            },
            _ => None,
        }
    }
}

/// The whole stream is acceptable to the structural parse: HEADER,
/// then BGNLIB, then a library walk that ends at the final ENDLIB.
pub open spec fn spec_gds_accepts(records: Seq<PosRecordV>) -> bool {
    records.len() >= 2 && records[0].0 is Header && records[1].0 is BgnLib && spec_parse_lib(
        records,
        2,
        spec_lib_init(),
    ) is Some
}

/// The image of a parsed cell, taken from an exec cell and its pending
/// references.
pub open spec fn spec_cell_pair_view(c: (Struc, Vec<FakeRef>)) -> (Date, StrucV) {
    (
        c.0.date,
        StrucV {
            name: c.0.name@,
            polygons: c.0.polygons@.map_values(|p: Polygon| spec_polygon_view(p)),
            paths: c.0.paths@.map_values(|p: Path| spec_path_view(p)),
            refs: c.1@.map_values(|f: FakeRef| spec_fakeref_view(f)),
            labels: c.0.label@.map_values(|t: Text| spec_text_view(t)),
        },
    )
}

/// No two parsed cells share a name.
pub open spec fn spec_cells_names_distinct(cs: Seq<(Struc, Vec<FakeRef>)>) -> bool {
    forall|k: int, l: int|
        0 <= k < l < cs.len() ==> (#[trigger] cs[k]).0.name@ != (#[trigger] cs[l]).0.name@
}

/// Every pending reference of every parsed cell names some parsed
/// cell.
pub open spec fn spec_cells_resolvable(cs: Seq<(Struc, Vec<FakeRef>)>) -> bool {
    forall|k: int, j: int|
        0 <= k < cs.len() && 0 <= j < cs[k].1@.len() ==> (exists|l: int|
            0 <= l < cs.len() && (#[trigger] cs[l]).0.name@ == (
            #[trigger] cs[k].1@[j]).refed_struc_name@)
}

/// The name-level reference relation of a parsed stream: cell `a`
/// holds a pending reference naming cell `b`.
pub open spec fn spec_cells_edge(cs: Seq<(Struc, Vec<FakeRef>)>, a: int, b: int) -> bool {
    &&& 0 <= a < cs.len()
    &&& 0 <= b < cs.len()
    &&& exists|j: int|
        0 <= j < cs[a].1@.len() && (#[trigger] cs[a].1@[j]).refed_struc_name@ == cs[b].0.name@
}

/// A walk along name-level references.
pub open spec fn spec_cells_path(cs: Seq<(Struc, Vec<FakeRef>)>, p: Seq<int>) -> bool {
    p.len() >= 1 && forall|i: int|
        0 <= i < p.len() - 1 ==> #[trigger] spec_cells_edge(cs, p[i], p[i + 1])
}

/// Cell `b` can be walked to from cell `a` along name-level references.
pub open spec fn spec_cells_reaches(cs: Seq<(Struc, Vec<FakeRef>)>, a: int, b: int) -> bool {
    exists|p: Seq<int>| spec_cells_path(cs, p) && p.first() == a && p.last() == b
}

/// The name-level reference relation closes no cycle.
pub open spec fn spec_cells_acyclic(cs: Seq<(Struc, Vec<FakeRef>)>) -> bool {
    forall|a: int, b: int| #[trigger] spec_cells_edge(cs, a, b) ==> !spec_cells_reaches(cs, b, a)
}

/// A walk in the half-built library maps to a name-level walk of the
/// parsed stream, slot `x` standing for cell `len - 1 - x`.
proof fn lemma_lib_reaches_to_cells(
    lib: &Lib,
    cs: Seq<(Struc, Vec<FakeRef>)>,
    a: int,
    b: int,
)
    requires
        lib.spec_len() == cs.len(),
        forall|x: int, y: int|
            #[trigger] lib.spec_edge(x, y) ==> 0 <= x < cs.len() && 0 <= y < cs.len()
                && spec_cells_edge(cs, cs.len() - 1 - x, cs.len() - 1 - y),
        lib.spec_reaches(a, b),
    ensures
        spec_cells_reaches(cs, cs.len() - 1 - a, cs.len() - 1 - b),
{
    let p = choose|p: Seq<int>| lib.spec_is_path(p) && p.first() == a && p.last() == b;
    let q = p.map_values(|i: int| cs.len() - 1 - i);
    assert forall|i: int| 0 <= i < q.len() - 1 implies #[trigger] spec_cells_edge(
        cs,
        q[i],
        q[i + 1],
    ) by {
        assert(lib.spec_edge(p[i], p[i + 1]));
        assert(q[i] == cs.len() - 1 - p[i] && q[i + 1] == cs.len() - 1 - p[i + 1]);
    }
    assert(spec_cells_path(cs, q));
    assert(q.first() == cs.len() - 1 - a && q.last() == cs.len() - 1 - b);
}

/// A name-level walk of the parsed stream maps to a walk of the fully
/// built library, cell `a` standing for slot `len - 1 - a`.
proof fn lemma_cells_reaches_to_lib(
    lib: &Lib,
    cs: Seq<(Struc, Vec<FakeRef>)>,
    a: int,
    b: int,
)
    requires
        lib.spec_len() == cs.len(),
        forall|x: int, y: int|
            #[trigger] spec_cells_edge(cs, x, y) ==> lib.spec_edge(
                cs.len() - 1 - x,
                cs.len() - 1 - y,
            ),
        spec_cells_reaches(cs, a, b),
    ensures
        lib.spec_reaches(cs.len() - 1 - a, cs.len() - 1 - b),
{
    let p = choose|p: Seq<int>| spec_cells_path(cs, p) && p.first() == a && p.last() == b;
    let q = p.map_values(|i: int| cs.len() - 1 - i);
    assert forall|i: int| 0 <= i < q.len() - 1 implies #[trigger] lib.spec_edge(
        q[i],
        q[i + 1],
    ) by {
        assert(spec_cells_edge(cs, p[i], p[i + 1]));
        assert(q[i] == cs.len() - 1 - p[i] && q[i + 1] == cs.len() - 1 - p[i + 1]);
    }
    assert(lib.spec_is_path(q));
    assert(q.first() == cs.len() - 1 - a && q.last() == cs.len() - 1 - b);
}

/// Rebuilt reference `j` of slot `k` carries the fields of pending
/// image `m - 1 - j` of the cell the slot holds (references also go in
/// popped from the back), and aims at a held cell whose name is the
/// image's target name.
pub open spec fn spec_slot_ref_matches(
    lib: Lib,
    cs: Seq<(Struc, Vec<FakeRef>)>,
    k: int,
    j: int,
) -> bool {
    let imgs = cs[cs.len() - 1 - k].1@;
    let img = imgs[imgs.len() - 1 - j];
    let rr = lib.spec_at(k).refs@[j];
    &&& rr.refed_struc < lib.spec_len()
    &&& lib.spec_live(rr.refed_struc as int)
    &&& lib.spec_at(rr.refed_struc as int).name@ == img.refed_struc_name@
    &&& rr.reflection_x == img.reflection_x
    &&& rr.magnific == img.magnific
    &&& rr.angle == img.angle
    &&& rr.origin == img.origin
    &&& rr.row == img.row
    &&& rr.column == img.column
    &&& rr.spaceing_row == img.spaceing_row
    &&& rr.spaceing_col == img.spaceing_col
    &&& rr.property@ == img.property@
}

/// One library slot holds one parsed cell unchanged: the cell at
/// stream position `len - 1 - k` (cells go in popped from the back, so
/// the cell parsed last gets slot zero).
pub open spec fn spec_slot_matches(lib: Lib, cs: Seq<(Struc, Vec<FakeRef>)>, k: int) -> bool {
    &&& lib.spec_live(k)
    &&& lib.spec_at(k).name@ == cs[cs.len() - 1 - k].0.name@
    &&& lib.spec_at(k).date == cs[cs.len() - 1 - k].0.date
    &&& lib.spec_at(k).polygons@ == cs[cs.len() - 1 - k].0.polygons@
    &&& lib.spec_at(k).paths@ == cs[cs.len() - 1 - k].0.paths@
    &&& lib.spec_at(k).label@ == cs[cs.len() - 1 - k].0.label@
}

/// The slot's cell carries one rebuilt reference per pending one of
/// the parsed cell it holds.
pub open spec fn spec_slot_refs_rebuilt(lib: Lib, cs: Seq<(Struc, Vec<FakeRef>)>, k: int) -> bool {
    lib.spec_at(k).refs@.len() == cs[cs.len() - 1 - k].1@.len()
}

/// Insert the parsed cells into a fresh library and resolve every
/// pending reference by name, rejecting duplicates, missing targets and
/// cycles.  The returned library is fully linked and well-formed.
#[verifier::rlimit(100)]
fn build_lib(
    lib_name: Vec<u8>,
    dbu_in_user: GdsReal,
    precision: GdsReal,
    date: Date,
    cells: Vec<(Struc, Vec<FakeRef>)>,
) -> (r: Result<Lib, GDSIIError>)
    requires
        forall|j: int| 0 <= j < cells@.len() ==> (#[trigger] cells@[j]).0.refs@.len() == 0,
    ensures
        r is Ok ==> r->Ok_0.wf(),
        r is Ok ==> r->Ok_0.spec_len() == cells@.len(),
        r is Ok ==> r->Ok_0.spec_name() == lib_name@ && r->Ok_0.spec_dbu_in_user() == dbu_in_user
            && r->Ok_0.spec_precision() == precision && r->Ok_0.spec_date() == date,
        r is Ok ==> forall|k: int|
            0 <= k < cells@.len() ==> #[trigger] spec_slot_matches(r->Ok_0, cells@, k)
                && spec_slot_refs_rebuilt(r->Ok_0, cells@, k),
        r is Ok ==> forall|k: int, j: int|
            0 <= k < cells@.len() && 0 <= j < r->Ok_0.spec_at(k).refs@.len()
                ==> #[trigger] spec_slot_ref_matches(r->Ok_0, cells@, k, j),
        r is Err ==> r->Err_0.kind == GdsErrorKind::DuplicateCellName || r->Err_0.kind
            == GdsErrorKind::UnresolvedReference || r->Err_0.kind == GdsErrorKind::CycleDetected,
        (spec_cells_names_distinct(cells@) && spec_cells_resolvable(cells@)
            && spec_cells_acyclic(cells@)) ==> r is Ok,
        r is Ok ==> spec_cells_names_distinct(cells@) && spec_cells_resolvable(cells@)
            && spec_cells_acyclic(cells@),
        (r is Err && r->Err_0.kind == GdsErrorKind::DuplicateCellName)
            ==> !spec_cells_names_distinct(cells@),
        (r is Err && r->Err_0.kind == GdsErrorKind::UnresolvedReference)
            ==> !spec_cells_resolvable(cells@),
        (r is Err && r->Err_0.kind == GdsErrorKind::CycleDetected) ==> !spec_cells_acyclic(cells@),
{
    let ghost n_cells = cells@.len();
    let ghost cells0 = cells@;
    let mut lib = Lib::from_parts(lib_name, dbu_in_user, precision, date);
    let mut work = cells;
    let mut pending: Vec<(usize, Vec<FakeRef>)> = Vec::new();
    let mut names_ids: Vec<(Vec<u8>, usize)> = Vec::new();
    proof {
        assert(work@ == cells0.take(work@.len() as int)) by {
            assert(work@ =~= cells0.take(work@.len() as int));
        }
    }
    while work.len() > 0
        invariant
            n_cells == cells0.len(),
            cells0 == cells@,
            forall|j: int| 0 <= j < cells0.len() ==> (#[trigger] cells0[j]).0.refs@.len() == 0,
            lib.wf(),
            lib.spec_len() + work@.len() == n_cells,
            work@ == cells0.take(work@.len() as int),
            lib.spec_name() == lib_name@ && lib.spec_dbu_in_user() == dbu_in_user
                && lib.spec_precision() == precision && lib.spec_date() == date,
            pending@.len() == lib.spec_len(),
            names_ids@.len() == lib.spec_len(),
            forall|l: int|
                0 <= l < names_ids@.len() ==> (#[trigger] names_ids@[l]).1 == l
                    && names_ids@[l].0@ == cells0[n_cells - 1 - l].0.name@,
            forall|j: int|
                0 <= j < pending@.len() ==> (#[trigger] pending@[j]).0 == j && pending@[j].1@
                    == cells0[n_cells - 1 - j].1@,
            forall|k: int|
                0 <= k < lib.spec_len() ==> #[trigger] spec_slot_matches(lib, cells0, k)
                    && lib.spec_at(k).refs@.len() == 0,
        decreases work@.len(),
    {
        let ghost cells_before = work@;
        let ghost lib0 = lib;
        let ghost pending0 = pending@;
        let (st, frs) = work.pop().unwrap();
        proof {
            assert(work@ == cells0.take(work@.len() as int)) by {
                assert(work@ =~= cells0.take(work@.len() as int));
            }
            assert(cells_before[cells_before.len() - 1] == cells0[work@.len() as int]);
        }
        let ghost st0 = st;
        let ghost frs0 = frs@;
        let ghost names_ids0 = names_ids@;
        let nm = st.name.clone();
        let id = match lib.add_struc(st) {
            Ok(v) => v,
            Err(e) => {
                proof {
                    // a duplicate name here names two stream cells alike
                    if e.kind == GdsErrorKind::DuplicateCellName {
                        let j = choose|j: int|
                            lib0.spec_live(j) && (#[trigger] lib0.spec_at(j)).name@ == st0.name@;
                        assert(spec_slot_matches(lib0, cells0, j));
                        assert(cells0[n_cells - 1 - j].0.name@ == st0.name@);
                        assert(cells0[work@.len() as int].0.name@ == st0.name@);
                        assert(n_cells - 1 - j > work@.len());
                    } else {
                        assert(st0.refs@.len() == 0);
                        assert(false);
                    }
                }
                return Err(e);
            },
        };
        names_ids.push((nm, id));
        pending.push((id, frs));
        proof {
            assert(st0 == cells0[n_cells - 1 - id as int].0);
            assert(frs0 == cells0[n_cells - 1 - id as int].1@);
            assert(lib.spec_at(id as int) == st0);
            assert forall|k: int|
                0 <= k < lib.spec_len() implies #[trigger] spec_slot_matches(lib, cells0, k)
                && lib.spec_at(k).refs@.len() == 0 by {
                if k < id as int {
                    assert(spec_slot_matches(lib0, cells0, k));
                    assert(lib0.spec_live(k));
                    assert(lib.spec_at(k) == lib0.spec_at(k));
                } else {
                    assert(st0.refs@.len() == 0) by {
                        assert(cells0[n_cells - 1 - id as int].0.refs@.len() == 0);
                    }
                }
            }
            assert forall|j: int|
                0 <= j < pending@.len() implies (#[trigger] pending@[j]).0 == j && pending@[j].1@
                == cells0[n_cells - 1 - j].1@ by {
                if j < pending0.len() {
                    assert(pending@[j] == pending0[j]);
                }
            }
            assert forall|l: int|
                0 <= l < names_ids@.len() implies (#[trigger] names_ids@[l]).1 == l
                && names_ids@[l].0@ == cells0[n_cells - 1 - l].0.name@ by {
                if l < names_ids@.len() - 1 {
                    assert(names_ids@[l] == names_ids0[l]);
                } else {
                    assert(names_ids@[l] == (nm, id));
                    assert(nm@ == st0.name@);
                }
            }
        }
    }
    proof {
        assert forall|k: int|
            0 <= k < pending@.len() implies (#[trigger] lib.spec_at(k)).refs@.len() == 0 by {
            assert(pending@.len() == lib.spec_len());
            assert(k < lib.spec_len());
            assert(spec_slot_matches(lib, cells0, k));
            assert(lib.spec_at(k).refs@.len() == 0);
        }
    }
    while pending.len() > 0
        invariant
            n_cells == cells0.len(),
            cells0 == cells@,
            lib.wf(),
            lib.spec_len() == n_cells,
            lib.spec_name() == lib_name@ && lib.spec_dbu_in_user() == dbu_in_user
                && lib.spec_precision() == precision && lib.spec_date() == date,
            pending@.len() <= n_cells,
            names_ids@.len() == n_cells,
            forall|l: int|
                0 <= l < names_ids@.len() ==> (#[trigger] names_ids@[l]).1 == l
                    && names_ids@[l].0@ == cells0[n_cells - 1 - l].0.name@,
            forall|j: int|
                0 <= j < pending@.len() ==> (#[trigger] pending@[j]).0 == j && pending@[j].1@
                    == cells0[n_cells - 1 - j].1@,
            forall|k: int| 0 <= k < n_cells ==> #[trigger] spec_slot_matches(lib, cells0, k),
            forall|k: int|
                pending@.len() <= k < n_cells ==> #[trigger] spec_slot_refs_rebuilt(
                    lib,
                    cells0,
                    k,
                ),
            forall|k: int, j: int|
                pending@.len() <= k < n_cells && 0 <= j < lib.spec_at(k).refs@.len()
                    ==> #[trigger] spec_slot_ref_matches(lib, cells0, k, j),
            forall|k: int|
                0 <= k < pending@.len() ==> (#[trigger] lib.spec_at(k)).refs@.len() == 0,
        decreases pending@.len(),
    {
        let ghost pending_before = pending@;
        let (id, frs) = pending.pop().unwrap();
        proof {
            assert forall|j: int|
                0 <= j < pending@.len() implies (#[trigger] pending@[j]).0 == j && pending@[j].1@
                == cells0[n_cells - 1 - j].1@ by {
                assert(pending@[j] == pending_before[j]);
            }
        }
        let mut frs = frs;
        let ghost target_len = frs@.len();
        while frs.len() > 0
            invariant
                n_cells == cells0.len(),
                cells0 == cells@,
                lib.wf(),
                lib.spec_len() == n_cells,
                id < n_cells,
                id == pending@.len(),
                frs@.len() <= target_len,
                cells0[n_cells - 1 - id as int].1@.len() == target_len,
                frs@ == cells0[n_cells - 1 - id as int].1@.take(frs@.len() as int),
                names_ids@.len() == n_cells,
                forall|l: int|
                    0 <= l < names_ids@.len() ==> (#[trigger] names_ids@[l]).1 == l
                        && names_ids@[l].0@ == cells0[n_cells - 1 - l].0.name@,
                lib.spec_name() == lib_name@ && lib.spec_dbu_in_user() == dbu_in_user
                    && lib.spec_precision() == precision && lib.spec_date() == date,
                forall|j: int|
                    0 <= j < pending@.len() ==> (#[trigger] pending@[j]).0 == j && pending@[j].1@
                        == cells0[n_cells - 1 - j].1@,
                forall|k: int| 0 <= k < n_cells ==> #[trigger] spec_slot_matches(lib, cells0, k),
                forall|k: int|
                    id < k < n_cells ==> #[trigger] spec_slot_refs_rebuilt(lib, cells0, k),
                forall|k: int, j: int|
                    id < k < n_cells && 0 <= j < lib.spec_at(k).refs@.len()
                        ==> #[trigger] spec_slot_ref_matches(lib, cells0, k, j),
                forall|j: int|
                    0 <= j < lib.spec_at(id as int).refs@.len() ==> #[trigger] spec_slot_ref_matches(
                        lib,
                        cells0,
                        id as int,
                        j,
                    ),
                forall|k: int|
                    0 <= k < id ==> (#[trigger] lib.spec_at(k)).refs@.len() == 0,
                lib.spec_at(id as int).refs@.len() == target_len - frs@.len(),
            decreases frs@.len(),
        {
            let ghost imgs = cells0[n_cells - 1 - id as int].1@;
            let ghost frs_before = frs@;
            let fr = frs.pop().unwrap();
            proof {
                assert(frs@ == imgs.take(frs@.len() as int)) by {
                    assert(frs@ =~= imgs.take(frs@.len() as int));
                }
                assert(fr == frs_before[frs_before.len() - 1]);
                assert(fr == imgs[frs@.len() as int]);
            }
            let mut found: Option<usize> = None;
            let mut l: usize = 0;
            let nn = names_ids.len();
            while l < nn
                invariant
                    n_cells == cells0.len(),
                    nn == names_ids@.len(),
                    nn == n_cells,
                    l <= nn,
                    forall|l2: int|
                        0 <= l2 < names_ids@.len() ==> (#[trigger] names_ids@[l2]).1 == l2
                            && names_ids@[l2].0@ == cells0[n_cells - 1 - l2].0.name@,
                    found is None ==> forall|l2: int|
                        0 <= l2 < l ==> (#[trigger] names_ids@[l2]).0@ != fr.refed_struc_name@,
                    found is Some ==> found->Some_0 < n_cells && cells0[n_cells - 1
                        - found->Some_0 as int].0.name@ == fr.refed_struc_name@,
                decreases nn - l,
            {
                if names_equal(&names_ids[l].0, &fr.refed_struc_name) {
                    found = Some(names_ids[l].1);
                }
                l = l + 1;
            }
            match found {
                None => {
                    proof {
                        assert(cells0[n_cells - 1 - id as int].1@.len() >= 1);
                        // no held cell bears the target name, so the
                        // stream is unresolvable at this very reference
                        assert forall|l2: int| 0 <= l2 < n_cells implies (
                        #[trigger] cells0[l2]).0.name@ != fr.refed_struc_name@ by {
                            assert(names_ids@[n_cells - 1 - l2].0@ == cells0[l2].0.name@);
                        }
                        assert(!spec_cells_resolvable(cells0)) by {
                            let k0 = n_cells - 1 - id as int;
                            let j0 = frs@.len() as int;
                            assert(cells0[k0].1@[j0] == fr);
                            if spec_cells_resolvable(cells0) {
                                let l0 = choose|l0: int|
                                    0 <= l0 < cells0.len() && (#[trigger] cells0[l0]).0.name@
                                        == cells0[k0].1@[j0].refed_struc_name@;
                                assert(false);
                            }
                        }
                    }
                    return Err(
                        GDSIIError::of_kind(
                            GdsErrorKind::UnresolvedReference,
                            "reference target cell was not found in this stream",
                        ),
                    );
                },
                Some(tid) => {
                    let refer = fr.create_true_ref(tid);
                    let ghost lib0 = lib;
                    proof {
                        assert(spec_slot_matches(lib0, cells0, id as int));
                        assert(spec_slot_matches(lib0, cells0, tid as int));
                        // every edge of the half-built library is a
                        // name-level edge of the stream
                        assert forall|x: int, y: int| #[trigger] lib0.spec_edge(x, y) implies 0
                            <= x < cells0.len() && 0 <= y < cells0.len() && spec_cells_edge(
                            cells0,
                            cells0.len() - 1 - x,
                            cells0.len() - 1 - y,
                        ) by {
                            let jj = choose|jj: int|
                                0 <= jj < lib0.spec_at(x).refs@.len() && (#[trigger] lib0.spec_at(
                                    x,
                                ).refs@[jj]).refed_struc as int == y;
                            assert(lib0.spec_live(x));
                            assert(x < n_cells);
                            if x < id as int {
                                assert(lib0.spec_at(x).refs@.len() == 0);
                                assert(false);
                            }
                            assert(spec_slot_ref_matches(lib0, cells0, x, jj));
                            let ix = cells0[n_cells - 1 - x].1@;
                            if x == id as int {
                                assert(ix.len() == target_len);
                                assert(jj < lib0.spec_at(id as int).refs@.len());
                            } else {
                                assert(spec_slot_refs_rebuilt(lib0, cells0, x));
                                assert(lib0.spec_at(x).refs@.len() == ix.len());
                            }
                            assert(jj < ix.len());
                            let img = ix[ix.len() - 1 - jj];
                            assert(lib0.spec_at(y).name@ == img.refed_struc_name@);
                            assert(spec_slot_matches(lib0, cells0, y));
                            assert(cells0[n_cells - 1 - y].0.name@ == img.refed_struc_name@);
                            assert(0 <= ix.len() - 1 - jj < ix.len());
                            assert(spec_cells_edge(
                                cells0,
                                cells0.len() - 1 - x,
                                cells0.len() - 1 - y,
                            )) by {
                                let j2 = ix.len() - 1 - jj;
                                assert(cells0[cells0.len() - 1 - x].1@[j2] == img);
                                assert(img.refed_struc_name@ == cells0[cells0.len() - 1
                                    - y].0.name@);
                            }
                        }
                    }
                    match lib.add_ref(id, refer) {
                        Ok(_) => {},
                        Err(e) => {
                            proof {
                                assert(cells0[n_cells - 1 - id as int].1@.len() >= 1);
                                if e.kind == GdsErrorKind::CycleDetected {
                                    // the refused edge closes a
                                    // name-level cycle of the stream
                                    assert(lib0.spec_reaches(tid as int, id as int));
                                    lemma_lib_reaches_to_cells(
                                        &lib0,
                                        cells0,
                                        tid as int,
                                        id as int,
                                    );
                                    let a0 = n_cells - 1 - id as int;
                                    let b0 = n_cells - 1 - tid as int;
                                    assert(spec_cells_edge(cells0, a0, b0)) by {
                                        let j0 = frs@.len() as int;
                                        assert((#[trigger] cells0[a0].1@[j0]).refed_struc_name@
                                            == cells0[b0].0.name@);
                                    }
                                    assert(!spec_cells_acyclic(cells0));
                                } else {
                                    assert(lib0.spec_live(id as int));
                                    assert(lib0.spec_live(tid as int));
                                    assert(false);
                                }
                            }
                            return Err(e);
                        },
                    }
                    proof {
                        assert forall|k: int|
                            0 <= k < n_cells implies #[trigger] spec_slot_matches(
                            lib,
                            cells0,
                            k,
                        ) by {
                            assert(spec_slot_matches(lib0, cells0, k));
                            if k != id as int {
                                assert(lib.spec_at(k) == lib0.spec_at(k));
                            }
                        }
                        assert forall|k: int|
                            id < k < n_cells implies #[trigger] spec_slot_refs_rebuilt(
                            lib,
                            cells0,
                            k,
                        ) by {
                            assert(spec_slot_refs_rebuilt(lib0, cells0, k));
                            assert(spec_slot_matches(lib0, cells0, k));
                            assert(lib0.spec_live(k));
                            assert(lib.spec_at(k) == lib0.spec_at(k));
                        }
                        assert forall|k: int|
                            0 <= k < id implies (#[trigger] lib.spec_at(k)).refs@.len() == 0 by {
                            assert(lib0.spec_at(k).refs@.len() == 0);
                            assert(spec_slot_matches(lib0, cells0, k));
                            assert(lib0.spec_live(k));
                            assert(lib.spec_at(k) == lib0.spec_at(k));
                        }
                        // names are untouched, so every already-placed
                        // reference still matches its image; the new
                        // one aims at the looked-up slot by name
                        assert forall|k: int, j: int|
                            id <= k < n_cells && 0 <= j < lib.spec_at(k).refs@.len()
                                implies #[trigger] spec_slot_ref_matches(
                                lib,
                                cells0,
                                k,
                                j,
                            ) by {
                            let imgs2 = cells0[n_cells - 1 - k].1@;
                            if k == id as int && j == lib.spec_at(id as int).refs@.len() - 1 {
                                assert(lib.spec_at(id as int).refs@[j] == refer);
                                assert(imgs2.len() - 1 - j == frs@.len() as int);
                                assert(imgs2[imgs2.len() - 1 - j] == fr);
                                assert((tid as int) < n_cells);
                                assert(spec_slot_matches(lib0, cells0, tid as int));
                                assert(lib0.spec_at(tid as int).name@ == cells0[n_cells - 1
                                    - tid as int].0.name@);
                                assert(lib.spec_at(tid as int).name@ == lib0.spec_at(
                                    tid as int,
                                ).name@);
                            } else {
                                if k != id as int {
                                    assert(spec_slot_matches(lib0, cells0, k));
                                    assert(lib0.spec_live(k));
                                    assert(lib.spec_at(k) == lib0.spec_at(k));
                                } else {
                                    assert(lib.spec_at(id as int).refs@.len() == lib0.spec_at(
                                        id as int,
                                    ).refs@.len() + 1);
                                }
                                assert(spec_slot_ref_matches(lib0, cells0, k, j));
                                let rr = lib0.spec_at(k).refs@[j];
                                if k == id as int {
                                    assert(lib.spec_at(id as int).refs@[j] == rr);
                                }
                                assert(lib0.spec_live(rr.refed_struc as int));
                                if rr.refed_struc == id {
                                    assert(lib.spec_at(rr.refed_struc as int).name@
                                        == lib0.spec_at(rr.refed_struc as int).name@);
                                } else {
                                    assert(lib.spec_at(rr.refed_struc as int) == lib0.spec_at(
                                        rr.refed_struc as int,
                                    ));
                                }
                            }
                        }
                    }
                },
            }
        }
        proof {
            assert(spec_slot_refs_rebuilt(lib, cells0, id as int));
        }
    }
    proof {
        assert forall|k: int|
            0 <= k < cells0.len() implies #[trigger] spec_slot_matches(lib, cells0, k)
            && spec_slot_refs_rebuilt(lib, cells0, k) by {
            assert(spec_slot_matches(lib, cells0, k));
            assert(spec_slot_refs_rebuilt(lib, cells0, k));
        }
        assert forall|k: int, j: int|
            0 <= k < cells0.len() && 0 <= j < lib.spec_at(k).refs@.len()
                implies #[trigger] spec_slot_ref_matches(lib, cells0, k, j) by {
            assert(spec_slot_ref_matches(lib, cells0, k, j));
        }
        // names are unique among the slots, so they are among the cells
        assert forall|k: int, l: int|
            0 <= k < l < cells0.len() implies (#[trigger] cells0[k]).0.name@ != (
        #[trigger] cells0[l]).0.name@ by {
            let sk = n_cells - 1 - k;
            let sl = n_cells - 1 - l;
            assert(spec_slot_matches(lib, cells0, sk));
            assert(spec_slot_matches(lib, cells0, sl));
            assert(lib.spec_live(sk) && lib.spec_live(sl));
            if cells0[k].0.name@ == cells0[l].0.name@ {
                assert(lib.spec_at(sk).name@ == lib.spec_at(sl).name@);
                assert(false);
            }
        }
        // every pending image was resolved to a held cell by name
        assert forall|k: int, j: int|
            0 <= k < cells0.len() && 0 <= j < cells0[k].1@.len() implies (exists|l: int|
            0 <= l < cells0.len() && (#[trigger] cells0[l]).0.name@ == (
        #[trigger] cells0[k].1@[j]).refed_struc_name@) by {
            let sk = n_cells - 1 - k;
            let imgs = cells0[k].1@;
            let j2 = imgs.len() - 1 - j;
            assert(spec_slot_refs_rebuilt(lib, cells0, sk));
            assert(spec_slot_ref_matches(lib, cells0, sk, j2));
            let rr = lib.spec_at(sk).refs@[j2];
            let tl = n_cells - 1 - rr.refed_struc as int;
            assert(spec_slot_matches(lib, cells0, rr.refed_struc as int));
            assert((#[trigger] cells0[tl]).0.name@ == imgs[j].refed_struc_name@);
        }
        // a name-level cycle would map to a cycle among the slots
        assert forall|a: int, b: int| #[trigger] spec_cells_edge(cells0, a, b) implies
            !spec_cells_reaches(cells0, b, a) by {
            assert forall|x: int, y: int| #[trigger] spec_cells_edge(cells0, x, y) implies
                lib.spec_edge(n_cells - 1 - x, n_cells - 1 - y) by {
                let j0 = choose|j0: int|
                    0 <= j0 < cells0[x].1@.len() && (#[trigger] cells0[x].1@[j0]).refed_struc_name@
                        == cells0[y].0.name@;
                let sx = n_cells - 1 - x;
                let imgs = cells0[x].1@;
                let j2 = imgs.len() - 1 - j0;
                assert(spec_slot_refs_rebuilt(lib, cells0, sx));
                assert(spec_slot_ref_matches(lib, cells0, sx, j2));
                let rr = lib.spec_at(sx).refs@[j2];
                assert(lib.spec_at(rr.refed_struc as int).name@ == cells0[y].0.name@);
                assert(spec_slot_matches(lib, cells0, rr.refed_struc as int));
                assert(cells0[n_cells - 1 - rr.refed_struc as int].0.name@ == cells0[y].0.name@);
                if n_cells - 1 - rr.refed_struc as int != y {
                    assert(false);
                }
                assert(rr.refed_struc as int == n_cells - 1 - y);
                assert(spec_slot_matches(lib, cells0, sx));
                assert(lib.spec_live(sx));
                assert(lib.spec_edge(sx, n_cells - 1 - y));
            }
            if spec_cells_reaches(cells0, b, a) {
                lemma_cells_reaches_to_lib(&lib, cells0, b, a);
                assert(lib.spec_reaches(n_cells - 1 - b, n_cells - 1 - a));
                assert(lib.spec_edge(n_cells - 1 - a, n_cells - 1 - b));
                assert(false);
            }
        }
    }
    Ok(lib)
}

/// One library slot matches one cell image of the parsed stream: slot
/// `k` holds the cell at stream position `len - 1 - k`, with its
/// BGNSTR date, its name, its elements, and as many rebuilt references
/// as the image has; what each rebuilt reference carries is stated by
/// `spec_lib_slot_ref_matches`.
pub open spec fn spec_lib_slot_matches(lib: Lib, lv: LibV, k: int) -> bool {
    &&& lib.spec_live(k)
    &&& lib.spec_at(k).date == lv.cells[lv.cells.len() - 1 - k].0
    &&& lib.spec_at(k).name@ == lv.cells[lv.cells.len() - 1 - k].1.name
    &&& lib.spec_at(k).polygons@.map_values(|p: Polygon| spec_polygon_view(p)) == lv.cells[lv.cells.len() - 1 - k].1.polygons
    &&& lib.spec_at(k).paths@.map_values(|p: Path| spec_path_view(p)) == lv.cells[lv.cells.len() - 1 - k].1.paths
    &&& lib.spec_at(k).label@.map_values(|t: Text| spec_text_view(t)) == lv.cells[lv.cells.len() - 1 - k].1.labels
    &&& lib.spec_at(k).refs@.len() == lv.cells[lv.cells.len() - 1 - k].1.refs.len()
}

/// No two cell images of a parsed stream share a name.
pub open spec fn spec_images_names_distinct(cs: Seq<(Date, StrucV)>) -> bool {
    forall|k: int, l: int|
        0 <= k < l < cs.len() ==> (#[trigger] cs[k]).1.name != (#[trigger] cs[l]).1.name
}

/// Every reference image of every cell image names some cell image.
pub open spec fn spec_images_resolvable(cs: Seq<(Date, StrucV)>) -> bool {
    forall|k: int, j: int|
        0 <= k < cs.len() && 0 <= j < cs[k].1.refs.len() ==> (exists|l: int|
            0 <= l < cs.len() && (#[trigger] cs[l]).1.name == (#[trigger] cs[k].1.refs[j]).name)
}

/// The name-level reference relation of the cell images.
pub open spec fn spec_images_edge(cs: Seq<(Date, StrucV)>, a: int, b: int) -> bool {
    &&& 0 <= a < cs.len()
    &&& 0 <= b < cs.len()
    &&& exists|j: int| 0 <= j < cs[a].1.refs.len() && (#[trigger] cs[a].1.refs[j]).name == cs[b].1.name
}

/// A walk along the images' references.
pub open spec fn spec_images_path(cs: Seq<(Date, StrucV)>, p: Seq<int>) -> bool {
    p.len() >= 1 && forall|i: int|
        0 <= i < p.len() - 1 ==> #[trigger] spec_images_edge(cs, p[i], p[i + 1])
}

/// Cell image `b` can be walked to from image `a`.
pub open spec fn spec_images_reaches(cs: Seq<(Date, StrucV)>, a: int, b: int) -> bool {
    exists|p: Seq<int>| spec_images_path(cs, p) && p.first() == a && p.last() == b
}

/// The images' reference relation closes no cycle.
pub open spec fn spec_images_acyclic(cs: Seq<(Date, StrucV)>) -> bool {
    forall|a: int, b: int| #[trigger] spec_images_edge(cs, a, b) ==> !spec_images_reaches(cs, b, a)
}

/// The name-level conditions read the same off the parsed cells and
/// off their images.
proof fn lemma_images_cells_equiv(cs: Seq<(Struc, Vec<FakeRef>)>, iv: Seq<(Date, StrucV)>)
    requires
        iv == cs.map_values(|c: (Struc, Vec<FakeRef>)| spec_cell_pair_view(c)),
    ensures
        spec_images_names_distinct(iv) == spec_cells_names_distinct(cs),
        spec_images_resolvable(iv) == spec_cells_resolvable(cs),
        spec_images_acyclic(iv) == spec_cells_acyclic(cs),
{
    assert forall|i: int| 0 <= i < cs.len() implies (#[trigger] iv[i]).1.name == cs[i].0.name@
        && iv[i].1.refs.len() == cs[i].1@.len() by {
        assert(iv[i] == spec_cell_pair_view(cs[i]));
    }
    assert forall|i: int, j: int|
        0 <= i < cs.len() && 0 <= j < cs[i].1@.len() implies (#[trigger] iv[i].1.refs[j]).name == (
        #[trigger] cs[i].1@[j]).refed_struc_name@ by {
        assert(iv[i] == spec_cell_pair_view(cs[i]));
        assert(iv[i].1.refs[j] == spec_fakeref_view(cs[i].1@[j]));
    }
    assert(spec_images_names_distinct(iv) == spec_cells_names_distinct(cs)) by {
        if spec_images_names_distinct(iv) {
            assert forall|k: int, l: int|
                0 <= k < l < cs.len() implies (#[trigger] cs[k]).0.name@ != (
            #[trigger] cs[l]).0.name@ by {
                assert(iv[k].1.name != iv[l].1.name);
            }
        }
        if spec_cells_names_distinct(cs) {
            assert forall|k: int, l: int|
                0 <= k < l < iv.len() implies (#[trigger] iv[k]).1.name != (
            #[trigger] iv[l]).1.name by {
                assert(cs[k].0.name@ != cs[l].0.name@);
            }
        }
    }
    assert(spec_images_resolvable(iv) == spec_cells_resolvable(cs)) by {
        if spec_images_resolvable(iv) {
            assert forall|k: int, j: int|
                0 <= k < cs.len() && 0 <= j < cs[k].1@.len() implies (exists|l: int|
                0 <= l < cs.len() && (#[trigger] cs[l]).0.name@ == (
                #[trigger] cs[k].1@[j]).refed_struc_name@) by {
                let l0 = choose|l0: int|
                    0 <= l0 < iv.len() && (#[trigger] iv[l0]).1.name == iv[k].1.refs[j].name;
                assert(cs[l0].0.name@ == cs[k].1@[j].refed_struc_name@);
            }
        }
        if spec_cells_resolvable(cs) {
            assert forall|k: int, j: int|
                0 <= k < iv.len() && 0 <= j < iv[k].1.refs.len() implies (exists|l: int|
                0 <= l < iv.len() && (#[trigger] iv[l]).1.name == (
                #[trigger] iv[k].1.refs[j]).name) by {
                let l0 = choose|l0: int|
                    0 <= l0 < cs.len() && (#[trigger] cs[l0]).0.name@
                        == cs[k].1@[j].refed_struc_name@;
                assert(iv[l0].1.name == iv[k].1.refs[j].name);
            }
        }
    }
    assert forall|a: int, b: int| #[trigger] spec_images_edge(iv, a, b) == spec_cells_edge(
        cs,
        a,
        b,
    ) by {
        if spec_images_edge(iv, a, b) {
            let j0 = choose|j0: int|
                0 <= j0 < iv[a].1.refs.len() && (#[trigger] iv[a].1.refs[j0]).name == iv[b].1.name;
            assert((#[trigger] cs[a].1@[j0]).refed_struc_name@ == cs[b].0.name@);
            assert(spec_cells_edge(cs, a, b));
        }
        if spec_cells_edge(cs, a, b) {
            let j0 = choose|j0: int|
                0 <= j0 < cs[a].1@.len() && (#[trigger] cs[a].1@[j0]).refed_struc_name@
                    == cs[b].0.name@;
            assert((#[trigger] iv[a].1.refs[j0]).name == iv[b].1.name);
            assert(spec_images_edge(iv, a, b));
        }
    }
    assert(spec_images_acyclic(iv) == spec_cells_acyclic(cs)) by {
        if spec_images_acyclic(iv) {
            assert forall|a: int, b: int| #[trigger] spec_cells_edge(cs, a, b) implies
                !spec_cells_reaches(cs, b, a) by {
                if spec_cells_reaches(cs, b, a) {
                    let pp = choose|pp: Seq<int>|
                        spec_cells_path(cs, pp) && pp.first() == b && pp.last() == a;
                    assert forall|i: int| 0 <= i < pp.len() - 1 implies #[trigger] spec_images_edge(
                        iv,
                        pp[i],
                        pp[i + 1],
                    ) by {
                        assert(spec_cells_edge(cs, pp[i], pp[i + 1]));
                    }
                    assert(spec_images_path(iv, pp));
                    assert(spec_images_reaches(iv, b, a));
                    assert(spec_images_edge(iv, a, b));
                    assert(false);
                }
            }
        }
        if spec_cells_acyclic(cs) {
            assert forall|a: int, b: int| #[trigger] spec_images_edge(iv, a, b) implies
                !spec_images_reaches(iv, b, a) by {
                if spec_images_reaches(iv, b, a) {
                    let pp = choose|pp: Seq<int>|
                        spec_images_path(iv, pp) && pp.first() == b && pp.last() == a;
                    assert forall|i: int| 0 <= i < pp.len() - 1 implies #[trigger] spec_cells_edge(
                        cs,
                        pp[i],
                        pp[i + 1],
                    ) by {
                        assert(spec_images_edge(iv, pp[i], pp[i + 1]));
                    }
                    assert(spec_cells_path(cs, pp));
                    assert(spec_cells_reaches(cs, b, a));
                    assert(spec_cells_edge(cs, a, b));
                    assert(false);
                }
            }
        }
    }
}

/// Rebuilt reference `j` of slot `k` carries the fields of reference
/// image `m - 1 - j` of the cell image the slot holds, and aims at a
/// held cell whose name is the image's target name.
pub open spec fn spec_lib_slot_ref_matches(lib: Lib, lv: LibV, k: int, j: int) -> bool {
    let imgs = lv.cells[lv.cells.len() - 1 - k].1.refs;
    let img = imgs[imgs.len() - 1 - j];
    let rr = lib.spec_at(k).refs@[j];
    &&& rr.refed_struc < lib.spec_len()
    &&& lib.spec_live(rr.refed_struc as int)
    &&& lib.spec_at(rr.refed_struc as int).name@ == img.name
    &&& rr.reflection_x == img.reflection_x
    &&& rr.magnific == img.magnific
    &&& rr.angle == img.angle
    &&& rr.origin == img.origin
    &&& rr.row == img.row
    &&& rr.column == img.column
    &&& rr.spaceing_row == img.spaceing_row
    &&& rr.spaceing_col == img.spaceing_col
    &&& rr.property@ == img.props
}

/// Parse a whole record stream into a library.
///
/// The stream must start with HEADER then BGNLIB, carry the
/// library-level records and the cells, and end with ENDLIB.  On
/// success the returned library upholds the format's invariants: names
/// unique, references resolved, reference graph acyclic.
pub fn parse_gds(records: &[PosRecord]) -> (r: Result<Lib, GDSIIError>)
    ensures
        r is Ok ==> r->Ok_0.wf(),
        r is Ok ==> records@.len() >= 2 && records@[1].0 is BgnLib && r->Ok_0.spec_date()
            == records@[1].0->BgnLib_0,
        r is Ok ==> r->Ok_0.spec_len() == spec_count_bgnstr(spec_records_view(records@), records@.len() as int),
        (r is Ok || (r is Err && (r->Err_0.kind == GdsErrorKind::DuplicateCellName || r->Err_0.kind
            == GdsErrorKind::UnresolvedReference || r->Err_0.kind == GdsErrorKind::CycleDetected)))
            <==> spec_gds_accepts(spec_records_view(records@)),
        r is Ok ==> {
            let lv = spec_parse_lib(spec_records_view(records@), 2, spec_lib_init())->Some_0;
            &&& r->Ok_0.spec_name() == lv.name
            &&& r->Ok_0.spec_dbu_in_user() == lv.dbu_in_user
            &&& r->Ok_0.spec_precision() == lv.precision
            &&& r->Ok_0.spec_len() == lv.cells.len()
            &&& forall|k: int|
                0 <= k < lv.cells.len() ==> #[trigger] spec_lib_slot_matches(r->Ok_0, lv, k)
            &&& forall|k: int, j: int|
                0 <= k < lv.cells.len() && 0 <= j < r->Ok_0.spec_at(k).refs@.len()
                    ==> #[trigger] spec_lib_slot_ref_matches(r->Ok_0, lv, k, j)
        },
        (spec_gds_accepts(spec_records_view(records@)) && {
            let lv = spec_parse_lib(spec_records_view(records@), 2, spec_lib_init())->Some_0;
            spec_images_names_distinct(lv.cells) && spec_images_resolvable(lv.cells)
                && spec_images_acyclic(lv.cells)
        }) ==> r is Ok,
        r is Ok ==> {
            let lv = spec_parse_lib(spec_records_view(records@), 2, spec_lib_init())->Some_0;
            spec_images_names_distinct(lv.cells) && spec_images_resolvable(lv.cells)
                && spec_images_acyclic(lv.cells)
        },
        (r is Err && r->Err_0.kind == GdsErrorKind::DuplicateCellName) ==> spec_gds_accepts(spec_records_view(records@)) && !spec_images_names_distinct(spec_parse_lib(spec_records_view(records@), 2, spec_lib_init())->Some_0.cells),
        (r is Err && r->Err_0.kind == GdsErrorKind::UnresolvedReference) ==> spec_gds_accepts(spec_records_view(records@)) && !spec_images_resolvable(spec_parse_lib(spec_records_view(records@), 2, spec_lib_init())->Some_0.cells),
        (r is Err && r->Err_0.kind == GdsErrorKind::CycleDetected) ==> spec_gds_accepts(spec_records_view(records@))
            && !spec_images_acyclic(spec_parse_lib(spec_records_view(records@), 2, spec_lib_init())->Some_0.cells),
        r is Err && r->Err_0.kind == GdsErrorKind::OrphanProperty ==> r->Err_0.offset is Some && (
        exists|k: int|
            0 <= k < records@.len() && (#[trigger] records@[k]).0 is PropValue && records@[k].1
                == r->Err_0.offset->Some_0),
{
    let n = records.len();
    if n < 2 {
        return Err(GDSIIError::of_kind(GdsErrorKind::MalformedRecord, "no valid gds lib found"));
    }
    match &records[0].0 {
        Record::Header { .. } => {},
        _ => {
            return Err(
                GDSIIError::at_offset(GdsErrorKind::MalformedRecord, "not valid gds lib", records[0].1),
            );
        },
    }
    let date = match &records[1].0 {
        Record::BgnLib(d) => *d,
        _ => {
            return Err(
                GDSIIError::at_offset(GdsErrorKind::MalformedRecord, "not valid gds lib", records[1].1),
            );
        },
    };
    let mut lib_name: Vec<u8> = Vec::new();
    let mut dbu_in_user = GdsReal::milli();
    let mut precision = GdsReal::nano();
    let mut cells: Vec<(Struc, Vec<FakeRef>)> = Vec::new();
    let mut i: usize = 2;
    proof {
        assert(spec_count_bgnstr(spec_records_view(records@), 0) == 0);
        assert(spec_count_bgnstr(spec_records_view(records@), 1) == 0);
        assert(spec_count_bgnstr(spec_records_view(records@), 2) == 0);
        assert(lib_name@ =~= Seq::<u8>::empty());
        assert(cells@.map_values(|c: (Struc, Vec<FakeRef>)| spec_cell_pair_view(c)) =~= Seq::<
            (Date, StrucV),
        >::empty());
    }
    while i < n
        invariant
            n == records@.len(),
            2 <= i <= n,
            records@[0].0 is Header,
            records@[1].0 is BgnLib && date == records@[1].0->BgnLib_0,
            cells@.len() == spec_count_bgnstr(spec_records_view(records@), i as int),
            forall|j: int| 0 <= j < cells@.len() ==> (#[trigger] cells@[j]).0.refs@.len() == 0,
            spec_parse_lib(spec_records_view(records@), 2, spec_lib_init()) == spec_parse_lib(
                spec_records_view(records@),
                i as int,
                LibV {
                    name: lib_name@,
                    dbu_in_user,
                    precision,
                    cells: cells@.map_values(|c: (Struc, Vec<FakeRef>)| spec_cell_pair_view(c)),
                },
            ),
        decreases n - i,
    {
        match &records[i].0 {
            Record::LibName(s) => {
                lib_name = s.clone();
                i = i + 1;
            },
            Record::Units { dbu_in_user: a, dbu_in_meter: b } => {
                dbu_in_user = *a;
                precision = *b;
                i = i + 1;
            },
            Record::BgnStr(d) => {
                let cell_date = *d;
                let ghost cells_before = cells@;
                let (struc, fakerefs, next) = parse_struc(records, i + 1, &cell_date)?;
                let ghost struc0 = struc;
                let ghost frs0 = fakerefs;
                cells.push((struc, fakerefs));
                proof {
                    assert forall|j: int|
                        0 <= j < cells@.len() implies (#[trigger] cells@[j]).0.refs@.len()
                        == 0 by {
                        if j < cells_before.len() {
                            assert(cells@[j] == cells_before[j]);
                        } else {
                            assert(cells@[j].0 == struc0);
                            assert(struc0.refs@.len() == 0);
                        }
                    }
                    let (sv, nxt) = spec_parse_struc(
                        spec_records_view(records@),
                        i as int + 1,
                        spec_struc_init(),
                    )->Some_0;
                    assert(spec_cell_pair_view((struc0, frs0)) == (cell_date, sv));
                    assert(cells@.map_values(|c: (Struc, Vec<FakeRef>)| spec_cell_pair_view(c))
                        =~= cells_before.map_values(
                        |c: (Struc, Vec<FakeRef>)| spec_cell_pair_view(c),
                    ).push((cell_date, sv)));
                }
                i = next;
            },
            Record::EndLib => {
                if i + 1 != n {
                    return Err(
                        GDSIIError::at_offset(
                            GdsErrorKind::MalformedRecord,
                            "records after ENDLIB",
                            records[i].1,
                        ),
                    );
                }
                proof {
                    assert(spec_count_bgnstr(spec_records_view(records@), n as int) == spec_count_bgnstr(
                        spec_records_view(records@),
                        i as int,
                    ));
                }
                let ghost lv = spec_parse_lib(spec_records_view(records@), 2, spec_lib_init())->Some_0;
                let ghost cells1 = cells@;
                let result = build_lib(lib_name, dbu_in_user, precision, date, cells);
                proof {
                    assert(lv.cells == cells1.map_values(
                        |c: (Struc, Vec<FakeRef>)| spec_cell_pair_view(c),
                    ));
                    lemma_images_cells_equiv(cells1, lv.cells);
                    assert forall|i: int, j: int|
                        0 <= i < cells1.len() && 0 <= j < cells1[i].1@.len() implies (
                    #[trigger] lv.cells[i].1.refs[j]) == spec_fakeref_view(
                        #[trigger] cells1[i].1@[j],
                    ) by {
                        assert(lv.cells[i] == spec_cell_pair_view(cells1[i]));
                    }
                    if result is Ok {
                        let built = result->Ok_0;
                        assert forall|k: int|
                            0 <= k < lv.cells.len() implies #[trigger] spec_lib_slot_matches(
                            built,
                            lv,
                            k,
                        ) by {
                            assert(spec_slot_matches(built, cells1, k));
                            assert(spec_slot_refs_rebuilt(built, cells1, k));
                            assert(lv.cells[lv.cells.len() - 1 - k] == spec_cell_pair_view(
                                cells1[cells1.len() - 1 - k],
                            ));
                        }
                        assert forall|k: int, j: int|
                            0 <= k < lv.cells.len() && 0 <= j < built.spec_at(k).refs@.len()
                                implies #[trigger] spec_lib_slot_ref_matches(
                                built,
                                lv,
                                k,
                                j,
                            ) by {
                            assert(cells1.len() == lv.cells.len());
                            assert(0 <= k < cells1.len());
                            assert(0 <= j < built.spec_at(k).refs@.len());
                            assert(spec_slot_ref_matches(built, cells1, k, j));
                            assert(spec_slot_matches(built, cells1, k));
                            assert(spec_slot_refs_rebuilt(built, cells1, k));
                            let imgs0 = cells1[cells1.len() - 1 - k].1@;
                            assert(lv.cells[lv.cells.len() - 1 - k] == spec_cell_pair_view(
                                cells1[cells1.len() - 1 - k],
                            ));
                            assert(lv.cells[lv.cells.len() - 1 - k].1.refs[imgs0.len() - 1 - j]
                                == spec_fakeref_view(imgs0[imgs0.len() - 1 - j]));
                        }
                    }
                }
                return result;
            },
            _ => {
                return Err(
                    GDSIIError::at_offset(
                        GdsErrorKind::MalformedRecord,
                        "unexpected record in library",
                        records[i].1,
                    ),
                );
            },
        }
    }
    Err(GDSIIError::of_kind(GdsErrorKind::MalformedRecord, "no valid gds lib found"))
}

/// Every frame of the buffer decodes under the record table.
pub open spec fn spec_bytes_decodes(buff: Seq<u8>) -> bool {
    &&& crate::gds_reader::spec_frames(buff, 0) is Some
    &&& forall|k: int|
        0 <= k < crate::gds_reader::spec_frames(buff, 0)->Some_0.len()
            ==> crate::gds_record::spec_parse_record(
            buff.subrange(
                (#[trigger] crate::gds_reader::spec_frames(buff, 0)->Some_0[k]).0,
                crate::gds_reader::spec_frames(buff, 0)->Some_0[k].1,
            ),
        ) is Some
}

/// The record images a framed buffer decodes to, one per frame, each
/// with its frame's start offset.
pub open spec fn spec_bytes_records(buff: Seq<u8>) -> Seq<PosRecordV> {
    let f = crate::gds_reader::spec_frames(buff, 0)->Some_0;
    Seq::new(
        f.len(),
        |k: int|
            (
                crate::gds_record::spec_parse_record(buff.subrange(f[k].0, f[k].1))->Some_0,
                f[k].0,
            ),
    )
}

/// Parse a whole byte buffer: frame it, decode every record, then run
/// the structural parse and reference resolution.
///
/// Succeeds exactly when the buffer frames, every frame decodes, the
/// decoded stream is accepted by the structural walk, and its cell
/// images have distinct names, resolvable targets and no name-level
/// reference cycle; the returned library then matches the images.
#[verifier::rlimit(100)]
#[verifier::spinoff_prover]
pub fn parse_gds_bytes(buff: &[u8]) -> (r: Result<Lib, GDSIIError>)
    ensures
        r is Ok ==> r->Ok_0.wf(),
        r is Ok <==> (spec_bytes_decodes(buff@) && spec_gds_accepts(spec_bytes_records(buff@)) && {
            let lv = spec_parse_lib(spec_bytes_records(buff@), 2, spec_lib_init())->Some_0;
            spec_images_names_distinct(lv.cells) && spec_images_resolvable(lv.cells)
                && spec_images_acyclic(lv.cells)
        }),
        r is Ok ==> {
            let lv = spec_parse_lib(spec_bytes_records(buff@), 2, spec_lib_init())->Some_0;
            &&& r->Ok_0.spec_name() == lv.name
            &&& r->Ok_0.spec_dbu_in_user() == lv.dbu_in_user
            &&& r->Ok_0.spec_precision() == lv.precision
            &&& r->Ok_0.spec_len() == lv.cells.len()
            &&& (forall|k: int|
                0 <= k < lv.cells.len() ==> #[trigger] spec_lib_slot_matches(r->Ok_0, lv, k))
            &&& (forall|k: int, j: int|
                0 <= k < lv.cells.len() && 0 <= j < r->Ok_0.spec_at(k).refs@.len()
                    ==> #[trigger] spec_lib_slot_ref_matches(r->Ok_0, lv, k, j))
        },
{
    let frames = crate::gds_reader::frame_records(buff)?;
    let ghost fv = crate::gds_reader::spec_frames(buff@, 0)->Some_0;
    let mut records: Vec<PosRecord> = Vec::new();
    let mut i: usize = 0;
    let n = frames.len();
    while i < n
        invariant
            n == frames@.len(),
            i <= n,
            fv == crate::gds_reader::frames_view(frames@),
            fv == crate::gds_reader::spec_frames(buff@, 0)->Some_0,
            crate::gds_reader::spec_frames(buff@, 0) is Some,
            forall|k: int|
                0 <= k < frames@.len() ==> (#[trigger] frames@[k]).0 < frames@[k].1
                    <= buff@.len(),
            records@.len() == i,
            forall|k: int|
                0 <= k < i ==> (#[trigger] records@[k]).1 == frames@[k].0 && Some(
                    records@[k].0@,
                ) == crate::gds_record::spec_parse_record(
                    buff@.subrange(frames@[k].0 as int, frames@[k].1 as int),
                ),
        decreases n - i,
    {
        let (s, e) = frames[i];
        let slice = vstd::slice::slice_subrange(buff, s, e);
        let rec = match crate::gds_reader::record_type(slice) {
            Ok(v) => v,
            Err(mut e2) => {
                proof {
                    // this very frame does not decode
                    assert(fv[i as int].0 == frames@[i as int].0 as int);
                    assert(!spec_bytes_decodes(buff@));
                }
                // tie the failure to the frame it came from
                if e2.offset.is_none() {
                    e2.offset = Some(s);
                }
                return Err(e2);
            },
        };
        records.push((rec, s));
        i = i + 1;
    }
    proof {
        assert(spec_bytes_decodes(buff@)) by {
            assert forall|k: int| 0 <= k < fv.len() implies crate::gds_record::spec_parse_record(
                buff@.subrange((#[trigger] fv[k]).0, fv[k].1),
            ) is Some by {
                assert(fv[k].0 == frames@[k].0 as int && fv[k].1 == frames@[k].1 as int);
                assert(records@[k].1 == frames@[k].0);
                assert(Some(records@[k].0@) == crate::gds_record::spec_parse_record(
                    buff@.subrange(frames@[k].0 as int, frames@[k].1 as int),
                ));
            }
        }
        assert(spec_records_view(records@) =~= spec_bytes_records(buff@)) by {
            assert forall|k: int|
                0 <= k < records@.len() implies #[trigger] spec_records_view(records@)[k]
                == spec_bytes_records(buff@)[k] by {
                assert(fv[k].0 == frames@[k].0 as int && fv[k].1 == frames@[k].1 as int);
                assert(spec_records_view(records@)[k] == (records@[k].0@, records@[k].1 as int));
            }
        }
    }
    if records.len() == 0 {
        return Err(
            GDSIIError::of_kind(
                GdsErrorKind::MalformedRecord,
                "not valid gds file, no any valid records found",
            ),
        );
    }
    parse_gds(records.as_slice())
}

} // verus!
