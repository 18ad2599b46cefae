//! A wire path (GDSII path element), with its four end styles.

use vstd::prelude::*;
use crate::gds_error::{GDSIIError, GdsErrorKind};
use crate::gds_model::points::Points;
use crate::gds_model::property::{spec_props_bytes, spec_props_ok, Property};
use crate::gds_record::{BGNEXTN, DATATYPE, ENDEL, ENDEXTN, LAYER, PATH, PATHTYPE, WIDTH, XY};
use crate::gds_writer::{
    emit_record, push_i16_be, push_i32_be, push_points, spec_i16_bytes, spec_i32_bytes,
    spec_points_bytes, spec_record_bytes,
};

verus! {

/// How a path's two ends are drawn.
#[derive(Clone, Copy, Debug, PartialEq, Eq, Structural)]
pub enum PathEndType {
    /// Flush square end at the vertex.
    Square,
    /// Round end centred on the vertex.
    Round,
    /// Square end extended by half the width.
    SquareHalfWidth,
    /// Square end extended by the explicit begin/end distances.
    SquareExtend,
}

impl PathEndType {
    /// The PATHTYPE value of this end style.
    pub open spec fn spec_gds_num(self) -> i16 {
        match self {
            PathEndType::Square => 0,
            PathEndType::Round => 1,
            PathEndType::SquareHalfWidth => 2,
            PathEndType::SquareExtend => 4,
        }
    }

    /// The PATHTYPE value of this end style.
    pub fn gds_num(&self) -> (r: i16)
        ensures
            r == self.spec_gds_num(),
    {
        match self {
            PathEndType::Square => 0,
            PathEndType::Round => 1,
            PathEndType::SquareHalfWidth => 2,
            PathEndType::SquareExtend => 4,
        }
    }

    /// The end style a PATHTYPE value names.  Fails exactly on the
    /// values no end style has.
    pub fn from_i16(value: i16) -> (r: Result<PathEndType, GDSIIError>)
        ensures
            r is Ok <==> (value == 0 || value == 1 || value == 2 || value == 4),
            r is Ok ==> r->Ok_0.spec_gds_num() == value,
            r is Err ==> r->Err_0.kind == GdsErrorKind::MalformedRecord,
    {
        match value {
            0 => Ok(PathEndType::Square),
            1 => Ok(PathEndType::Round),
            2 => Ok(PathEndType::SquareHalfWidth),
            4 => Ok(PathEndType::SquareExtend),
            _ => Err(GDSIIError::new("not valid path end type value")),
        }
    }
}

/// A path on a layer: vertex centre line, width, end style, and for the
/// explicit-extend style the two extension distances, all in database
/// units.
#[derive(Clone, Debug)]
pub struct Path {
    pub layer: i16,
    pub datatype: i16,
    pub width: i32,
    pub end_type: PathEndType,
    pub points: Vec<Points>,
    pub property: Property,
    pub extend_begin: i32,
    pub extend_end: i32,
}

impl Path {
    /// What the writer accepts: ranges as for polygons.
    pub open spec fn spec_valid(&self) -> bool {
        &&& 0 <= self.layer <= 255
        &&& 0 <= self.datatype <= 255
        &&& self.points@.len() <= 8190
        &&& spec_props_ok(self.property@)
    }

    /// The record sequence of the whole element.  BGNEXTN and ENDEXTN
    /// appear only for the explicit-extend end style.
    pub open spec fn spec_bytes(&self) -> Seq<u8> {
        spec_record_bytes(PATH, Seq::empty()) + spec_record_bytes(
            LAYER,
            spec_i16_bytes(self.layer as int),
        ) + spec_record_bytes(DATATYPE, spec_i16_bytes(self.datatype as int)) + spec_record_bytes(
            PATHTYPE,
            spec_i16_bytes(self.end_type.spec_gds_num() as int),
        ) + spec_record_bytes(WIDTH, spec_i32_bytes(self.width as int)) + (if self.end_type
            == PathEndType::SquareExtend {
            spec_record_bytes(BGNEXTN, spec_i32_bytes(self.extend_begin as int))
                + spec_record_bytes(ENDEXTN, spec_i32_bytes(self.extend_end as int))
        } else {
            Seq::empty()
        }) + spec_record_bytes(XY, spec_points_bytes(self.points@)) + spec_props_bytes(
            self.property@,
        ) + spec_record_bytes(ENDEL, Seq::empty())
    }

    /// An empty path on layer zero with flush ends.
    pub fn new() -> (r: Path)
        ensures
            r.layer == 0 && r.datatype == 0 && r.width == 0,
            r.end_type == PathEndType::Square,
            r.points@.len() == 0,
            r.property@.len() == 0,
            r.extend_begin == 0 && r.extend_end == 0,
    {
        Path {
            layer: 0,
            datatype: 0,
            width: 0,
            end_type: PathEndType::Square,
            points: Vec::new(),
            property: Property::new(),
            extend_begin: 0,
            extend_end: 0,
        }
    }

    /// The records of this element.  Fails exactly when a layer or
    /// datatype leaves the range 0 to 255, more than 8190 vertices are
    /// held, or a property is unacceptable.
    pub fn to_gds(&self) -> (r: Result<Vec<u8>, GDSIIError>)
        ensures
            r is Ok <==> self.spec_valid(),
            r is Ok ==> r->Ok_0@ == self.spec_bytes(),
            r is Err ==> r->Err_0.kind == GdsErrorKind::NameConstraint,
    {
        if self.layer < 0 || self.layer > 255 {
            return Err(
                GDSIIError::of_kind(
                    GdsErrorKind::NameConstraint,
                    "Gds path layer out of range [0:255]",
                ),
            );
        }
        if self.datatype < 0 || self.datatype > 255 {
            return Err(
                GDSIIError::of_kind(
                    GdsErrorKind::NameConstraint,
                    "Gds path datatype out of range [0:255]",
                ),
            );
        }
        if self.points.len() > 8190 {
            return Err(
                GDSIIError::of_kind(
                    GdsErrorKind::NameConstraint,
                    "Gds path can not have points more than 8190 count",
                ),
            );
        }
        let props = match self.property.to_gds() {
            Ok(v) => v,
            Err(e) => {
                return Err(e);
            },
        };
        let none: Vec<u8> = Vec::new();
        let mut data: Vec<u8> = Vec::new();
        emit_record(&mut data, PATH, none.as_slice());
        let mut layer_payload: Vec<u8> = Vec::new();
        push_i16_be(&mut layer_payload, self.layer);
        emit_record(&mut data, LAYER, layer_payload.as_slice());
        let mut datatype_payload: Vec<u8> = Vec::new();
        push_i16_be(&mut datatype_payload, self.datatype);
        emit_record(&mut data, DATATYPE, datatype_payload.as_slice());
        let mut endtype_payload: Vec<u8> = Vec::new();
        push_i16_be(&mut endtype_payload, self.end_type.gds_num());
        emit_record(&mut data, PATHTYPE, endtype_payload.as_slice());
        let mut width_payload: Vec<u8> = Vec::new();
        push_i32_be(&mut width_payload, self.width);
        emit_record(&mut data, WIDTH, width_payload.as_slice());
        if matches!(self.end_type, PathEndType::SquareExtend) {
            let mut bgn_payload: Vec<u8> = Vec::new();
            push_i32_be(&mut bgn_payload, self.extend_begin);
            emit_record(&mut data, BGNEXTN, bgn_payload.as_slice());
            let mut end_payload: Vec<u8> = Vec::new();
            push_i32_be(&mut end_payload, self.extend_end);
            emit_record(&mut data, ENDEXTN, end_payload.as_slice());
        }
        let mut xy: Vec<u8> = Vec::new();
        push_points(&mut xy, &self.points);
        emit_record(&mut data, XY, xy.as_slice());
        data.extend_from_slice(props.as_slice());
        emit_record(&mut data, ENDEL, none.as_slice());
        proof {
            assert(data@ =~= self.spec_bytes());
        }
        Ok(data)
    }
}

} // verus!
