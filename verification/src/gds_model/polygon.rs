//! A filled polygon (GDSII boundary element).

use vstd::prelude::*;
use crate::gds_error::{GDSIIError, GdsErrorKind};
use crate::gds_model::points::Points;
use crate::gds_model::property::{spec_props_bytes, spec_props_ok, Property};
use crate::gds_record::{BOUNDARY, DATATYPE, ENDEL, LAYER, XY};
use crate::gds_writer::{
    emit_record, push_i16_be, push_i32_be, push_points, spec_i16_bytes, spec_i32_bytes,
    spec_points_bytes, spec_record_bytes,
};

verus! {

/// A polygon on a layer: an ordered vertex list in database units and a
/// property list.  The serialized form repeats the first vertex at the
/// end to close the outline.
#[derive(Clone, Debug)]
pub struct Polygon {
    pub layer: i16,
    pub datatype: i16,
    pub points: Vec<Points>,
    pub property: Property,
}

impl Polygon {
    /// What the writer accepts: layer and datatype inside the format's
    /// range, at most 8190 vertices, and acceptable properties.
    pub open spec fn spec_valid(&self) -> bool {
        &&& 0 <= self.layer <= 255
        &&& 0 <= self.datatype <= 255
        &&& self.points@.len() <= 8190
        &&& spec_props_ok(self.property@)
    }

    /// The XY payload: every vertex, then the first vertex repeated.
    pub open spec fn spec_xy_payload(&self) -> Seq<u8> {
        spec_points_bytes(self.points@) + (if self.points@.len() > 0 {
            spec_i32_bytes(self.points@[0].x as int) + spec_i32_bytes(self.points@[0].y as int)
        } else {
            Seq::empty()
        })
    }

    /// The record sequence of the whole element.
    pub open spec fn spec_bytes(&self) -> Seq<u8> {
        spec_record_bytes(BOUNDARY, Seq::empty()) + spec_record_bytes(
            LAYER,
            spec_i16_bytes(self.layer as int),
        ) + spec_record_bytes(DATATYPE, spec_i16_bytes(self.datatype as int)) + spec_record_bytes(
            XY,
            self.spec_xy_payload(),
        ) + spec_props_bytes(self.property@) + spec_record_bytes(ENDEL, Seq::empty())
    }

    /// An empty polygon on layer zero.
    pub fn new() -> (r: Polygon)
        ensures
            r.layer == 0 && r.datatype == 0,
            r.points@.len() == 0,
            r.property@.len() == 0,
    {
        Polygon { layer: 0, datatype: 0, points: Vec::new(), property: Property::new() }
    }

    /// The records of this element.  Fails exactly when a layer or
    /// datatype leaves the range 0 to 255, more than 8190 vertices are
    /// held, or a property is unacceptable.
    pub fn to_gds(&self) -> (r: Result<Vec<u8>, GDSIIError>)
        ensures
            r is Ok <==> self.spec_valid(),
            r is Ok ==> r->Ok_0@ == self.spec_bytes(),
            r is Err ==> r->Err_0.kind == GdsErrorKind::NameConstraint,
    {
        if self.layer < 0 || self.layer > 255 {
            return Err(
                GDSIIError::of_kind(
                    GdsErrorKind::NameConstraint,
                    "Gds polygon layer out of range [0:255]",
                ),
            );
        }
        if self.datatype < 0 || self.datatype > 255 {
            return Err(
                GDSIIError::of_kind(
                    GdsErrorKind::NameConstraint,
                    "Gds polygon datatype out of range [0:255]",
                ),
            );
        }
        if self.points.len() > 8190 {
            return Err(
                GDSIIError::of_kind(
                    GdsErrorKind::NameConstraint,
                    "Gds polygons can not have points more than 8190 count",
                ),
            );
        }
        let props = match self.property.to_gds() {
            Ok(v) => v,
            Err(e) => {
                return Err(e);
            },
        };
        let none: Vec<u8> = Vec::new();
        let mut data: Vec<u8> = Vec::new();
        emit_record(&mut data, BOUNDARY, none.as_slice());
        let mut layer_payload: Vec<u8> = Vec::new();
        push_i16_be(&mut layer_payload, self.layer);
        emit_record(&mut data, LAYER, layer_payload.as_slice());
        let mut datatype_payload: Vec<u8> = Vec::new();
        push_i16_be(&mut datatype_payload, self.datatype);
        emit_record(&mut data, DATATYPE, datatype_payload.as_slice());
        let mut xy: Vec<u8> = Vec::new();
        push_points(&mut xy, &self.points);
        if self.points.len() > 0 {
            push_i32_be(&mut xy, self.points[0].x);
            push_i32_be(&mut xy, self.points[0].y);
        }
        proof {
            assert(xy@ =~= self.spec_xy_payload());
        }
        emit_record(&mut data, XY, xy.as_slice());
        data.extend_from_slice(props.as_slice());
        emit_record(&mut data, ENDEL, none.as_slice());
        proof {
            assert(data@ =~= self.spec_bytes());
        }
        Ok(data)
    }
}

} // verus!
