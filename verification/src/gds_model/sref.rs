//! A placement of another cell (GDSII SREF or AREF element).

use vstd::prelude::*;
use crate::gds_error::{GDSIIError, GdsErrorKind};
use crate::gds_model::points::Points;
use crate::gds_model::property::{spec_props_bytes, spec_props_ok, Property};
use crate::gds_model::vector::Vector;
use crate::gds_real::{encode_real, spec_real_bytes, GdsReal};
use crate::gds_record::{ANGLE, AREF, COLROW, ENDEL, MAG, SNAME, SREF, STRANS, XY};
use crate::gds_writer::{
    emit_record, pad_even, push_i16_be, push_i32_be, push_u16_be, spec_i16_bytes, spec_i32_bytes,
    spec_pad_even, spec_record_bytes, spec_u16_bytes,
};

verus! {

/// A column or row span stays far inside the 64-bit range: a 32-bit
/// spacing times a 16-bit count.
proof fn lemma_span_bounds(a: int, b: int)
    requires
        -0x8000_0000 <= a <= 0x7FFF_FFFF,
        0 <= b < 0x8000,
    ensures
        -0x4000_0000_0000 <= a * b <= 0x4000_0000_0000,
{
    assert(-0x4000_0000_0000 <= a * b <= 0x4000_0000_0000) by (nonlinear_arith)
        requires
            -0x8000_0000 <= a <= 0x7FFF_FFFF,
            0 <= b < 0x8000,
    ;
}

/// A reference to another cell of the same library, by its stable slot
/// identifier.  A reference is an array exactly when its row or column
/// count is not zero; the serialized form then differs.  The angle is
/// kept as the eight-byte real the wire carries, in degrees
/// counterclockwise.
#[derive(Clone, Debug)]
pub struct Ref {
    pub refed_struc: usize,
    pub reflection_x: bool,
    pub magnific: GdsReal,
    pub angle: GdsReal,
    pub origin: Points,
    pub row: i16,
    pub column: i16,
    pub spaceing_row: Vector,
    pub spaceing_col: Vector,
    pub property: Property,
}

impl Ref {
    /// A single placement of the given cell at the origin, unscaled and
    /// unrotated.
    pub fn new(refto: usize) -> (r: Ref)
        ensures
            r.refed_struc == refto,
            !r.reflection_x,
            r.magnific == (GdsReal { neg: false, exp: 65, mant: 0x10_0000_0000_0000 }),
            r.angle == (GdsReal { neg: false, exp: 0, mant: 0 }),
            r.origin == (Points { x: 0, y: 0 }),
            r.row == 0 && r.column == 0,
            r.spaceing_row == (Vector { x: 0, y: 0 }),
            r.spaceing_col == (Vector { x: 0, y: 0 }),
            r.property@.len() == 0,
    {
        Ref {
            refed_struc: refto,
            reflection_x: false,
            magnific: GdsReal { neg: false, exp: 65, mant: 0x10_0000_0000_0000 },
            angle: GdsReal { neg: false, exp: 0, mant: 0 },
            origin: Points { x: 0, y: 0 },
            row: 0,
            column: 0,
            spaceing_row: Vector { x: 0, y: 0 },
            spaceing_col: Vector { x: 0, y: 0 },
            property: Property::new(),
        }
    }

    /// An array placement exactly when a row or column count is set.
    pub open spec fn spec_is_array(&self) -> bool {
        self.row != 0 || self.column != 0
    }

    /// The second XY point of an array: the origin displaced by the
    /// whole column span.
    pub open spec fn spec_col_x(&self) -> int {
        self.origin.x + self.spaceing_col.x * self.column
    }

    pub open spec fn spec_col_y(&self) -> int {
        self.origin.y + self.spaceing_col.y * self.column
    }

    /// The third XY point of an array: the origin displaced by the whole
    /// row span.
    pub open spec fn spec_row_x(&self) -> int {
        self.origin.x + self.spaceing_row.x * self.row
    }

    pub open spec fn spec_row_y(&self) -> int {
        self.origin.y + self.spaceing_row.y * self.row
    }

    /// The displaced corner coordinates stay inside the 32-bit range the
    /// wire stores.
    pub open spec fn spec_in_range(&self) -> bool {
        &&& -0x8000_0000 <= self.spec_col_x() <= 0x7FFF_FFFF
        &&& -0x8000_0000 <= self.spec_col_y() <= 0x7FFF_FFFF
        &&& -0x8000_0000 <= self.spec_row_x() <= 0x7FFF_FFFF
        &&& -0x8000_0000 <= self.spec_row_y() <= 0x7FFF_FFFF
    }

    /// What the writer accepts of the reference itself; the target cell
    /// is resolved by the caller.
    pub open spec fn spec_valid(&self) -> bool {
        &&& self.magnific.wf()
        &&& self.angle.wf()
        &&& (self.spec_is_array() ==> 1 <= self.row && 1 <= self.column && self.spec_in_range())
        &&& spec_props_ok(self.property@)
    }

    /// The record sequence of the element, given the target cell's name.
    pub open spec fn spec_bytes(&self, sname: Seq<u8>) -> Seq<u8> {
        spec_record_bytes(
            if self.spec_is_array() {
                AREF
            } else {
                SREF
            },
            Seq::empty(),
        ) + spec_record_bytes(SNAME, spec_pad_even(sname)) + spec_record_bytes(
            STRANS,
            spec_u16_bytes(
                if self.reflection_x {
                    0x8000int
                } else {
                    0int
                },
            ),
        ) + spec_record_bytes(MAG, spec_real_bytes(self.magnific)) + spec_record_bytes(
            ANGLE,
            spec_real_bytes(self.angle),
        ) + (if self.spec_is_array() {
            spec_record_bytes(
                COLROW,
                spec_i16_bytes(self.column as int) + spec_i16_bytes(self.row as int),
            ) + spec_record_bytes(
                XY,
                spec_i32_bytes(self.origin.x as int) + spec_i32_bytes(self.origin.y as int)
                    + spec_i32_bytes(self.spec_col_x()) + spec_i32_bytes(self.spec_col_y())
                    + spec_i32_bytes(self.spec_row_x()) + spec_i32_bytes(self.spec_row_y()),
            )
        } else {
            spec_record_bytes(
                XY,
                spec_i32_bytes(self.origin.x as int) + spec_i32_bytes(self.origin.y as int),
            )
        }) + spec_props_bytes(self.property@) + spec_record_bytes(ENDEL, Seq::empty())
    }

    /// The records of this element, with the target cell's name for the
    /// SNAME record.  Fails exactly when an array has a non-positive row
    /// or column count, a displaced corner leaves the 32-bit range, a
    /// transform real does not fit its wire fields, or a property is
    /// unacceptable.
    #[verifier::rlimit(100)]
    pub fn to_gds(&self, sname: &Vec<u8>) -> (r: Result<Vec<u8>, GDSIIError>)
        requires
            sname@.len() <= 32,
        ensures
            r is Ok <==> self.spec_valid(),
            r is Ok ==> r->Ok_0@ == self.spec_bytes(sname@),
            r is Err ==> r->Err_0.kind == GdsErrorKind::NameConstraint || r->Err_0.kind
                == GdsErrorKind::InvalidFloat || r->Err_0.kind == GdsErrorKind::CoordinateOverflow,
    {
        if self.magnific.exp >= 128 || self.magnific.mant >= 0x100_0000_0000_0000
            || self.angle.exp >= 128 || self.angle.mant >= 0x100_0000_0000_0000 {
            return Err(
                GDSIIError::of_kind(
                    GdsErrorKind::InvalidFloat,
                    "Gds ref transform real does not fit eight byte format",
                ),
            );
        }
        let is_array = self.row != 0 || self.column != 0;
        let mut col_x: i32 = 0;
        let mut col_y: i32 = 0;
        let mut row_x: i32 = 0;
        let mut row_y: i32 = 0;
        if is_array {
            if self.row < 1 || self.column < 1 {
                return Err(
                    GDSIIError::of_kind(
                        GdsErrorKind::NameConstraint,
                        "Gds array ref needs positive row and column counts",
                    ),
                );
            }
            proof {
                lemma_span_bounds(self.spaceing_col.x as int, self.column as int);
                lemma_span_bounds(self.spaceing_col.y as int, self.column as int);
                lemma_span_bounds(self.spaceing_row.x as int, self.row as int);
                lemma_span_bounds(self.spaceing_row.y as int, self.row as int);
            }
            let cx: i64 = self.origin.x as i64 + (self.spaceing_col.x as i64) * (
            self.column as i64);
            let cy: i64 = self.origin.y as i64 + (self.spaceing_col.y as i64) * (
            self.column as i64);
            let rx: i64 = self.origin.x as i64 + (self.spaceing_row.x as i64) * (self.row as i64);
            let ry: i64 = self.origin.y as i64 + (self.spaceing_row.y as i64) * (self.row as i64);
            if cx < -0x8000_0000i64 || cx > 0x7FFF_FFFFi64 || cy < -0x8000_0000i64 || cy
                > 0x7FFF_FFFFi64 || rx < -0x8000_0000i64 || rx > 0x7FFF_FFFFi64 || ry
                < -0x8000_0000i64 || ry > 0x7FFF_FFFFi64 {
                return Err(
                    GDSIIError::of_kind(
                        GdsErrorKind::CoordinateOverflow,
                        "Gds array ref corner leaves the 32-bit coordinate range",
                    ),
                );
            }
            col_x = cx as i32;
            col_y = cy as i32;
            row_x = rx as i32;
            row_y = ry as i32;
        }
        let props = match self.property.to_gds() {
            Ok(v) => v,
            Err(e) => {
                return Err(e);
            },
        };
        let none: Vec<u8> = Vec::new();
        let mut data: Vec<u8> = Vec::new();
        if is_array {
            emit_record(&mut data, AREF, none.as_slice());
        } else {
            emit_record(&mut data, SREF, none.as_slice());
        }
        let mut name_payload = sname.clone();
        pad_even(&mut name_payload);
        emit_record(&mut data, SNAME, name_payload.as_slice());
        let mut strans_payload: Vec<u8> = Vec::new();
        push_u16_be(&mut strans_payload, if self.reflection_x {
            0x8000
        } else {
            0
        });
        emit_record(&mut data, STRANS, strans_payload.as_slice());
        let mut mag_payload: Vec<u8> = Vec::new();
        encode_real(self.magnific, &mut mag_payload);
        emit_record(&mut data, MAG, mag_payload.as_slice());
        let mut angle_payload: Vec<u8> = Vec::new();
        encode_real(self.angle, &mut angle_payload);
        emit_record(&mut data, ANGLE, angle_payload.as_slice());
        if is_array {
            let mut colrow_payload: Vec<u8> = Vec::new();
            push_i16_be(&mut colrow_payload, self.column);
            push_i16_be(&mut colrow_payload, self.row);
            emit_record(&mut data, COLROW, colrow_payload.as_slice());
            let mut xy: Vec<u8> = Vec::new();
            push_i32_be(&mut xy, self.origin.x);
            push_i32_be(&mut xy, self.origin.y);
            push_i32_be(&mut xy, col_x);
            push_i32_be(&mut xy, col_y);
            push_i32_be(&mut xy, row_x);
            push_i32_be(&mut xy, row_y);
            emit_record(&mut data, XY, xy.as_slice());
        } else {
            let mut xy: Vec<u8> = Vec::new();
            push_i32_be(&mut xy, self.origin.x);
            push_i32_be(&mut xy, self.origin.y);
            emit_record(&mut data, XY, xy.as_slice());
        }
        data.extend_from_slice(props.as_slice());
        emit_record(&mut data, ENDEL, none.as_slice());
        proof {
            assert(data@ =~= self.spec_bytes(sname@));
        }
        Ok(data)
    }
}

/// A reference as it stands during parsing: the target cell recorded by
/// name only, before all cells are known and identifiers can be
/// resolved.
#[derive(Clone, Debug)]
pub struct FakeRef {
    pub refed_struc_name: Vec<u8>,
    pub reflection_x: bool,
    pub magnific: GdsReal,
    pub angle: GdsReal,
    pub origin: Points,
    pub row: i16,
    pub column: i16,
    pub spaceing_row: Vector,
    pub spaceing_col: Vector,
    pub property: Property,
}

impl FakeRef {
    /// A pending single placement of a yet-unresolved cell.
    pub fn new() -> (r: FakeRef)
        ensures
            r.refed_struc_name@ =~= Seq::<u8>::empty(),
            !r.reflection_x,
            r.magnific == (GdsReal { neg: false, exp: 65, mant: 0x10_0000_0000_0000 }),
            r.angle == (GdsReal { neg: false, exp: 0, mant: 0 }),
            r.origin == (Points { x: 0, y: 0 }),
            r.row == 0 && r.column == 0,
            r.spaceing_row == (Vector { x: 0, y: 0 }),
            r.spaceing_col == (Vector { x: 0, y: 0 }),
            r.property@.len() == 0,
    {
        FakeRef {
            refed_struc_name: Vec::new(),
            reflection_x: false,
            magnific: GdsReal { neg: false, exp: 65, mant: 0x10_0000_0000_0000 },
            angle: GdsReal { neg: false, exp: 0, mant: 0 },
            origin: Points { x: 0, y: 0 },
            row: 0,
            column: 0,
            spaceing_row: Vector { x: 0, y: 0 },
            spaceing_col: Vector { x: 0, y: 0 },
            property: Property::new(),
        }
    }

    /// The real reference this pending one stands for, once the target
    /// cell's slot is known.
    pub fn create_true_ref(self, struc: usize) -> (r: Ref)
        ensures
            r.refed_struc == struc,
            r.reflection_x == self.reflection_x,
            r.magnific == self.magnific,
            r.angle == self.angle,
            r.origin == self.origin,
            r.row == self.row && r.column == self.column,
            r.spaceing_row == self.spaceing_row && r.spaceing_col == self.spaceing_col,
            r.property@ == self.property@,
    {
        Ref {
            refed_struc: struc,
            reflection_x: self.reflection_x,
            magnific: self.magnific,
            angle: self.angle,
            origin: self.origin,
            row: self.row,
            column: self.column,
            spaceing_row: self.spaceing_row,
            spaceing_col: self.spaceing_col,
            property: self.property,
        }
    }
}

} // verus!
