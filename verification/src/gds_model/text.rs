//! A text label (GDSII text element).

use vstd::prelude::*;
use crate::gds_error::{GDSIIError, GdsErrorKind};
use crate::gds_model::points::Points;
use crate::gds_model::property::{spec_props_bytes, spec_props_ok, Property};
use crate::gds_model::spec_ascii_ok;
use crate::gds_model::vector::Vector;
use crate::gds_real::{encode_real, spec_real_bytes, GdsReal};
use crate::gds_record::{ANGLE, ENDEL, LAYER, MAG, PRESENTATION, STRANS, STRING, TEXT, TEXTTYPE, XY};
use crate::gds_writer::{
    emit_record, pad_even, push_i16_be, push_i32_be, push_u16_be, spec_i16_bytes, spec_i32_bytes,
    spec_pad_even, spec_record_bytes, spec_u16_bytes,
};

verus! {

/// The nine-way anchor of a text label.
#[derive(Clone, Copy, Debug, PartialEq, Eq, Structural)]
pub enum TextAnchor {
    NW,
    N,
    NE,
    W,
    O,
    E,
    SW,
    S,
    SE,
}

impl TextAnchor {
    /// The PRESENTATION justification bits of this anchor: vertical in
    /// bits 2 and 3, horizontal in bits 0 and 1.
    pub open spec fn spec_gds_num(self) -> u16 {
        match self {
            TextAnchor::NW => 0,
            TextAnchor::N => 1,
            TextAnchor::NE => 2,
            TextAnchor::W => 4,
            TextAnchor::O => 5,
            TextAnchor::E => 6,
            TextAnchor::SW => 8,
            TextAnchor::S => 9,
            TextAnchor::SE => 10,
        }
    }
}

impl Default for TextAnchor {
    /// The default anchor is the origin.
    fn default() -> (r: TextAnchor)
        ensures
            r == TextAnchor::O,
    {
        TextAnchor::O
    }
}

/// The font index of a text label.
#[derive(Clone, Copy, Debug, PartialEq, Eq, Structural)]
pub enum TextFont {
    Fonts0,
    Fonts1,
    Fonts2,
    Fonts3,
}

impl TextFont {
    /// The PRESENTATION font bits of this font, before shifting.
    pub open spec fn spec_gds_num(self) -> u16 {
        match self {
            TextFont::Fonts0 => 0,
            TextFont::Fonts1 => 1,
            TextFont::Fonts2 => 2,
            TextFont::Fonts3 => 3,
        }
    }

    /// The PRESENTATION font bits of this font, before shifting.
    pub fn gds_num(&self) -> (r: u16)
        ensures
            r == self.spec_gds_num(),
    {
        match self {
            TextFont::Fonts0 => 0,
            TextFont::Fonts1 => 1,
            TextFont::Fonts2 => 2,
            TextFont::Fonts3 => 3,
        }
    }
}

impl Default for TextFont {
    /// The default font is the first one.
    fn default() -> (r: TextFont)
        ensures
            r == TextFont::Fonts0,
    {
        TextFont::Fonts0
    }
}

/// A regular repetition, kept for callers that lay labels out in
/// arrays; it is not part of the element's serialized form.
#[derive(Clone, Copy, Debug, PartialEq, Eq, Structural)]
pub struct Repetition {
    pub count_1: u64,
    pub count_2: u64,
    pub vec_1: Vector,
    pub vec_2: Vector,
}

/// The eight-byte real for zero.
pub open spec fn spec_real_zero() -> GdsReal {
    GdsReal { neg: false, exp: 0, mant: 0 }
}

/// The canonical eight-byte real for one.
pub open spec fn spec_real_one() -> GdsReal {
    GdsReal { neg: false, exp: 65, mant: 0x10_0000_0000_0000 }
}

/// A text label: position in database units, anchor, font, transform,
/// and the label string.  The rotation is kept as the eight-byte real
/// the wire carries, in degrees counterclockwise.
#[derive(Clone, Debug)]
pub struct Text {
    pub layer: i16,
    pub datatype: i16,
    pub font: TextFont,
    pub text: Vec<u8>,
    pub position: Points,
    pub anchor: TextAnchor,
    pub rotation: GdsReal,
    pub magnification: GdsReal,
    pub x_reflection: bool,
    pub repetition: Repetition,
    pub property: Property,
}

impl Text {
    /// The STRANS/MAG/ANGLE group is written only when some transform is
    /// not the identity.
    pub open spec fn spec_is_transform(&self) -> bool {
        self.rotation != spec_real_zero() || self.magnification != spec_real_one()
            || self.x_reflection
    }

    /// What the writer accepts.
    pub open spec fn spec_valid(&self) -> bool {
        &&& 0 <= self.layer <= 255
        &&& 0 <= self.datatype <= 255
        &&& self.text@.len() <= 512
        &&& spec_ascii_ok(self.text@)
        &&& self.rotation.wf()
        &&& self.magnification.wf()
        &&& spec_props_ok(self.property@)
    }

    /// The record sequence of the whole element.
    pub open spec fn spec_bytes(&self) -> Seq<u8> {
        spec_record_bytes(TEXT, Seq::empty()) + spec_record_bytes(
            LAYER,
            spec_i16_bytes(self.layer as int),
        ) + spec_record_bytes(TEXTTYPE, spec_i16_bytes(self.datatype as int)) + spec_record_bytes(
            PRESENTATION,
            spec_u16_bytes(self.font.spec_gds_num() * 16 + self.anchor.spec_gds_num()),
        ) + (if self.spec_is_transform() {
            spec_record_bytes(
                STRANS,
                spec_u16_bytes(
                    if self.x_reflection {
                        0x8000int
                    } else {
                        0int
                    },
                ),
            ) + spec_record_bytes(MAG, spec_real_bytes(self.magnification)) + spec_record_bytes(
                ANGLE,
                spec_real_bytes(self.rotation),
            )
        } else {
            Seq::empty()
        }) + spec_record_bytes(
            XY,
            spec_i32_bytes(self.position.x as int) + spec_i32_bytes(self.position.y as int),
        ) + spec_record_bytes(STRING, spec_pad_even(self.text@)) + spec_props_bytes(self.property@)
            + spec_record_bytes(ENDEL, Seq::empty())
    }

    /// An empty label at the origin with no transform.
    pub fn new() -> (r: Text)
        ensures
            r.layer == 0 && r.datatype == 0,
            r.font == TextFont::Fonts0 && r.anchor == TextAnchor::O,
            r.text@.len() == 0,
            r.position == (Points { x: 0, y: 0 }),
            r.rotation == spec_real_zero() && r.magnification == spec_real_one(),
            !r.x_reflection,
            r.property@.len() == 0,
    {
        Text {
            layer: 0,
            datatype: 0,
            font: TextFont::Fonts0,
            text: Vec::new(),
            position: Points { x: 0, y: 0 },
            anchor: TextAnchor::O,
            rotation: GdsReal { neg: false, exp: 0, mant: 0 },
            magnification: GdsReal { neg: false, exp: 65, mant: 0x10_0000_0000_0000 },
            x_reflection: false,
            repetition: Repetition {
                count_1: 0,
                count_2: 0,
                vec_1: Vector { x: 0, y: 0 },
                vec_2: Vector { x: 0, y: 0 },
            },
            property: Property::new(),
        }
    }

    /// The records of this element.  Fails exactly when a layer or
    /// datatype leaves the range 0 to 255, the string is too long or not
    /// ASCII, a transform real does not fit its wire fields, or a
    /// property is unacceptable.
    #[verifier::rlimit(100)]
    pub fn to_gds(&self) -> (r: Result<Vec<u8>, GDSIIError>)
        ensures
            r is Ok <==> self.spec_valid(),
            r is Ok ==> r->Ok_0@ == self.spec_bytes(),
            r is Err ==> r->Err_0.kind == GdsErrorKind::NameConstraint || r->Err_0.kind
                == GdsErrorKind::InvalidFloat,
    {
        if self.layer < 0 || self.layer > 255 {
            return Err(
                GDSIIError::of_kind(
                    GdsErrorKind::NameConstraint,
                    "Gds text layer out of range [0:255]",
                ),
            );
        }
        if self.datatype < 0 || self.datatype > 255 {
            return Err(
                GDSIIError::of_kind(
                    GdsErrorKind::NameConstraint,
                    "Gds text datatype out of range [0:255]",
                ),
            );
        }
        if self.text.len() > 512 {
            return Err(
                GDSIIError::of_kind(GdsErrorKind::NameConstraint, "Gds text exceed 512 chars"),
            );
        }
        if !crate::gds_model::is_ascii_bytes(self.text.as_slice()) {
            return Err(
                GDSIIError::of_kind(
                    GdsErrorKind::NameConstraint,
                    "Gds text contains char not in ascii charset",
                ),
            );
        }
        if self.rotation.exp >= 128 || self.rotation.mant >= 0x100_0000_0000_0000
            || self.magnification.exp >= 128 || self.magnification.mant >= 0x100_0000_0000_0000 {
            return Err(
                GDSIIError::of_kind(
                    GdsErrorKind::InvalidFloat,
                    "Gds text transform real does not fit eight byte format",
                ),
            );
        }
        let props = match self.property.to_gds() {
            Ok(v) => v,
            Err(e) => {
                return Err(e);
            },
        };
        let none: Vec<u8> = Vec::new();
        let mut data: Vec<u8> = Vec::new();
        emit_record(&mut data, TEXT, none.as_slice());
        let mut layer_payload: Vec<u8> = Vec::new();
        push_i16_be(&mut layer_payload, self.layer);
        emit_record(&mut data, LAYER, layer_payload.as_slice());
        let mut type_payload: Vec<u8> = Vec::new();
        push_i16_be(&mut type_payload, self.datatype);
        emit_record(&mut data, TEXTTYPE, type_payload.as_slice());
        let mut pres_payload: Vec<u8> = Vec::new();
        push_u16_be(&mut pres_payload, self.font.gds_num() * 16 + text_anchor_to_gds_num(&self.anchor));
        emit_record(&mut data, PRESENTATION, pres_payload.as_slice());
        let is_transform = !(self.rotation == GdsReal { neg: false, exp: 0, mant: 0 }) || !(
        self.magnification == GdsReal { neg: false, exp: 65, mant: 0x10_0000_0000_0000 })
            || self.x_reflection;
        if is_transform {
            let mut strans_payload: Vec<u8> = Vec::new();
            push_u16_be(&mut strans_payload, if self.x_reflection {
                0x8000
            } else {
                0
            });
            emit_record(&mut data, STRANS, strans_payload.as_slice());
            let mut mag_payload: Vec<u8> = Vec::new();
            encode_real(self.magnification, &mut mag_payload);
            emit_record(&mut data, MAG, mag_payload.as_slice());
            let mut angle_payload: Vec<u8> = Vec::new();
            encode_real(self.rotation, &mut angle_payload);
            emit_record(&mut data, ANGLE, angle_payload.as_slice());
        }
        let mut xy: Vec<u8> = Vec::new();
        push_i32_be(&mut xy, self.position.x);
        push_i32_be(&mut xy, self.position.y);
        emit_record(&mut data, XY, xy.as_slice());
        let mut text_payload = self.text.clone();
        pad_even(&mut text_payload);
        emit_record(&mut data, STRING, text_payload.as_slice());
        data.extend_from_slice(props.as_slice());
        emit_record(&mut data, ENDEL, none.as_slice());
        proof {
            assert(data@ =~= self.spec_bytes());
        }
        Ok(data)
    }
}

/// The PRESENTATION justification bits of an anchor.
pub fn text_anchor_to_gds_num(anchor: &TextAnchor) -> (r: u16)
    ensures
        r == anchor.spec_gds_num(),
{
    match anchor {
        TextAnchor::NW => 0,
        TextAnchor::N => 1,
        TextAnchor::NE => 2,
        TextAnchor::W => 4,
        TextAnchor::O => 5,
        TextAnchor::E => 6,
        TextAnchor::SW => 8,
        TextAnchor::S => 9,
        TextAnchor::SE => 10,
    }
}

} // verus!
