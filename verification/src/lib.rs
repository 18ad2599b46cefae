//! A verified reader and writer for the GDSII stream format.
//!
//! The library converts between a byte stream that follows the GDSII record
//! grammar and an in-memory hierarchical layout model (a library of named
//! cells holding geometric primitives and references to other cells), and
//! back.  All coordinates are kept in database units (signed 32-bit
//! integers), exactly as they stand on the wire.

pub mod gds_error;
pub mod gds_model;
pub mod gds_parser;
pub mod gds_real;
pub mod gds_reader;
pub mod gds_record;
pub mod gds_writer;

pub use gds_error::{gds_err, GDSIIError, GdsErrorKind};
pub use gds_record::{PresentationFont, PresentationHorizontalPos, PresentationVerticalPos, Record};
pub use gds_parser::{parse_gds, parse_gds_bytes};
pub use gds_real::{gdsii_eight_byte_real, GdsReal};
pub use gds_reader::{ascii_string, four_byte_int, frame_records, record_type, two_byte_int};
pub use gds_writer::ascii_string_to_be_bytes;
pub use gds_model::{
    Cell, Date, Lib, Path, PathEndType, Points, Polygon, Property, Ref, Repetition, Struc, Text,
    TextAnchor, TextFont, Vector,
};
