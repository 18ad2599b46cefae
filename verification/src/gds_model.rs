//! The hierarchical layout model: dates, coordinate pairs, properties,
//! the four element kinds, cells, and the library that owns them.

use vstd::prelude::*;

pub mod date;
pub mod library;
pub mod path;
pub mod points;
pub mod polygon;
pub mod property;
pub mod sref;
pub mod struc;
pub mod text;
pub mod vector;

pub use date::Date;
pub use library::Lib;
pub use path::{Path, PathEndType};
pub use points::Points;
pub use polygon::Polygon;
pub use property::Property;
pub use sref::Ref;
pub use struc::Struc;
pub use text::{text_anchor_to_gds_num, Repetition, Text, TextAnchor, TextFont};
pub use vector::Vector;

verus! {

/// GDSII calls a cell a "structure"; both names are in use.
pub type Cell = Struc;

/// Every byte of the string is ASCII.
pub open spec fn spec_ascii_ok(s: Seq<u8>) -> bool {
    forall|i: int| 0 <= i < s.len() ==> s[i] < 128
}

/// A character the format allows in a cell name: alphanumerics and the
/// three specials underscore, question mark and dollar sign.
pub open spec fn spec_name_char(c: u8) -> bool {
    (48 <= c <= 57) || (65 <= c <= 90) || (97 <= c <= 122) || c == 36 || c == 63 || c == 95
}

/// A valid cell name: non-empty, at most 32 characters, each from the
/// name alphabet.
pub open spec fn spec_name_ok(s: Seq<u8>) -> bool {
    1 <= s.len() <= 32 && forall|i: int| 0 <= i < s.len() ==> spec_name_char(s[i])
}

/// Decide whether a byte string is a valid cell name.
pub fn is_valid_name(s: &[u8]) -> (r: bool)
    ensures
        r == spec_name_ok(s@),
{
    let n = s.len();
    if n < 1 || n > 32 {
        return false;
    }
    let mut i: usize = 0;
    while i < n
        invariant
            n == s@.len(),
            i <= n,
            forall|j: int| 0 <= j < i ==> spec_name_char(s@[j]),
        decreases n - i,
    {
        let c = s[i];
        let ok = (48 <= c && c <= 57) || (65 <= c && c <= 90) || (97 <= c && c <= 122) || c == 36
            || c == 63 || c == 95;
        if !ok {
            return false;
        }
        i = i + 1;
    }
    true
}

/// Decide whether every byte of a string is ASCII.
pub fn is_ascii_bytes(s: &[u8]) -> (r: bool)
    ensures
        r == spec_ascii_ok(s@),
{
    let n = s.len();
    let mut i: usize = 0;
    while i < n
        invariant
            n == s@.len(),
            i <= n,
            forall|j: int| 0 <= j < i ==> s@[j] < 128,
        decreases n - i,
    {
        if s[i] >= 128 {
            return false;
        }
        i = i + 1;
    }
    true
}

} // verus!
