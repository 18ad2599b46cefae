//! A cell (GDSII structure): a named collection of elements.

use vstd::prelude::*;
use vstd::string::{StrSliceExecFns, StringSliceAdditionalSpecFns};
use crate::gds_error::{GDSIIError, GdsErrorKind};
use crate::gds_model::date::{spec_date_bytes, Date};
use crate::gds_model::path::Path;
use crate::gds_model::polygon::Polygon;
use crate::gds_model::sref::Ref;
use crate::gds_model::text::Text;
use crate::gds_model::{is_valid_name, spec_name_ok};
use crate::gds_record::{BGNSTR, ENDSTR, STRNAME};
use crate::gds_writer::{emit_record, pad_even, spec_pad_even, spec_record_bytes};

verus! {

/// A cell: a name, timestamps, and its four element collections.  A cell
/// may be built standalone; a library takes custody when it is added.
#[derive(Clone, Debug)]
pub struct Struc {
    pub name: Vec<u8>,
    pub polygons: Vec<Polygon>,
    pub paths: Vec<Path>,
    pub refs: Vec<Ref>,
    pub label: Vec<Text>,
    pub date: Date,
}

/// The resolved name of each library slot: the cell's name where the
/// slot is occupied, nothing where it is free.
pub type NameTable = Vec<Option<Vec<u8>>>;

/// What a name table says of one slot, as a mathematical value.
pub open spec fn spec_table_name(names: Seq<Option<Vec<u8>>>, i: int) -> Seq<u8>
    recommends
        0 <= i < names.len(),
        names[i] is Some,
{
    names[i]->Some_0@
}

/// The bytes of the first `i` polygons of a list.
pub open spec fn spec_polys_bytes_upto(ps: Seq<Polygon>, i: int) -> Seq<u8>
    decreases i,
{
    if i <= 0 {
        Seq::empty()
    } else {
        spec_polys_bytes_upto(ps, i - 1) + ps[i - 1].spec_bytes()
    }
}

/// The bytes of the first `i` paths of a list.
pub open spec fn spec_paths_bytes_upto(ps: Seq<Path>, i: int) -> Seq<u8>
    decreases i,
{
    if i <= 0 {
        Seq::empty()
    } else {
        spec_paths_bytes_upto(ps, i - 1) + ps[i - 1].spec_bytes()
    }
}

/// The bytes of the first `i` references of a list, each with its target
/// name resolved through the table.
pub open spec fn spec_refs_bytes_upto(rs: Seq<Ref>, names: Seq<Option<Vec<u8>>>, i: int) -> Seq<u8>
    decreases i,
{
    if i <= 0 {
        Seq::empty()
    } else {
        spec_refs_bytes_upto(rs, names, i - 1) + rs[i - 1].spec_bytes(
            spec_table_name(names, rs[i - 1].refed_struc as int),
        )
    }
}

/// The bytes of the first `i` labels of a list.
pub open spec fn spec_texts_bytes_upto(ts: Seq<Text>, i: int) -> Seq<u8>
    decreases i,
{
    if i <= 0 {
        Seq::empty()
    } else {
        spec_texts_bytes_upto(ts, i - 1) + ts[i - 1].spec_bytes()
    }
}

/// Reference bytes only read the table through slot occupancy and name
/// views, so two tables that agree on those give the same bytes.
proof fn lemma_refs_bytes_table_congruence(
    rs: Seq<Ref>,
    n1: Seq<Option<Vec<u8>>>,
    n2: Seq<Option<Vec<u8>>>,
    i: int,
)
    requires
        n1.len() == n2.len(),
        forall|l: int|
            0 <= l < n1.len() ==> (((#[trigger] n1[l]) is Some <==> n2[l] is Some) && (n1[l] is Some
                ==> n1[l]->Some_0@ == n2[l]->Some_0@)),
        forall|l: int| 0 <= l < rs.len() ==> (#[trigger] rs[l]).refed_struc < n1.len(),
        i <= rs.len(),
    ensures
        spec_refs_bytes_upto(rs, n1, i) == spec_refs_bytes_upto(rs, n2, i),
    decreases i,
{
    if i > 0 {
        lemma_refs_bytes_table_congruence(rs, n1, n2, i - 1);
        assert(spec_table_name(n1, rs[i - 1].refed_struc as int) == spec_table_name(
            n2,
            rs[i - 1].refed_struc as int,
        ));
    }
}

/// A cell's validity and bytes depend on the name table only through
/// slot occupancy and name views.
pub proof fn lemma_struc_table_congruence(
    s: &Struc,
    n1: Seq<Option<Vec<u8>>>,
    n2: Seq<Option<Vec<u8>>>,
)
    requires
        n1.len() == n2.len(),
        forall|l: int|
            0 <= l < n1.len() ==> (((#[trigger] n1[l]) is Some <==> n2[l] is Some) && (n1[l] is Some
                ==> n1[l]->Some_0@ == n2[l]->Some_0@)),
    ensures
        s.spec_valid(n1) == s.spec_valid(n2),
        s.spec_valid(n1) ==> s.spec_bytes(n1) == s.spec_bytes(n2),
{
    assert forall|i: int| 0 <= i < s.refs@.len() implies (((#[trigger] s.refs@[i]).refed_struc
        < n1.len() && n1[s.refs@[i].refed_struc as int] is Some && spec_name_ok(
        spec_table_name(n1, s.refs@[i].refed_struc as int),
    )) <==> (s.refs@[i].refed_struc < n2.len() && n2[s.refs@[i].refed_struc as int] is Some
        && spec_name_ok(spec_table_name(n2, s.refs@[i].refed_struc as int)))) by {
        if s.refs@[i].refed_struc < n1.len() && n1[s.refs@[i].refed_struc as int] is Some {
            assert(spec_table_name(n1, s.refs@[i].refed_struc as int) == spec_table_name(
                n2,
                s.refs@[i].refed_struc as int,
            ));
        }
    }
    if s.spec_valid(n1) {
        lemma_refs_bytes_table_congruence(s.refs@, n1, n2, s.refs@.len() as int);
    }
}

impl Struc {
    /// A new empty cell with the given name, stamped with the current
    /// date and time.
    pub fn new(name: &str) -> (r: Struc)
        ensures
            r.name@ == name.spec_bytes(),
            r.polygons@.len() == 0 && r.paths@.len() == 0 && r.refs@.len() == 0 && r.label@.len()
                == 0,
    {
        Struc {
            name: name.as_bytes_vec(),
            polygons: Vec::new(),
            paths: Vec::new(),
            refs: Vec::new(),
            label: Vec::new(),
            date: Date::now(),
        }
    }

    /// What the writer accepts of a whole cell, against a slot-name
    /// table: a valid name, acceptable elements, and every reference
    /// aimed at an occupied slot whose name is itself valid.
    pub open spec fn spec_valid(&self, names: Seq<Option<Vec<u8>>>) -> bool {
        &&& spec_name_ok(self.name@)
        &&& (forall|i: int| 0 <= i < self.polygons@.len() ==> (#[trigger] self.polygons@[i]).spec_valid())
        &&& (forall|i: int| 0 <= i < self.paths@.len() ==> (#[trigger] self.paths@[i]).spec_valid())
        &&& (forall|i: int| 0 <= i < self.label@.len() ==> (#[trigger] self.label@[i]).spec_valid())
        &&& (forall|i: int|
            0 <= i < self.refs@.len() ==> (#[trigger] self.refs@[i]).spec_valid()
                && self.refs@[i].refed_struc < names.len()
                && names[self.refs@[i].refed_struc as int] is Some
                && spec_name_ok(spec_table_name(names, self.refs@[i].refed_struc as int)))
    }

    /// The record sequence of the whole cell: BGNSTR with the date,
    /// STRNAME, the elements in the order polygons, paths, references,
    /// labels, then ENDSTR.
    pub open spec fn spec_bytes(&self, names: Seq<Option<Vec<u8>>>) -> Seq<u8> {
        spec_record_bytes(BGNSTR, spec_date_bytes(self.date)) + spec_record_bytes(
            STRNAME,
            spec_pad_even(self.name@),
        ) + spec_polys_bytes_upto(self.polygons@, self.polygons@.len() as int)
            + spec_paths_bytes_upto(self.paths@, self.paths@.len() as int) + spec_refs_bytes_upto(
            self.refs@,
            names,
            self.refs@.len() as int,
        ) + spec_texts_bytes_upto(self.label@, self.label@.len() as int) + spec_record_bytes(
            ENDSTR,
            Seq::empty(),
        )
    }

    /// The records of this cell, resolving reference targets through the
    /// slot-name table.  Fails exactly when the cell's own name is
    /// invalid, an element is unacceptable, or a reference aims at a
    /// free slot or one with an invalid name.
    #[verifier::rlimit(100)]
    pub fn to_gds(&self, names: &NameTable) -> (r: Result<Vec<u8>, GDSIIError>)
        ensures
            r is Ok <==> self.spec_valid(names@),
            r is Ok ==> r->Ok_0@ == self.spec_bytes(names@),
            r is Err ==> r->Err_0.kind == GdsErrorKind::NameConstraint || r->Err_0.kind
                == GdsErrorKind::InvalidFloat || r->Err_0.kind == GdsErrorKind::CoordinateOverflow
                || r->Err_0.kind == GdsErrorKind::UnresolvedReference,
    {
        if !is_valid_name(self.name.as_slice()) {
            return Err(
                GDSIIError::of_kind(
                    GdsErrorKind::NameConstraint,
                    "Gds structure name must be 1 to 32 chars from [A-Za-z0-9_?$]",
                ),
            );
        }
        let none: Vec<u8> = Vec::new();
        let mut data: Vec<u8> = Vec::new();
        let date_payload = self.date.to_gds();
        emit_record(&mut data, BGNSTR, date_payload.as_slice());
        let mut name_payload = self.name.clone();
        pad_even(&mut name_payload);
        emit_record(&mut data, STRNAME, name_payload.as_slice());
        let ghost head = data@;
        let mut i: usize = 0;
        let n_polys = self.polygons.len();
        while i < n_polys
            invariant
                n_polys == self.polygons@.len(),
                i <= n_polys,
                data@ == head + spec_polys_bytes_upto(self.polygons@, i as int),
                forall|l: int| 0 <= l < i ==> (#[trigger] self.polygons@[l]).spec_valid(),
            decreases n_polys - i,
        {
            let piece = match self.polygons[i].to_gds() {
                Ok(v) => v,
                Err(e) => {
                    return Err(e);
                },
            };
            data.extend_from_slice(piece.as_slice());
            proof {
                assert(data@ =~= head + spec_polys_bytes_upto(self.polygons@, i as int + 1));
            }
            i = i + 1;
        }
        let ghost head2 = data@;
        let mut i: usize = 0;
        let n_paths = self.paths.len();
        while i < n_paths
            invariant
                n_paths == self.paths@.len(),
                i <= n_paths,
                data@ == head2 + spec_paths_bytes_upto(self.paths@, i as int),
                forall|l: int| 0 <= l < i ==> (#[trigger] self.paths@[l]).spec_valid(),
            decreases n_paths - i,
        {
            let piece = match self.paths[i].to_gds() {
                Ok(v) => v,
                Err(e) => {
                    return Err(e);
                },
            };
            data.extend_from_slice(piece.as_slice());
            proof {
                assert(data@ =~= head2 + spec_paths_bytes_upto(self.paths@, i as int + 1));
            }
            i = i + 1;
        }
        let ghost head3 = data@;
        let mut i: usize = 0;
        let n_refs = self.refs.len();
        while i < n_refs
            invariant
                n_refs == self.refs@.len(),
                i <= n_refs,
                data@ == head3 + spec_refs_bytes_upto(self.refs@, names@, i as int),
                forall|l: int|
                    0 <= l < i ==> (#[trigger] self.refs@[l]).spec_valid()
                        && self.refs@[l].refed_struc < names@.len()
                        && names@[self.refs@[l].refed_struc as int] is Some
                        && spec_name_ok(spec_table_name(names@, self.refs@[l].refed_struc as int)),
            decreases n_refs - i,
        {
            let target = self.refs[i].refed_struc;
            if target >= names.len() {
                return Err(
                    GDSIIError::of_kind(
                        GdsErrorKind::UnresolvedReference,
                        "Gds reference target is not a slot of this library",
                    ),
                );
            }
            let piece = match &names[target] {
                None => {
                    return Err(
                        GDSIIError::of_kind(
                            GdsErrorKind::UnresolvedReference,
                            "Gds reference target cell is no longer in this library",
                        ),
                    );
                },
                Some(sname) => {
                    if !is_valid_name(sname.as_slice()) {
                        return Err(
                            GDSIIError::of_kind(
                                GdsErrorKind::NameConstraint,
                                "Gds reference target name must be 1 to 32 chars from [A-Za-z0-9_?$]",
                            ),
                        );
                    }
                    match self.refs[i].to_gds(sname) {
                        Ok(v) => v,
                        Err(e) => {
                            return Err(e);
                        },
                    }
                },
            };
            data.extend_from_slice(piece.as_slice());
            proof {
                assert(data@ =~= head3 + spec_refs_bytes_upto(self.refs@, names@, i as int + 1));
            }
            i = i + 1;
        }
        let ghost head4 = data@;
        let mut i: usize = 0;
        let n_texts = self.label.len();
        while i < n_texts
            invariant
                n_texts == self.label@.len(),
                i <= n_texts,
                data@ == head4 + spec_texts_bytes_upto(self.label@, i as int),
                forall|l: int| 0 <= l < i ==> (#[trigger] self.label@[l]).spec_valid(),
            decreases n_texts - i,
        {
            let piece = match self.label[i].to_gds() {
                Ok(v) => v,
                Err(e) => {
                    return Err(e);
                },
            };
            data.extend_from_slice(piece.as_slice());
            proof {
                assert(data@ =~= head4 + spec_texts_bytes_upto(self.label@, i as int + 1));
            }
            i = i + 1;
        }
        emit_record(&mut data, ENDSTR, none.as_slice());
        proof {
            assert(data@ =~= self.spec_bytes(names@));
        }
        Ok(data)
    }
}

} // verus!
