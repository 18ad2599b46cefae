//! Element properties: integer keys with short ASCII values, written as
//! PROPATTR/PROPVALUE record pairs.

use vstd::prelude::*;
use crate::gds_error::{GDSIIError, GdsErrorKind};
use crate::gds_model::spec_ascii_ok;
use crate::gds_record::{PROPATTR, PROPVALUE};
use crate::gds_writer::{
    emit_record, pad_even, push_i16_be, spec_i16_bytes, spec_pad_even, spec_record_bytes,
};

verus! {

/// A property list: keys with ASCII byte-string values.  Keys are unique
/// while only `insert` is used to fill the list; insertion order is not
/// significant to the format.
#[derive(Clone, Debug)]
pub struct Property(pub Vec<(i16, Vec<u8>)>);

impl View for Property {
    type V = Seq<(i16, Seq<u8>)>;

    open spec fn view(&self) -> Seq<(i16, Seq<u8>)> {
        self.0@.map_values(|e: (i16, Vec<u8>)| (e.0, e.1@))
    }
}

/// The first entry holding a key, or the list's length where none
/// does.
pub open spec fn spec_find_key(s: Seq<(i16, Seq<u8>)>, key: i16) -> int
    decreases s.len(),
{
    if s.len() == 0 {
        0
    } else if s[0].0 == key {
        0
    } else {
        1 + spec_find_key(s.drop_first(), key)
    }
}

/// The list after setting a key: overwrite the first entry holding it,
/// append where none does.
pub open spec fn spec_props_insert(s: Seq<(i16, Seq<u8>)>, key: i16, value: Seq<u8>) -> Seq<
    (i16, Seq<u8>),
> {
    let j = spec_find_key(s, key);
    if j < s.len() {
        s.update(j, (key, value))
    } else {
        s.push((key, value))
    }
}

/// Searching restarted past a keyless prefix lands where the whole
/// search does.
proof fn lemma_find_key_skip(s: Seq<(i16, Seq<u8>)>, key: i16, i: int)
    requires
        0 <= i <= s.len(),
        forall|l: int| 0 <= l < i ==> (#[trigger] s[l]).0 != key,
    ensures
        spec_find_key(s, key) == i + spec_find_key(s.skip(i), key),
    decreases i,
{
    if i == 0 {
        assert(s.skip(0) =~= s);
    } else {
        let t = s.drop_first();
        assert forall|l: int| 0 <= l < i - 1 implies (#[trigger] t[l]).0 != key by {
            assert(t[l] == s[l + 1]);
        }
        lemma_find_key_skip(t, key, i - 1);
        assert(s.skip(i) =~= t.skip(i - 1));
    }
}

/// A single property the writer accepts: key in the valid attribute
/// range, value at most 126 ASCII characters.
pub open spec fn spec_prop_ok(e: (i16, Seq<u8>)) -> bool {
    1 <= e.0 <= 125 && e.1.len() <= 126 && spec_ascii_ok(e.1)
}

/// Every property of a list is acceptable to the writer.
pub open spec fn spec_props_ok(s: Seq<(i16, Seq<u8>)>) -> bool {
    forall|i: int| 0 <= i < s.len() ==> spec_prop_ok(#[trigger] s[i])
}

/// The two records one property writes: PROPATTR with the key, then
/// PROPVALUE with the padded value.
pub open spec fn spec_prop_bytes(e: (i16, Seq<u8>)) -> Seq<u8> {
    spec_record_bytes(PROPATTR, spec_i16_bytes(e.0 as int)) + spec_record_bytes(
        PROPVALUE,
        spec_pad_even(e.1),
    )
}

/// The bytes of the first `i` properties of a list, in order.
pub open spec fn spec_props_bytes_upto(s: Seq<(i16, Seq<u8>)>, i: int) -> Seq<u8>
    decreases i,
{
    if i <= 0 {
        Seq::empty()
    } else {
        spec_props_bytes_upto(s, i - 1) + spec_prop_bytes(s[i - 1])
    }
}

/// The bytes of a whole property list.
pub open spec fn spec_props_bytes(s: Seq<(i16, Seq<u8>)>) -> Seq<u8> {
    spec_props_bytes_upto(s, s.len() as int)
}

impl Property {
    /// The empty property list.
    pub fn new() -> (r: Property)
        ensures
            r@ =~= Seq::<(i16, Seq<u8>)>::empty(),
    {
        Property(Vec::new())
    }

    /// Set a key to a value: overwrite the first entry holding the key
    /// if one is there, append otherwise.
    pub fn insert(&mut self, key: i16, value: Vec<u8>)
        ensures
            final(self)@ == spec_props_insert(old(self)@, key, value@),
    {
        let mut i: usize = 0;
        let n = self.0.len();
        while i < n
            invariant
                n == self.0.len(),
                i <= n,
                self.0@ == old(self).0@,
                forall|l: int| 0 <= l < i ==> (#[trigger] old(self)@[l]).0 != key,
            decreases n - i,
        {
            if self.0[i].0 == key {
                proof {
                    assert(old(self)@[i as int].0 == key);
                    lemma_find_key_skip(old(self)@, key, i as int);
                    assert(old(self)@.skip(i as int)[0] == old(self)@[i as int]);
                    assert(spec_find_key(old(self)@, key) == i as int);
                }
                self.0.set(i, (key, value));
                proof {
                    assert(self@ =~= old(self)@.update(i as int, (key, value@)));
                }
                return ;
            }
            i = i + 1;
        }
        proof {
            lemma_find_key_skip(old(self)@, key, n as int);
            assert(old(self)@.skip(n as int).len() == 0);
            assert(spec_find_key(old(self)@, key) == n as int);
        }
        self.0.push((key, value));
        proof {
            assert(self@ =~= old(self)@.push((key, value@)));
        }
    }

    /// The value stored under a key, if any: the first entry holding
    /// the key, matching what `insert` overwrites.
    pub fn get(&self, key: i16) -> (r: Option<Vec<u8>>)
        ensures
            r is Some <==> spec_find_key(self@, key) < self@.len(),
            r is Some ==> r->Some_0@ == self@[spec_find_key(self@, key)].1,
    {
        let mut i: usize = 0;
        let n = self.0.len();
        while i < n
            invariant
                n == self.0.len(),
                i <= n,
                forall|l: int| 0 <= l < i ==> (#[trigger] self@[l]).0 != key,
            decreases n - i,
        {
            if self.0[i].0 == key {
                let v = self.0[i].1.clone();
                proof {
                    assert(self@[i as int].0 == key);
                    assert(self@[i as int].1 == v@);
                    lemma_find_key_skip(self@, key, i as int);
                    assert(self@.skip(i as int)[0] == self@[i as int]);
                    assert(spec_find_key(self@, key) == i as int);
                }
                return Some(v);
            }
            i = i + 1;
        }
        proof {
            lemma_find_key_skip(self@, key, n as int);
            assert(self@.skip(n as int).len() == 0);
        }
        None
    }

    /// How many properties the list holds.
    pub fn len(&self) -> (r: usize)
        ensures
            r == self@.len(),
    {
        self.0.len()
    }

    /// The PROPATTR/PROPVALUE records of the whole list.  Fails exactly
    /// when a key leaves the valid attribute range or a value is too long
    /// or not ASCII.
    pub fn to_gds(&self) -> (r: Result<Vec<u8>, GDSIIError>)
        ensures
            r is Ok <==> spec_props_ok(self@),
            r is Ok ==> r->Ok_0@ == spec_props_bytes(self@),
            r is Err ==> r->Err_0.kind == GdsErrorKind::NameConstraint,
    {
        let mut data: Vec<u8> = Vec::new();
        let mut i: usize = 0;
        let n = self.0.len();
        while i < n
            invariant
                n == self.0.len(),
                i <= n,
                data@ == spec_props_bytes_upto(self@, i as int),
                forall|l: int| 0 <= l < i ==> spec_prop_ok(#[trigger] self@[l]),
            decreases n - i,
        {
            let key: i16 = self.0[i].0;
            if key < 1 || key > 125 {
                proof {
                    assert(self@[i as int].0 == self.0@[i as int].0);
                    assert(!spec_prop_ok(self@[i as int]));
                }
                return Err(
                    GDSIIError::of_kind(
                        GdsErrorKind::NameConstraint,
                        "Gds property attribute value can not be out of range [1:125]",
                    ),
                );
            }
            let value_len = self.0[i].1.len();
            if value_len > 126 {
                proof {
                    assert(self@[i as int].1 == self.0@[i as int].1@);
                    assert(!spec_prop_ok(self@[i as int]));
                }
                return Err(
                    GDSIIError::of_kind(
                        GdsErrorKind::NameConstraint,
                        "Gds property value can not have ascii char more than 126 count",
                    ),
                );
            }
            let mut j: usize = 0;
            while j < value_len
                invariant
                    i < self.0@.len(),
                    value_len == self.0@[i as int].1@.len(),
                    j <= value_len,
                    forall|l: int| 0 <= l < j ==> self.0@[i as int].1@[l] < 128,
                decreases value_len - j,
            {
                if self.0[i].1[j] >= 128 {
                    proof {
                        assert(self@[i as int].1 == self.0@[i as int].1@);
                        assert(self@[i as int].1[j as int] >= 128);
                        assert(!spec_ascii_ok(self@[i as int].1));
                        assert(!spec_prop_ok(self@[i as int]));
                    }
                    return Err(
                        GDSIIError::of_kind(
                            GdsErrorKind::NameConstraint,
                            "Gds property value contains char not in ascii charset",
                        ),
                    );
                }
                j = j + 1;
            }
            let ghost before = data@;
            let mut attr_payload: Vec<u8> = Vec::new();
            push_i16_be(&mut attr_payload, key);
            emit_record(&mut data, PROPATTR, attr_payload.as_slice());
            let mut val = self.0[i].1.clone();
            pad_even(&mut val);
            emit_record(&mut data, PROPVALUE, val.as_slice());
            proof {
                assert(self@[i as int] == (self.0@[i as int].0, self.0@[i as int].1@));
                assert(data@ =~= before + spec_prop_bytes(self@[i as int]));
                assert(data@ =~= spec_props_bytes_upto(self@, i as int + 1));
            }
            i = i + 1;
        }
        Ok(data)
    }
}

} // verus!
