//! The library: an arena of cells with a name index and the directed
//! reference graph over them.  The two invariants the format demands —
//! unique cell names and an acyclic reference graph — are part of the
//! library's well-formedness and are maintained by every operation.

use vstd::prelude::*;
use vstd::string::{StrSliceExecFns, StringSliceAdditionalSpecFns};
use crate::gds_error::{GDSIIError, GdsErrorKind};
use crate::gds_model::date::{spec_date_bytes, Date};
use crate::gds_model::sref::Ref;
use crate::gds_model::struc::{NameTable, Struc};
use crate::gds_model::{spec_ascii_ok, is_ascii_bytes};
use crate::gds_real::{encode_real, spec_real_bytes, GdsReal};
use crate::gds_record::{BGNLIB, ENDLIB, HEADER, LIBNAME, UNITS};
use crate::gds_writer::{
    emit_record, pad_even, push_i16_be, spec_i16_bytes, spec_pad_even, spec_record_bytes,
};

verus! {

/// The version the HEADER record announces.
pub const GDS_VERSION: i16 = 600;

/// A GDSII library: name, units, timestamps, and an arena of cells.
/// Each cell lives in a slot keyed by a stable identifier; references
/// hold that identifier.  Slots of removed cells stay empty and are
/// never reused.
#[derive(Debug)]
pub struct Lib {
    /// Library name, an ASCII byte string.
    pub name: Vec<u8>,
    /// The database unit expressed in user units, as the first UNITS
    /// real; 10^-3 in the default micron-over-nanometre system.
    pub dbu_in_user: GdsReal,
    /// The database unit in meters, as the second UNITS real; 10^-9 by
    /// default.
    pub precision: GdsReal,
    /// Modification and access timestamps.
    pub date: Date,
    strucs: Vec<Option<Struc>>,
}

impl Lib {
    /// The library name as a byte sequence.
    pub closed spec fn spec_name(&self) -> Seq<u8> {
        self.name@
    }

    /// The first UNITS real: the database unit in user units.
    pub closed spec fn spec_dbu_in_user(&self) -> GdsReal {
        self.dbu_in_user
    }

    /// The second UNITS real: the database unit in meters.
    pub closed spec fn spec_precision(&self) -> GdsReal {
        self.precision
    }

    /// The library timestamps.
    pub closed spec fn spec_date(&self) -> Date {
        self.date
    }

    /// How many slots the arena holds, free ones included.
    pub closed spec fn spec_len(&self) -> nat {
        self.strucs@.len()
    }

    /// Slot `i` holds a cell.
    pub closed spec fn spec_live(&self, i: int) -> bool {
        0 <= i < self.strucs@.len() && self.strucs@[i] is Some
    }

    /// The cell in slot `i`.
    pub closed spec fn spec_at(&self, i: int) -> Struc
        recommends
            self.spec_live(i),
    {
        self.strucs@[i]->Some_0
    }

    /// The reference graph has an edge from `a` to `b` when the cell in
    /// slot `a` holds a reference aimed at slot `b`.
    pub open spec fn spec_edge(&self, a: int, b: int) -> bool {
        self.spec_live(a) && exists|j: int|
            0 <= j < self.spec_at(a).refs@.len() && (#[trigger] self.spec_at(
                a,
            ).refs@[j]).refed_struc as int == b
    }

    /// A walk along reference edges: every consecutive pair is an edge.
    pub open spec fn spec_is_path(&self, p: Seq<int>) -> bool {
        p.len() >= 1 && forall|k: int|
            0 <= k < p.len() - 1 ==> #[trigger] self.spec_edge(p[k], p[k + 1])
    }

    /// Slot `b` can be walked to from slot `a`; every slot reaches
    /// itself by the empty walk.
    pub open spec fn spec_reaches(&self, a: int, b: int) -> bool {
        exists|p: Seq<int>| self.spec_is_path(p) && p.first() == a && p.last() == b
    }

    /// No walk closes a cycle: no edge runs back into a slot that
    /// already reaches its source.
    pub open spec fn spec_acyclic(&self) -> bool {
        forall|a: int, b: int| #[trigger] self.spec_edge(a, b) ==> !self.spec_reaches(b, a)
    }

    /// No two cells of the library share a name.
    pub open spec fn spec_names_unique(&self) -> bool {
        forall|i: int, j: int|
            #![trigger self.spec_at(i), self.spec_at(j)]
            self.spec_live(i) && self.spec_live(j) && i != j ==> self.spec_at(i).name@
                != self.spec_at(j).name@
    }

    /// Every reference of every cell aims at some slot of this arena,
    /// occupied or not.
    pub open spec fn spec_targets_bounded(&self) -> bool {
        forall|i: int, j: int|
            #![trigger self.spec_at(i).refs@[j]]
            self.spec_live(i) && 0 <= j < self.spec_at(i).refs@.len() ==> self.spec_at(
                i,
            ).refs@[j].refed_struc < self.spec_len()
    }

    /// Occupied slots lie inside the arena: nothing outside
    /// `spec_len()` is ever live.
    pub open spec fn spec_live_bounded(&self) -> bool {
        forall|i: int| #[trigger] self.spec_live(i) ==> 0 <= i < self.spec_len()
    }

    /// The library invariant: occupied slots lie inside the arena,
    /// references stay inside it, names are unique, and the reference
    /// graph is a directed acyclic graph.
    pub open spec fn wf(&self) -> bool {
        self.spec_live_bounded() && self.spec_targets_bounded() && self.spec_names_unique()
            && self.spec_acyclic()
    }

    /// A slot not referenced from any cell: a root of the hierarchy.
    pub open spec fn spec_is_top(&self, i: int) -> bool {
        self.spec_live(i) && forall|a: int| !self.spec_edge(a, i)
    }

    /// Every slot reaches itself.
    pub proof fn lemma_reaches_self(&self, a: int)
        ensures
            self.spec_reaches(a, a),
    {
        let p = seq![a];
        assert(self.spec_is_path(p) && p.first() == a && p.last() == a);
    }

    /// A walk can be extended along one more edge.
    pub proof fn lemma_reaches_step(&self, a: int, b: int, c: int)
        requires
            self.spec_reaches(a, b),
            self.spec_edge(b, c),
        ensures
            self.spec_reaches(a, c),
    {
        let p = choose|p: Seq<int>| self.spec_is_path(p) && p.first() == a && p.last() == b;
        let q = p.push(c);
        assert forall|k: int| 0 <= k < q.len() - 1 implies #[trigger] self.spec_edge(
            q[k],
            q[k + 1],
        ) by {
            if k < p.len() - 1 {
                assert(q[k] == p[k] && q[k + 1] == p[k + 1]);
                assert(self.spec_edge(p[k], p[k + 1]));
            } else {
                assert(q[k] == p[p.len() - 1] && q[k + 1] == c);
            }
        }
        assert(self.spec_is_path(q) && q.first() == a && q.last() == c);
    }

    /// A walk can be started with one leading edge.
    pub proof fn lemma_reaches_prepend(&self, a: int, b: int, c: int)
        requires
            self.spec_edge(a, b),
            self.spec_reaches(b, c),
        ensures
            self.spec_reaches(a, c),
    {
        let p = choose|p: Seq<int>| self.spec_is_path(p) && p.first() == b && p.last() == c;
        let q = seq![a] + p;
        assert forall|k: int| 0 <= k < q.len() - 1 implies #[trigger] self.spec_edge(
            q[k],
            q[k + 1],
        ) by {
            if k == 0 {
                assert(q[0] == a && q[1] == p[0]);
            } else {
                assert(q[k] == p[k - 1] && q[k + 1] == p[(k - 1) + 1]);
                assert(self.spec_edge(p[k - 1], p[(k - 1) + 1]));
            }
        }
        assert(self.spec_is_path(q) && q.first() == a && q.last() == c);
    }

    /// Walks compose.
    pub proof fn lemma_reaches_trans(&self, a: int, b: int, c: int)
        requires
            self.spec_reaches(a, b),
            self.spec_reaches(b, c),
        ensures
            self.spec_reaches(a, c),
    {
        let p1 = choose|p: Seq<int>| self.spec_is_path(p) && p.first() == a && p.last() == b;
        let p2 = choose|p: Seq<int>| self.spec_is_path(p) && p.first() == b && p.last() == c;
        if p2.len() == 1 {
            assert(b == c);
        } else {
            let q = p1 + p2.drop_first();
            assert forall|k: int| 0 <= k < q.len() - 1 implies #[trigger] self.spec_edge(
                q[k],
                q[k + 1],
            ) by {
                let n1 = p1.len() as int;
                if k < n1 - 1 {
                    assert(q[k] == p1[k] && q[k + 1] == p1[k + 1]);
                    assert(self.spec_edge(p1[k], p1[k + 1]));
                } else if k == n1 - 1 {
                    assert(q[k] == p1[n1 - 1] && q[k + 1] == p2[1]);
                    assert(self.spec_edge(p2[0], p2[1]));
                } else {
                    assert(q[k] == p2[k - n1 + 1] && q[k + 1] == p2[k - n1 + 2]);
                    assert(self.spec_edge(p2[k - n1 + 1], p2[k - n1 + 2]));
                }
            }
            assert(q.first() == a && q.last() == p2.last());
            assert(self.spec_is_path(q));
        }
    }

    /// Nothing reaches a slot no edge enters, except the slot itself.
    pub proof fn lemma_unreachable_fresh(&self, v: int, u: int)
        requires
            forall|x: int| !self.spec_edge(x, u),
            v != u,
        ensures
            !self.spec_reaches(v, u),
    {
        if self.spec_reaches(v, u) {
            let p = choose|p: Seq<int>| self.spec_is_path(p) && p.first() == v && p.last() == u;
            if p.len() == 1 {
                assert(v == u);
            } else {
                let m = p.len() - 2;
                assert(self.spec_edge(p[m], p[m + 1]));
            }
        }
    }

    /// Every node of a walk starting inside an edge-closed visited set
    /// stays inside it.
    proof fn lemma_path_in_closed(&self, visited: Seq<bool>, p: Seq<int>, k: int)
        requires
            visited.len() == self.spec_len(),
            self.spec_is_path(p),
            0 <= p[0] < visited.len() && visited[p[0]],
            forall|x: int, y: int|
                0 <= x < visited.len() && visited[x] && #[trigger] self.spec_edge(x, y) ==> 0 <= y
                    < visited.len() && visited[y],
            0 <= k < p.len(),
        ensures
            0 <= p[k] < visited.len() && visited[p[k]],
        decreases k,
    {
        if k > 0 {
            self.lemma_path_in_closed(visited, p, k - 1);
            assert(self.spec_edge(p[k - 1], p[(k - 1) + 1]));
        }
    }

    /// A slot outside an edge-closed visited set that holds the start is
    /// not reachable from the start.
    proof fn lemma_closed_set_unreached(&self, visited: Seq<bool>, from: int, to: int)
        requires
            visited.len() == self.spec_len(),
            0 <= from < visited.len() && visited[from],
            0 <= to < visited.len() && !visited[to],
            forall|x: int, y: int|
                0 <= x < visited.len() && visited[x] && #[trigger] self.spec_edge(x, y) ==> 0 <= y
                    < visited.len() && visited[y],
        ensures
            !self.spec_reaches(from, to),
    {
        if self.spec_reaches(from, to) {
            let p = choose|p: Seq<int>|
                self.spec_is_path(p) && p.first() == from && p.last() == to;
            self.lemma_path_in_closed(visited, p, p.len() - 1);
        }
    }
}

/// How many entries of a boolean sequence are set.
pub closed spec fn count_true(s: Seq<bool>) -> int
    decreases s.len(),
{
    if s.len() == 0 {
        0
    } else {
        count_true(s.drop_last()) + if s.last() {
            1int
        } else {
            0int
        }
    }
}

/// The count never leaves the range of the sequence's length.
proof fn lemma_count_true_bounds(s: Seq<bool>)
    ensures
        0 <= count_true(s) <= s.len(),
    decreases s.len(),
{
    if s.len() > 0 {
        lemma_count_true_bounds(s.drop_last());
    }
}

/// Setting a clear entry raises the count by one.
proof fn lemma_count_true_update(s: Seq<bool>, i: int)
    requires
        0 <= i < s.len(),
        !s[i],
    ensures
        count_true(s.update(i, true)) == count_true(s) + 1,
    decreases s.len(),
{
    let t = s.update(i, true);
    if i == s.len() - 1 {
        assert(t.drop_last() =~= s.drop_last());
    } else {
        assert(t.drop_last() =~= s.drop_last().update(i, true));
        lemma_count_true_update(s.drop_last(), i);
    }
}

/// A slot identifier occurs somewhere in a list of identifiers.
pub open spec fn spec_lists_id(st: Seq<usize>, x: int) -> bool {
    exists|k: int| 0 <= k < st.len() && (#[trigger] st[k]) as int == x
}

/// Pushing onto a list adds exactly one member.
proof fn lemma_lists_id_push(st: Seq<usize>, x: usize, z: int)
    ensures
        spec_lists_id(st.push(x), z) <==> (spec_lists_id(st, z) || z == x as int),
{
    if spec_lists_id(st.push(x), z) {
        let k = choose|k: int| 0 <= k < st.push(x).len() && (#[trigger] st.push(x)[k]) as int == z;
        if k < st.len() {
            assert(st[k] as int == z);
        }
    }
    if spec_lists_id(st, z) {
        let k = choose|k: int| 0 <= k < st.len() && (#[trigger] st[k]) as int == z;
        assert(st.push(x)[k] as int == z);
    }
    if z == x as int {
        assert(st.push(x)[st.len() as int] as int == z);
    }
}

/// Two byte strings hold the same bytes.
pub(crate) fn names_equal(a: &Vec<u8>, b: &Vec<u8>) -> (r: bool)
    ensures
        r == (a@ =~= b@),
{
    let n = a.len();
    if n != b.len() {
        return false;
    }
    let mut i: usize = 0;
    while i < n
        invariant
            n == a@.len() && n == b@.len(),
            i <= n,
            forall|j: int| 0 <= j < i ==> a@[j] == b@[j],
        decreases n - i,
    {
        if a[i] != b[i] {
            return false;
        }
        i = i + 1;
    }
    true
}

/// After adding one edge from `u` to `v`, every walk either already
/// existed, or passes through the new edge: it first walks to `u` and
/// the rest of it walks from `v`.
proof fn lemma_reach_decompose(pre: &Lib, post: &Lib, u: int, v: int, p: Seq<int>)
    requires
        forall|a: int, b: int|
            #![trigger post.spec_edge(a, b)]
            #![trigger pre.spec_edge(a, b)]
            post.spec_edge(a, b) <==> pre.spec_edge(a, b) || (a == u && b == v),
        !pre.spec_reaches(v, u),
        post.spec_is_path(p),
    ensures
        pre.spec_reaches(p.first(), p.last()) || (pre.spec_reaches(p.first(), u)
            && pre.spec_reaches(v, p.last())),
    decreases p.len(),
{
    let x = p.first();
    let y = p.last();
    if p.len() == 1 {
        pre.lemma_reaches_self(x);
    } else {
        let rest = p.drop_first();
        assert forall|k: int| 0 <= k < rest.len() - 1 implies #[trigger] post.spec_edge(
            rest[k],
            rest[k + 1],
        ) by {
            assert(rest[k] == p[k + 1] && rest[k + 1] == p[(k + 1) + 1]);
            assert(post.spec_edge(p[k + 1], p[(k + 1) + 1]));
        }
        assert(post.spec_is_path(rest));
        lemma_reach_decompose(pre, post, u, v, rest);
        assert(post.spec_edge(p[0int], p[0int + 1]));
        assert(rest.first() == p[1] && rest.last() == y);
        if pre.spec_edge(p[0], p[1]) {
            if pre.spec_reaches(p[1], y) {
                pre.lemma_reaches_prepend(x, p[1], y);
            } else {
                pre.lemma_reaches_prepend(x, p[1], u);
            }
        } else {
            assert(p[0] == u && p[1] == v);
            pre.lemma_reaches_self(u);
            if pre.spec_reaches(p[1], y) {
            } else {
                assert(pre.spec_reaches(v, u));
            }
        }
    }
}

impl Lib {
    /// Whether the cell in slot `from` can walk along references to slot
    /// `to`; a depth-first search over the arena.
    #[verifier::rlimit(100)]
    pub fn reaches(&self, from: usize, to: usize) -> (r: bool)
        requires
            self.spec_targets_bounded(),
            from < self.spec_len(),
            to < self.spec_len(),
        ensures
            r == self.spec_reaches(from as int, to as int),
    {
        if from == to {
            proof {
                self.lemma_reaches_self(from as int);
            }
            return true;
        }
        let n = self.strucs.len();
        let mut visited: Vec<bool> = vec![false; n];
        visited.set(from, true);
        let mut stack: Vec<usize> = Vec::new();
        stack.push(from);
        proof {
            self.lemma_reaches_self(from as int);
            lemma_count_true_bounds(visited@);
            assert forall|x: int, y: int|
                0 <= x < n && visited@[x] && !spec_lists_id(stack@, x) && #[trigger] self.spec_edge(
                    x,
                    y,
                ) implies 0 <= y < n && visited@[y] by {
                assert(stack@[0] == from);
                assert(x == from as int);
                assert(spec_lists_id(stack@, x));
            }
        }
        while stack.len() > 0
            invariant
                self.spec_targets_bounded(),
                n == self.spec_len(),
                from < n && to < n && from != to,
                visited@.len() == n,
                visited@[from as int],
                !visited@[to as int],
                0 <= count_true(visited@) <= n,
                forall|k: int|
                    0 <= k < stack@.len() ==> (#[trigger] stack@[k]) < n && visited@[stack@[k] as int],
                forall|k: int, l: int|
                    0 <= k < l < stack@.len() ==> (#[trigger] stack@[k]) != (#[trigger] stack@[l]),
                forall|x: int|
                    0 <= x < n && #[trigger] visited@[x] ==> self.spec_reaches(from as int, x),
                forall|x: int, y: int|
                    #![trigger visited@[x], self.spec_edge(x, y)]
                    0 <= x < n && visited@[x] && !spec_lists_id(stack@, x) && self.spec_edge(x, y)
                        ==> 0 <= y < n && visited@[y],
            decreases 2 * (n - count_true(visited@)) + stack@.len(),
        {
            let ghost measure0 = 2 * (n - count_true(visited@)) + stack@.len();
            let ghost stack_pre = stack@;
            let x = stack.pop().unwrap();
            let ghost stack1 = stack@;
            proof {
                assert(stack_pre =~= stack1.push(x));
                assert forall|z: int| #[trigger] spec_lists_id(stack_pre, z) implies spec_lists_id(
                    stack1,
                    z,
                ) || z == x as int by {
                    lemma_lists_id_push(stack1, x, z);
                }
                // closure transfers from the old worklist to the popped
                // one for every slot other than the one just popped
                assert forall|x2: int, y: int|
                    0 <= x2 < n && visited@[x2] && !spec_lists_id(stack@, x2) && x2 != x as int
                        && #[trigger] self.spec_edge(x2, y) implies 0 <= y < n && visited@[y] by {
                    lemma_lists_id_push(stack1, x, x2);
                    assert(!spec_lists_id(stack_pre, x2));
                }
            }
            match &self.strucs[x] {
                None => {
                    proof {
                        assert forall|x2: int, y: int|
                            0 <= x2 < n && visited@[x2] && !spec_lists_id(stack@, x2)
                                && #[trigger] self.spec_edge(x2, y) implies 0 <= y < n
                            && visited@[y] by {
                            if x2 == x as int {
                                assert(self.spec_live(x2));
                                assert(self.strucs@[x as int] is None);
                                assert(false);
                            }
                        }
                    }
                },
                Some(st) => {
                    let m = st.refs.len();
                    let mut j: usize = 0;
                    while j < m
                        invariant
                            self.spec_targets_bounded(),
                            n == self.spec_len(),
                            from < n && to < n && from != to,
                            x < n,
                            self.spec_live(x as int),
                            *st == self.spec_at(x as int),
                            m == st.refs@.len(),
                            j <= m,
                            visited@.len() == n,
                            visited@[from as int],
                            visited@[x as int],
                            !visited@[to as int],
                            0 <= count_true(visited@) <= n,
                            2 * (n - count_true(visited@)) + stack@.len() <= measure0 - 1,
                            forall|k: int|
                                0 <= k < stack@.len() ==> (#[trigger] stack@[k]) < n
                                    && visited@[stack@[k] as int],
                            forall|k: int, l: int|
                                0 <= k < l < stack@.len() ==> (#[trigger] stack@[k])
                                    != (#[trigger] stack@[l]),
                            forall|x2: int|
                                0 <= x2 < n && #[trigger] visited@[x2] ==> self.spec_reaches(
                                    from as int,
                                    x2,
                                ),
                            forall|l: int|
                                0 <= l < j ==> visited@[(#[trigger] st.refs@[l]).refed_struc as int],
                            forall|x2: int, y: int|
                                #![trigger visited@[x2], self.spec_edge(x2, y)]
                                0 <= x2 < n && visited@[x2] && !spec_lists_id(stack@, x2) && x2
                                    != x && self.spec_edge(x2, y) ==> 0 <= y < n && visited@[y],
                        decreases m - j,
                    {
                        let t = st.refs[j].refed_struc;
                        proof {
                            assert(self.spec_at(x as int).refs@[j as int].refed_struc < n);
                        }
                        if !visited[t] {
                            proof {
                                assert(self.spec_at(x as int).refs@[j as int].refed_struc as int
                                    == t as int);
                                assert(self.spec_edge(x as int, t as int));
                                self.lemma_reaches_step(from as int, x as int, t as int);
                            }
                            if t == to {
                                return true;
                            }
                            let ghost visited_before = visited@;
                            let ghost stack_before = stack@;
                            visited.set(t, true);
                            stack.push(t);
                            proof {
                                lemma_count_true_update(visited_before, t as int);
                                lemma_count_true_bounds(visited@);
                                assert forall|x2: int, y: int|
                                    0 <= x2 < n && visited@[x2] && !spec_lists_id(stack@, x2) && x2
                                        != x && #[trigger] self.spec_edge(x2, y) implies 0 <= y < n
                                    && visited@[y] by {
                                    lemma_lists_id_push(stack_before, t, x2);
                                    if x2 != t {
                                        assert(visited_before[x2]);
                                        assert(!spec_lists_id(stack_before, x2));
                                    } else {
                                        assert(spec_lists_id(stack@, t as int));
                                        assert(false);
                                    }
                                }
                            }
                        }
                        j = j + 1;
                    }
                    proof {
                        assert forall|x2: int, y: int|
                            0 <= x2 < n && visited@[x2] && !spec_lists_id(stack@, x2)
                                && #[trigger] self.spec_edge(x2, y) implies 0 <= y < n
                            && visited@[y] by {
                            if x2 == x {
                                let jj = choose|jj: int|
                                    0 <= jj < self.spec_at(x as int).refs@.len() && (
                                    #[trigger] self.spec_at(x as int).refs@[jj]).refed_struc as int
                                        == y;
                                assert(visited@[st.refs@[jj].refed_struc as int]);
                                assert(self.spec_at(x as int).refs@[jj].refed_struc < n);
                            }
                        }
                    }
                },
            }
        }
        proof {
            self.lemma_closed_set_unreached(visited@, from as int, to as int);
        }
        false
    }
}


impl Lib {
    /// Insert a cell into the library, giving it a fresh stable slot.
    ///
    /// Fails with a duplicate-name error when a cell of that name is
    /// already held, and with an unresolved-reference error when one of
    /// the cell's references aims at a slot that holds no cell.  A new
    /// cell cannot be the target of any existing reference, so insertion
    /// can never create a cycle.
    #[verifier::rlimit(100)]
    pub fn add_struc(&mut self, struc: Struc) -> (r: Result<usize, GDSIIError>)
        requires
            old(self).wf(),
        ensures
            final(self).wf(),
            final(self).spec_name() == old(self).spec_name() && final(self).spec_dbu_in_user()
                == old(self).spec_dbu_in_user() && final(self).spec_precision() == old(
                self,
            ).spec_precision() && final(self).spec_date() == old(self).spec_date(),
            r is Ok <==> ((forall|j: int|
                old(self).spec_live(j) ==> (#[trigger] old(self).spec_at(j)).name@ != struc.name@)
                && (forall|k: int|
                0 <= k < struc.refs@.len() ==> old(self).spec_live(
                    (#[trigger] struc.refs@[k]).refed_struc as int,
                ))),
            r is Ok ==> r->Ok_0 == old(self).spec_len() && final(self).spec_len() == old(self).spec_len() + 1 && final(self).spec_live(old(self).spec_len() as int) && final(self).spec_at(old(self).spec_len() as int) == struc,
            r is Ok ==> (forall|j: int|
                0 <= j < old(self).spec_len() ==> final(self).spec_live(j) == old(self).spec_live(
                    j,
                )) && (forall|j: int|
                old(self).spec_live(j) ==> final(self).spec_at(j) == old(self).spec_at(j)),
            r is Err ==> *final(self) == *old(self),
            r is Err ==> r->Err_0.kind == GdsErrorKind::DuplicateCellName || r->Err_0.kind
                == GdsErrorKind::UnresolvedReference,
            (r is Err && r->Err_0.kind == GdsErrorKind::DuplicateCellName) <==> (exists|j: int|
                old(self).spec_live(j) && (#[trigger] old(self).spec_at(j)).name@ == struc.name@),
            (r is Err && r->Err_0.kind == GdsErrorKind::UnresolvedReference) <==> ((forall|j: int|
                old(self).spec_live(j) ==> (#[trigger] old(self).spec_at(j)).name@ != struc.name@)
                && (exists|k: int|
                0 <= k < struc.refs@.len() && !old(self).spec_live(
                    (#[trigger] struc.refs@[k]).refed_struc as int,
                ))),
    {
        let n = self.strucs.len();
        let mut i: usize = 0;
        while i < n
            invariant
                old(self).wf(),
                n == self.spec_len(),
                i <= n,
                *self == *old(self),
                forall|j: int|
                    0 <= j < i && self.spec_live(j) ==> (#[trigger] self.spec_at(j)).name@
                        != struc.name@,
            decreases n - i,
        {
            match &self.strucs[i] {
                Some(st) => {
                    if names_equal(&st.name, &struc.name) {
                        proof {
                            assert(self.spec_at(i as int).name@ == struc.name@);
                        }
                        return Err(
                            GDSIIError::of_kind(
                                GdsErrorKind::DuplicateCellName,
                                "struc with this name has already existed in lib",
                            ),
                        );
                    }
                },
                None => {},
            }
            i = i + 1;
        }
        let mut k: usize = 0;
        let n_refs = struc.refs.len();
        while k < n_refs
            invariant
                old(self).wf(),
                n == self.spec_len(),
                n_refs == struc.refs@.len(),
                k <= n_refs,
                *self == *old(self),
                forall|j: int|
                    self.spec_live(j) ==> (#[trigger] self.spec_at(j)).name@ != struc.name@,
                forall|l: int|
                    0 <= l < k ==> self.spec_live((#[trigger] struc.refs@[l]).refed_struc as int),
            decreases n_refs - k,
        {
            let t = struc.refs[k].refed_struc;
            if t >= n {
                return Err(
                    GDSIIError::of_kind(
                        GdsErrorKind::UnresolvedReference,
                        "struc reference target is not a slot of this library",
                    ),
                );
            }
            match &self.strucs[t] {
                None => {
                    return Err(
                        GDSIIError::of_kind(
                            GdsErrorKind::UnresolvedReference,
                            "struc reference target cell is not in this library",
                        ),
                    );
                },
                Some(_) => {},
            }
            k = k + 1;
        }
        let ghost pre = *self;
        let id = n;
        self.strucs.push(Some(struc));
        proof {
            let u = n as int;
            let post = *self;
            assert(post.strucs@ == pre.strucs@.push(Some(struc)));
            assert forall|j: int| 0 <= j < u implies post.strucs@[j] == pre.strucs@[j] by {}
            assert(post.spec_live(u) && post.spec_at(u) == struc);
            // no edge of the new library enters the fresh slot
            assert forall|x: int| !post.spec_edge(x, u) by {
                if post.spec_edge(x, u) {
                    let j = choose|j: int|
                        0 <= j < post.spec_at(x).refs@.len() && (#[trigger] post.spec_at(
                            x,
                        ).refs@[j]).refed_struc as int == u;
                    if x == u {
                        assert(pre.spec_live(struc.refs@[j].refed_struc as int));
                        assert(false);
                    } else {
                        assert(pre.spec_live(x) && pre.spec_at(x) == post.spec_at(x));
                        assert(pre.spec_at(x).refs@[j].refed_struc < pre.spec_len());
                        assert(false);
                    }
                }
            }
            // away from the fresh slot the edges are unchanged
            assert forall|a: int, b: int| a != u implies (#[trigger] post.spec_edge(a, b)
                <==> pre.spec_edge(a, b)) by {
                if post.spec_edge(a, b) {
                    let j = choose|j: int|
                        0 <= j < post.spec_at(a).refs@.len() && (#[trigger] post.spec_at(
                            a,
                        ).refs@[j]).refed_struc as int == b;
                    assert(pre.spec_at(a).refs@[j].refed_struc as int == b);
                    assert(pre.spec_edge(a, b));
                }
                if pre.spec_edge(a, b) {
                    let j = choose|j: int|
                        0 <= j < pre.spec_at(a).refs@.len() && (#[trigger] pre.spec_at(
                            a,
                        ).refs@[j]).refed_struc as int == b;
                    assert(post.spec_at(a).refs@[j].refed_struc as int == b);
                    assert(post.spec_edge(a, b));
                }
            }
            // the arena only grew, so reference bounds still hold
            assert forall|i2: int, j: int|
                post.spec_live(i2) && 0 <= j < post.spec_at(i2).refs@.len() implies (
            #[trigger] post.spec_at(i2).refs@[j]).refed_struc < post.spec_len() by {
                if i2 == u {
                    assert(pre.spec_live(struc.refs@[j].refed_struc as int));
                } else {
                    assert(pre.spec_live(i2) && pre.spec_at(i2) == post.spec_at(i2));
                    assert(pre.spec_at(i2).refs@[j].refed_struc < pre.spec_len());
                }
            }
            // the new name was checked against every held cell
            assert forall|i2: int, j2: int|
                #![trigger post.spec_at(i2), post.spec_at(j2)]
                post.spec_live(i2) && post.spec_live(j2) && i2 != j2 implies post.spec_at(
                i2,
            ).name@ != post.spec_at(j2).name@ by {
                if i2 == u {
                    assert(pre.spec_live(j2) && pre.spec_at(j2) == post.spec_at(j2));
                    assert(pre.spec_at(j2).name@ != struc.name@);
                } else if j2 == u {
                    assert(pre.spec_live(i2) && pre.spec_at(i2) == post.spec_at(i2));
                    assert(pre.spec_at(i2).name@ != struc.name@);
                } else {
                    assert(pre.spec_live(i2) && pre.spec_live(j2));
                    assert(pre.spec_at(i2) == post.spec_at(i2) && pre.spec_at(j2) == post.spec_at(
                        j2,
                    ));
                }
            }
            // acyclicity is preserved: a cycle would need a way back
            // into the fresh slot, and nothing points there
            assert forall|a: int, b: int| #[trigger] post.spec_edge(a, b) implies !post.spec_reaches(
                b,
                a,
            ) by {
                if post.spec_reaches(b, a) {
                    let pth = choose|pth: Seq<int>|
                        post.spec_is_path(pth) && pth.first() == b && pth.last() == a;
                    assert(b != u) by {
                        if b == u {
                            assert(post.spec_edge(a, u));
                        }
                    }
                    assert forall|kk: int| 0 <= kk < pth.len() implies pth[kk] != u by {
                        if kk > 0 {
                            assert(post.spec_edge(pth[kk - 1], pth[(kk - 1) + 1]));
                            if pth[kk] == u {
                                assert(post.spec_edge(pth[kk - 1], u));
                            }
                        }
                    }
                    assert(a != u) by {
                        assert(pth[pth.len() - 1] != u);
                    }
                    assert forall|kk: int| 0 <= kk < pth.len() - 1 implies #[trigger] pre.spec_edge(
                        pth[kk],
                        pth[kk + 1],
                    ) by {
                        assert(post.spec_edge(pth[kk], pth[kk + 1]));
                        assert(pth[kk] != u);
                    }
                    assert(pre.spec_is_path(pth));
                    assert(pre.spec_reaches(b, a));
                    assert(pre.spec_edge(a, b));
                    assert(false);
                }
            }
        }
        Ok(id)
    }

    /// Add a reference to the cell in slot `id`.
    ///
    /// Fails with an unresolved-reference error when `id` or the
    /// reference's target slot holds no cell, and with a cycle error
    /// when the target already reaches `id` — including a reference of a
    /// cell to itself.
    #[verifier::rlimit(100)]
    pub fn add_ref(&mut self, id: usize, refer: Ref) -> (r: Result<(), GDSIIError>)
        requires
            old(self).wf(),
        ensures
            final(self).wf(),
            final(self).spec_name() == old(self).spec_name() && final(self).spec_dbu_in_user()
                == old(self).spec_dbu_in_user() && final(self).spec_precision() == old(
                self,
            ).spec_precision() && final(self).spec_date() == old(self).spec_date(),
            r is Ok <==> (old(self).spec_live(id as int) && old(self).spec_live(
                refer.refed_struc as int,
            ) && !old(self).spec_reaches(refer.refed_struc as int, id as int)),
            r is Ok ==> final(self).spec_len() == old(self).spec_len() && (forall|j: int|
                0 <= j < old(self).spec_len() ==> final(self).spec_live(j) == old(self).spec_live(
                    j,
                )) && (forall|j: int|
                old(self).spec_live(j) && j != id ==> final(self).spec_at(j) == old(self).spec_at(
                    j,
                )),
            r is Ok ==> final(self).spec_at(id as int).refs@ == old(self).spec_at(
                id as int,
            ).refs@.push(refer) && final(self).spec_at(id as int).name@ == old(self).spec_at(
                id as int,
            ).name@ && final(self).spec_at(id as int).polygons@ == old(self).spec_at(
                id as int,
            ).polygons@ && final(self).spec_at(id as int).paths@ == old(self).spec_at(
                id as int,
            ).paths@ && final(self).spec_at(id as int).label@ == old(self).spec_at(
                id as int,
            ).label@ && final(self).spec_at(id as int).date == old(self).spec_at(id as int).date,
            r is Err ==> *final(self) == *old(self),
            r is Err ==> r->Err_0.kind == GdsErrorKind::UnresolvedReference || r->Err_0.kind
                == GdsErrorKind::CycleDetected,
            (r is Err && r->Err_0.kind == GdsErrorKind::UnresolvedReference) <==> (!old(
                self,
            ).spec_live(id as int) || !old(self).spec_live(refer.refed_struc as int)),
            (r is Err && r->Err_0.kind == GdsErrorKind::CycleDetected) <==> (old(self).spec_live(
                id as int,
            ) && old(self).spec_live(refer.refed_struc as int) && old(self).spec_reaches(
                refer.refed_struc as int,
                id as int,
            )),
    {
        let n = self.strucs.len();
        if id >= n {
            return Err(
                GDSIIError::of_kind(
                    GdsErrorKind::UnresolvedReference,
                    "no cell with this identifier is in the library",
                ),
            );
        }
        match &self.strucs[id] {
            None => {
                return Err(
                    GDSIIError::of_kind(
                        GdsErrorKind::UnresolvedReference,
                        "no cell with this identifier is in the library",
                    ),
                );
            },
            Some(_) => {},
        }
        let t = refer.refed_struc;
        if t >= n {
            return Err(
                GDSIIError::of_kind(
                    GdsErrorKind::UnresolvedReference,
                    "reference target is not a slot of this library",
                ),
            );
        }
        match &self.strucs[t] {
            None => {
                return Err(
                    GDSIIError::of_kind(
                        GdsErrorKind::UnresolvedReference,
                        "reference target cell is not in this library",
                    ),
                );
            },
            Some(_) => {},
        }
        if self.reaches(t, id) {
            return Err(GDSIIError::of_kind(GdsErrorKind::CycleDetected, "circle refer found"));
        }
        let ghost pre = *self;
        let slot = &mut self.strucs[id];
        match slot {
            Some(st) => {
                st.refs.push(refer);
            },
            None => {
                proof {
                    assert(false);
                }
            },
        }
        proof {
            let u = id as int;
            let v = t as int;
            let post = *self;
            assert(post.strucs@[u] is Some);
            assert(post.spec_at(u).refs@ == pre.spec_at(u).refs@.push(refer));
            assert forall|j: int| 0 <= j < post.strucs@.len() && j != u implies post.strucs@[j]
                == pre.strucs@[j] by {}
            // the edge relation gains exactly the one new edge
            assert forall|a: int, b: int|
                #![trigger post.spec_edge(a, b)]
                #![trigger pre.spec_edge(a, b)]
                post.spec_edge(a, b) <==> (pre.spec_edge(a, b) || (a == u && b == v)) by {
                if post.spec_edge(a, b) {
                    let j = choose|j: int|
                        0 <= j < post.spec_at(a).refs@.len() && (#[trigger] post.spec_at(
                            a,
                        ).refs@[j]).refed_struc as int == b;
                    if a == u {
                        if j < pre.spec_at(a).refs@.len() {
                            assert(pre.spec_at(a).refs@[j].refed_struc as int == b);
                            assert(pre.spec_edge(a, b));
                        } else {
                            assert(post.spec_at(a).refs@[j] == refer);
                        }
                    } else {
                        assert(pre.spec_at(a).refs@[j].refed_struc as int == b);
                        assert(pre.spec_edge(a, b));
                    }
                }
                if pre.spec_edge(a, b) {
                    let j = choose|j: int|
                        0 <= j < pre.spec_at(a).refs@.len() && (#[trigger] pre.spec_at(
                            a,
                        ).refs@[j]).refed_struc as int == b;
                    assert(post.spec_at(a).refs@[j].refed_struc as int == b);
                    assert(post.spec_edge(a, b));
                }
                if a == u && b == v {
                    let j = pre.spec_at(u).refs@.len() as int;
                    assert(post.spec_at(u).refs@[j] == refer);
                    assert(post.spec_at(u).refs@[j].refed_struc as int == v);
                    assert(post.spec_edge(a, b));
                }
            }
            // bounds: the one new reference aims inside the arena
            assert forall|i2: int, j: int|
                post.spec_live(i2) && 0 <= j < post.spec_at(i2).refs@.len() implies (
            #[trigger] post.spec_at(i2).refs@[j]).refed_struc < post.spec_len() by {
                if i2 == u && j == pre.spec_at(u).refs@.len() {
                    assert(post.spec_at(i2).refs@[j] == refer);
                } else {
                    assert(pre.spec_live(i2));
                    assert(pre.spec_at(i2).refs@[j] == post.spec_at(i2).refs@[j]);
                    assert(pre.spec_at(i2).refs@[j].refed_struc < pre.spec_len());
                }
            }
            // names did not change
            assert forall|i2: int, j2: int|
                #![trigger post.spec_at(i2), post.spec_at(j2)]
                post.spec_live(i2) && post.spec_live(j2) && i2 != j2 implies post.spec_at(
                i2,
            ).name@ != post.spec_at(j2).name@ by {
                assert(pre.spec_live(i2) && pre.spec_live(j2));
                assert(post.spec_at(i2).name@ == pre.spec_at(i2).name@);
                assert(post.spec_at(j2).name@ == pre.spec_at(j2).name@);
            }
            // acyclicity: any closing walk would decompose into old
            // walks that together reach the new edge's source from its
            // target, which the check refused
            assert forall|a: int, b: int| #[trigger] post.spec_edge(a, b) implies !post.spec_reaches(
                b,
                a,
            ) by {
                if post.spec_reaches(b, a) {
                    let pth = choose|pth: Seq<int>|
                        post.spec_is_path(pth) && pth.first() == b && pth.last() == a;
                    lemma_reach_decompose(&pre, &post, u, v, pth);
                    if pre.spec_reaches(b, a) {
                        if pre.spec_edge(a, b) {
                            assert(false);
                        } else {
                            assert(a == u && b == v);
                            assert(false);
                        }
                    } else {
                        assert(pre.spec_reaches(b, u) && pre.spec_reaches(v, a));
                        if pre.spec_edge(a, b) {
                            pre.lemma_reaches_step(v, a, b);
                            pre.lemma_reaches_trans(v, b, u);
                            assert(false);
                        } else {
                            assert(a == u && b == v);
                            assert(false);
                        }
                    }
                }
            }
        }
        Ok(())
    }

    /// Remove the cell in slot `id` from the library; the slot stays
    /// empty forever.  References of other cells to the removed cell
    /// become dangling and are reported on a later serialization.
    pub fn remove_struc(&mut self, id: usize)
        requires
            old(self).wf(),
        ensures
            final(self).wf(),
            final(self).spec_name() == old(self).spec_name() && final(self).spec_dbu_in_user()
                == old(self).spec_dbu_in_user() && final(self).spec_precision() == old(
                self,
            ).spec_precision() && final(self).spec_date() == old(self).spec_date(),
            final(self).spec_len() == old(self).spec_len(),
            !final(self).spec_live(id as int),
            forall|j: int|
                0 <= j < final(self).spec_len() && j != id ==> final(self).spec_live(j) == old(self).spec_live(j),
            forall|j: int|
                old(self).spec_live(j) && j != id ==> final(self).spec_at(j) == old(self).spec_at(
                    j,
                ),
    {
        let n = self.strucs.len();
        if id >= n {
            return ;
        }
        let ghost pre = *self;
        self.strucs.set(id, None);
        proof {
            let post = *self;
            assert forall|i2: int, j: int|
                post.spec_live(i2) && 0 <= j < post.spec_at(i2).refs@.len() implies (
            #[trigger] post.spec_at(i2).refs@[j]).refed_struc < post.spec_len() by {
                assert(i2 != id);
                assert(pre.spec_live(i2) && pre.spec_at(i2) == post.spec_at(i2));
                assert(pre.spec_at(i2).refs@[j].refed_struc < pre.spec_len());
            }
            assert forall|i2: int, j2: int|
                #![trigger post.spec_at(i2), post.spec_at(j2)]
                post.spec_live(i2) && post.spec_live(j2) && i2 != j2 implies post.spec_at(
                i2,
            ).name@ != post.spec_at(j2).name@ by {
                assert(pre.spec_live(i2) && pre.spec_live(j2));
                assert(pre.spec_at(i2) == post.spec_at(i2) && pre.spec_at(j2) == post.spec_at(j2));
            }
            assert forall|a: int, b: int| #[trigger] post.spec_edge(a, b) implies pre.spec_edge(
                a,
                b,
            ) by {
                let j = choose|j: int|
                    0 <= j < post.spec_at(a).refs@.len() && (#[trigger] post.spec_at(
                        a,
                    ).refs@[j]).refed_struc as int == b;
                assert(a != id);
                assert(pre.spec_at(a).refs@[j].refed_struc as int == b);
            }
            assert forall|a: int, b: int| #[trigger] post.spec_edge(a, b) implies !post.spec_reaches(
                b,
                a,
            ) by {
                if post.spec_reaches(b, a) {
                    let pth = choose|pth: Seq<int>|
                        post.spec_is_path(pth) && pth.first() == b && pth.last() == a;
                    assert forall|kk: int| 0 <= kk < pth.len() - 1 implies #[trigger] pre.spec_edge(
                        pth[kk],
                        pth[kk + 1],
                    ) by {
                        assert(post.spec_edge(pth[kk], pth[kk + 1]));
                    }
                    assert(pre.spec_is_path(pth));
                    assert(pre.spec_reaches(b, a));
                    assert(pre.spec_edge(a, b));
                    assert(false);
                }
            }
        }
    }
}


impl Lib {
    /// A new empty library with the given name, default micron units
    /// and the current date.
    pub fn new(libname: &str) -> (r: Lib)
        ensures
            r.wf(),
            forall|i: int| !r.spec_live(i),
            r.spec_name() == libname.spec_bytes(),
            r.spec_dbu_in_user() == (GdsReal { neg: false, exp: 0x3E, mant: 0x41_89_37_4B_C6_A7_F0 }),
            r.spec_precision() == (GdsReal { neg: false, exp: 0x39, mant: 0x44_B8_2F_A0_9B_5A_54 }),
            r.spec_len() == 0,
    {
        Lib {
            name: libname.as_bytes_vec(),
            dbu_in_user: GdsReal::milli(),
            precision: GdsReal::nano(),
            date: Date::now(),
            strucs: Vec::new(),
        }
    }

    /// A new empty library built from already-decoded attributes.
    pub fn from_parts(name: Vec<u8>, dbu_in_user: GdsReal, precision: GdsReal, date: Date) -> (r:
        Lib)
        ensures
            r.wf(),
            forall|i: int| !r.spec_live(i),
            r.spec_name() == name@,
            r.spec_dbu_in_user() == dbu_in_user,
            r.spec_precision() == precision,
            r.spec_date() == date,
            r.spec_len() == 0,
    {
        Lib { name, dbu_in_user, precision, date, strucs: Vec::new() }
    }

    /// The cell in a slot, if the slot is occupied.
    pub fn struc(&self, id: usize) -> (r: Option<&Struc>)
        ensures
            r is Some <==> self.spec_live(id as int),
            r is Some ==> *r->Some_0 == self.spec_at(id as int),
    {
        if id >= self.strucs.len() {
            return None;
        }
        match &self.strucs[id] {
            Some(st) => Some(st),
            None => None,
        }
    }

    /// The identifiers of all cells of the library, in slot order.
    pub fn all_strucs(&self) -> (r: Vec<usize>)
        ensures
            forall|k: int| 0 <= k < r@.len() ==> self.spec_live((#[trigger] r@[k]) as int),
            forall|i: int| self.spec_live(i) ==> spec_lists_id(r@, i),
            forall|k: int, l: int| 0 <= k < l < r@.len() ==> (#[trigger] r@[k]) < (#[trigger] r@[l]),
    {
        let n = self.strucs.len();
        let mut out: Vec<usize> = Vec::new();
        let mut i: usize = 0;
        while i < n
            invariant
                n == self.spec_len(),
                i <= n,
                forall|k: int| 0 <= k < out@.len() ==> self.spec_live((#[trigger] out@[k]) as int),
                forall|k: int| 0 <= k < out@.len() ==> (#[trigger] out@[k]) < i,
                forall|j: int| 0 <= j < i && self.spec_live(j) ==> spec_lists_id(out@, j),
                forall|k: int, l: int|
                    0 <= k < l < out@.len() ==> (#[trigger] out@[k]) < (#[trigger] out@[l]),
            decreases n - i,
        {
            let ghost before = out@;
            match &self.strucs[i] {
                Some(_) => {
                    out.push(i);
                    proof {
                        assert forall|j: int|
                            0 <= j < i + 1 && self.spec_live(j) implies spec_lists_id(out@, j) by {
                            lemma_lists_id_push(before, i, j);
                        }
                    }
                },
                None => {},
            }
            i = i + 1;
        }
        proof {
            assert forall|i2: int| self.spec_live(i2) implies spec_lists_id(out@, i2) by {}
        }
        out
    }

    /// The identifiers of the top cells: those no reference of any cell
    /// aims at, the roots of the hierarchy.
    #[verifier::rlimit(100)]
    pub fn top_strucs(&self) -> (r: Vec<usize>)
        requires
            self.wf(),
        ensures
            forall|k: int| 0 <= k < r@.len() ==> self.spec_is_top((#[trigger] r@[k]) as int),
            forall|i: int| self.spec_is_top(i) ==> spec_lists_id(r@, i),
            forall|k: int, l: int| 0 <= k < l < r@.len() ==> (#[trigger] r@[k]) < (#[trigger] r@[l]),
    {
        let n = self.strucs.len();
        let mut incoming: Vec<bool> = vec![false; n];
        let mut i: usize = 0;
        while i < n
            invariant
                self.wf(),
                n == self.spec_len(),
                i <= n,
                incoming@.len() == n,
                forall|x: int|
                    0 <= x < n ==> ((#[trigger] incoming@[x]) <==> (exists|a: int|
                        0 <= a < i && #[trigger] self.spec_edge(a, x))),
            decreases n - i,
        {
            match &self.strucs[i] {
                Some(st) => {
                    let m = st.refs.len();
                    let mut j: usize = 0;
                    while j < m
                        invariant
                            self.wf(),
                            n == self.spec_len(),
                            i < n,
                            self.spec_live(i as int),
                            *st == self.spec_at(i as int),
                            m == st.refs@.len(),
                            j <= m,
                            incoming@.len() == n,
                            forall|x: int|
                                0 <= x < n ==> ((#[trigger] incoming@[x]) <==> ((exists|a: int|
                                    0 <= a < i && #[trigger] self.spec_edge(a, x)) || (exists|
                                    j2: int,
                                |
                                    0 <= j2 < j && (#[trigger] st.refs@[j2]).refed_struc as int
                                        == x))),
                        decreases m - j,
                    {
                        let t = st.refs[j].refed_struc;
                        proof {
                            assert(self.spec_at(i as int).refs@[j as int].refed_struc < n);
                        }
                        let ghost before = incoming@;
                        incoming.set(t, true);
                        proof {
                            assert forall|x: int| 0 <= x < n implies ((#[trigger] incoming@[x])
                                <==> ((exists|a: int| 0 <= a < i && #[trigger] self.spec_edge(a, x))
                                || (exists|j2: int|
                                0 <= j2 < j + 1 && (#[trigger] st.refs@[j2]).refed_struc as int
                                    == x))) by {
                                if x == t as int {
                                    assert(st.refs@[j as int].refed_struc as int == x);
                                } else {
                                    assert(incoming@[x] == before[x]);
                                    if exists|j2: int|
                                        0 <= j2 < j + 1 && (#[trigger] st.refs@[j2]).refed_struc as int
                                            == x {
                                        let j2 = choose|j2: int|
                                            0 <= j2 < j + 1 && (#[trigger] st.refs@[j2]).refed_struc as int
                                                == x;
                                        assert(j2 < j);
                                    }
                                }
                            }
                        }
                        j = j + 1;
                    }
                    proof {
                        assert forall|x: int| 0 <= x < n implies ((#[trigger] incoming@[x]) <==> (
                        exists|a: int|
                            0 <= a < i + 1 && #[trigger] self.spec_edge(a, x))) by {
                            if incoming@[x] {
                                if exists|a: int| 0 <= a < i && #[trigger] self.spec_edge(a, x) {
                                } else {
                                    let j2 = choose|j2: int|
                                        0 <= j2 < m && (#[trigger] st.refs@[j2]).refed_struc as int
                                            == x;
                                    assert(self.spec_at(i as int).refs@[j2].refed_struc as int
                                        == x);
                                    assert(self.spec_edge(i as int, x));
                                }
                            } else {
                                if exists|a: int| 0 <= a < i + 1 && #[trigger] self.spec_edge(a, x) {
                                    let a = choose|a: int|
                                        0 <= a < i + 1 && #[trigger] self.spec_edge(a, x);
                                    if a == i as int {
                                        let j2 = choose|j2: int|
                                            0 <= j2 < self.spec_at(a).refs@.len() && (
                                            #[trigger] self.spec_at(a).refs@[j2]).refed_struc as int
                                                == x;
                                        assert(st.refs@[j2].refed_struc as int == x);
                                        assert(false);
                                    } else {
                                        assert(false);
                                    }
                                }
                            }
                        }
                    }
                },
                None => {
                    proof {
                        assert forall|x: int| 0 <= x < n implies ((#[trigger] incoming@[x]) <==> (
                        exists|a: int|
                            0 <= a < i + 1 && #[trigger] self.spec_edge(a, x))) by {
                            if !incoming@[x] {
                                if exists|a: int| 0 <= a < i + 1 && #[trigger] self.spec_edge(a, x) {
                                    let a = choose|a: int|
                                        0 <= a < i + 1 && #[trigger] self.spec_edge(a, x);
                                    if a == i as int {
                                        assert(self.spec_live(a));
                                        assert(false);
                                    }
                                }
                            }
                        }
                    }
                },
            }
            i = i + 1;
        }
        let mut out: Vec<usize> = Vec::new();
        let mut i: usize = 0;
        while i < n
            invariant
                self.wf(),
                n == self.spec_len(),
                i <= n,
                incoming@.len() == n,
                forall|x: int|
                    0 <= x < n ==> ((#[trigger] incoming@[x]) <==> (exists|a: int|
                        0 <= a < n && #[trigger] self.spec_edge(a, x))),
                forall|k: int| 0 <= k < out@.len() ==> self.spec_is_top((#[trigger] out@[k]) as int),
                forall|k: int| 0 <= k < out@.len() ==> (#[trigger] out@[k]) < i,
                forall|j: int| 0 <= j < i && self.spec_is_top(j) ==> spec_lists_id(out@, j),
                forall|k: int, l: int|
                    0 <= k < l < out@.len() ==> (#[trigger] out@[k]) < (#[trigger] out@[l]),
            decreases n - i,
        {
            let ghost before = out@;
            let mut keep = false;
            match &self.strucs[i] {
                Some(_) => {
                    if !incoming[i] {
                        keep = true;
                    }
                },
                None => {},
            }
            if keep {
                proof {
                    assert forall|a: int| !self.spec_edge(a, i as int) by {
                        if self.spec_edge(a, i as int) {
                            assert(self.spec_live(a));
                            assert(0 <= a < n);
                        }
                    }
                    assert(self.spec_is_top(i as int));
                }
                out.push(i);
                proof {
                    assert forall|j: int|
                        0 <= j < i + 1 && self.spec_is_top(j) implies spec_lists_id(out@, j) by {
                        lemma_lists_id_push(before, i, j);
                    }
                }
            } else {
                proof {
                    assert(!self.spec_is_top(i as int)) by {
                        if self.spec_is_top(i as int) {
                            assert(self.spec_live(i as int));
                            assert(incoming@[i as int]);
                            let a = choose|a: int| 0 <= a < n && #[trigger] self.spec_edge(a, i as int);
                            assert(false);
                        }
                    }
                }
            }
            i = i + 1;
        }
        proof {
            assert forall|i2: int| self.spec_is_top(i2) implies spec_lists_id(out@, i2) by {
                assert(self.spec_live(i2));
            }
        }
        out
    }

    /// The identifiers of the top cells; alias of `top_strucs`.
    pub fn top_cells(&self) -> (r: Vec<usize>)
        requires
            self.wf(),
        ensures
            forall|k: int| 0 <= k < r@.len() ==> self.spec_is_top((#[trigger] r@[k]) as int),
            forall|i: int| self.spec_is_top(i) ==> spec_lists_id(r@, i),
            forall|k: int, l: int| 0 <= k < l < r@.len() ==> (#[trigger] r@[k]) < (#[trigger] r@[l]),
    {
        self.top_strucs()
    }
}

impl Default for Lib {
    /// An empty library with an empty name, default micron units and
    /// all-zero dates.
    fn default() -> (r: Lib)
        ensures
            r.wf(),
            forall|i: int| !r.spec_live(i),
            r.spec_name() == Seq::<u8>::empty(),
            r.spec_dbu_in_user() == (GdsReal { neg: false, exp: 0x3E, mant: 0x41_89_37_4B_C6_A7_F0 }),
            r.spec_precision() == (GdsReal { neg: false, exp: 0x39, mant: 0x44_B8_2F_A0_9B_5A_54 }),
            r.spec_len() == 0,
    {
        let r = Lib {
            name: Vec::new(),
            dbu_in_user: GdsReal::milli(),
            precision: GdsReal::nano(),
            date: Date::new(),
            strucs: Vec::new(),
        };
        proof {
            assert(r.name@ =~= Seq::<u8>::empty());
        }
        r
    }
}


impl Lib {
    /// The name of each slot: the cell's name where the slot is
    /// occupied, nothing where it is free.
    pub closed spec fn spec_name_table(&self) -> Seq<Option<Vec<u8>>> {
        Seq::new(
            self.spec_len(),
            |j: int|
                if self.spec_live(j) {
                    Some(self.spec_at(j).name)
                } else {
                    None
                },
        )
    }

    /// What the writer accepts: an ASCII library name that fits one
    /// record, well-formed unit reals, and every held cell acceptable
    /// with all its references resolvable.
    pub open spec fn spec_lib_valid(&self) -> bool {
        &&& spec_ascii_ok(self.spec_name())
        &&& self.spec_name().len() <= 65530
        &&& self.spec_dbu_in_user().wf()
        &&& self.spec_precision().wf()
        &&& forall|i: int|
            self.spec_live(i) ==> (#[trigger] self.spec_at(i)).spec_valid(self.spec_name_table())
    }

    /// The bytes of the cells in the first `i` slots, occupied slots
    /// only, in slot order.
    pub open spec fn spec_cells_bytes_upto(&self, i: int) -> Seq<u8>
        decreases i,
    {
        if i <= 0 {
            Seq::empty()
        } else {
            self.spec_cells_bytes_upto(i - 1) + (if self.spec_live(i - 1) {
                self.spec_at(i - 1).spec_bytes(self.spec_name_table())
            } else {
                Seq::empty()
            })
        }
    }

    /// The whole stream: HEADER, BGNLIB with the date, LIBNAME, UNITS,
    /// every cell, ENDLIB.
    pub open spec fn spec_bytes(&self) -> Seq<u8> {
        spec_record_bytes(HEADER, spec_i16_bytes(GDS_VERSION as int)) + spec_record_bytes(
            BGNLIB,
            spec_date_bytes(self.spec_date()),
        ) + spec_record_bytes(LIBNAME, spec_pad_even(self.spec_name())) + spec_record_bytes(
            UNITS,
            spec_real_bytes(self.spec_dbu_in_user()) + spec_real_bytes(self.spec_precision()),
        ) + self.spec_cells_bytes_upto(self.spec_len() as int) + spec_record_bytes(
            ENDLIB,
            Seq::empty(),
        )
    }

    /// Serialize the whole library.  Fails exactly when the library
    /// name, a unit real, a cell or one of its references is
    /// unacceptable to the writer.
    #[verifier::rlimit(100)]
    pub fn to_gds(&self) -> (r: Result<Vec<u8>, GDSIIError>)
        ensures
            r is Ok <==> self.spec_lib_valid(),
            r is Ok ==> r->Ok_0@ == self.spec_bytes(),
            r is Err ==> r->Err_0.kind == GdsErrorKind::NameConstraint || r->Err_0.kind
                == GdsErrorKind::InvalidFloat || r->Err_0.kind == GdsErrorKind::CoordinateOverflow
                || r->Err_0.kind == GdsErrorKind::UnresolvedReference,
    {
        if !is_ascii_bytes(self.name.as_slice()) {
            return Err(
                GDSIIError::of_kind(
                    GdsErrorKind::NameConstraint,
                    "Gds library name contains char not in ascii charset",
                ),
            );
        }
        if self.name.len() > 65530 {
            return Err(
                GDSIIError::of_kind(GdsErrorKind::NameConstraint, "Gds library name is too long"),
            );
        }
        if self.dbu_in_user.exp >= 128 || self.dbu_in_user.mant >= 0x100_0000_0000_0000
            || self.precision.exp >= 128 || self.precision.mant >= 0x100_0000_0000_0000 {
            return Err(
                GDSIIError::of_kind(
                    GdsErrorKind::InvalidFloat,
                    "Gds library units do not fit the eight byte format",
                ),
            );
        }
        let n = self.strucs.len();
        let mut names: NameTable = Vec::new();
        let mut i: usize = 0;
        while i < n
            invariant
                n == self.spec_len(),
                i <= n,
                names@.len() == i,
                forall|j: int|
                    0 <= j < i ==> (((#[trigger] names@[j]) is Some <==> self.spec_live(j)) && (
                    self.spec_live(j) ==> names@[j]->Some_0@ == self.spec_at(j).name@)),
            decreases n - i,
        {
            match &self.strucs[i] {
                Some(st) => {
                    names.push(Some(st.name.clone()));
                },
                None => {
                    names.push(None);
                },
            }
            i = i + 1;
        }
        proof {
            assert(self.spec_name_table().len() == names@.len());
            assert forall|j: int| 0 <= j < names@.len() implies (((#[trigger] names@[j]) is Some
                <==> self.spec_name_table()[j] is Some) && (names@[j] is Some ==> names@[j]->Some_0@
                == self.spec_name_table()[j]->Some_0@)) by {}
        }
        let none: Vec<u8> = Vec::new();
        let mut data: Vec<u8> = Vec::new();
        let mut version_payload: Vec<u8> = Vec::new();
        push_i16_be(&mut version_payload, GDS_VERSION);
        emit_record(&mut data, HEADER, version_payload.as_slice());
        let date_payload = self.date.to_gds();
        emit_record(&mut data, BGNLIB, date_payload.as_slice());
        let mut name_payload = self.name.clone();
        pad_even(&mut name_payload);
        emit_record(&mut data, LIBNAME, name_payload.as_slice());
        let mut units_payload: Vec<u8> = Vec::new();
        encode_real(self.dbu_in_user, &mut units_payload);
        encode_real(self.precision, &mut units_payload);
        emit_record(&mut data, UNITS, units_payload.as_slice());
        let ghost head = data@;
        let mut i: usize = 0;
        while i < n
            invariant
                n == self.spec_len(),
                i <= n,
                names@.len() == n,
                forall|j: int|
                    0 <= j < n ==> (((#[trigger] names@[j]) is Some <==> self.spec_name_table()[j] is Some)
                        && (names@[j] is Some ==> names@[j]->Some_0@
                        == self.spec_name_table()[j]->Some_0@)),
                data@ == head + self.spec_cells_bytes_upto(i as int),
                forall|j: int|
                    0 <= j < i && self.spec_live(j) ==> (#[trigger] self.spec_at(j)).spec_valid(
                        self.spec_name_table(),
                    ),
            decreases n - i,
        {
            match &self.strucs[i] {
                Some(st) => {
                    proof {
                        crate::gds_model::struc::lemma_struc_table_congruence(
                            st,
                            names@,
                            self.spec_name_table(),
                        );
                    }
                    let piece = match st.to_gds(&names) {
                        Ok(v) => v,
                        Err(e) => {
                            return Err(e);
                        },
                    };
                    data.extend_from_slice(piece.as_slice());
                    proof {
                        assert(piece@ == self.spec_at(i as int).spec_bytes(self.spec_name_table()));
                        assert(data@ =~= head + self.spec_cells_bytes_upto(i as int + 1));
                    }
                },
                None => {
                    proof {
                        assert(data@ =~= head + self.spec_cells_bytes_upto(i as int + 1));
                    }
                },
            }
            i = i + 1;
        }
        emit_record(&mut data, ENDLIB, none.as_slice());
        proof {
            assert(data@ =~= self.spec_bytes());
        }
        Ok(data)
    }

    /// Serialize the whole library; alias of `to_gds`.
    pub fn gds_bytes(&self) -> (r: Result<Vec<u8>, GDSIIError>)
        ensures
            r is Ok <==> self.spec_lib_valid(),
            r is Ok ==> r->Ok_0@ == self.spec_bytes(),
            r is Err ==> r->Err_0.kind == GdsErrorKind::NameConstraint || r->Err_0.kind
                == GdsErrorKind::InvalidFloat || r->Err_0.kind == GdsErrorKind::CoordinateOverflow
                || r->Err_0.kind == GdsErrorKind::UnresolvedReference,
    {
        self.to_gds()
    }
}

impl Lib {
    /// The format invariant, stated on its own: in a well-formed
    /// library the cell reference graph is a directed acyclic graph.
    pub proof fn lemma_wf_acyclic(&self)
        requires
            self.wf(),
        ensures
            self.spec_acyclic(),
    {
    }

    /// The format invariant, stated on its own: in a well-formed
    /// library no two cells share a name.
    pub proof fn lemma_wf_names_unique(&self)
        requires
            self.wf(),
        ensures
            self.spec_names_unique(),
    {
    }
}

} // verus!
